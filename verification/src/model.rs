use vstd::prelude::*;
use crate::boids::{all_wf, are_wf, Boid, BoidType};
use crate::bounds::Bounds;
use crate::cursor::CursorMode;
use crate::fixed::LIMIT;
use crate::flock::{all_newly_placed, Flock};
use crate::theme::{Colour, Theme};

verus! {

/// What is set for one kind of boid, and how many of it are asked for.
#[derive(Clone, Copy, Debug, PartialEq, Eq, Structural)]
pub struct BoidOptions {
    pub boid_type: BoidType,
    pub starting_velocity: i64,
    pub colour: Colour,
    pub min_speed: i64,
    pub max_speed: i64,
    /// How many boids of the kind there were when the count was last adjusted.
    pub flock_size: usize,
    /// How many boids to add, or to remove where negative, at the next tick.
    pub n_mod: i32,
}

/// The whole state of the simulation.
pub struct Model {
    pub boid_options: BoidOptions,
    pub predator_options: BoidOptions,
    pub cursor_mode: CursorMode,
    pub show_text: bool,
    pub theme: Theme,
    pub flock: Vec<Boid>,
    pub predators: Vec<Boid>,
    pub alignment_modifier: i64,
    pub cohesion_modifier: i64,
    pub separation_modifier: i64,
    pub max_force: i64,
}

/// `after` is `before` with one boid more at its end, newly placed.
pub open spec fn grown_by_one(
    before: Seq<Boid>,
    after: Seq<Boid>,
    bounds: Bounds,
    boid_type: BoidType,
) -> bool {
    &&& after.len() == before.len() + 1
    &&& after.drop_last() == before
    &&& after.last().newly_placed(bounds, boid_type)
}

impl Model {
    /// Every boid is well formed, each set of options is for its own kind,
    /// and the modifiers lie in the coordinate range.
    pub open spec fn wf(self) -> bool {
        &&& all_wf(self.flock@)
        &&& all_wf(self.predators@)
        &&& self.boid_options.boid_type == BoidType::Prey
        &&& self.predator_options.boid_type == BoidType::Predator
        &&& -LIMIT <= self.alignment_modifier <= LIMIT
        &&& -LIMIT <= self.cohesion_modifier <= LIMIT
        &&& -LIMIT <= self.separation_modifier <= LIMIT
    }

    /// Whether the model is well formed.
    pub fn is_wf(&self) -> (r: bool)
        ensures
            r == self.wf(),
    {
        are_wf(&self.flock) && are_wf(&self.predators) && self.boid_options.boid_type
            == BoidType::Prey && self.predator_options.boid_type == BoidType::Predator && -LIMIT
            <= self.alignment_modifier && self.alignment_modifier <= LIMIT && -LIMIT
            <= self.cohesion_modifier && self.cohesion_modifier <= LIMIT && -LIMIT
            <= self.separation_modifier && self.separation_modifier <= LIMIT
    }

    /// The two models differ at most in their boids and in the options.
    pub open spec fn same_settings(self, o: Model) -> bool {
        &&& self.cursor_mode == o.cursor_mode
        &&& self.show_text == o.show_text
        &&& self.theme == o.theme
        &&& self.alignment_modifier == o.alignment_modifier
        &&& self.cohesion_modifier == o.cohesion_modifier
        &&& self.separation_modifier == o.separation_modifier
        &&& self.max_force == o.max_force
    }

    /// Adds one new boid of the given kind, somewhere in the window, at the
    /// end of the collection of its kind.
    pub fn add_boid(&mut self, bounds: Bounds, boid_type: BoidType)
        requires
            bounds.wf(),
        ensures
            final(self).same_settings(*old(self)),
            final(self).boid_options == old(self).boid_options,
            final(self).predator_options == old(self).predator_options,
            boid_type == BoidType::Prey ==> final(self).predators@ == old(self).predators@
                && grown_by_one(old(self).flock@, final(self).flock@, bounds, boid_type),
            boid_type == BoidType::Predator ==> final(self).flock@ == old(self).flock@
                && grown_by_one(old(self).predators@, final(self).predators@, bounds, boid_type),
            old(self).wf() ==> final(self).wf(),
    {
        let boid: Boid = Boid::place(&bounds, boid_type);
        match boid_type {
            BoidType::Prey => {
                self.flock.push(boid);
                assert(self.flock@.drop_last() =~= old(self).flock@);
            },
            BoidType::Predator => {
                self.predators.push(boid);
                assert(self.predators@.drop_last() =~= old(self).predators@);
            },
        }
    }

    /// Removes the last boid of the given kind, if there is one.
    pub fn remove_boid(&mut self, boid_type: BoidType)
        ensures
            final(self).same_settings(*old(self)),
            final(self).boid_options == old(self).boid_options,
            final(self).predator_options == old(self).predator_options,
            final(self).flock@ == if boid_type == BoidType::Prey && old(self).flock@.len() > 0 {
                old(self).flock@.drop_last()
            } else {
                old(self).flock@
            },
            final(self).predators@ == if boid_type == BoidType::Predator
                && old(self).predators@.len() > 0 {
                old(self).predators@.drop_last()
            } else {
                old(self).predators@
            },
            old(self).wf() ==> final(self).wf(),
    {
        match boid_type {
            BoidType::Prey => {
                self.flock.pop();
            },
            BoidType::Predator => {
                self.predators.pop();
            },
        }
    }
}

/// The model at the start: a hundred prey and one predator somewhere in the
/// window, the pointer ignored, the text shown, the normal theme, alignment
/// and cohesion at a quarter and separation at three quarters.
pub fn model(bounds: Bounds) -> (m: Model)
    requires
        bounds.wf(),
    ensures
        m.wf(),
        m.cursor_mode == CursorMode::Ignore,
        m.show_text,
        m.theme == Theme::Normal,
        m.alignment_modifier == 250,
        m.cohesion_modifier == 250,
        m.separation_modifier == 750,
        m.max_force == 200,
        m.boid_options == (BoidOptions {
            boid_type: BoidType::Prey,
            starting_velocity: 1_000,
            colour: Colour { r: 0, g: 0, b: 0 },
            min_speed: 1_000,
            max_speed: 3_000,
            flock_size: 100,
            n_mod: 0,
        }),
        m.predator_options == (BoidOptions {
            boid_type: BoidType::Predator,
            starting_velocity: 1_500,
            colour: Colour { r: 255, g: 0, b: 0 },
            min_speed: 1_000,
            max_speed: 3_500,
            flock_size: 1,
            n_mod: 0,
        }),
        m.flock@.len() == 100,
        m.predators@.len() == 1,
        all_newly_placed(m.flock@, bounds, BoidType::Prey),
        all_newly_placed(m.predators@, bounds, BoidType::Predator),
{
    let boid_options = BoidOptions {
        boid_type: BoidType::Prey,
        starting_velocity: 1_000,
        colour: Colour { r: 0, g: 0, b: 0 },
        min_speed: 1_000,
        max_speed: 3_000,
        flock_size: 100,
        n_mod: 0,
    };
    let predator_options = BoidOptions {
        boid_type: BoidType::Predator,
        starting_velocity: 1_500,
        colour: Colour { r: 255, g: 0, b: 0 },
        min_speed: 1_000,
        max_speed: 3_500,
        flock_size: 1,
        n_mod: 0,
    };
    let flock = Flock::new_flock(bounds, 100, BoidType::Prey);
    let predators = Flock::new_flock(bounds, 1, BoidType::Predator);
    Model {
        boid_options,
        predator_options,
        cursor_mode: CursorMode::Ignore,
        show_text: true,
        theme: Theme::Normal,
        flock,
        predators,
        alignment_modifier: 250,
        cohesion_modifier: 250,
        separation_modifier: 750,
        max_force: 200,
    }
}

} // verus!
