use vstd::prelude::*;
use crate::bounds::Bounds;
use crate::cursor::CursorMode;
use crate::fixed::{
    clamp_coord, div_ceil, div_toward_zero, floor_sqrt, isqrt, lemma_div_trunc_bounds,
    lemma_floor_sqrt, lemma_square_monotone, LIMIT, ONE,
};
use crate::random::random_between;
use crate::theme::{Colour, Theme};
use crate::vector::{
    lemma_clamped_band, lemma_clamped_max, lemma_direction, lemma_full_speed_ahead,
    lemma_len_sq_zero, lemma_with_length_at_least, lemma_with_length_at_most, Vec2, SUM_LIMIT, V2,
};

verus! {

/// Largest value of a boid's speeds, ranges and force: a thousand units.
pub const SCALAR_LIMIT: i64 = 1_000_000;

/// How far a rescaled vector may fall short of its length: three thousandths.
pub const TOLERANCE: i64 = 3;

/// How far past a window edge a boid travels before it reappears opposite.
pub const WRAP_PAD: i64 = 10_000;

/// Width of the band along each edge, beyond the visual range, in which a
/// boid steers back inward.
pub const EDGE_MARGIN: i64 = 50_000;

/// Greatest length of the steering away from predators: 0.7 units.
pub const FLIGHT_MAX: i64 = 700;

/// The two kinds of agent.
#[derive(Clone, Copy, Debug, PartialEq, Eq, Structural)]
pub enum BoidType {
    Prey,
    Predator,
}

impl BoidType {
    /// Black for prey, dark red for predators.
    pub open spec fn spec_default_color(self) -> Colour {
        match self {
            BoidType::Prey => Colour { r: 0, g: 0, b: 0 },
            BoidType::Predator => Colour { r: 139, g: 0, b: 0 },
        }
    }

    /// How far an agent of this kind sees: 80 units for prey, 100 for predators.
    pub open spec fn spec_visual_range(self) -> i64 {
        match self {
            BoidType::Prey => 80_000,
            BoidType::Predator => 100_000,
        }
    }

    /// How fast an agent of this kind may move: 4 units a tick for prey, 3
    /// for predators.
    pub open spec fn spec_max_speed(self) -> i64 {
        match self {
            BoidType::Prey => 4_000,
            BoidType::Predator => 3_000,
        }
    }

    /// Width and height of the drawn triangle.
    pub open spec fn spec_size(self) -> (i64, i64) {
        match self {
            BoidType::Prey => (10_000, 12_000),
            BoidType::Predator => (15_000, 17_000),
        }
    }

    /// Black for prey, dark red for predators.
    pub fn default_color(self) -> (r: Colour)
        ensures
            r == self.spec_default_color(),
    {
        match self {
            BoidType::Prey => Colour { r: 0, g: 0, b: 0 },
            BoidType::Predator => Colour { r: 139, g: 0, b: 0 },
        }
    }

    /// How far an agent of this kind sees.
    pub fn visual_range(self) -> (r: i64)
        ensures
            r == self.spec_visual_range(),
    {
        match self {
            BoidType::Prey => 80_000,
            BoidType::Predator => 100_000,
        }
    }

    /// How fast an agent of this kind may move.
    pub fn max_speed(self) -> (r: i64)
        ensures
            r == self.spec_max_speed(),
    {
        match self {
            BoidType::Prey => 4_000,
            BoidType::Predator => 3_000,
        }
    }

    /// Width and height of the drawn triangle.
    pub fn size(self) -> (r: (i64, i64))
        ensures
            r == self.spec_size(),
    {
        match self {
            BoidType::Prey => (10_000, 12_000),
            BoidType::Predator => (15_000, 17_000),
        }
    }
}

/// One simulated agent.
#[derive(Clone, Copy, Debug, PartialEq, Eq, Structural)]
pub struct Boid {
    pub b_type: BoidType,
    pub position: Vec2,
    pub velocity: Vec2,
    pub acceleration: Vec2,
    pub max_force: i64,
    pub max_speed: i64,
    pub min_speed: i64,
    pub visual_range: i64,
    pub protected_range: i64,
}

/// The boids that a list of references points to.
pub open spec fn values(refs: Seq<&Boid>) -> Seq<Boid> {
    refs.map_values(|b: &Boid| *b)
}

/// Every boid of the sequence is well formed.
pub open spec fn all_wf(boids: Seq<Boid>) -> bool {
    forall|i: int| 0 <= i < boids.len() ==> (#[trigger] boids[i]).wf()
}

/// Whether every boid of the list is well formed.
pub fn are_wf(boids: &Vec<Boid>) -> (r: bool)
    ensures
        r == all_wf(boids@),
{
    let mut i: usize = 0;
    while i < boids.len()
        invariant
            i <= boids.len(),
            forall|j: int| 0 <= j < i ==> (#[trigger] boids@[j]).wf(),
        decreases boids.len() - i,
    {
        if !boids[i].is_wf() {
            return false;
        }
        i += 1;
    }
    true
}

/// The coordinate `c` after wrapping between `lo` and `hi`: past either end
/// it reappears at the other.
pub open spec fn wrapped(c: int, lo: int, hi: int) -> int {
    if c > hi {
        lo
    } else if c < lo {
        hi
    } else {
        c
    }
}

/// The point `p` after wrapping round the window padded by `WRAP_PAD`.
pub open spec fn wrap_point(p: V2, win: Bounds) -> V2 {
    V2 {
        x: wrapped(p.x, win.left - WRAP_PAD, win.right + WRAP_PAD),
        y: wrapped(p.y, win.bottom - WRAP_PAD, win.top + WRAP_PAD),
    }
}

/// The point lies in the window padded by `WRAP_PAD`.
pub open spec fn in_padded_window(p: V2, win: Bounds) -> bool {
    &&& win.left - WRAP_PAD <= p.x <= win.right + WRAP_PAD
    &&& win.bottom - WRAP_PAD <= p.y <= win.top + WRAP_PAD
}

/// The share of a full push that a neighbour at `distance` exerts: one at
/// distance zero, falling in a straight line to nothing at the protected
/// range, rounded up so that any closer neighbour still counts.
pub open spec fn separation_weight(protected_range: int, distance: int) -> int {
    if distance >= protected_range {
        0
    } else {
        div_ceil(ONE * (protected_range - distance), protected_range)
    }
}

impl Boid {
    /// The vectors lie in the coordinate range, the speeds are in order, and
    /// the protected range is positive and smaller than the visual range.
    pub open spec fn wf(self) -> bool {
        &&& self.position.wf()
        &&& self.velocity.wf()
        &&& self.acceleration.wf()
        &&& 0 <= self.min_speed <= self.max_speed <= SCALAR_LIMIT
        &&& 0 <= self.max_force <= SCALAR_LIMIT
        &&& 0 < self.protected_range < self.visual_range <= SCALAR_LIMIT
    }

    /// Whether the boid is well formed.
    pub fn is_wf(&self) -> (r: bool)
        ensures
            r == self.wf(),
    {
        self.position.is_wf() && self.velocity.is_wf() && self.acceleration.is_wf() && 0
            <= self.min_speed && self.min_speed <= self.max_speed && self.max_speed
            <= SCALAR_LIMIT && 0 <= self.max_force && self.max_force <= SCALAR_LIMIT && 0
            < self.protected_range && self.protected_range < self.visual_range
            && self.visual_range <= SCALAR_LIMIT
    }

    /// The two boids differ at most in position, velocity and acceleration.
    pub open spec fn same_traits(self, o: Boid) -> bool {
        &&& self.b_type == o.b_type
        &&& self.max_force == o.max_force
        &&& self.max_speed == o.max_speed
        &&& self.min_speed == o.min_speed
        &&& self.visual_range == o.visual_range
        &&& self.protected_range == o.protected_range
    }

    /// A boid of the given kind at rest in `(x, y)` but for `velocity`.
    pub open spec fn created(x: i64, y: i64, boid_type: BoidType, velocity: Vec2) -> Boid {
        Boid {
            b_type: boid_type,
            position: Vec2 { x, y },
            velocity,
            acceleration: Vec2 { x: 0, y: 0 },
            max_force: 200,
            max_speed: boid_type.spec_max_speed(),
            min_speed: 2_000,
            visual_range: boid_type.spec_visual_range(),
            protected_range: 30_000,
        }
    }

    /// A boid of the given kind in `(x, y)` that moves with `velocity`.
    pub fn with_velocity(x: i64, y: i64, boid_type: BoidType, velocity: Vec2) -> (r: Boid)
        ensures
            r == Boid::created(x, y, boid_type, velocity),
            -LIMIT <= x <= LIMIT && -LIMIT <= y <= LIMIT && velocity.wf() ==> r.wf(),
    {
        Boid {
            b_type: boid_type,
            position: Vec2 { x, y },
            velocity,
            acceleration: Vec2 { x: 0, y: 0 },
            max_force: 200,
            max_speed: boid_type.max_speed(),
            min_speed: 2_000,
            visual_range: boid_type.visual_range(),
            protected_range: 30_000,
        }
    }

    /// A boid of the given kind in `(x, y)`, with each component of its
    /// velocity drawn from minus one to one.
    pub fn new(x: i64, y: i64, boid_type: BoidType) -> (r: Boid)
        ensures
            r == Boid::created(x, y, boid_type, r.velocity),
            -ONE <= r.velocity.x < ONE,
            -ONE <= r.velocity.y < ONE,
            -LIMIT <= x <= LIMIT && -LIMIT <= y <= LIMIT ==> r.wf(),
    {
        let vx: i64 = random_between(-ONE, ONE);
        let vy: i64 = random_between(-ONE, ONE);
        Boid::with_velocity(x, y, boid_type, Vec2 { x: vx, y: vy })
    }

    /// `self` is a boid of the given kind as it is first made: somewhere in
    /// the window, at rest but for a velocity with each component from minus
    /// one to one.
    pub open spec fn newly_placed(self, bounds: Bounds, boid_type: BoidType) -> bool {
        &&& self == Boid::created(self.position.x, self.position.y, boid_type, self.velocity)
        &&& bounds.holds(self.position.x as int, self.position.y as int)
        &&& -ONE <= self.velocity.x < ONE
        &&& -ONE <= self.velocity.y < ONE
    }

    /// A new boid of the given kind, somewhere in the window.
    pub fn place(bounds: &Bounds, boid_type: BoidType) -> (r: Boid)
        requires
            bounds.wf(),
        ensures
            r.newly_placed(*bounds, boid_type),
            r.wf(),
    {
        let x: i64 = random_between(bounds.left, bounds.right);
        let y: i64 = random_between(bounds.bottom, bounds.top);
        Boid::new(x, y, boid_type)
    }

    /// The colour in which the boid is drawn under `theme`: light grey in
    /// the deep sea, else the colour of its kind.
    pub open spec fn spec_colour(self, theme: Theme) -> Colour {
        if theme == Theme::DeepSea {
            Colour { r: 200, g: 200, b: 200 }
        } else {
            self.b_type.spec_default_color()
        }
    }

    /// The colour in which the boid is drawn under `theme`.
    pub fn colour(&self, theme: Theme) -> (r: Colour)
        ensures
            r == self.spec_colour(theme),
    {
        match theme {
            Theme::DeepSea => Colour { r: 200, g: 200, b: 200 },
            _ => self.b_type.default_color(),
        }
    }

    /// The position after wrapping round the window padded by `WRAP_PAD`.
    pub open spec fn wrapped_position(self, win: Bounds) -> V2 {
        wrap_point(self.position@, win)
    }

    /// Moves a boid that has left the padded window to the opposite padded
    /// edge; afterwards it lies within the padded window.
    pub fn wrap(&mut self, win: &Bounds)
        requires
            old(self).wf(),
            win.wf(),
        ensures
            final(self).position@ == old(self).wrapped_position(*win),
            in_padded_window(final(self).position@, *win),
            final(self).velocity == old(self).velocity,
            final(self).acceleration == old(self).acceleration,
            final(self).same_traits(*old(self)),
            final(self).wf(),
    {
        let pad: i64 = WRAP_PAD;
        let left: i64 = win.left - pad;
        let right: i64 = win.right + pad;
        let top: i64 = win.top + pad;
        let bottom: i64 = win.bottom - pad;
        let x: i64 = self.position.x;
        let y: i64 = self.position.y;
        let nx: i64 = if x > right {
            left
        } else if x < left {
            right
        } else {
            x
        };
        let ny: i64 = if y > top {
            bottom
        } else if y < bottom {
            top
        } else {
            y
        };
        self.position = Vec2 { x: nx, y: ny };
    }

    /// The velocity after one step: the old one plus the acceleration, its
    /// length brought into the band from `min_speed` to `max_speed`.
    pub open spec fn next_velocity(self) -> V2 {
        self.velocity@.plus(self.acceleration@).bounded().clamped(
            self.min_speed as int,
            self.max_speed as int,
        )
    }

    /// The velocity one tick after `force` has been added to the
    /// acceleration.
    pub open spec fn velocity_after(self, force: V2) -> V2 {
        self.velocity@.plus(self.acceleration@.plus(force).bounded()).bounded().clamped(
            self.min_speed as int,
            self.max_speed as int,
        )
    }

    /// The position one tick after `force` has been added to the
    /// acceleration, before any wrapping.
    pub open spec fn position_after(self, force: V2) -> V2 {
        self.position@.plus(self.velocity_after(force)).bounded()
    }

    /// The position after one step: the old one moved by the new velocity.
    pub open spec fn next_position(self) -> V2 {
        self.position@.plus(self.next_velocity()).bounded()
    }

    /// The speed is at most `max_speed`, and falls short of `min_speed` by
    /// less than `TOLERANCE`.
    pub open spec fn speed_in_band(self) -> bool {
        &&& self.velocity@.len_sq() <= self.max_speed * self.max_speed
        &&& self.min_speed >= TOLERANCE ==> self.velocity@.len_sq() > (self.min_speed - TOLERANCE)
            * (self.min_speed - TOLERANCE)
    }

    /// One step of motion: the acceleration goes into the velocity, the
    /// velocity is held to the speed band and goes into the position, and the
    /// acceleration starts again from zero. The new speed lies in the band.
    pub fn update(&mut self)
        requires
            old(self).wf(),
        ensures
            final(self).velocity@ == old(self).next_velocity(),
            final(self).position@ == old(self).next_position(),
            final(self).acceleration@ == V2::zero(),
            final(self).same_traits(*old(self)),
            final(self).wf(),
            final(self).speed_in_band(),
    {
        proof {
            lemma_clamped_band(
                self.velocity@.plus(self.acceleration@).bounded(),
                self.min_speed as int,
                self.max_speed as int,
            );
        }
        let v: Vec2 = self.velocity.add(self.acceleration).clamp_length(
            self.min_speed,
            self.max_speed,
        );
        self.velocity = v;
        self.position = self.position.add(v);
        self.acceleration = Vec2 { x: 0, y: 0 };
    }

    /// The velocity that a boid within a margin of the window should have:
    /// full speed away from that edge, the other component kept. The left
    /// edge is looked at first, then the right, the bottom and the top.
    pub open spec fn desired_velocity(self, win: Bounds) -> Option<V2> {
        let reach = self.visual_range + EDGE_MARGIN;
        if self.position.x < win.left + reach {
            Some(V2 { x: self.max_speed as int, y: self.velocity.y as int })
        } else if self.position.x > win.right - reach {
            Some(V2 { x: -self.max_speed, y: self.velocity.y as int })
        } else if self.position.y < win.bottom + reach {
            Some(V2 { x: self.velocity.x as int, y: self.max_speed as int })
        } else if self.position.y > win.top - reach {
            Some(V2 { x: self.velocity.x as int, y: -self.max_speed })
        } else {
            None
        }
    }

    /// The steering that keeps a boid off the window's edges: nothing inside
    /// the margins; within one, the change from the present velocity to the
    /// desired one at full speed, no longer than one and a half times
    /// `max_force`.
    pub open spec fn boundary_avoidance(self, win: Bounds) -> V2 {
        match self.desired_velocity(win) {
            None => V2::zero(),
            Some(d) => d.with_length(self.max_speed as int).minus(self.velocity@).bounded()
                .clamped_max(self.max_force * 3 / 2),
        }
    }

    /// Steers the boid back from the window's edges.
    pub fn avoid_bounds(&self, win: &Bounds) -> (r: Vec2)
        requires
            self.wf(),
            win.wf(),
        ensures
            r@ == self.boundary_avoidance(*win),
            r.wf(),
    {
        let reach: i64 = self.visual_range + EDGE_MARGIN;
        let left: i64 = win.left + reach;
        let right: i64 = win.right - reach;
        let top: i64 = win.top - reach;
        let bottom: i64 = win.bottom + reach;
        let x: i64 = self.position.x;
        let y: i64 = self.position.y;
        let desired: Option<Vec2> = if x < left {
            Some(Vec2 { x: self.max_speed, y: self.velocity.y })
        } else if x > right {
            Some(Vec2 { x: -self.max_speed, y: self.velocity.y })
        } else if y < bottom {
            Some(Vec2 { x: self.velocity.x, y: self.max_speed })
        } else if y > top {
            Some(Vec2 { x: self.velocity.x, y: -self.max_speed })
        } else {
            None
        };
        match desired {
            Some(d) => {
                let full: Vec2 = d.with_length(self.max_speed);
                full.sub(self.velocity).clamp_length_max(self.max_force * 3 / 2)
            },
            None => Vec2 { x: 0, y: 0 },
        }
    }

    /// The pull toward the pointer, or the push away from it: a unit vector
    /// while the pointer is within reach (twice the visual range to attract,
    /// once to avoid), nothing beyond it or when the pointer is ignored.
    pub open spec fn cursor_force(self, cursor_pos: Vec2, cursor_mode: CursorMode) -> V2 {
        let d = cursor_pos@.minus(self.position@);
        match cursor_mode {
            CursorMode::Ignore => V2::zero(),
            CursorMode::Attract => if d.len_sq() > (2 * self.visual_range) * (2
                * self.visual_range) {
                V2::zero()
            } else {
                d.bounded().with_length(ONE as int)
            },
            CursorMode::Avoid => if d.len_sq() > self.visual_range * self.visual_range {
                V2::zero()
            } else {
                self.position@.minus(cursor_pos@).bounded().with_length(ONE as int)
            },
        }
    }

    /// Steers the boid to the pointer or away from it, as the mode says.
    pub fn cursor_interaction(&self, cursor_pos: Vec2, cursor_mode: &CursorMode) -> (r: Vec2)
        requires
            self.wf(),
            cursor_pos.wf(),
        ensures
            r@ == self.cursor_force(cursor_pos, *cursor_mode),
            r.wf(),
    {
        let d2: u128 = cursor_pos.dist_sq(self.position) as u128;
        let vr: u128 = self.visual_range as u128;
        assert(vr * vr <= 1_000_000_000_000 && (2 * vr) * (2 * vr) <= 4_000_000_000_000)
            by (nonlinear_arith)
            requires
                0 <= vr <= 1_000_000,
        ;
        match cursor_mode {
            CursorMode::Ignore => Vec2 { x: 0, y: 0 },
            CursorMode::Attract => {
                if d2 > (2 * vr) * (2 * vr) {
                    Vec2 { x: 0, y: 0 }
                } else {
                    cursor_pos.sub(self.position).normalize_or_zero()
                }
            },
            CursorMode::Avoid => {
                if d2 > vr * vr {
                    Vec2 { x: 0, y: 0 }
                } else {
                    self.position.sub(cursor_pos).normalize_or_zero()
                }
            },
        }
    }

    /// The squared distance between the two boids.
    pub open spec fn distance_sq(self, o: Boid) -> int {
        self.position@.minus(o.position@).len_sq()
    }

    /// `o` is seen but not too close: farther than the protected range and
    /// no farther than the visual range.
    pub open spec fn is_nearby(self, o: Boid) -> bool {
        self.protected_range * self.protected_range < self.distance_sq(o) <= self.visual_range
            * self.visual_range
    }

    /// `o` is too close: nearer than the protected range.
    pub open spec fn is_close(self, o: Boid) -> bool {
        self.distance_sq(o) < self.protected_range * self.protected_range
    }

    /// The boids of `flock` that are nearby, in the flock's order, the one at
    /// index `own` left out: there the boid itself stands.
    pub open spec fn nearby(self, flock: Seq<Boid>, own: Option<usize>) -> Seq<Boid>
        decreases flock.len(),
    {
        if flock.len() == 0 {
            Seq::empty()
        } else {
            let rest = self.nearby(flock.drop_last(), own);
            if own != Some((flock.len() - 1) as usize) && self.is_nearby(flock.last()) {
                rest.push(flock.last())
            } else {
                rest
            }
        }
    }

    /// The boids of `flock` that are too close, in the flock's order, the one
    /// at index `own` left out.
    pub open spec fn close(self, flock: Seq<Boid>, own: Option<usize>) -> Seq<Boid>
        decreases flock.len(),
    {
        if flock.len() == 0 {
            Seq::empty()
        } else {
            let rest = self.close(flock.drop_last(), own);
            if own != Some((flock.len() - 1) as usize) && self.is_close(flock.last()) {
                rest.push(flock.last())
            } else {
                rest
            }
        }
    }

    /// Sorts the other boids of `flock` by distance: first those that are
    /// nearby, second those that are too close. `own` is the index at which
    /// this boid itself stands in `flock`, if it does.
    pub fn get_neighbours<'a>(&self, flock: &'a Vec<Boid>, own: Option<usize>) -> (r: (
        Vec<&'a Boid>,
        Vec<&'a Boid>,
    ))
        requires
            self.wf(),
            all_wf(flock@),
        ensures
            values(r.0@) == self.nearby(flock@, own),
            values(r.1@) == self.close(flock@, own),
    {
        let mut nearby_boids: Vec<&'a Boid> = Vec::new();
        let mut close_boids: Vec<&'a Boid> = Vec::new();
        let pr: u128 = self.protected_range as u128;
        let vr: u128 = self.visual_range as u128;
        assert(vr * vr <= 1_000_000_000_000 && pr * pr <= 1_000_000_000_000) by (nonlinear_arith)
            requires
                0 <= vr <= 1_000_000,
                0 <= pr <= 1_000_000,
        ;
        let mut i: usize = 0;
        assert(values(nearby_boids@) =~= Seq::<Boid>::empty());
        assert(values(close_boids@) =~= Seq::<Boid>::empty());
        while i < flock.len()
            invariant
                i <= flock.len(),
                self.wf(),
                all_wf(flock@),
                pr == self.protected_range,
                vr == self.visual_range,
                vr * vr <= 1_000_000_000_000,
                pr * pr <= 1_000_000_000_000,
                values(nearby_boids@) == self.nearby(flock@.take(i as int), own),
                values(close_boids@) == self.close(flock@.take(i as int), own),
            decreases flock.len() - i,
        {
            let other: &'a Boid = &flock[i];
            let d2: u128 = self.position.dist_sq(other.position) as u128;
            let ghost before_nearby = nearby_boids@;
            let ghost before_close = close_boids@;
            proof {
                assert(flock@.take(i as int + 1).drop_last() =~= flock@.take(i as int));
                assert(flock@.take(i as int + 1).last() == flock@[i as int]);
            }
            let is_self: bool = match own {
                Some(k) => k == i,
                None => false,
            };
            if !is_self && d2 <= vr * vr && d2 > pr * pr {
                nearby_boids.push(other);
                proof {
                    assert(values(nearby_boids@) =~= values(before_nearby).push(*other));
                }
            }
            if !is_self && d2 < pr * pr {
                close_boids.push(other);
                proof {
                    assert(values(close_boids@) =~= values(before_close).push(*other));
                }
            }
            i += 1;
        }
        proof {
            assert(flock@.take(i as int) =~= flock@);
        }
        (nearby_boids, close_boids)
    }

    /// The other predators that are too close. `own` is the index at which
    /// this boid itself stands in `predators`, if it does.
    pub fn close_predators<'a>(&self, predators: &'a Vec<Boid>, own: Option<usize>) -> (r: Vec<
        &'a Boid,
    >)
        requires
            self.wf(),
            all_wf(predators@),
        ensures
            values(r@) == self.close(predators@, own),
    {
        let both = self.get_neighbours(predators, own);
        both.1
    }
}

/// What is picked from a flock is no longer than the flock, and is well
/// formed where the flock is.
pub proof fn lemma_neighbours_sound(me: Boid, flock: Seq<Boid>, own: Option<usize>)
    ensures
        me.nearby(flock, own).len() <= flock.len(),
        me.close(flock, own).len() <= flock.len(),
        me.nearby(flock, own).len() + me.close(flock, own).len() <= flock.len(),
        forall|i: int|
            0 <= i < me.nearby(flock, own).len() ==> me.is_nearby(
                #[trigger] me.nearby(flock, own)[i],
            ),
        forall|i: int|
            0 <= i < me.close(flock, own).len() ==> me.is_close(
                #[trigger] me.close(flock, own)[i],
            ),
        all_wf(flock) ==> all_wf(me.nearby(flock, own)) && all_wf(me.close(flock, own)),
    decreases flock.len(),
{
    if flock.len() > 0 {
        lemma_neighbours_sound(me, flock.drop_last(), own);
        if all_wf(flock) {
            assert(all_wf(flock.drop_last()));
        }
    }
}

/// Every other boid of the flock within the protected range is among the
/// close ones, every other one beyond it and within the visual range among
/// the nearby ones, and none is in both.
pub proof fn lemma_neighbours_complete(me: Boid, flock: Seq<Boid>, own: Option<usize>, j: int)
    requires
        0 <= j < flock.len(),
        flock.len() <= usize::MAX,
        own != Some(j as usize),
    ensures
        me.is_nearby(flock[j]) ==> me.nearby(flock, own).contains(flock[j]),
        me.is_close(flock[j]) ==> me.close(flock, own).contains(flock[j]),
        !(me.is_nearby(flock[j]) && me.is_close(flock[j])),
    decreases flock.len(),
{
    let rest = flock.drop_last();
    if j == flock.len() - 1 {
        if me.is_nearby(flock[j]) {
            assert(me.nearby(flock, own).last() == flock[j]);
        }
        if me.is_close(flock[j]) {
            assert(me.close(flock, own).last() == flock[j]);
        }
    } else {
        lemma_neighbours_complete(me, rest, own, j);
        if me.is_nearby(flock[j]) {
            let k = choose|k: int|
                0 <= k < me.nearby(rest, own).len() && me.nearby(rest, own)[k] == rest[j];
            assert(me.nearby(flock, own)[k] == flock[j]);
        }
        if me.is_close(flock[j]) {
            let k = choose|k: int|
                0 <= k < me.close(rest, own).len() && me.close(rest, own)[k] == rest[j];
            assert(me.close(flock, own)[k] == flock[j]);
        }
    }
}

/// The sum of the boids' positions.
pub open spec fn sum_positions(boids: Seq<Boid>) -> V2
    decreases boids.len(),
{
    if boids.len() == 0 {
        V2::zero()
    } else {
        sum_positions(boids.drop_last()).plus(boids.last().position@)
    }
}

/// The sum of the boids' velocities.
pub open spec fn sum_velocities(boids: Seq<Boid>) -> V2
    decreases boids.len(),
{
    if boids.len() == 0 {
        V2::zero()
    } else {
        sum_velocities(boids.drop_last()).plus(boids.last().velocity@)
    }
}

/// The heading of the group: the unit vector of the neighbours' mean
/// velocity, taken from their exact sum, which has the same direction; zero
/// without neighbours, and where the velocities sum to zero.
pub open spec fn alignment(neighbours: Seq<Boid>) -> V2 {
    sum_velocities(neighbours).direction()
}

/// The sum of the positions, or of the velocities, of the boids referred to.
fn sum_vectors(boids: &[&Boid], velocities: bool) -> (r: (i128, i128))
    requires
        all_wf(values(boids@)),
    ensures
        (V2 { x: r.0 as int, y: r.1 as int }) == if velocities {
            sum_velocities(values(boids@))
        } else {
            sum_positions(values(boids@))
        },
        -boids@.len() * LIMIT <= r.0 <= boids@.len() * LIMIT,
        -boids@.len() * LIMIT <= r.1 <= boids@.len() * LIMIT,
{
    let mut sx: i128 = 0;
    let mut sy: i128 = 0;
    let mut i: usize = 0;
    let ghost all = values(boids@);
    while i < boids.len()
        invariant
            i <= boids@.len(),
            all == values(boids@),
            all_wf(all),
            (V2 { x: sx as int, y: sy as int }) == if velocities {
                sum_velocities(all.take(i as int))
            } else {
                sum_positions(all.take(i as int))
            },
            -i * LIMIT <= sx <= i * LIMIT,
            -i * LIMIT <= sy <= i * LIMIT,
        decreases boids.len() - i,
    {
        let b: &Boid = boids[i];
        proof {
            assert(all.take(i as int + 1).drop_last() =~= all.take(i as int));
            assert(all.take(i as int + 1).last() == all[i as int]);
            assert(all[i as int] == *b);
            assert(all[i as int].wf());
            assert(i * LIMIT <= 0xffff_ffff_ffff_ffff * 1_000_000_000) by (nonlinear_arith)
                requires
                    0 <= i <= 0xffff_ffff_ffff_ffff,
            ;
        }
        if velocities {
            sx = sx + b.velocity.x as i128;
            sy = sy + b.velocity.y as i128;
        } else {
            sx = sx + b.position.x as i128;
            sy = sy + b.position.y as i128;
        }
        i += 1;
    }
    proof {
        assert(all.take(i as int) =~= all);
    }
    (sx, sy)
}

/// Steers a boid to the heading of its neighbours.
pub fn align(nearby_boids: &[&Boid]) -> (r: Vec2)
    requires
        all_wf(values(nearby_boids@)),
    ensures
        r@ == alignment(values(nearby_boids@)),
        r.wf(),
{
    let n: usize = nearby_boids.len();
    let sum = sum_vectors(nearby_boids, true);
    proof {
        lemma_sum_fits(n as int);
    }
    Vec2::direction(sum.0, sum.1)
}

/// The sum of `n` vectors of the coordinate range, and twice as much, are
/// sums whose direction can be taken.
proof fn lemma_sum_fits(n: int)
    requires
        0 <= n <= usize::MAX,
    ensures
        2 * (n * LIMIT) <= SUM_LIMIT,
{
    assert(n * LIMIT <= 0xffff_ffff_ffff_ffff * 1_000_000_000) by (nonlinear_arith)
        requires
            0 <= n <= 0xffff_ffff_ffff_ffff,
            LIMIT == 1_000_000_000,
    ;
}

impl Boid {
    /// The pull to the middle of the group: the unit vector from the boid to
    /// the neighbours' mean position, taken from the exact difference between
    /// the sum of their positions and as many times the boid's own, which has
    /// the same direction; zero without neighbours, and where the mean is the
    /// boid's own position.
    pub open spec fn cohesion(self, neighbours: Seq<Boid>) -> V2 {
        sum_positions(neighbours).minus(self.position@.times(neighbours.len() as int))
            .direction()
    }

    /// Steers the boid to the middle of its neighbours.
    pub fn cohere(&self, nearby_boids: &[&Boid]) -> (r: Vec2)
        requires
            self.wf(),
            all_wf(values(nearby_boids@)),
        ensures
            r@ == self.cohesion(values(nearby_boids@)),
            r.wf(),
    {
        let n: usize = nearby_boids.len();
        let sum = sum_vectors(nearby_boids, false);
        proof {
            lemma_sum_fits(n as int);
            assert(-(n * LIMIT) <= n * self.position.x <= n * LIMIT && -(n * LIMIT) <= n
                * self.position.y <= n * LIMIT) by (nonlinear_arith)
                requires
                    0 <= n,
                    -LIMIT <= self.position.x <= LIMIT,
                    -LIMIT <= self.position.y <= LIMIT,
            ;
            assert(self.position.x * n == n * self.position.x && self.position.y * n == n
                * self.position.y) by (nonlinear_arith);
        }
        let dx: i128 = sum.0 - (n as i128) * (self.position.x as i128);
        let dy: i128 = sum.1 - (n as i128) * (self.position.y as i128);
        Vec2::direction(dx, dy)
    }
}

/// The weight is nothing at the protected range and beyond, positive
/// anywhere nearer, one at distance zero, never more than one, and never
/// grows with the distance.
pub proof fn lemma_separation_weight(protected_range: int, d: int, e: int)
    requires
        protected_range > 0,
        0 <= d <= e,
    ensures
        separation_weight(protected_range, protected_range) == 0,
        separation_weight(protected_range, 0) == ONE,
        d < protected_range ==> separation_weight(protected_range, d) > 0,
        0 <= separation_weight(protected_range, d) <= ONE,
        separation_weight(protected_range, e) <= separation_weight(protected_range, d),
{
    let p = protected_range;
    assert((1000 * p + p - 1) / p == 1000) by (nonlinear_arith)
        requires
            p > 0,
    ;
    if d < p {
        let k = p - d;
        assert(1 <= (1000 * k + p - 1) / p <= 1000) by (nonlinear_arith)
            requires
                p > 0,
                1 <= k <= p,
        ;
        if e < p {
            let j = p - e;
            assert((1000 * j + p - 1) / p <= (1000 * k + p - 1) / p) by (nonlinear_arith)
                requires
                    p > 0,
                    1 <= j <= k,
            ;
        }
    }
}

/// The share of a full push that a neighbour at `distance` exerts.
pub fn weight_at(protected_range: i64, distance: u128) -> (r: i64)
    requires
        0 < protected_range <= SCALAR_LIMIT,
    ensures
        r == separation_weight(protected_range as int, distance as int),
        0 <= r <= ONE,
{
    proof {
        if distance < protected_range as u128 {
            lemma_separation_weight(protected_range as int, distance as int, distance as int);
        }
    }
    if distance >= protected_range as u128 {
        0
    } else {
        let k: i64 = protected_range - distance as i64;
        (ONE * k + protected_range - 1) / protected_range
    }
}

impl Boid {
    /// The push that `o` exerts on the boid: away from `o`, as long as the
    /// weight of its distance (rounded down); nothing from a boid of the
    /// other kind.
    pub open spec fn repulsion(self, o: Boid) -> V2 {
        if self.b_type == o.b_type {
            let d = self.position@.minus(o.position@);
            d.bounded().with_length(
                separation_weight(self.protected_range as int, floor_sqrt(d.len_sq() as nat) as int),
            )
        } else {
            V2::zero()
        }
    }

    /// The sum of the pushes that the boids exert.
    pub open spec fn sum_repulsions(self, boids: Seq<Boid>) -> V2
        decreases boids.len(),
    {
        if boids.len() == 0 {
            V2::zero()
        } else {
            self.sum_repulsions(boids.drop_last()).plus(self.repulsion(boids.last()))
        }
    }

    /// The push away from the boids that are too close: the sum of their
    /// pushes, held to the coordinate range; zero without neighbours.
    pub open spec fn separation(self, neighbours: Seq<Boid>) -> V2 {
        self.sum_repulsions(neighbours).bounded()
    }

    /// The push that one neighbour exerts.
    fn repel(&self, o: &Boid) -> (r: Vec2)
        requires
            self.wf(),
            o.wf(),
        ensures
            r@ == self.repulsion(*o),
            -ONE <= r.x <= ONE,
            -ONE <= r.y <= ONE,
    {
        if self.b_type == o.b_type {
            let d2: u64 = self.position.dist_sq(o.position);
            let distance: u128 = isqrt(d2 as u128);
            let w: i64 = weight_at(self.protected_range, distance);
            proof {
                lemma_with_length_at_most(
                    self.position@.minus(o.position@).bounded(),
                    w as int,
                );
            }
            self.position.sub(o.position).with_length(w)
        } else {
            Vec2 { x: 0, y: 0 }
        }
    }

    /// Steers the boid away from those that are too close.
    pub fn separate(&self, nearby_boids: &[&Boid]) -> (r: Vec2)
        requires
            self.wf(),
            all_wf(values(nearby_boids@)),
        ensures
            r@ == self.separation(values(nearby_boids@)),
            r.wf(),
    {
        let mut sx: i128 = 0;
        let mut sy: i128 = 0;
        let mut i: usize = 0;
        let ghost all = values(nearby_boids@);
        while i < nearby_boids.len()
            invariant
                i <= nearby_boids@.len(),
                all == values(nearby_boids@),
                all_wf(all),
                self.wf(),
                (V2 { x: sx as int, y: sy as int }) == self.sum_repulsions(all.take(i as int)),
                -i * ONE <= sx <= i * ONE,
                -i * ONE <= sy <= i * ONE,
            decreases nearby_boids.len() - i,
        {
            let b: &Boid = nearby_boids[i];
            proof {
                assert(all.take(i as int + 1).drop_last() =~= all.take(i as int));
                assert(all.take(i as int + 1).last() == all[i as int]);
                assert(all[i as int] == *b);
                assert(all[i as int].wf());
                assert(i * ONE <= 0xffff_ffff_ffff_ffff * 1_000) by (nonlinear_arith)
                    requires
                        0 <= i <= 0xffff_ffff_ffff_ffff,
                ;
            }
            let push: Vec2 = self.repel(b);
            sx = sx + push.x as i128;
            sy = sy + push.y as i128;
            i += 1;
        }
        proof {
            assert(all.take(i as int) =~= all);
        }
        Vec2 { x: clamp_coord(sx), y: clamp_coord(sy) }
    }

    /// The predators that the boid sees: those nearer than its visual range.
    pub open spec fn threats(self, predators: Seq<Boid>) -> Seq<Boid>
        decreases predators.len(),
    {
        if predators.len() == 0 {
            Seq::empty()
        } else {
            let rest = self.threats(predators.drop_last());
            if self.distance_sq(predators.last()) < self.visual_range * self.visual_range {
                rest.push(predators.last())
            } else {
                rest
            }
        }
    }

    /// The way from the mean position of the predators in sight to the
    /// boid: the exact difference between as many times the boid's position
    /// and the sum of theirs, divided by their number and rounded toward zero.
    pub open spec fn way_from(self, seen: Seq<Boid>) -> V2 {
        self.position@.times(seen.len() as int).minus(sum_positions(seen)).divided(
            seen.len() as int,
        )
    }

    /// The flight from the predators in sight: the way from their mean
    /// position to the boid, no longer than `FLIGHT_MAX`; zero where none is
    /// in sight.
    pub open spec fn flight(self, predators: Seq<Boid>) -> V2 {
        let seen = self.threats(predators);
        if seen.len() == 0 {
            V2::zero()
        } else {
            self.way_from(seen).bounded().clamped_max(FLIGHT_MAX as int)
        }
    }

    /// Steers the boid away from the predators that it sees.
    pub fn avoid_predators(&self, predators: &[Boid]) -> (r: Vec2)
        requires
            self.wf(),
            all_wf(predators@),
        ensures
            r@ == self.flight(predators@),
            r.wf(),
    {
        let mut sx: i128 = 0;
        let mut sy: i128 = 0;
        let mut count: usize = 0;
        let mut i: usize = 0;
        let vr: u128 = self.visual_range as u128;
        assert(vr * vr <= 1_000_000_000_000) by (nonlinear_arith)
            requires
                0 <= vr <= 1_000_000,
        ;
        while i < predators.len()
            invariant
                i <= predators@.len(),
                count <= i,
                all_wf(predators@),
                self.wf(),
                vr == self.visual_range,
                vr * vr <= 1_000_000_000_000,
                count == self.threats(predators@.take(i as int)).len(),
                (V2 { x: sx as int, y: sy as int }) == sum_positions(
                    self.threats(predators@.take(i as int)),
                ),
                -count * LIMIT <= sx <= count * LIMIT,
                -count * LIMIT <= sy <= count * LIMIT,
            decreases predators.len() - i,
        {
            let p: &Boid = &predators[i];
            proof {
                assert(predators@.take(i as int + 1).drop_last() =~= predators@.take(i as int));
                assert(predators@.take(i as int + 1).last() == predators@[i as int]);
                assert(predators@[i as int].wf());
                assert(count * LIMIT <= 0xffff_ffff_ffff_ffff * 1_000_000_000)
                    by (nonlinear_arith)
                    requires
                        0 <= count <= 0xffff_ffff_ffff_ffff,
                ;
            }
            let d2: u128 = self.position.dist_sq(p.position) as u128;
            if d2 < vr * vr {
                let ghost seen = self.threats(predators@.take(i as int));
                proof {
                    assert(seen.push(*p).drop_last() =~= seen);
                }
                sx = sx + p.position.x as i128;
                sy = sy + p.position.y as i128;
                count += 1;
            }
            i += 1;
        }
        proof {
            assert(predators@.take(i as int) =~= predators@);
        }
        if count == 0 {
            Vec2 { x: 0, y: 0 }
        } else {
            proof {
                lemma_sum_fits(count as int);
                assert(-(count * LIMIT) <= count * self.position.x <= count * LIMIT && -(count
                    * LIMIT) <= count * self.position.y <= count * LIMIT) by (nonlinear_arith)
                    requires
                        0 <= count,
                        -LIMIT <= self.position.x <= LIMIT,
                        -LIMIT <= self.position.y <= LIMIT,
                ;
                assert(self.position.x * count == count * self.position.x && self.position.y
                    * count == count * self.position.y) by (nonlinear_arith);
            }
            let n: i128 = count as i128;
            let dx: i128 = n * (self.position.x as i128) - sx;
            let dy: i128 = n * (self.position.y as i128) - sy;
            let away = Vec2 {
                x: clamp_coord(div_toward_zero(dx, n)),
                y: clamp_coord(div_toward_zero(dy, n)),
            };
            away.clamp_length_max(FLIGHT_MAX)
        }
    }
}

/// Without neighbours nothing steers: alignment, cohesion and separation are
/// each the zero vector.
pub proof fn lemma_no_neighbours(me: Boid)
    ensures
        alignment(Seq::<Boid>::empty()) == V2::zero(),
        me.cohesion(Seq::<Boid>::empty()) == V2::zero(),
        me.separation(Seq::<Boid>::empty()) == V2::zero(),
{
    lemma_direction(V2::zero());
    assert(me.position@.times(0) == V2::zero()) by (nonlinear_arith)
        requires
            me.position@.times(0) == (V2 { x: me.position@.x * 0, y: me.position@.y * 0 }),
    ;
}

/// Alignment is zero exactly where the neighbours' velocities sum to zero.
/// Else it is a unit vector to within `TOLERANCE`, never longer than one,
/// and each of its components has the sign of the sum's.
pub proof fn lemma_alignment(neighbours: Seq<Boid>)
    ensures
        alignment(neighbours) == V2::zero() <==> sum_velocities(neighbours) == V2::zero(),
        alignment(neighbours).len_sq() <= ONE * ONE,
        sum_velocities(neighbours) != V2::zero() ==> alignment(neighbours).len_sq() > (ONE
            - TOLERANCE) * (ONE - TOLERANCE),
        sum_velocities(neighbours).x >= 0 ==> alignment(neighbours).x >= 0,
        sum_velocities(neighbours).x <= 0 ==> alignment(neighbours).x <= 0,
        sum_velocities(neighbours).y >= 0 ==> alignment(neighbours).y >= 0,
        sum_velocities(neighbours).y <= 0 ==> alignment(neighbours).y <= 0,
{
    lemma_direction(sum_velocities(neighbours));
}

/// Cohesion is zero exactly where the neighbours' mean position is the
/// boid's own: where their positions sum to as many times the boid's. Else it
/// is a unit vector to within `TOLERANCE`, never longer than one, and each of
/// its components has the sign of the way from the boid to the mean.
pub proof fn lemma_cohesion(me: Boid, neighbours: Seq<Boid>)
    ensures
        me.cohesion(neighbours) == V2::zero() <==> sum_positions(neighbours)
            == me.position@.times(neighbours.len() as int),
        me.cohesion(neighbours).len_sq() <= ONE * ONE,
        sum_positions(neighbours) != me.position@.times(neighbours.len() as int)
            ==> me.cohesion(neighbours).len_sq() > (ONE - TOLERANCE) * (ONE - TOLERANCE),
        sum_positions(neighbours).x >= me.position.x * neighbours.len() ==> me.cohesion(
            neighbours,
        ).x >= 0,
        sum_positions(neighbours).x <= me.position.x * neighbours.len() ==> me.cohesion(
            neighbours,
        ).x <= 0,
        sum_positions(neighbours).y >= me.position.y * neighbours.len() ==> me.cohesion(
            neighbours,
        ).y >= 0,
        sum_positions(neighbours).y <= me.position.y * neighbours.len() ==> me.cohesion(
            neighbours,
        ).y <= 0,
{
    lemma_direction(sum_positions(neighbours).minus(me.position@.times(neighbours.len() as int)));
}

/// A boid at the protected range or beyond exerts no push, and no push is
/// longer than one.
pub proof fn lemma_repulsion(me: Boid, o: Boid)
    requires
        me.protected_range > 0,
    ensures
        me.distance_sq(o) >= me.protected_range * me.protected_range ==> me.repulsion(o)
            == V2::zero(),
        me.repulsion(o).len_sq() <= ONE * ONE,
{
    let d = me.position@.minus(o.position@);
    assert(d.len_sq() >= 0) by (nonlinear_arith)
        requires
            d.len_sq() == d.x * d.x + d.y * d.y,
    ;
    let distance = floor_sqrt(d.len_sq() as nat);
    let w = separation_weight(me.protected_range as int, distance as int);
    lemma_floor_sqrt(d.len_sq() as nat);
    lemma_separation_weight(me.protected_range as int, distance as int, distance as int);
    lemma_with_length_at_most(d.bounded(), w);
    assert(w * w <= ONE * ONE) by (nonlinear_arith)
        requires
            0 <= w <= ONE,
    ;
    assert(0 <= w * w && V2::zero().len_sq() == 0) by (nonlinear_arith)
        requires
            V2::zero().len_sq() == 0int * 0int + 0int * 0int,
    ;
    if me.distance_sq(o) >= me.protected_range * me.protected_range {
        lemma_square_monotone(distance + 1, me.protected_range as nat);
    }
}

/// The weight of the push that `o` exerts on `self`.
pub open spec fn weight_of(me: Boid, o: Boid) -> int {
    separation_weight(me.protected_range as int, floor_sqrt(me.distance_sq(o) as nat) as int)
}

/// The push of a boid of the same kind in another place is as long as the
/// weight of its distance, to within `TOLERANCE`, and never longer.
pub proof fn lemma_repulsion_length(me: Boid, o: Boid)
    requires
        me.protected_range > 0,
        me.b_type == o.b_type,
        me.position != o.position,
    ensures
        me.repulsion(o).len_sq() <= weight_of(me, o) * weight_of(me, o),
        weight_of(me, o) >= TOLERANCE ==> me.repulsion(o).len_sq() > (weight_of(me, o)
            - TOLERANCE) * (weight_of(me, o) - TOLERANCE),
{
    let d = me.position@.minus(o.position@);
    let w = weight_of(me, o);
    lemma_len_sq_zero(d);
    lemma_len_sq_zero(d.bounded());
    let distance = floor_sqrt(d.len_sq() as nat);
    lemma_separation_weight(me.protected_range as int, distance as int, distance as int);
    lemma_with_length_at_most(d.bounded(), w);
    if w >= TOLERANCE {
        lemma_with_length_at_least(d.bounded(), w);
    }
}

/// A push grows as the neighbour nears: of two neighbours, the one of the
/// boid's kind whose weight is greater by `TOLERANCE` or more pushes
/// strictly harder. Nearer than that the lengths cannot be told apart in
/// thousandths.
pub proof fn lemma_repulsion_grows(me: Boid, near: Boid, far: Boid)
    requires
        me.protected_range > 0,
        me.b_type == near.b_type,
        me.position != near.position,
        weight_of(me, near) >= weight_of(me, far) + TOLERANCE,
    ensures
        me.repulsion(near).len_sq() > me.repulsion(far).len_sq(),
{
    let w_near = weight_of(me, near);
    let w_far = weight_of(me, far);
    let d_far = me.position@.minus(far.position@);
    lemma_len_sq_zero(d_far);
    let distance = floor_sqrt(d_far.len_sq() as nat);
    lemma_separation_weight(me.protected_range as int, distance as int, distance as int);
    lemma_repulsion_length(me, near);
    lemma_with_length_at_most(d_far.bounded(), w_far);
    assert(0int * 0int + 0int * 0int == 0 && 0 <= w_far * w_far) by (nonlinear_arith);
    assert(me.repulsion(far).len_sq() <= w_far * w_far);
    assert(w_far * w_far <= (w_near - TOLERANCE) * (w_near - TOLERANCE)) by (nonlinear_arith)
        requires
            0 <= w_far <= w_near - TOLERANCE,
    ;
}

/// A boid sees no threat where every predator is at its visual range or
/// beyond.
proof fn lemma_no_threats(me: Boid, predators: Seq<Boid>)
    requires
        forall|i: int|
            0 <= i < predators.len() ==> me.distance_sq(#[trigger] predators[i]) >= me.visual_range
                * me.visual_range,
    ensures
        me.threats(predators).len() == 0,
    decreases predators.len(),
{
    if predators.len() > 0 {
        lemma_no_threats(me, predators.drop_last());
        assert(predators.last() == predators[predators.len() - 1]);
    }
}

/// The flight from predators is nothing where no predator is in sight; else
/// it is no longer than `FLIGHT_MAX` and points from the predators' mean
/// position to the boid, component by component: the boid's position is
/// compared with the mean by comparing as many times the one with the sum of
/// the others.
pub proof fn lemma_flight(me: Boid, predators: Seq<Boid>)
    ensures
        (forall|i: int|
            0 <= i < predators.len() ==> me.distance_sq(#[trigger] predators[i]) >= me.visual_range
                * me.visual_range) ==> me.flight(predators) == V2::zero(),
        me.flight(predators).len_sq() <= FLIGHT_MAX * FLIGHT_MAX,
        me.threats(predators).len() > 0 ==> ({
            let seen = me.threats(predators);
            let sum = sum_positions(seen);
            &&& me.position.x * seen.len() >= sum.x ==> me.flight(predators).x >= 0
            &&& me.position.x * seen.len() <= sum.x ==> me.flight(predators).x <= 0
            &&& me.position.y * seen.len() >= sum.y ==> me.flight(predators).y >= 0
            &&& me.position.y * seen.len() <= sum.y ==> me.flight(predators).y <= 0
        }),
{
    if forall|i: int|
        0 <= i < predators.len() ==> me.distance_sq(#[trigger] predators[i]) >= me.visual_range
            * me.visual_range {
        lemma_no_threats(me, predators);
    }
    let seen = me.threats(predators);
    lemma_len_sq_zero(V2::zero());
    assert(0 <= FLIGHT_MAX * FLIGHT_MAX) by (nonlinear_arith);
    if seen.len() > 0 {
        let exact = me.position@.times(seen.len() as int).minus(sum_positions(seen));
        lemma_div_trunc_bounds(exact.x, seen.len() as int);
        lemma_div_trunc_bounds(exact.y, seen.len() as int);
        let away = me.way_from(seen).bounded();
        lemma_clamped_max(away, FLIGHT_MAX as int);
        lemma_with_length_at_most(away, FLIGHT_MAX as int);
    }
}

/// The steering off the edges is nothing for a boid inside all four
/// margins, and never longer than one and a half times `max_force`. Within a
/// margin it is not zero, as long as the boid does not already move as
/// desired and the cap is at least `TOLERANCE`.
pub proof fn lemma_boundary_avoidance(me: Boid, win: Bounds)
    requires
        me.max_force >= 0,
    ensures
        win.left + me.visual_range + EDGE_MARGIN <= me.position.x <= win.right - me.visual_range
            - EDGE_MARGIN && win.bottom + me.visual_range + EDGE_MARGIN <= me.position.y
            <= win.top - me.visual_range - EDGE_MARGIN ==> me.boundary_avoidance(win)
            == V2::zero(),
        me.boundary_avoidance(win).len_sq() <= (me.max_force * 3 / 2) * (me.max_force * 3 / 2),
        me.desired_velocity(win) is Some && me.desired_velocity(win).unwrap().with_length(
            me.max_speed as int,
        ).minus(me.velocity@).bounded() != V2::zero() && me.max_force * 3 / 2 >= TOLERANCE
            ==> me.boundary_avoidance(win) != V2::zero(),
{
    let cap = me.max_force * 3 / 2;
    assert(0 <= cap * cap) by (nonlinear_arith);
    match me.desired_velocity(win) {
        None => {},
        Some(d) => {
            let steer = d.with_length(me.max_speed as int).minus(me.velocity@).bounded();
            lemma_clamped_max(steer, cap);
            if steer != V2::zero() && cap >= TOLERANCE {
                assert(steer.len_sq() != 0) by (nonlinear_arith)
                    requires
                        steer.x != 0 || steer.y != 0,
                        steer.len_sq() == steer.x * steer.x + steer.y * steer.y,
                ;
                if steer.len_sq() > cap * cap {
                    lemma_with_length_at_least(steer, cap);
                    assert((cap - 3) * (cap - 3) >= 0) by (nonlinear_arith);
                }
            }
        },
    }
}

/// The steering off an edge never points at that edge: for a boid no faster
/// than `max_speed`, it points right or nowhere within the left margin, left
/// within the right one, up within the bottom one and down within the top one.
pub proof fn lemma_boundary_avoidance_inward(me: Boid, win: Bounds)
    requires
        me.max_force >= 0,
        me.max_speed >= 0,
        me.velocity@.len_sq() <= me.max_speed * me.max_speed,
    ensures
        ({
            let reach = me.visual_range + EDGE_MARGIN;
            let steer = me.boundary_avoidance(win);
            if me.position.x < win.left + reach {
                steer.x >= 0
            } else if me.position.x > win.right - reach {
                steer.x <= 0
            } else if me.position.y < win.bottom + reach {
                steer.y >= 0
            } else if me.position.y > win.top - reach {
                steer.y <= 0
            } else {
                steer == V2::zero()
            }
        }),
{
    let m = me.max_speed as int;
    let vx = me.velocity.x as int;
    let vy = me.velocity.y as int;
    let cap = me.max_force * 3 / 2;
    assert((-vx) * (-vx) == vx * vx && (-vy) * (-vy) == vy * vy) by (nonlinear_arith);
    lemma_full_speed_ahead(m, vx, vy);
    lemma_full_speed_ahead(m, -vx, vy);
    lemma_full_speed_ahead(m, vy, vx);
    lemma_full_speed_ahead(m, -vy, vx);
    match me.desired_velocity(win) {
        None => {},
        Some(d) => {
            let change = d.with_length(m).minus(me.velocity@).bounded();
            lemma_with_length_at_most(change, cap);
        },
    }
}

} // verus!
