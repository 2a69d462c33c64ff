use vstd::prelude::*;
use crate::boids::{
    align, all_wf, alignment, in_padded_window, lemma_neighbours_sound, values, wrap_point, Boid,
    BoidType,
};
use crate::bounds::Bounds;
use crate::cursor::CursorMode;
use crate::fixed::LIMIT;
use crate::model::{BoidOptions, Model};
use crate::vector::{Vec2, V2};

verus! {

/// The steering of the predator that stands at index `own`: toward the middle
/// of the prey that it sees, off the window's edges, and away from the
/// predators that are too close.
pub open spec fn predator_force(
    me: Boid,
    own: usize,
    predators: Seq<Boid>,
    flock: Seq<Boid>,
    win: Bounds,
) -> V2 {
    let hunting = me.cohesion(me.nearby(flock, None) + me.close(flock, None));
    let bounds_force = me.boundary_avoidance(win);
    let separation = me.separation(me.close(predators, Some(own)));
    hunting.plus(bounds_force).bounded().plus(separation).bounded()
}

/// The steering of the prey that stands at index `own`: alignment, separation
/// and cohesion, each times its modifier, then the edges, the flight from
/// predators and the pointer, each as it is.
pub open spec fn prey_force(
    me: Boid,
    own: usize,
    flock: Seq<Boid>,
    predators: Seq<Boid>,
    alignment_modifier: int,
    separation_modifier: int,
    cohesion_modifier: int,
    cursor_pos: Vec2,
    cursor_mode: CursorMode,
    win: Bounds,
) -> V2 {
    let nearby = me.nearby(flock, Some(own));
    let close = me.close(flock, Some(own));
    let aligning = alignment(nearby).scaled(alignment_modifier).bounded();
    let separating = me.separation(close).scaled(separation_modifier).bounded();
    let cohering = me.cohesion(nearby).scaled(cohesion_modifier).bounded();
    aligning.plus(separating).bounded().plus(cohering).bounded().plus(
        me.boundary_avoidance(win),
    ).bounded().plus(me.flight(predators)).bounded().plus(
        me.cursor_force(cursor_pos, cursor_mode),
    ).bounded()
}

/// `after` is `me` one tick later under `force`: moved, and where `wrap` is
/// set wrapped round the window; its acceleration is spent.
pub open spec fn stepped(me: Boid, after: Boid, force: V2, wrap: Option<Bounds>) -> bool {
    &&& after.same_traits(me)
    &&& after.velocity@ == me.velocity_after(force)
    &&& after.position@ == match wrap {
        Some(win) => wrap_point(me.position_after(force), win),
        None => me.position_after(force),
    }
    &&& after.acceleration@ == V2::zero()
}

/// The steering of one predator.
pub fn predator_steering(
    me: &Boid,
    own: usize,
    predators: &Vec<Boid>,
    flock: &Vec<Boid>,
    win: &Bounds,
) -> (r: Vec2)
    requires
        me.wf(),
        all_wf(predators@),
        all_wf(flock@),
        win.wf(),
    ensures
        r@ == predator_force(*me, own, predators@, flock@, *win),
        r.wf(),
{
    let close_predators = me.close_predators(predators, Some(own));
    let seen = me.get_neighbours(flock, None);
    let mut nearby_boids = seen.0;
    let mut close_boids = seen.1;
    let ghost first = nearby_boids@;
    let ghost second = close_boids@;
    nearby_boids.append(&mut close_boids);
    proof {
        lemma_neighbours_sound(*me, flock@, None);
        lemma_neighbours_sound(*me, predators@, Some(own));
        assert(values(nearby_boids@) =~= values(first) + values(second));
    }
    let separation = me.separate(close_predators.as_slice());
    let hunting_force = me.cohere(nearby_boids.as_slice());
    let bounds_force = me.avoid_bounds(win);
    hunting_force.add(bounds_force).add(separation)
}

/// The steering of one prey.
pub fn prey_steering(
    me: &Boid,
    own: usize,
    flock: &Vec<Boid>,
    predators: &Vec<Boid>,
    alignment_modifier: i64,
    separation_modifier: i64,
    cohesion_modifier: i64,
    cursor_pos: Vec2,
    cursor_mode: &CursorMode,
    win: &Bounds,
) -> (r: Vec2)
    requires
        me.wf(),
        all_wf(predators@),
        all_wf(flock@),
        win.wf(),
        cursor_pos.wf(),
        -LIMIT <= alignment_modifier <= LIMIT,
        -LIMIT <= separation_modifier <= LIMIT,
        -LIMIT <= cohesion_modifier <= LIMIT,
    ensures
        r@ == prey_force(
            *me,
            own,
            flock@,
            predators@,
            alignment_modifier as int,
            separation_modifier as int,
            cohesion_modifier as int,
            cursor_pos,
            *cursor_mode,
            *win,
        ),
        r.wf(),
{
    let seen = me.get_neighbours(flock, Some(own));
    let nearby_boids = seen.0;
    let close_boids = seen.1;
    proof {
        lemma_neighbours_sound(*me, flock@, Some(own));
    }
    let aligning = align(nearby_boids.as_slice()).scale(alignment_modifier);
    let separating = me.separate(close_boids.as_slice()).scale(separation_modifier);
    let cohering = me.cohere(nearby_boids.as_slice()).scale(cohesion_modifier);
    let predator_avoidance = me.avoid_predators(predators.as_slice());
    let cursor_interaction = me.cursor_interaction(cursor_pos, cursor_mode);
    let bounds_force = me.avoid_bounds(win);
    aligning.add(separating).add(cohering).add(bounds_force).add(predator_avoidance).add(
        cursor_interaction,
    )
}

/// The boid one tick later under `force`, wrapped round the window where
/// `wrap` is set.
pub fn step_boid(me: &Boid, force: Vec2, wrap: Option<Bounds>) -> (after: Boid)
    requires
        me.wf(),
        force.wf(),
        wrap matches Some(win) ==> win.wf(),
    ensures
        stepped(*me, after, force@, wrap),
        after.wf(),
        after.speed_in_band(),
        wrap matches Some(win) ==> in_padded_window(after.position@, win),
{
    let mut after: Boid = *me;
    after.acceleration = after.acceleration.add(force);
    after.update();
    match wrap {
        Some(win) => {
            after.wrap(&win);
        },
        None => {},
    }
    after
}

/// `after` holds the predators of `before` one tick later, each steered by
/// the flock and the predators as they were before the tick.
pub open spec fn predators_advanced(
    before: Seq<Boid>,
    after: Seq<Boid>,
    flock: Seq<Boid>,
    win: Bounds,
) -> bool {
    &&& after.len() == before.len()
    &&& forall|i: int|
        0 <= i < before.len() ==> stepped(
            before[i],
            #[trigger] after[i],
            predator_force(before[i], i as usize, before, flock, win),
            None,
        )
}

/// `after` holds the prey of `before` one tick later, each steered by the
/// flock as it was before the tick and by the predators given, then wrapped
/// round the window.
pub open spec fn prey_advanced(
    before: Seq<Boid>,
    after: Seq<Boid>,
    predators: Seq<Boid>,
    settings: Model,
    cursor_pos: Vec2,
    win: Bounds,
) -> bool {
    &&& after.len() == before.len()
    &&& forall|i: int|
        0 <= i < before.len() ==> stepped(
            before[i],
            #[trigger] after[i],
            prey_force(
                before[i],
                i as usize,
                before,
                predators,
                settings.alignment_modifier as int,
                settings.separation_modifier as int,
                settings.cohesion_modifier as int,
                cursor_pos,
                settings.cursor_mode,
                win,
            ),
            Some(win),
        )
}

/// `after` is `before` one tick later. Without prey nothing moves. Else the
/// predators move first, steered by the state before the tick; then the
/// prey, steered by the flock before the tick and the predators after
/// their move.
pub open spec fn advanced(before: Model, after: Model, win: Bounds, cursor_pos: Vec2) -> bool {
    if before.flock@.len() == 0 {
        after.flock@ == before.flock@ && after.predators@ == before.predators@
    } else {
        &&& predators_advanced(before.predators@, after.predators@, before.flock@, win)
        &&& prey_advanced(before.flock@, after.flock@, after.predators@, before, cursor_pos, win)
    }
}

/// Every boid of the sequence has a speed in its band and no acceleration
/// left.
pub open spec fn all_settled(boids: Seq<Boid>) -> bool {
    forall|i: int|
        0 <= i < boids.len() ==> (#[trigger] boids[i]).speed_in_band() && boids[i].acceleration@
            == V2::zero()
}

/// Every boid of the sequence lies in the padded window.
pub open spec fn all_in_padded_window(boids: Seq<Boid>, win: Bounds) -> bool {
    forall|i: int| 0 <= i < boids.len() ==> in_padded_window((#[trigger] boids[i]).position@, win)
}

/// The predators one tick later.
fn advance_predators(predators: &Vec<Boid>, flock: &Vec<Boid>, win: &Bounds) -> (after: Vec<Boid>)
    requires
        all_wf(predators@),
        all_wf(flock@),
        win.wf(),
    ensures
        predators_advanced(predators@, after@, flock@, *win),
        all_wf(after@),
        all_settled(after@),
{
    let mut after: Vec<Boid> = Vec::new();
    let mut i: usize = 0;
    while i < predators.len()
        invariant
            i <= predators.len(),
            all_wf(predators@),
            all_wf(flock@),
            win.wf(),
            after@.len() == i,
            all_wf(after@),
            all_settled(after@),
            forall|j: int|
                0 <= j < i ==> stepped(
                    predators@[j],
                    #[trigger] after@[j],
                    predator_force(predators@[j], j as usize, predators@, flock@, *win),
                    None,
                ),
        decreases predators.len() - i,
    {
        let me: &Boid = &predators[i];
        let force = predator_steering(me, i, predators, flock, win);
        let moved = step_boid(me, force, None);
        after.push(moved);
        i += 1;
    }
    after
}

/// The prey one tick later.
fn advance_prey(
    flock: &Vec<Boid>,
    predators: &Vec<Boid>,
    settings: &Model,
    cursor_pos: Vec2,
    win: &Bounds,
) -> (after: Vec<Boid>)
    requires
        all_wf(predators@),
        all_wf(flock@),
        settings.wf(),
        win.wf(),
        cursor_pos.wf(),
    ensures
        prey_advanced(flock@, after@, predators@, *settings, cursor_pos, *win),
        all_wf(after@),
        all_settled(after@),
        all_in_padded_window(after@, *win),
{
    let mut after: Vec<Boid> = Vec::new();
    let mut i: usize = 0;
    while i < flock.len()
        invariant
            i <= flock.len(),
            all_wf(predators@),
            all_wf(flock@),
            settings.wf(),
            win.wf(),
            cursor_pos.wf(),
            after@.len() == i,
            all_wf(after@),
            all_settled(after@),
            all_in_padded_window(after@, *win),
            forall|j: int|
                0 <= j < i ==> stepped(
                    flock@[j],
                    #[trigger] after@[j],
                    prey_force(
                        flock@[j],
                        j as usize,
                        flock@,
                        predators@,
                        settings.alignment_modifier as int,
                        settings.separation_modifier as int,
                        settings.cohesion_modifier as int,
                        cursor_pos,
                        settings.cursor_mode,
                        *win,
                    ),
                    Some(*win),
                ),
        decreases flock.len() - i,
    {
        let me: &Boid = &flock[i];
        let force = prey_steering(
            me,
            i,
            flock,
            predators,
            settings.alignment_modifier,
            settings.separation_modifier,
            settings.cohesion_modifier,
            cursor_pos,
            &settings.cursor_mode,
            win,
        );
        let moved = step_boid(me, force, Some(*win));
        after.push(moved);
        i += 1;
    }
    after
}

/// Moves every boid by one tick. Without prey nothing happens. Afterwards
/// every boid that moved has a speed within its band and no acceleration
/// left, and every prey lies in the padded window.
pub fn advance(model: &mut Model, win: &Bounds, cursor_pos: Vec2)
    requires
        old(model).wf(),
        win.wf(),
        cursor_pos.wf(),
    ensures
        advanced(*old(model), *final(model), *win, cursor_pos),
        final(model).same_settings(*old(model)),
        final(model).boid_options == old(model).boid_options,
        final(model).predator_options == old(model).predator_options,
        final(model).wf(),
        old(model).flock@.len() > 0 ==> all_settled(final(model).flock@) && all_settled(
            final(model).predators@,
        ) && all_in_padded_window(final(model).flock@, *win),
{
    if model.flock.is_empty() {
        return ;
    }
    let predators = advance_predators(&model.predators, &model.flock, win);
    let flock = advance_prey(&model.flock, &predators, model, cursor_pos, win);
    model.predators = predators;
    model.flock = flock;
}

/// `after` is `before` with the pending change `delta` applied: for a
/// positive one that many boids more at the end, each newly placed; for a
/// negative one that many fewer, taken from the end, as far as there are any.
pub open spec fn resized(
    before: Seq<Boid>,
    after: Seq<Boid>,
    delta: int,
    bounds: Bounds,
    boid_type: BoidType,
) -> bool {
    if delta >= 0 {
        &&& after.len() == before.len() + delta
        &&& after.take(before.len() as int) == before
        &&& forall|i: int|
            before.len() <= i < after.len() ==> (#[trigger] after[i]).newly_placed(
                bounds,
                boid_type,
            )
    } else if before.len() + delta >= 0 {
        after == before.take(before.len() + delta)
    } else {
        after == Seq::<Boid>::empty()
    }
}

/// `after` is `before` with both pending changes applied: the collections
/// resized, the changes spent, and the sizes noted.
pub open spec fn population_adjusted(before: Model, after: Model, bounds: Bounds) -> bool {
    &&& resized(
        before.predators@,
        after.predators@,
        before.predator_options.n_mod as int,
        bounds,
        BoidType::Predator,
    )
    &&& resized(
        before.flock@,
        after.flock@,
        before.boid_options.n_mod as int,
        bounds,
        BoidType::Prey,
    )
    &&& after.predator_options == (BoidOptions {
        n_mod: 0,
        flock_size: after.predators@.len() as usize,
        ..before.predator_options
    })
    &&& after.boid_options == (BoidOptions {
        n_mod: 0,
        flock_size: after.flock@.len() as usize,
        ..before.boid_options
    })
    &&& after.same_settings(before)
}

/// The boids of the given kind.
pub open spec fn of_kind(model: Model, boid_type: BoidType) -> Seq<Boid> {
    match boid_type {
        BoidType::Prey => model.flock@,
        BoidType::Predator => model.predators@,
    }
}

/// The kind that `boid_type` is not.
pub open spec fn other_kind(boid_type: BoidType) -> BoidType {
    match boid_type {
        BoidType::Prey => BoidType::Predator,
        BoidType::Predator => BoidType::Prey,
    }
}

/// Applies the change `delta` to the boids of one kind.
fn resize(model: &mut Model, bounds: Bounds, boid_type: BoidType, delta: i32)
    requires
        old(model).wf(),
        bounds.wf(),
    ensures
        resized(
            of_kind(*old(model), boid_type),
            of_kind(*final(model), boid_type),
            delta as int,
            bounds,
            boid_type,
        ),
        of_kind(*final(model), other_kind(boid_type)) == of_kind(
            *old(model),
            other_kind(boid_type),
        ),
        final(model).same_settings(*old(model)),
        final(model).boid_options == old(model).boid_options,
        final(model).predator_options == old(model).predator_options,
        final(model).wf(),
{
    let ghost before = of_kind(*model, boid_type);
    if delta >= 0 {
        let mut i: i32 = 0;
        assert(before.take(before.len() as int) =~= before);
        while i < delta
            invariant
                0 <= i <= delta,
                bounds.wf(),
                model.wf(),
                model.same_settings(*old(model)),
                model.boid_options == old(model).boid_options,
                model.predator_options == old(model).predator_options,
                of_kind(*model, other_kind(boid_type)) == of_kind(
                    *old(model),
                    other_kind(boid_type),
                ),
                before == of_kind(*old(model), boid_type),
                resized(before, of_kind(*model, boid_type), i as int, bounds, boid_type),
            decreases delta - i,
        {
            let ghost previous = of_kind(*model, boid_type);
            model.add_boid(bounds, boid_type);
            proof {
                let now = of_kind(*model, boid_type);
                assert(now.drop_last() == previous);
                assert(now.take(before.len() as int) =~= previous.take(before.len() as int));
                assert forall|j: int| before.len() <= j < now.len() implies (#[trigger] now[j])
                    .newly_placed(bounds, boid_type) by {
                    if j < previous.len() {
                        assert(now[j] == previous[j]);
                    }
                }
            }
            i += 1;
        }
    } else {
        let mut i: i32 = delta;
        assert(before.take(before.len() as int) =~= before);
        while i < 0 && count(model, boid_type) > 0
            invariant
                delta <= i <= 0,
                model.wf(),
                model.same_settings(*old(model)),
                model.boid_options == old(model).boid_options,
                model.predator_options == old(model).predator_options,
                of_kind(*model, other_kind(boid_type)) == of_kind(
                    *old(model),
                    other_kind(boid_type),
                ),
                before == of_kind(*old(model), boid_type),
                i - delta <= before.len(),
                of_kind(*model, boid_type) == before.take(before.len() - (i - delta)),
            decreases -i,
        {
            model.remove_boid(boid_type);
            proof {
                let kept = before.len() - (i - delta);
                assert(before.take(kept).drop_last() =~= before.take(kept - 1));
            }
            i += 1;
        }
        proof {
            if i < 0 {
                assert(of_kind(*model, boid_type) =~= Seq::<Boid>::empty());
            }
        }
    }
}

/// How many boids of the given kind there are.
fn count(model: &Model, boid_type: BoidType) -> (n: usize)
    ensures
        n == of_kind(*model, boid_type).len(),
{
    match boid_type {
        BoidType::Prey => model.flock.len(),
        BoidType::Predator => model.predators.len(),
    }
}

/// Applies the pending changes of both kinds, predators first: adds new
/// boids somewhere in the window or removes boids from the end, then sets
/// the changes to zero and notes the new sizes.
pub fn adjust_boid_count(model: &mut Model, bounds: Bounds)
    requires
        old(model).wf(),
        bounds.wf(),
    ensures
        population_adjusted(*old(model), *final(model), bounds),
        final(model).wf(),
{
    let predator_change: i32 = model.predator_options.n_mod;
    resize(model, bounds, BoidType::Predator, predator_change);
    model.predator_options.n_mod = 0;
    model.predator_options.flock_size = model.predators.len();
    let prey_change: i32 = model.boid_options.n_mod;
    resize(model, bounds, BoidType::Prey, prey_change);
    model.boid_options.n_mod = 0;
    model.boid_options.flock_size = model.flock.len();
}

/// Brings the model up to date before the boids move.
pub fn update_model(model: &mut Model, bounds: Bounds)
    requires
        old(model).wf(),
        bounds.wf(),
    ensures
        population_adjusted(*old(model), *final(model), bounds),
        final(model).wf(),
{
    adjust_boid_count(model, bounds);
}

/// With nothing pending and the sizes noted, adjusting the population
/// changes nothing: a second adjustment within one tick is a no-op.
pub proof fn lemma_adjust_idempotent(before: Model, after: Model, bounds: Bounds)
    requires
        before.boid_options.n_mod == 0,
        before.predator_options.n_mod == 0,
        before.boid_options.flock_size == before.flock@.len(),
        before.predator_options.flock_size == before.predators@.len(),
        population_adjusted(before, after, bounds),
    ensures
        after.flock@ == before.flock@,
        after.predators@ == before.predators@,
        after.boid_options == before.boid_options,
        after.predator_options == before.predator_options,
        after.same_settings(before),
{
    assert(after.flock@ =~= after.flock@.take(before.flock@.len() as int));
    assert(after.predators@ =~= after.predators@.take(before.predators@.len() as int));
}

/// Whatever was pending, after an adjustment nothing is, and the sizes are
/// noted: a second adjustment changes nothing.
pub proof fn lemma_adjust_settles(before: Model, after: Model, bounds: Bounds)
    requires
        population_adjusted(before, after, bounds),
        after.flock@.len() <= usize::MAX,
        after.predators@.len() <= usize::MAX,
    ensures
        after.boid_options.n_mod == 0,
        after.predator_options.n_mod == 0,
        after.boid_options.flock_size == after.flock@.len(),
        after.predator_options.flock_size == after.predators@.len(),
{
}

/// One tick: the population is adjusted, then every boid moves.
pub fn update(model: &mut Model, bounds: Bounds, cursor_pos: Vec2)
    requires
        old(model).wf(),
        bounds.wf(),
        cursor_pos.wf(),
    ensures
        exists|adjusted: Model|
            {
                &&& #[trigger] population_adjusted(*old(model), adjusted, bounds)
                &&& advanced(adjusted, *final(model), bounds, cursor_pos)
                &&& final(model).boid_options == adjusted.boid_options
                &&& final(model).predator_options == adjusted.predator_options
            },
        final(model).same_settings(*old(model)),
        final(model).boid_options.n_mod == 0,
        final(model).predator_options.n_mod == 0,
        final(model).wf(),
        final(model).flock@.len() > 0 ==> all_settled(final(model).flock@) && all_settled(
            final(model).predators@,
        ) && all_in_padded_window(final(model).flock@, bounds),
{
    update_model(model, bounds);
    let ghost adjusted = *model;
    advance(model, &bounds, cursor_pos);
    proof {
        assert(population_adjusted(*old(model), adjusted, bounds));
        assert(final(model).flock@.len() == adjusted.flock@.len());
    }
}

} // verus!
