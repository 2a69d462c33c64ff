use boids::boids::{Boid, BoidType};
use boids::bounds::Bounds;
use boids::cursor::CursorMode;
use boids::flock::Flock;
use boids::model::{model, Model};
use boids::random::random_between;
use boids::theme::Theme;
use boids::update::{adjust_boid_count, update_model};
use boids::vector::Vec2;

fn window() -> Bounds {
    Bounds::new(-400_000, 400_000, -300_000, 300_000)
}

fn model_of(prey: u32, predators: u32) -> Model {
    let mut m = model(window());
    m.flock = Flock::new_flock(window(), prey, BoidType::Prey);
    m.predators = Flock::new_flock(window(), predators, BoidType::Predator);
    m.boid_options.flock_size = m.flock.len();
    m.predator_options.flock_size = m.predators.len();
    m
}

fn is_fresh(b: &Boid, kind: BoidType, win: &Bounds) -> bool {
    *b == Boid::with_velocity(b.position.x, b.position.y, kind, b.velocity)
        && win.left <= b.position.x
        && b.position.x <= win.right
        && win.bottom <= b.position.y
        && b.position.y <= win.top
        && -1_000 <= b.velocity.x
        && b.velocity.x < 1_000
        && -1_000 <= b.velocity.y
        && b.velocity.y < 1_000
}

#[test]
fn random_numbers_lie_between_the_ends() {
    let mut seen = [false; 10];
    for _ in 0..2_000 {
        let r = random_between(0, 10);
        assert!(0 <= r && r < 10);
        seen[r as usize] = true;
        let s = random_between(7, -3);
        assert!(-3 <= s && s < 7);
        assert_eq!(random_between(4, 4), 4);
        assert_eq!(random_between(-9, -8), -9);
    }
    assert!(seen.iter().all(|&s| s));
}

#[test]
fn bounds_hand_out_their_edges() {
    let win = Bounds::new(1, 2, 3, 4);
    assert_eq!(win.l_r_b_t(), (1, 2, 3, 4));
    assert_eq!(win, Bounds { left: 1, right: 2, bottom: 3, top: 4 });
}

#[test]
fn a_new_flock_has_the_size_asked_for() {
    let win = window();
    let flock = Flock::new_flock(win, 25, BoidType::Prey);
    assert_eq!(flock.len(), 25);
    for b in flock.iter() {
        assert!(is_fresh(b, BoidType::Prey, &win));
    }
    assert_eq!(Flock::new_flock(win, 0, BoidType::Predator).len(), 0);
    let packed = Flock::new_flock(Bounds::new(5, 5, -5, -5), 3, BoidType::Predator);
    for b in packed.iter() {
        assert_eq!(b.position, Vec2::new(5, -5));
        assert_eq!(b.b_type, BoidType::Predator);
    }
}

#[test]
fn the_model_starts_with_a_hundred_prey_and_one_predator() {
    let win = window();
    let m = model(win);
    assert_eq!(m.flock.len(), 100);
    assert_eq!(m.predators.len(), 1);
    assert_eq!(m.cursor_mode, CursorMode::Ignore);
    assert_eq!(m.theme, Theme::Normal);
    assert!(m.show_text);
    assert_eq!(m.alignment_modifier, 250);
    assert_eq!(m.cohesion_modifier, 250);
    assert_eq!(m.separation_modifier, 750);
    assert_eq!(m.max_force, 200);
    assert_eq!(m.boid_options.boid_type, BoidType::Prey);
    assert_eq!(m.boid_options.flock_size, 100);
    assert_eq!(m.boid_options.n_mod, 0);
    assert_eq!(m.predator_options.boid_type, BoidType::Predator);
    assert_eq!(m.predator_options.flock_size, 1);
    assert_eq!(m.predator_options.n_mod, 0);
    assert!(m.flock.iter().all(|b| is_fresh(b, BoidType::Prey, &win)));
    assert!(m.predators.iter().all(|b| is_fresh(b, BoidType::Predator, &win)));
}

#[test]
fn adding_a_boid_appends_to_its_kind() {
    let win = window();
    let mut m = model_of(3, 2);
    let prey_before = m.flock.clone();
    let predators_before = m.predators.clone();
    m.add_boid(win, BoidType::Prey);
    assert_eq!(m.flock.len(), 4);
    assert_eq!(&m.flock[..3], &prey_before[..]);
    assert!(is_fresh(&m.flock[3], BoidType::Prey, &win));
    assert_eq!(m.predators, predators_before);
    m.add_boid(win, BoidType::Predator);
    assert_eq!(m.predators.len(), 3);
    assert_eq!(&m.predators[..2], &predators_before[..]);
    assert!(is_fresh(&m.predators[2], BoidType::Predator, &win));
    assert_eq!(m.flock.len(), 4);
}

#[test]
fn removing_a_boid_takes_the_last_of_its_kind() {
    let mut m = model_of(3, 1);
    let prey_before = m.flock.clone();
    m.remove_boid(BoidType::Prey);
    assert_eq!(&m.flock[..], &prey_before[..2]);
    assert_eq!(m.predators.len(), 1);
    m.remove_boid(BoidType::Predator);
    assert_eq!(m.predators.len(), 0);
    m.remove_boid(BoidType::Predator);
    assert_eq!(m.predators.len(), 0);
    assert_eq!(&m.flock[..], &prey_before[..2]);
}

#[test]
fn five_more_on_a_flock_of_ten() {
    let win = window();
    let mut m = model_of(10, 1);
    let before = m.flock.clone();
    m.boid_options.n_mod = 5;
    adjust_boid_count(&mut m, win);
    assert_eq!(m.flock.len(), 15);
    assert_eq!(m.boid_options.n_mod, 0);
    assert_eq!(m.boid_options.flock_size, 15);
    assert_eq!(&m.flock[..10], &before[..]);
    assert!(m.flock[10..].iter().all(|b| is_fresh(b, BoidType::Prey, &win)));
    assert_eq!(m.predators.len(), 1);
    assert_eq!(m.predator_options.flock_size, 1);
}

#[test]
fn twenty_fewer_on_a_flock_of_ten() {
    let mut m = model_of(10, 1);
    m.boid_options.n_mod = -20;
    adjust_boid_count(&mut m, window());
    assert_eq!(m.flock.len(), 0);
    assert_eq!(m.boid_options.n_mod, 0);
    assert_eq!(m.boid_options.flock_size, 0);
    assert_eq!(m.predators.len(), 1);
}

#[test]
fn three_fewer_leave_the_first_seven() {
    let mut m = model_of(10, 4);
    let prey_before = m.flock.clone();
    let predators_before = m.predators.clone();
    m.boid_options.n_mod = -3;
    m.predator_options.n_mod = -1;
    adjust_boid_count(&mut m, window());
    assert_eq!(&m.flock[..], &prey_before[..7]);
    assert_eq!(&m.predators[..], &predators_before[..3]);
    assert_eq!(m.boid_options.flock_size, 7);
    assert_eq!(m.predator_options.flock_size, 3);
    assert_eq!(m.predator_options.n_mod, 0);
}

#[test]
fn predators_grow_by_what_was_asked() {
    let win = window();
    let mut m = model_of(10, 1);
    m.predator_options.n_mod = 3;
    adjust_boid_count(&mut m, win);
    assert_eq!(m.predators.len(), 4);
    assert_eq!(m.predator_options.n_mod, 0);
    assert_eq!(m.predator_options.flock_size, 4);
    assert!(m.predators[1..].iter().all(|b| is_fresh(b, BoidType::Predator, &win)));
    assert_eq!(m.flock.len(), 10);
}

#[test]
fn an_empty_population_can_grow_again() {
    let mut m = model_of(0, 0);
    m.boid_options.n_mod = 2;
    m.predator_options.n_mod = 1;
    adjust_boid_count(&mut m, window());
    assert_eq!(m.flock.len(), 2);
    assert_eq!(m.predators.len(), 1);
}

#[test]
fn the_largest_removal_empties_without_fault() {
    let mut m = model_of(4, 2);
    m.boid_options.n_mod = i32::MIN;
    m.predator_options.n_mod = i32::MIN;
    adjust_boid_count(&mut m, window());
    assert_eq!(m.flock.len(), 0);
    assert_eq!(m.predators.len(), 0);
    assert_eq!(m.boid_options.n_mod, 0);
    assert_eq!(m.predator_options.n_mod, 0);
}

#[test]
fn adjusting_twice_changes_nothing_more() {
    let win = window();
    let mut m = model_of(10, 2);
    m.boid_options.n_mod = 5;
    m.predator_options.n_mod = -1;
    update_model(&mut m, win);
    let prey = m.flock.clone();
    let predators = m.predators.clone();
    let options = (m.boid_options, m.predator_options);
    update_model(&mut m, win);
    assert_eq!(m.flock, prey);
    assert_eq!(m.predators, predators);
    assert_eq!((m.boid_options, m.predator_options), options);
    adjust_boid_count(&mut m, win);
    assert_eq!(m.flock, prey);
    assert_eq!(m.predators, predators);
    assert_eq!((m.boid_options, m.predator_options), options);
}
