use boids::boids::{Boid, BoidType};
use boids::bounds::Bounds;
use boids::cursor::CursorMode;
use boids::flock::Flock;
use boids::model::{model, Model};
use boids::update::{advance, predator_steering, prey_steering, step_boid, update};
use boids::vector::Vec2;

fn window() -> Bounds {
    Bounds::new(-400_000, 400_000, -300_000, 300_000)
}

fn prey(x: i64, y: i64, vx: i64, vy: i64) -> Boid {
    Boid::with_velocity(x, y, BoidType::Prey, Vec2::new(vx, vy))
}

fn predator(x: i64, y: i64, vx: i64, vy: i64) -> Boid {
    Boid::with_velocity(x, y, BoidType::Predator, Vec2::new(vx, vy))
}

fn scene() -> Model {
    let mut m = model(window());
    m.flock = vec![
        prey(0, 0, 3_000, 0),
        prey(20_000, 0, 0, 3_000),
        prey(0, -50_000, -2_000, -2_000),
        prey(-390_000, 100_000, -3_000, 0),
        prey(409_000, 0, 3_000, 0),
    ];
    m.predators = vec![predator(40_000, 30_000, 0, -2_500), predator(50_000, 30_000, 2_500, 0)];
    m.cursor_mode = CursorMode::Attract;
    m.boid_options.flock_size = 5;
    m.predator_options.flock_size = 2;
    m
}

fn places(boids: &Vec<Boid>) -> Vec<(i64, i64, i64, i64)> {
    boids.iter().map(|b| (b.position.x, b.position.y, b.velocity.x, b.velocity.y)).collect()
}

fn len_sq(v: Vec2) -> i64 {
    v.x * v.x + v.y * v.y
}

#[test]
fn predators_hunt_and_keep_apart() {
    let m = scene();
    let win = window();
    let first = predator_steering(&m.predators[0], 0, &m.predators, &m.flock, &win);
    let second = predator_steering(&m.predators[1], 1, &m.predators, &m.flock, &win);
    assert_eq!(first, Vec2::new(-1_248, -813));
    assert_eq!(second, Vec2::new(-13, -732));
}

#[test]
fn prey_blend_their_steering() {
    let m = scene();
    let win = window();
    let cursor = Vec2::new(10_000, 10_000);
    let moved = vec![predator(38_943, 27_193, -1_057, -2_807), predator(52_487, 29_268, 2_487, -732)];
    let expected = [(-314, -86), (-1_196, -218), (389, 1_407), (300, 0), (-300, 0)];
    for i in 0..5 {
        let force = prey_steering(
            &m.flock[i],
            i,
            &m.flock,
            &moved,
            250,
            750,
            250,
            cursor,
            &CursorMode::Attract,
            &win,
        );
        assert_eq!((force.x, force.y), expected[i]);
    }
}

#[test]
fn steering_scales_with_the_modifiers() {
    let win = window();
    let flock = vec![prey(0, 0, 3_000, 0), prey(15_000, 0, 0, 3_000), prey(0, 40_000, 0, 3_000)];
    let none: Vec<Boid> = Vec::new();
    let cursor = Vec2::new(0, 0);
    let mode = CursorMode::Ignore;
    let only_alignment = prey_steering(&flock[0], 0, &flock, &none, 1_000, 0, 0, cursor, &mode, &win);
    assert_eq!(only_alignment, Vec2::new(0, 1_000));
    let only_separation = prey_steering(&flock[0], 0, &flock, &none, 0, 1_000, 0, cursor, &mode, &win);
    assert_eq!(only_separation, Vec2::new(-500, 0));
    let only_cohesion = prey_steering(&flock[0], 0, &flock, &none, 0, 0, 1_000, cursor, &mode, &win);
    assert_eq!(only_cohesion, Vec2::new(0, 1_000));
    let blend = prey_steering(&flock[0], 0, &flock, &none, 250, 750, -500, cursor, &mode, &win);
    assert_eq!(blend, Vec2::new(-375, -250));
    let nothing = prey_steering(&flock[0], 0, &flock, &none, 0, 0, 0, cursor, &mode, &win);
    assert_eq!(nothing, Vec2::new(0, 0));
}

#[test]
fn a_boid_steps_under_a_force() {
    let me = prey(1_000, 1_000, 3_000, 0);
    let after = step_boid(&me, Vec2::new(0, 400), None);
    assert_eq!(after.velocity, Vec2::new(3_000, 400));
    assert_eq!(after.position, Vec2::new(4_000, 1_400));
    assert_eq!(after.acceleration, Vec2::new(0, 0));
    let edge = prey(409_000, 0, 3_000, 0);
    let free = step_boid(&edge, Vec2::new(0, 0), None);
    assert_eq!(free.position, Vec2::new(412_000, 0));
    let wrapped = step_boid(&edge, Vec2::new(0, 0), Some(window()));
    assert_eq!(wrapped.position, Vec2::new(-410_000, 0));
    assert_eq!(wrapped.velocity, Vec2::new(3_000, 0));
}

#[test]
fn three_ticks_of_a_small_scene() {
    let mut m = scene();
    let win = window();
    let cursor = Vec2::new(10_000, 10_000);
    advance(&mut m, &win, cursor);
    assert_eq!(
        places(&m.flock),
        vec![
            (2_686, -86, 2_686, -86),
            (18_804, 2_782, -1_196, 2_782),
            (-1_876, -50_690, -1_876, -690),
            (-392_700, 100_000, -2_700, 0),
            (-410_000, 0, 2_700, 0),
        ]
    );
    assert_eq!(
        places(&m.predators),
        vec![(38_943, 27_193, -1_057, -2_807), (52_487, 29_268, 2_487, -732)]
    );
    advance(&mut m, &win, cursor);
    advance(&mut m, &win, cursor);
    assert_eq!(
        places(&m.flock),
        vec![
            (6_750, 157, 1_980, 276),
            (13_161, 7_940, -3_155, 2_458),
            (-5_204, -47_444, -1_539, 2_354),
            (-397_200, 100_000, -2_100, 0),
            (-403_700, 0, 3_300, 0),
        ]
    );
    assert_eq!(
        places(&m.predators),
        vec![(35_617, 22_211, -1_793, -2_404), (56_761, 25_985, 1_962, -1_932)]
    );
    assert_eq!(m.cursor_mode, CursorMode::Attract);
    assert_eq!(m.alignment_modifier, 250);
    assert_eq!(m.boid_options.flock_size, 5);
}

#[test]
fn the_order_of_the_flock_does_not_matter() {
    let win = window();
    let cursor = Vec2::new(10_000, 10_000);
    let mut forward = scene();
    let mut backward = scene();
    backward.flock.reverse();
    backward.predators.reverse();
    for _ in 0..5 {
        advance(&mut forward, &win, cursor);
        advance(&mut backward, &win, cursor);
    }
    backward.flock.reverse();
    backward.predators.reverse();
    assert_eq!(forward.flock, backward.flock);
    assert_eq!(forward.predators, backward.predators);
}

#[test]
fn nothing_moves_without_prey() {
    let mut m = scene();
    m.flock.clear();
    let before = m.predators.clone();
    advance(&mut m, &window(), Vec2::new(0, 0));
    assert_eq!(m.predators, before);
    assert_eq!(m.flock.len(), 0);
    update(&mut m, window(), Vec2::new(0, 0));
    assert_eq!(m.predators, before);
    assert_eq!(m.boid_options.flock_size, 0);
}

#[test]
fn prey_move_without_predators() {
    let mut m = scene();
    m.predators.clear();
    m.cursor_mode = CursorMode::Ignore;
    m.flock = vec![prey(0, 0, 600, 800)];
    advance(&mut m, &window(), Vec2::new(0, 0));
    assert_eq!(places(&m.flock), vec![(1_200, 1_600, 1_200, 1_600)]);
    assert_eq!(m.predators.len(), 0);
}

#[test]
fn a_tick_adjusts_the_population_first() {
    let win = window();
    let mut m = scene();
    m.boid_options.n_mod = 5;
    m.predator_options.n_mod = -1;
    update(&mut m, win, Vec2::new(10_000, 10_000));
    assert_eq!(m.flock.len(), 10);
    assert_eq!(m.predators.len(), 1);
    assert_eq!(m.boid_options.n_mod, 0);
    assert_eq!(m.predator_options.n_mod, 0);
    assert_eq!(m.boid_options.flock_size, 10);
    assert_eq!(m.predator_options.flock_size, 1);
    let mut n = scene();
    n.boid_options.n_mod = -20;
    let predators = n.predators.clone();
    update(&mut n, win, Vec2::new(10_000, 10_000));
    assert_eq!(n.flock.len(), 0);
    assert_eq!(n.predators, predators);
}

#[test]
fn every_tick_leaves_the_flock_in_order() {
    let win = window();
    let mut m = model(win);
    m.predators = Flock::new_flock(win, 3, BoidType::Predator);
    m.cursor_mode = CursorMode::Avoid;
    for tick in 0..40 {
        if tick == 10 {
            m.boid_options.n_mod = 5;
        }
        if tick == 20 {
            m.boid_options.n_mod = -30;
            m.predator_options.n_mod = 1;
        }
        update(&mut m, win, Vec2::new(50_000, -20_000));
        for b in m.flock.iter().chain(m.predators.iter()) {
            let n = len_sq(b.velocity);
            assert!(n <= b.max_speed * b.max_speed);
            assert!(n > (b.min_speed - 3) * (b.min_speed - 3));
            assert_eq!(b.acceleration, Vec2::new(0, 0));
            assert!(b.protected_range < b.visual_range);
        }
        for b in m.flock.iter() {
            assert_eq!(b.b_type, BoidType::Prey);
            assert!(-410_000 <= b.position.x && b.position.x <= 410_000);
            assert!(-310_000 <= b.position.y && b.position.y <= 310_000);
        }
        assert_eq!(m.boid_options.n_mod, 0);
        assert_eq!(m.boid_options.flock_size, m.flock.len());
        assert_eq!(m.predator_options.flock_size, m.predators.len());
    }
    assert_eq!(m.flock.len(), 75);
    assert_eq!(m.predators.len(), 4);
}
