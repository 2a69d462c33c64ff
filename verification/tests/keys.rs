use boids::bounds::Bounds;
use boids::cursor::CursorMode;
use boids::keymaps::{key_pressed, Key, KeyAction};
use boids::model::{model, Model};
use boids::theme::{Colour, Theme};

fn fresh() -> Model {
    model(Bounds::new(-400_000, 400_000, -300_000, 300_000))
}

fn snapshot(m: &Model) -> (i64, i64, i64, i32, i32, usize, usize, bool, CursorMode, Theme) {
    (
        m.alignment_modifier,
        m.cohesion_modifier,
        m.separation_modifier,
        m.boid_options.n_mod,
        m.predator_options.n_mod,
        m.flock.len(),
        m.predators.len(),
        m.show_text,
        m.cursor_mode,
        m.theme,
    )
}

#[test]
fn cursor_mode_cycles_in_three_steps() {
    assert_eq!(CursorMode::Attract.next(), CursorMode::Avoid);
    assert_eq!(CursorMode::Avoid.next(), CursorMode::Ignore);
    assert_eq!(CursorMode::Ignore.next(), CursorMode::Attract);
    for start in [CursorMode::Attract, CursorMode::Avoid, CursorMode::Ignore] {
        assert_ne!(start.next(), start);
        assert_ne!(start.next().next(), start);
        assert_eq!(start.next().next().next(), start);
    }
}

#[test]
fn theme_cycles_in_three_steps() {
    assert_eq!(Theme::Normal.next(), Theme::Grey);
    assert_eq!(Theme::Grey.next(), Theme::DeepSea);
    assert_eq!(Theme::DeepSea.next(), Theme::Normal);
}

#[test]
fn themes_have_their_backgrounds() {
    assert_eq!(Theme::Normal.background(), Colour { r: 135, g: 206, b: 235 });
    assert_eq!(Theme::Grey.background(), Colour { r: 128, g: 128, b: 128 });
    assert_eq!(Theme::DeepSea.background(), Colour { r: 0, g: 0, b: 0 });
}

#[test]
fn modifier_keys_move_by_a_twentieth() {
    let mut m = fresh();
    assert_eq!(key_pressed(&mut m, Key::U), KeyAction::Nothing);
    assert_eq!(m.alignment_modifier, 200);
    key_pressed(&mut m, Key::I);
    key_pressed(&mut m, Key::I);
    assert_eq!(m.alignment_modifier, 300);
    key_pressed(&mut m, Key::J);
    assert_eq!(m.cohesion_modifier, 200);
    key_pressed(&mut m, Key::K);
    key_pressed(&mut m, Key::K);
    assert_eq!(m.cohesion_modifier, 300);
    key_pressed(&mut m, Key::M);
    assert_eq!(m.separation_modifier, 700);
    key_pressed(&mut m, Key::Comma);
    key_pressed(&mut m, Key::Comma);
    assert_eq!(m.separation_modifier, 800);
    assert_eq!(snapshot(&m).3, 0);
}

#[test]
fn modifiers_may_go_below_zero_and_stop_at_the_limit() {
    let mut m = fresh();
    for _ in 0..6 {
        key_pressed(&mut m, Key::U);
    }
    assert_eq!(m.alignment_modifier, -50);
    m.cohesion_modifier = 999_999_990;
    key_pressed(&mut m, Key::K);
    assert_eq!(m.cohesion_modifier, 1_000_000_000);
    key_pressed(&mut m, Key::K);
    assert_eq!(m.cohesion_modifier, 1_000_000_000);
    m.separation_modifier = -1_000_000_000;
    key_pressed(&mut m, Key::M);
    assert_eq!(m.separation_modifier, -1_000_000_000);
}

#[test]
fn mode_theme_and_text_keys() {
    let mut m = fresh();
    assert_eq!(m.cursor_mode, CursorMode::Ignore);
    key_pressed(&mut m, Key::C);
    assert_eq!(m.cursor_mode, CursorMode::Attract);
    key_pressed(&mut m, Key::C);
    assert_eq!(m.cursor_mode, CursorMode::Avoid);
    key_pressed(&mut m, Key::T);
    assert_eq!(m.theme, Theme::Grey);
    assert_eq!(key_pressed(&mut m, Key::H), KeyAction::Nothing);
    assert!(!m.show_text);
    key_pressed(&mut m, Key::H);
    assert!(m.show_text);
}

#[test]
fn up_asks_for_more_prey() {
    let mut m = fresh();
    key_pressed(&mut m, Key::Up);
    assert_eq!(m.boid_options.n_mod, 5);
    key_pressed(&mut m, Key::Up);
    assert_eq!(m.boid_options.n_mod, 10);
    m.boid_options.flock_size = 4;
    key_pressed(&mut m, Key::Up);
    assert_eq!(m.boid_options.n_mod, 11);
    m.boid_options.flock_size = 5;
    key_pressed(&mut m, Key::Up);
    assert_eq!(m.boid_options.n_mod, 16);
    m.boid_options.flock_size = 999;
    key_pressed(&mut m, Key::Up);
    assert_eq!(m.boid_options.n_mod, 21);
    m.boid_options.flock_size = 1_000;
    key_pressed(&mut m, Key::Up);
    assert_eq!(m.boid_options.n_mod, 21);
    assert_eq!(m.flock.len(), 100);
}

#[test]
fn down_asks_for_fewer_prey() {
    let mut m = fresh();
    key_pressed(&mut m, Key::Down);
    assert_eq!(m.boid_options.n_mod, -5);
    m.boid_options.flock_size = 6;
    key_pressed(&mut m, Key::Down);
    assert_eq!(m.boid_options.n_mod, -10);
    m.boid_options.flock_size = 5;
    key_pressed(&mut m, Key::Down);
    assert_eq!(m.boid_options.n_mod, -11);
    m.boid_options.flock_size = 2;
    key_pressed(&mut m, Key::Down);
    assert_eq!(m.boid_options.n_mod, -12);
    m.boid_options.flock_size = 1;
    key_pressed(&mut m, Key::Down);
    assert_eq!(m.boid_options.n_mod, -12);
    m.boid_options.flock_size = 0;
    key_pressed(&mut m, Key::Down);
    assert_eq!(m.boid_options.n_mod, -12);
}

#[test]
fn left_and_right_ask_for_predators() {
    let mut m = fresh();
    key_pressed(&mut m, Key::Right);
    assert_eq!(m.predator_options.n_mod, 1);
    key_pressed(&mut m, Key::Left);
    key_pressed(&mut m, Key::Left);
    assert_eq!(m.predator_options.n_mod, -1);
    m.predator_options.flock_size = 5;
    key_pressed(&mut m, Key::Right);
    assert_eq!(m.predator_options.n_mod, 0);
    m.predator_options.flock_size = 6;
    key_pressed(&mut m, Key::Right);
    assert_eq!(m.predator_options.n_mod, 0);
    key_pressed(&mut m, Key::Left);
    assert_eq!(m.predator_options.n_mod, -1);
    assert_eq!(m.boid_options.n_mod, 0);
}

#[test]
fn pending_changes_stop_at_the_ends_of_their_range() {
    let mut m = fresh();
    m.boid_options.n_mod = i32::MAX - 2;
    key_pressed(&mut m, Key::Up);
    assert_eq!(m.boid_options.n_mod, i32::MAX);
    m.predator_options.n_mod = i32::MIN;
    key_pressed(&mut m, Key::Left);
    assert_eq!(m.predator_options.n_mod, i32::MIN);
}

#[test]
fn capture_quit_and_other_keys_leave_the_model_alone() {
    let mut m = fresh();
    let before = snapshot(&m);
    let boids = (m.flock.clone(), m.predators.clone());
    assert_eq!(key_pressed(&mut m, Key::S), KeyAction::CaptureFrame);
    assert_eq!(key_pressed(&mut m, Key::Q), KeyAction::Quit);
    assert_eq!(key_pressed(&mut m, Key::Other), KeyAction::Nothing);
    assert_eq!(snapshot(&m), before);
    assert_eq!((m.flock.clone(), m.predators.clone()), boids);
}
