use vstd::prelude::*;
use crate::fixed::{bounded, clamp_coord};
use crate::model::{BoidOptions, Model};

verus! {

/// How much one key press changes a modifier: a twentieth.
pub const MODIFIER_STEP: i64 = 50;

/// The keys that mean something, and one for all the others.
#[derive(Clone, Copy, Debug, PartialEq, Eq, Structural)]
pub enum Key {
    S,
    U,
    C,
    T,
    I,
    J,
    K,
    M,
    Comma,
    Up,
    Down,
    Left,
    Right,
    H,
    Q,
    Other,
}

/// What is left to do outside the model after a key press.
#[derive(Clone, Copy, Debug, PartialEq, Eq, Structural)]
pub enum KeyAction {
    Nothing,
    CaptureFrame,
    Quit,
}

/// `n` held to the range of a pending change.
pub open spec fn saturated(n: int) -> i32 {
    if n > i32::MAX {
        i32::MAX
    } else if n < i32::MIN {
        i32::MIN
    } else {
        n as i32
    }
}

/// The options with `step` more boids asked for.
pub open spec fn asked(options: BoidOptions, step: int) -> BoidOptions {
    BoidOptions { n_mod: saturated(options.n_mod + step), ..options }
}

/// How many prey the up key asks for: none at a thousand or more, one while
/// there are fewer than five, else five.
pub open spec fn step_up(flock_size: usize) -> int {
    if flock_size >= 1000 {
        0
    } else if flock_size < 5 {
        1
    } else {
        5
    }
}

/// How many prey the down key asks for: five fewer while there are more than
/// five, one fewer while there is more than one, else none.
pub open spec fn step_down(flock_size: usize) -> int {
    if flock_size > 5 {
        -5
    } else if flock_size > 1 {
        -1
    } else {
        0
    }
}

/// The modifier `m` after a key press that changes it by `step`.
pub open spec fn nudged(m: i64, step: int) -> i64 {
    bounded(m + step) as i64
}

/// The model after the key press.
pub open spec fn after_key(m: Model, key: Key) -> Model {
    match key {
        Key::U => Model { alignment_modifier: nudged(m.alignment_modifier, -MODIFIER_STEP), ..m },
        Key::I => Model {
            alignment_modifier: nudged(m.alignment_modifier, MODIFIER_STEP as int),
            ..m
        },
        Key::J => Model { cohesion_modifier: nudged(m.cohesion_modifier, -MODIFIER_STEP), ..m },
        Key::K => Model {
            cohesion_modifier: nudged(m.cohesion_modifier, MODIFIER_STEP as int),
            ..m
        },
        Key::M => Model { separation_modifier: nudged(m.separation_modifier, -MODIFIER_STEP), ..m },
        Key::Comma => Model {
            separation_modifier: nudged(m.separation_modifier, MODIFIER_STEP as int),
            ..m
        },
        Key::C => Model { cursor_mode: m.cursor_mode.successor(), ..m },
        Key::T => Model { theme: m.theme.successor(), ..m },
        Key::H => Model { show_text: !m.show_text, ..m },
        Key::Up => Model {
            boid_options: asked(m.boid_options, step_up(m.boid_options.flock_size)),
            ..m
        },
        Key::Down => Model {
            boid_options: asked(m.boid_options, step_down(m.boid_options.flock_size)),
            ..m
        },
        Key::Left => Model { predator_options: asked(m.predator_options, -1), ..m },
        Key::Right => Model {
            predator_options: asked(
                m.predator_options,
                if m.predator_options.flock_size > 5 {
                    0
                } else {
                    1
                },
            ),
            ..m
        },
        Key::S | Key::Q | Key::Other => m,
    }
}

/// What the key press leaves to do outside the model.
pub open spec fn action_of(key: Key) -> KeyAction {
    match key {
        Key::S => KeyAction::CaptureFrame,
        Key::Q => KeyAction::Quit,
        _ => KeyAction::Nothing,
    }
}

/// A modifier changed by `step`, held to the coordinate range.
fn nudge(m: i64, step: i64) -> (r: i64)
    requires
        -MODIFIER_STEP <= step <= MODIFIER_STEP,
    ensures
        r == nudged(m, step as int),
{
    clamp_coord(m as i128 + step as i128)
}

/// A pending change raised by `step`, held to its range.
fn ask(n_mod: i32, step: i64) -> (r: i32)
    requires
        -5 <= step <= 5,
    ensures
        r == saturated(n_mod + step),
{
    let n: i64 = n_mod as i64 + step;
    if n > i32::MAX as i64 {
        i32::MAX
    } else if n < i32::MIN as i64 {
        i32::MIN
    } else {
        n as i32
    }
}

/// Applies a key press to the model, and says what is left to do outside
/// it: to capture the frame, to quit, or nothing.
pub fn key_pressed(model: &mut Model, key: Key) -> (action: KeyAction)
    ensures
        *final(model) == after_key(*old(model), key),
        action == action_of(key),
        old(model).wf() ==> final(model).wf(),
{
    match key {
        Key::S => {
            return KeyAction::CaptureFrame;
        },
        Key::U => {
            model.alignment_modifier = nudge(model.alignment_modifier, -MODIFIER_STEP);
        },
        Key::C => {
            model.cursor_mode = model.cursor_mode.next();
        },
        Key::T => {
            model.theme = model.theme.next();
        },
        Key::I => {
            model.alignment_modifier = nudge(model.alignment_modifier, MODIFIER_STEP);
        },
        Key::J => {
            model.cohesion_modifier = nudge(model.cohesion_modifier, -MODIFIER_STEP);
        },
        Key::K => {
            model.cohesion_modifier = nudge(model.cohesion_modifier, MODIFIER_STEP);
        },
        Key::M => {
            model.separation_modifier = nudge(model.separation_modifier, -MODIFIER_STEP);
        },
        Key::Comma => {
            model.separation_modifier = nudge(model.separation_modifier, MODIFIER_STEP);
        },
        Key::Up => {
            if model.boid_options.flock_size >= 1000 {
                return KeyAction::Nothing;
            }
            if model.boid_options.flock_size < 5 {
                model.boid_options.n_mod = ask(model.boid_options.n_mod, 1);
            } else {
                model.boid_options.n_mod = ask(model.boid_options.n_mod, 5);
            }
        },
        Key::Down => {
            if model.boid_options.flock_size == 0 {
                return KeyAction::Nothing;
            }
            if model.boid_options.flock_size > 5 {
                model.boid_options.n_mod = ask(model.boid_options.n_mod, -5);
            } else if model.boid_options.flock_size > 1 {
                model.boid_options.n_mod = ask(model.boid_options.n_mod, -1);
            }
        },
        Key::Left => {
            model.predator_options.n_mod = ask(model.predator_options.n_mod, -1);
        },
        Key::Right => {
            if model.predator_options.flock_size > 5 {
                return KeyAction::Nothing;
            }
            model.predator_options.n_mod = ask(model.predator_options.n_mod, 1);
        },
        Key::H => {
            model.show_text = !model.show_text;
        },
        Key::Q => {
            return KeyAction::Quit;
        },
        Key::Other => {},
    }
    KeyAction::Nothing
}

} // verus!
