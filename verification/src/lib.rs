//! A flocking simulation in fixed point.
//!
//! Prey and predators move under a blend of local steering rules: alignment,
//! cohesion and separation among neighbours, flight from predators, the pull
//! or push of a pointer, and a turn away from the window's edges. Every
//! length is an integer count of thousandths of a unit, so that a tick gives
//! the same result on every machine and every rule can be stated exactly.
//!
//! A tick works on a snapshot: each boid is steered by the flock as it stood
//! before the tick, so the order of the flock does not matter. Predators move
//! first; prey then flee the predators where they have moved to.

pub mod boids;
pub mod bounds;
pub mod cursor;
pub mod fixed;
pub mod flock;
pub mod keymaps;
pub mod model;
pub mod random;
pub mod theme;
pub mod update;
pub mod vector;
