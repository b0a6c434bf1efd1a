//! Server-authoritative simulation core for a small multiplayer survival
//! arena: players move and fight while AI-driven zombies chase and damage
//! them, and the per-tick state changes are encoded for replication to the
//! connected clients.
//!
//! All quantities are held in fixed point: lengths and velocities in
//! thousandths of a world unit, health in thousandths of a health point,
//! and times in milliseconds.  Rendering, input devices and the rigid-body
//! integrator are collaborators outside this crate: the library decides,
//! the surrounding program performs.

pub mod components;
pub mod intake;
pub mod movement;
pub mod rng;
pub mod ai;
pub mod combat;
pub mod lifecycle;
pub mod replication;
pub mod server;
pub mod units;
pub mod vec3;
pub mod world;
