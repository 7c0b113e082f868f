//! Simulation core of a top-down survival shooter.
//!
//! A player fends off waves of enemies that pour out of periodic rift
//! portals, trading damage through projectile and contact collisions while
//! accumulating score and experience.  The crate covers the fixed-step
//! simulation loop (movement integration, collision-based combat, knockback
//! physics, health and death resolution, experience pickup), the wave
//! spawning algorithm, and the game-flow state machine that gates which
//! systems run.  Rendering, input polling, windowing and asset handling are
//! external collaborators: they feed plain values in (movement intent, aim
//! point, fire and start signals) and read plain snapshots back out.
//!
//! All world geometry is integer fixed point: positions and distances are
//! measured in milliunits (one thousandth of a world unit), so one
//! simulation tick advances every position by an exact integer displacement.

pub mod components;
pub mod config;
pub mod enemy;
pub mod events;
pub mod game;
pub mod geom;
pub mod player;
pub mod resources;
pub mod rift;
pub mod rng;
pub mod scenes;
pub mod systems;
pub mod timer;
pub mod world;
