//! Tuning constants of the simulation.
//!
//! All distances are in milliunits, all speeds in world units per second,
//! all durations in milliseconds.  A per-tick displacement in milliunits is
//! therefore `speed * tick_ms`, with no rounding.

use vstd::prelude::*;
use crate::geom::{Vec2i, VEL_LIMIT};

verus! {

/// Upper bound on configured speeds, in world units per second.
pub const SPEED_CAP: i64 = 10_000;

/// Upper bound on configured distances and half-extents, in milliunits.
pub const DIST_CAP: i64 = 100_000_000;

/// Upper bound on configured health maxima.
pub const HEALTH_CAP: i64 = 1_000_000_000;

#[derive(Clone, Copy, PartialEq, Eq, Structural, Debug)]
pub struct SimConfig {
    /// Duration of one simulation tick.
    pub tick_ms: u32,
    pub player_speed: i64,
    pub enemy_speed: i64,
    pub bullet_speed: i64,
    pub knockback_speed: i64,
    /// Displacement threshold at which a knockback ends.
    pub knockback_distance: i64,
    /// Gems strictly closer to the player than this are collected.
    pub pickup_radius: i64,
    /// Enemies strictly farther from the player than this are culled.
    pub cull_distance: i64,
    /// Bullets strictly farther than this from their spawn point despawn.
    pub weapon_range: i64,
    /// Rifts appear on the circle of this radius around the player.
    pub rift_radius: i64,
    /// Number of enemies each rift releases before it closes.
    pub rift_quota: u32,
    /// Period of the global rift spawn timer.
    pub rift_interval_ms: u32,
    /// Period of each rift's own enemy spawn timer.
    pub rift_spawn_interval_ms: u32,
    /// Length of the player's invulnerability window after a hit.
    pub invuln_ms: u32,
    /// Cooldown between two shots of the main weapon.
    pub cooldown_ms: u32,
    pub player_max_health: i64,
    pub enemy_max_health: i64,
    /// Experience carried by a gem dropped by a dead enemy.
    pub enemy_xp: u64,
    /// Chance, in percent, that a dead enemy drops a gem.
    pub gem_drop_percent: u32,
    pub player_half: Vec2i,
    pub enemy_half: Vec2i,
    pub bullet_half: Vec2i,
    pub gem_half: Vec2i,
    pub rift_half: Vec2i,
    /// Distance from the player centre at which the weapon sits.
    pub weapon_offset: i64,
    /// Aim points closer to the player than this give no fire direction.
    pub aim_deadzone: i64,
}

pub open spec fn half_ok(h: Vec2i) -> bool {
    &&& 0 <= h.x <= DIST_CAP
    &&& 0 <= h.y <= DIST_CAP
}

impl SimConfig {
    pub open spec fn wf(self) -> bool {
        &&& 1 <= self.tick_ms <= 1000
        &&& 0 <= self.player_speed <= SPEED_CAP
        &&& 0 <= self.enemy_speed <= SPEED_CAP
        &&& 0 <= self.bullet_speed <= SPEED_CAP
        &&& 0 <= self.knockback_speed <= SPEED_CAP
        &&& 0 <= self.knockback_distance <= DIST_CAP
        &&& 0 <= self.pickup_radius <= DIST_CAP
        &&& 0 <= self.cull_distance <= DIST_CAP
        &&& 0 <= self.weapon_range <= DIST_CAP
        &&& 0 <= self.rift_radius <= VEL_LIMIT
        &&& self.rift_quota <= 1_000_000
        &&& 1 <= self.rift_interval_ms
        &&& 1 <= self.rift_spawn_interval_ms
        &&& 1 <= self.player_max_health <= HEALTH_CAP
        &&& 1 <= self.enemy_max_health <= HEALTH_CAP
        &&& self.enemy_xp <= 1_000_000
        &&& self.gem_drop_percent <= 100
        &&& half_ok(self.player_half)
        &&& half_ok(self.enemy_half)
        &&& half_ok(self.bullet_half)
        &&& half_ok(self.gem_half)
        &&& half_ok(self.rift_half)
        &&& 0 <= self.weapon_offset <= VEL_LIMIT
        &&& 0 <= self.aim_deadzone <= DIST_CAP
    }

    /// Per-tick displacement, in milliunits, of a mover with the given
    /// speed: units per second times milliseconds is exactly milliunits.
    pub open spec fn spec_step(self, speed: i64) -> int {
        speed * self.tick_ms
    }

    /// Executable form of `spec_step`.
    pub fn step_of(&self, speed: i64) -> (r: i64)
        requires
            self.wf(),
            0 <= speed <= SPEED_CAP,
        ensures
            r == self.spec_step(speed),
            0 <= r <= VEL_LIMIT,
    {
        proof {
            assert(speed * self.tick_ms <= 10_000_000 && speed * self.tick_ms >= 0)
                by (nonlinear_arith)
                requires
                    0 <= speed <= 10_000,
                    1 <= self.tick_ms <= 1000,
            ;
        }
        speed * (self.tick_ms as i64)
    }

    /// A per-tick step computed from a configured speed is nonnegative
    /// and within the per-tick displacement bound.
    pub proof fn lemma_step_bounds(self, speed: i64)
        requires
            self.wf(),
            0 <= speed <= SPEED_CAP,
        ensures
            0 <= self.spec_step(speed) <= VEL_LIMIT,
    {
        assert(0 <= speed * self.tick_ms <= 10_000_000) by (nonlinear_arith)
            requires
                0 <= speed <= 10_000,
                1 <= self.tick_ms <= 1000,
        ;
    }

    /// The design-default tuning.
    pub open spec fn spec_standard() -> SimConfig {
        SimConfig {
            tick_ms: 250,
            player_speed: 300,
            enemy_speed: 100,
            bullet_speed: 500,
            knockback_speed: 20,
            knockback_distance: 10_000,
            pickup_radius: 75_000,
            cull_distance: 2_000_000,
            weapon_range: 700_000,
            rift_radius: 500_000,
            rift_quota: 5,
            rift_interval_ms: 4000,
            rift_spawn_interval_ms: 2000,
            invuln_ms: 1000,
            cooldown_ms: 100,
            player_max_health: 10,
            enemy_max_health: 2,
            enemy_xp: 1,
            gem_drop_percent: 50,
            player_half: Vec2i { x: 25_000, y: 25_000 },
            enemy_half: Vec2i { x: 25_000, y: 25_000 },
            bullet_half: Vec2i { x: 2_500, y: 2_500 },
            gem_half: Vec2i { x: 5_000, y: 5_000 },
            rift_half: Vec2i { x: 50_000, y: 50_000 },
            weapon_offset: 52_000,
            aim_deadzone: 10_000,
        }
    }

    pub fn standard() -> (c: SimConfig)
        ensures
            c == SimConfig::spec_standard(),
            c.wf(),
    {
        SimConfig {
            tick_ms: 250,
            player_speed: 300,
            enemy_speed: 100,
            bullet_speed: 500,
            knockback_speed: 20,
            knockback_distance: 10_000,
            pickup_radius: 75_000,
            cull_distance: 2_000_000,
            weapon_range: 700_000,
            rift_radius: 500_000,
            rift_quota: 5,
            rift_interval_ms: 4000,
            rift_spawn_interval_ms: 2000,
            invuln_ms: 1000,
            cooldown_ms: 100,
            player_max_health: 10,
            enemy_max_health: 2,
            enemy_xp: 1,
            gem_drop_percent: 50,
            player_half: Vec2i { x: 25_000, y: 25_000 },
            enemy_half: Vec2i { x: 25_000, y: 25_000 },
            bullet_half: Vec2i { x: 2_500, y: 2_500 },
            gem_half: Vec2i { x: 5_000, y: 5_000 },
            rift_half: Vec2i { x: 50_000, y: 50_000 },
            weapon_offset: 52_000,
            aim_deadzone: 10_000,
        }
    }
}

} // verus!
