//! Whole-game tests: the state machine and full ticks.

use survivor_core::config::SimConfig;
use survivor_core::enemy::prepare_enemy;
use survivor_core::game::{advance, Game, TickInput};
use survivor_core::geom::Vec2i;
use survivor_core::resources::{AppState, MouseWorldCoords};

fn v(x: i64, y: i64) -> Vec2i {
    Vec2i { x, y }
}

fn idle() -> TickInput {
    TickInput {
        move_x: 0,
        move_y: 0,
        fire: false,
        aim: MouseWorldCoords(v(0, 0)),
        start: false,
    }
}

fn start() -> TickInput {
    TickInput { start: true, ..idle() }
}

#[test]
fn start_signal_begins_a_fresh_run() {
    let mut g = Game::new();
    assert_eq!(g.state, AppState::MainMenu);
    // Without the start signal nothing moves.
    advance(&mut g, idle());
    assert_eq!(g.state, AppState::MainMenu);
    // The start signal: InGame, counters reset, player at full health.
    let events = advance(&mut g, start());
    assert_eq!(g.state, AppState::InGame);
    assert_eq!(g.score.0, 0);
    assert_eq!(g.xp.0, 0);
    let player = g.world.ents[g.world.player];
    assert_eq!(player.health.current, 10);
    assert_eq!(player.health.max, 10);
    assert_eq!(player.pos, v(0, 0));
    assert_eq!(events.health_changed.len(), 1);
    assert_eq!(events.health_changed[0].current, 10);
    assert_eq!(events.health_changed[0].max, 10);
}

#[test]
fn idle_ticks_cause_no_drift() {
    let mut g = Game::new();
    advance(&mut g, start());
    for _ in 0..10 {
        advance(&mut g, idle());
        let player = g.world.ents[g.world.player];
        assert_eq!(player.pos, v(0, 0));
        assert_eq!(player.vel, v(0, 0));
    }
}

#[test]
fn movement_intent_moves_the_player() {
    let mut g = Game::new();
    advance(&mut g, start());
    let mut input = idle();
    input.move_x = 1;
    advance(&mut g, input);
    // One tick at 300 units per second and 250 ms per tick.
    assert_eq!(g.world.ents[g.world.player].pos, v(75_000, 0));
}

#[test]
fn player_death_ends_the_run_and_restart_resets() {
    let mut g = Game::new();
    advance(&mut g, start());
    let cfg = g.cfg;
    g.world.ents[g.world.player].health.current = 1;
    // An enemy on top of the player: the next tick is lethal.
    let enemy = prepare_enemy(v(10_000, 0), &cfg);
    g.world.ents.push(enemy);
    let events = advance(&mut g, idle());
    assert!(events.player_dies.is_some());
    assert_eq!(g.state, AppState::GameOver);
    // On the game-over screen nothing moves without the restart signal.
    advance(&mut g, idle());
    assert_eq!(g.state, AppState::GameOver);
    // Restart: back to the menu, then a fresh run with full resources.
    advance(&mut g, start());
    assert_eq!(g.state, AppState::MainMenu);
    advance(&mut g, start());
    assert_eq!(g.state, AppState::InGame);
    assert_eq!(g.score.0, 0);
    assert_eq!(g.world.ents.len(), 1);
    assert_eq!(g.world.ents[g.world.player].health.current, 10);
}

#[test]
fn projectile_kill_scores_within_the_run() {
    let mut g = Game::new();
    advance(&mut g, start());
    let cfg = g.cfg;
    // An enemy two steps from death, far enough not to touch the player,
    // and a bullet overlapping it; steering is held off by a knockback
    // already in place so the positions stay put for the check.
    let mut enemy = prepare_enemy(v(60_000, 0), &cfg);
    enemy.health.current = 1;
    g.world.ents.push(enemy);
    let mut bullet = survivor_core::world::Ent::base(
        survivor_core::world::EntityKind::Bullet,
        v(40_000, 0),
    );
    bullet.half = cfg.bullet_half;
    bullet.vel = v(0, 0);
    g.world.ents.push(bullet);
    let events = advance(&mut g, idle());
    assert!(events.player_dies.is_none());
    // The hit killed the enemy: score went up by exactly one and both
    // the enemy and the bullet are gone at the boundary.
    assert_eq!(g.score.0, 1);
    assert!(!g.world.ents[1].alive);
    assert!(!g.world.ents[2].alive);
}

#[test]
fn rifts_appear_on_the_spawn_circle() {
    let mut g = Game::new();
    advance(&mut g, start());
    // The rift timer fires after 4 seconds: 16 ticks of 250 ms.
    for _ in 0..16 {
        advance(&mut g, idle());
    }
    let rifts: Vec<_> = g
        .world
        .ents
        .iter()
        .filter(|e| e.alive && matches!(e.kind, survivor_core::world::EntityKind::Rift))
        .collect();
    assert_eq!(rifts.len(), 1);
    let p = rifts[0].pos;
    // On the 500-unit circle around the player, give or take the
    // integer sine approximation.
    let d2 = p.x * p.x + p.y * p.y;
    let r = 500_000f64;
    let dist = (d2 as f64).sqrt();
    assert!(
        (dist - r).abs() < 5_000.0,
        "rift at {p:?}, distance {dist}"
    );
    assert_eq!(rifts[0].quota, g.cfg.rift_quota);
}
