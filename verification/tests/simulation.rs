//! System-level tests on hand-built worlds.

use survivor_core::components::{Health, Knockback};
use survivor_core::config::SimConfig;
use survivor_core::enemy::{
    bullet_hit_enemy, despawn_far_away_enemies, move_towards_player_when_not_knockback,
    prepare_enemy,
};
use survivor_core::events::Events;
use survivor_core::geom::{isqrt, scaled_dir, Vec2i};
use survivor_core::player::{
    countdown_invulnerability, despawn_bullets, enemy_hits_player, fire_main, pickup_xp_gem,
    player_input, setup_player,
};
use survivor_core::resources::{MouseWorldCoords, Score, XP};
use survivor_core::rift::{destroy_rift, point_on_circle, sin_milli, spawn_enemies};
use survivor_core::systems::{die, handle_knockback, move_all};
use survivor_core::timer::Timer;
use survivor_core::world::{Ent, EntityKind, World};

fn v(x: i64, y: i64) -> Vec2i {
    Vec2i { x, y }
}

/// A world holding just a player at the origin.
fn world_with_player(cfg: &SimConfig) -> World {
    let mut w = World::new();
    let mut events = Events::none();
    setup_player(&mut w, cfg, &mut events);
    w
}

#[test]
fn isqrt_exact_values() {
    assert_eq!(isqrt(0), 0);
    assert_eq!(isqrt(1), 1);
    assert_eq!(isqrt(15), 3);
    assert_eq!(isqrt(16), 4);
    assert_eq!(isqrt(25_000_000), 5000);
    assert_eq!(isqrt(u64::MAX), 4_294_967_295);
}

#[test]
fn scaled_dir_exact_values() {
    // A 3-4-5 triangle rescales exactly.
    assert_eq!(scaled_dir(v(3000, 4000), 1000), v(600, 800));
    assert_eq!(scaled_dir(v(-3000, 4000), 1000), v(-600, 800));
    // The degenerate zero direction stays zero instead of propagating
    // an undefined direction.
    assert_eq!(scaled_dir(v(0, 0), 1000), v(0, 0));
}

#[test]
fn sin_approximation_exact_values() {
    assert_eq!(sin_milli(0), 0);
    assert_eq!(sin_milli(30), 500);
    assert_eq!(sin_milli(90), 1000);
    assert_eq!(sin_milli(180), 0);
}

#[test]
fn points_on_circle() {
    assert_eq!(point_on_circle(0, 500_000), v(500_000, 0));
    assert_eq!(point_on_circle(90, 500_000), v(0, 500_000));
    assert_eq!(point_on_circle(180, 500_000), v(-500_000, 0));
    assert_eq!(point_on_circle(270, 500_000), v(0, -500_000));
}

#[test]
fn movement_integrates_velocity() {
    let cfg = SimConfig::standard();
    let mut w = World::new();
    let mut e = Ent::base(EntityKind::Enemy, v(1000, 2000));
    e.vel = v(10, -20);
    w.ents.push(e);
    move_all(&mut w, cfg);
    assert_eq!(w.ents[0].pos, v(1010, 1980));
    // Velocity itself is untouched by the integrator.
    assert_eq!(w.ents[0].vel, v(10, -20));
}

#[test]
fn zero_intent_gives_zero_velocity() {
    let cfg = SimConfig::standard();
    let mut w = world_with_player(&cfg);
    player_input(&mut w, cfg, 1, 0);
    assert_ne!(w.ents[0].vel, v(0, 0));
    player_input(&mut w, cfg, 0, 0);
    assert_eq!(w.ents[0].vel, v(0, 0));
    move_all(&mut w, cfg);
    assert_eq!(w.ents[0].pos, v(0, 0));
}

#[test]
fn diagonal_intent_is_normalized() {
    let cfg = SimConfig::standard();
    let mut w = world_with_player(&cfg);
    player_input(&mut w, cfg, 1, 1);
    // Per-tick step is 300 * 250 = 75000 milliunits; the diagonal is
    // rescaled by 1000/1414, not left at full speed per axis.
    assert_eq!(w.ents[0].vel, v(53041, 53041));
}

#[test]
fn enemy_steers_toward_player_and_degenerate_direction_is_zero() {
    let cfg = SimConfig::standard();
    let mut w = world_with_player(&cfg);
    w.ents.push(prepare_enemy(v(100_000, 0), &cfg));
    w.ents.push(prepare_enemy(v(0, 0), &cfg));
    move_towards_player_when_not_knockback(&mut w, cfg);
    // Enemy step is 100 * 250 = 25000 milliunits per tick, toward the
    // player at the origin.
    assert_eq!(w.ents[1].vel, v(-25000, 0));
    // An enemy exactly on the player must not get an undefined direction.
    assert_eq!(w.ents[2].vel, v(0, 0));
}

#[test]
fn projectile_hits_single_enemy() {
    let cfg = SimConfig::standard();
    let mut w = world_with_player(&cfg);
    let enemy_pos = v(50_000, 0);
    w.ents.push(prepare_enemy(enemy_pos, &cfg));
    let mut bullet = Ent::base(EntityKind::Bullet, v(30_000, 0));
    bullet.half = cfg.bullet_half;
    bullet.vel = v(125_000, 0);
    w.ents.push(bullet);
    bullet_hit_enemy(&mut w, cfg);
    // The enemy lost exactly one health point.
    assert_eq!(w.ents[1].health.current, 1);
    assert_eq!(w.ents[1].health.max, 2);
    // The knockback's origin is the enemy's pre-knockback position, its
    // velocity the bullet's direction at knockback speed (20 * 250).
    let kb = w.ents[1].knockback.expect("knockback attached");
    assert_eq!(kb.start_position, enemy_pos);
    assert_eq!(kb.velocity, v(5000, 0));
    assert_eq!(kb.distance, cfg.knockback_distance);
    assert_eq!(w.ents[1].vel, v(5000, 0));
    // The projectile is queued for removal and gone at the boundary.
    assert_eq!(w.despawns.len(), 1);
    assert_eq!(w.despawns[0], 2);
    w.apply_commands();
    assert!(!w.ents[2].alive);
    assert!(w.ents[1].alive);
}

#[test]
fn knockback_ends_at_threshold_with_bounded_overshoot() {
    let cfg = SimConfig::standard();
    let mut w = World::new();
    let mut e = prepare_enemy(v(0, 0), &cfg);
    let kb = Knockback { velocity: v(5000, 0), start_position: v(0, 0), distance: 10_000 };
    e.vel = kb.velocity;
    e.knockback = Some(kb);
    w.ents.push(e);
    move_all(&mut w, cfg);
    handle_knockback(&mut w, cfg);
    // Half way: the knockback stays.
    assert_eq!(w.ents[0].pos, v(5000, 0));
    assert!(w.ents[0].knockback.is_some());
    move_all(&mut w, cfg);
    handle_knockback(&mut w, cfg);
    // The threshold is reached: the knockback is removed and the
    // velocity reset, with no displacement beyond threshold plus one
    // tick of movement.
    assert_eq!(w.ents[0].pos, v(10_000, 0));
    assert!(w.ents[0].knockback.is_none());
    assert_eq!(w.ents[0].vel, v(0, 0));
}

#[test]
fn dead_enemy_scores_and_despawns_same_tick() {
    let cfg = SimConfig::standard();
    let mut w = World::new();
    let mut e = prepare_enemy(v(50_000, 0), &cfg);
    e.health = Health { current: 0, max: 2 };
    w.ents.push(e);
    let mut score = Score(0);
    let died = die(&mut w, cfg, &mut score);
    assert!(!died);
    assert_eq!(score.0, 1);
    assert_eq!(w.despawns.len(), 1);
    w.apply_commands();
    assert!(!w.ents[0].alive);
}

#[test]
fn gem_drop_rate_is_about_half() {
    let cfg = SimConfig::standard();
    let trials = 10_000;
    let mut gems = 0;
    for _ in 0..trials {
        let mut w = World::new();
        let mut e = prepare_enemy(v(0, 0), &cfg);
        e.health = Health { current: 0, max: 2 };
        w.ents.push(e);
        let mut score = Score(0);
        die(&mut w, cfg, &mut score);
        gems += w.spawns.len();
    }
    // 50% drop rate over 10000 trials: allow five standard deviations.
    assert!(gems > 4500 && gems < 5500, "gem count out of range: {gems}");
}

#[test]
fn dropped_gem_carries_position_and_value() {
    let cfg = SimConfig::standard();
    // Repeat until a drop happens; each try is a fresh roll.
    for _ in 0..1000 {
        let mut w = World::new();
        let mut e = prepare_enemy(v(50_000, -7000), &cfg);
        e.health = Health { current: -1, max: 2 };
        w.ents.push(e);
        let mut score = Score(0);
        die(&mut w, cfg, &mut score);
        if w.spawns.len() == 1 {
            assert_eq!(w.spawns[0].kind, EntityKind::Gem);
            assert_eq!(w.spawns[0].pos, v(50_000, -7000));
            assert_eq!(w.spawns[0].xp_value, cfg.enemy_xp);
            return;
        }
    }
    panic!("no gem dropped in 1000 tries");
}

#[test]
fn invulnerability_window_blocks_and_restarts() {
    let cfg = SimConfig::standard();
    let mut w = world_with_player(&cfg);
    w.ents.push(prepare_enemy(v(10_000, 0), &cfg));
    let mut events = Events::none();
    enemy_hits_player(&mut w, cfg, &mut events);
    assert_eq!(w.ents[0].health.current, 9);
    assert!(w.ents[0].invulnerable.is_some());
    assert_eq!(events.health_changed.len(), 1);
    assert_eq!(events.health_changed[0].current, 9);
    // Repeated overlap during the window: zero additional loss.
    enemy_hits_player(&mut w, cfg, &mut events);
    enemy_hits_player(&mut w, cfg, &mut events);
    assert_eq!(w.ents[0].health.current, 9);
    assert_eq!(events.health_changed.len(), 1);
    // The window expires after its full second.
    countdown_invulnerability(&mut w, cfg, 1000);
    assert!(w.ents[0].invulnerable.is_none());
    // The next overlap costs exactly one point and restarts the window.
    enemy_hits_player(&mut w, cfg, &mut events);
    assert_eq!(w.ents[0].health.current, 8);
    assert_eq!(w.ents[0].invulnerable, Some(Timer::once(cfg.invuln_ms)));
}

#[test]
fn player_hit_once_per_tick_despite_many_enemies() {
    let cfg = SimConfig::standard();
    let mut w = world_with_player(&cfg);
    w.ents.push(prepare_enemy(v(10_000, 0), &cfg));
    w.ents.push(prepare_enemy(v(-10_000, 0), &cfg));
    w.ents.push(prepare_enemy(v(0, 10_000), &cfg));
    let mut events = Events::none();
    enemy_hits_player(&mut w, cfg, &mut events);
    assert_eq!(w.ents[0].health.current, 9);
}

#[test]
fn pickup_radius_is_strict() {
    let cfg = SimConfig::standard();
    let mut w = world_with_player(&cfg);
    let mut near = Ent::base(EntityKind::Gem, v(74_000, 0));
    near.xp_value = 3;
    let mut edge = Ent::base(EntityKind::Gem, v(75_000, 0));
    edge.xp_value = 5;
    w.ents.push(near);
    w.ents.push(edge);
    let mut xp = XP(0);
    pickup_xp_gem(&mut w, cfg, &mut xp);
    // Only the gem strictly inside 75 units is collected, exactly and
    // immediately.
    assert_eq!(xp.0, 3);
    assert_eq!(w.despawns.len(), 1);
    assert_eq!(w.despawns[0], 1);
}

#[test]
fn far_enemies_are_culled() {
    let cfg = SimConfig::standard();
    let mut w = world_with_player(&cfg);
    w.ents.push(prepare_enemy(v(2_000_000, 0), &cfg));
    w.ents.push(prepare_enemy(v(2_000_001, 0), &cfg));
    despawn_far_away_enemies(&mut w, cfg);
    // Strictly farther than 2000 units only.
    assert_eq!(w.despawns.len(), 1);
    assert_eq!(w.despawns[0], 2);
}

#[test]
fn firing_spawns_a_bullet_and_respects_cooldown() {
    let cfg = SimConfig::standard();
    let mut w = world_with_player(&cfg);
    let mut cooldown = Timer::done();
    let aim = MouseWorldCoords(v(100_000, 0));
    fire_main(&mut w, cfg, &mut cooldown, true, aim);
    assert_eq!(w.spawns.len(), 1);
    let b = w.spawns[0];
    assert_eq!(b.kind, EntityKind::Bullet);
    // The bullet starts at the weapon's offset along the aim direction
    // and flies at 500 * 250 milliunits per tick.
    assert_eq!(b.pos, v(52_000, 0));
    assert_eq!(b.spawn_location, v(52_000, 0));
    assert_eq!(b.vel, v(125_000, 0));
    // The cooldown was rewound: an immediate second pull fires nothing.
    fire_main(&mut w, cfg, &mut cooldown, true, aim);
    assert_eq!(w.spawns.len(), 1);
}

#[test]
fn bullets_despawn_beyond_weapon_range() {
    let cfg = SimConfig::standard();
    let mut w = World::new();
    let mut b = Ent::base(EntityKind::Bullet, v(0, 0));
    b.pos = v(700_001, 0);
    w.ents.push(b);
    let mut keep = Ent::base(EntityKind::Bullet, v(0, 0));
    keep.pos = v(700_000, 0);
    w.ents.push(keep);
    despawn_bullets(&mut w, cfg);
    assert_eq!(w.despawns.len(), 1);
    assert_eq!(w.despawns[0], 0);
}

#[test]
fn rift_spawns_exactly_its_quota_then_closes() {
    let cfg = SimConfig::standard();
    let mut w = World::new();
    let mut rift = Ent::base(EntityKind::Rift, v(300_000, 0));
    rift.quota = cfg.rift_quota;
    rift.spawn_timer = Timer::repeating(cfg.rift_spawn_interval_ms);
    w.ents.push(rift);
    for expected in 1..=5u32 {
        spawn_enemies(&mut w, cfg, cfg.rift_spawn_interval_ms);
        assert_eq!(w.spawns.len() as u32, expected);
        assert_eq!(w.ents[0].quota, cfg.rift_quota - expected);
    }
    // Every released enemy appears at the rift's position.
    for e in w.spawns.iter() {
        assert_eq!(e.kind, EntityKind::Enemy);
        assert_eq!(e.pos, v(300_000, 0));
    }
    // Quota spent: further fires release nothing and the quota is
    // clamped, never negative.
    spawn_enemies(&mut w, cfg, cfg.rift_spawn_interval_ms);
    assert_eq!(w.spawns.len(), 5);
    assert_eq!(w.ents[0].quota, 0);
    destroy_rift(&mut w, cfg);
    assert_eq!(w.despawns.len(), 1);
    w.apply_commands();
    assert!(!w.ents[0].alive);
}

#[test]
fn double_despawn_is_a_no_op() {
    let cfg = SimConfig::standard();
    let mut w = World::new();
    w.ents.push(prepare_enemy(v(0, 0), &cfg));
    w.queue_despawn(0);
    w.queue_despawn(0);
    w.apply_commands();
    assert_eq!(w.ents.len(), 1);
    assert!(!w.ents[0].alive);
}

#[test]
fn timer_edges() {
    let mut t = Timer::repeating(2000);
    assert!(!t.tick(1999));
    assert_eq!(t.remaining_ms, 1);
    // The fire is an edge, and a repeating timer rewinds to its period.
    assert!(t.tick(250));
    assert_eq!(t.remaining_ms, 2000);
    let mut once = Timer::once(1000);
    assert!(once.tick(1000));
    // A spent one-shot timer never fires again.
    assert!(!once.tick(1000));
    assert_eq!(once.remaining_ms, 0);
}
