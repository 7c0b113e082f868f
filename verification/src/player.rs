//! The player: setup, movement input, the main weapon, contact damage,
//! invulnerability and gem pickup.

use vstd::prelude::*;
use crate::components::Health;
use crate::config::SimConfig;
use crate::enemy::hit_target;
use crate::events::{Events, PlayerHealthChanged};
use crate::geom::{
    dist2, dist2_exec, in_world, lemma_square_bound, scaled_dir, scaled_vec, step_pos, Vec2i,
};
use crate::resources::{MouseWorldCoords, XP};
use crate::timer::Timer;
use crate::world::{ent_wf, ids_where, EntityKind, Ent, World};

verus! {

/// The freshly spawned player: at the origin, at full health, with the
/// configured collider and move speed.
pub open spec fn spec_player(cfg: SimConfig) -> Ent {
    Ent {
        half: cfg.player_half,
        health: Health::spec_full(cfg.player_max_health),
        move_speed: cfg.spec_step(cfg.player_speed) as i64,
        ..Ent::spec_base(EntityKind::Player, Vec2i::spec_zero())
    }
}

/// Spawns the player into the table, records its index, and announces the
/// fresh full health.
pub fn setup_player(w: &mut World, cfg: &SimConfig, events: &mut Events)
    requires
        cfg.wf(),
    ensures
        final(w).ents@ == old(w).ents@.push(spec_player(*cfg)),
        final(w).player == old(w).ents@.len(),
        final(w).despawns@ == old(w).despawns@,
        final(w).spawns@ == old(w).spawns@,
        final(w).player_ok(),
        old(w).wf(*cfg) ==> final(w).wf(*cfg),
        final(events).health_changed@ == old(events).health_changed@.push(
            PlayerHealthChanged { current: cfg.player_max_health, max: cfg.player_max_health },
        ),
        final(events).player_dies == old(events).player_dies,
{
    let speed = cfg.step_of(cfg.player_speed);
    let player = Ent {
        half: cfg.player_half,
        health: Health::full(cfg.player_max_health),
        move_speed: speed,
        ..Ent::base(EntityKind::Player, Vec2i::zero())
    };
    w.player = w.ents.len();
    w.ents.push(player);
    events.health_changed.push(
        PlayerHealthChanged { current: cfg.player_max_health, max: cfg.player_max_health },
    );
}

/// The player's velocity for this tick's movement intent: the intent
/// vector rescaled to the player's move speed; a zero intent gives a zero
/// velocity, so an idle tick produces no drift.
pub open spec fn intent_vel(p: Ent, ix: int, iy: int) -> Vec2i {
    scaled_vec(ix * 1000, iy * 1000, p.move_speed as int)
}

/// Movement input: sets the player's velocity from the per-tick movement
/// intent.  A player in knockback keeps the forced velocity instead.
pub fn player_input(w: &mut World, cfg: SimConfig, ix: i64, iy: i64)
    requires
        old(w).wf(cfg),
        cfg.wf(),
        old(w).player_ok(),
        -1 <= ix <= 1,
        -1 <= iy <= 1,
    ensures
        final(w).ents@ == if old(w).player_ent().knockback is None {
            old(w).ents@.update(
                old(w).player as int,
                Ent {
                    vel: intent_vel(old(w).player_ent(), ix as int, iy as int),
                    ..old(w).player_ent()
                },
            )
        } else {
            old(w).ents@
        },
        final(w).despawns@ == old(w).despawns@,
        final(w).spawns@ == old(w).spawns@,
        final(w).player == old(w).player,
        final(w).wf(cfg),
        final(w).player_ok(),
        ix == 0 && iy == 0 && (old(w).player_ent().knockback is None)
            ==> final(w).player_ent().vel == Vec2i::spec_zero(),
{
    let p = w.ents[w.player];
    proof {
        assert(ent_wf(old(w).ents@[old(w).player as int], cfg));
    }
    if p.knockback.is_none() {
        let v = scaled_dir(Vec2i { x: ix * 1000, y: iy * 1000 }, p.move_speed);
        w.ents[w.player] = Ent { vel: v, ..p };
    }
}

/// The player after a contact hit: one point of damage and a fresh
/// invulnerability window.
pub open spec fn player_hit(p: Ent, cfg: SimConfig) -> Ent {
    Ent {
        health: p.health.spec_damaged(),
        invulnerable: Some(Timer::spec_once(cfg.invuln_ms)),
        ..p
    }
}

/// Some live enemy overlaps the player.
pub open spec fn any_enemy_overlap(s: Seq<Ent>, p: Ent) -> bool {
    exists|i: int| 0 <= i < s.len() && hit_target(#[trigger] s[i], p)
}

/// Contact damage: if the player has no active invulnerability window and
/// overlaps at least one live enemy, the player takes exactly one point of
/// damage, a fresh invulnerability window starts, and the health change is
/// announced.  The player is hit at most once per tick however many
/// enemies overlap; during an active window overlaps do nothing.
pub fn enemy_hits_player(w: &mut World, cfg: SimConfig, events: &mut Events)
    requires
        old(w).wf(cfg),
        cfg.wf(),
        old(w).player_ok(),
    ensures
        final(w).ents@ == if old(w).player_ent().invulnerable is None && any_enemy_overlap(
            old(w).ents@,
            old(w).player_ent(),
        ) {
            old(w).ents@.update(old(w).player as int, player_hit(old(w).player_ent(), cfg))
        } else {
            old(w).ents@
        },
        final(events).health_changed@ == if old(w).player_ent().invulnerable is None
            && any_enemy_overlap(old(w).ents@, old(w).player_ent()) {
            old(events).health_changed@.push(
                PlayerHealthChanged {
                    current: player_hit(old(w).player_ent(), cfg).health.current,
                    max: old(w).player_ent().health.max,
                },
            )
        } else {
            old(events).health_changed@
        },
        final(events).player_dies == old(events).player_dies,
        final(w).despawns@ == old(w).despawns@,
        final(w).spawns@ == old(w).spawns@,
        final(w).player == old(w).player,
        final(w).wf(cfg),
        final(w).player_ok(),
{
    let p = w.ents[w.player];
    proof {
        assert(ent_wf(old(w).ents@[old(w).player as int], cfg));
    }
    if p.invulnerable.is_some() {
        return ;
    }
    let n = w.ents.len();
    let mut j: usize = 0;
    let mut found = false;
    while j < n
        invariant
            cfg.wf(),
            old(w).wf(cfg),
            old(w).player_ok(),
            j <= n,
            n == w.ents@.len(),
            w.ents@ == old(w).ents@,
            w.despawns@ == old(w).despawns@,
            w.spawns@ == old(w).spawns@,
            w.player == old(w).player,
            p == old(w).player_ent(),
            found == exists|k: int| 0 <= k < j && hit_target(#[trigger] old(w).ents@[k], p),
        decreases n - j,
    {
        if !found {
            let e = w.ents[j];
            proof {
                assert(ent_wf(old(w).ents@[j as int], cfg));
            }
            if e.alive && matches!(e.kind, EntityKind::Enemy) && crate::geom::overlap_exec(
                p.pos,
                p.half,
                e.pos,
                e.half,
            ) {
                found = true;
            }
        }
        j = j + 1;
    }
    if found {
        let hit = Ent {
            health: p.health.damaged(),
            invulnerable: Some(Timer::once(cfg.invuln_ms)),
            ..p
        };
        w.ents[w.player] = hit;
        events.health_changed.push(
            PlayerHealthChanged { current: hit.health.current, max: p.health.max },
        );
    }
}

/// The entity after its invulnerability countdown advances: once the
/// window is spent the marker is removed.
pub open spec fn invuln_ticked(e: Ent, dt_ms: u32) -> Ent {
    if e.invulnerable is Some {
        let t = e.invulnerable.unwrap().spec_tick(dt_ms);
        if t.remaining_ms == 0 {
            Ent { invulnerable: None, ..e }
        } else {
            Ent { invulnerable: Some(t), ..e }
        }
    } else {
        e
    }
}

/// Invulnerability countdown: advances every active window by the tick
/// duration and removes the ones that expire.
pub fn countdown_invulnerability(w: &mut World, cfg: SimConfig, dt_ms: u32)
    requires
        old(w).wf(cfg),
        cfg.wf(),
    ensures
        final(w).ents@.len() == old(w).ents@.len(),
        forall|i: int|
            0 <= i < old(w).ents@.len() ==> final(w).ents@[i] == invuln_ticked(
                #[trigger] old(w).ents@[i],
                dt_ms,
            ),
        final(w).despawns@ == old(w).despawns@,
        final(w).spawns@ == old(w).spawns@,
        final(w).player == old(w).player,
        final(w).wf(cfg),
{
    let n = w.ents.len();
    let mut i: usize = 0;
    while i < n
        invariant
            cfg.wf(),
            old(w).wf(cfg),
            i <= n,
            n == w.ents@.len(),
            n == old(w).ents@.len(),
            w.despawns@ == old(w).despawns@,
            w.spawns@ == old(w).spawns@,
            w.player == old(w).player,
            forall|j: int|
                0 <= j < i ==> w.ents@[j] == invuln_ticked(#[trigger] old(w).ents@[j], dt_ms),
            forall|j: int| i <= j < n ==> w.ents@[j] == #[trigger] old(w).ents@[j],
            forall|j: int| 0 <= j < n ==> ent_wf(#[trigger] w.ents@[j], cfg),
        decreases n - i,
    {
        let e = w.ents[i];
        proof {
            assert(ent_wf(old(w).ents@[i as int], cfg));
        }
        if let Some(mut t) = e.invulnerable {
            t.tick(dt_ms);
            if t.finished() {
                w.ents[i] = Ent { invulnerable: None, ..e };
            } else {
                w.ents[i] = Ent { invulnerable: Some(t), ..e };
            }
        }
        i = i + 1;
    }
}

/// While the player's invulnerability window is active, contact with
/// enemies causes no health loss at all: `enemy_hits_player` leaves the
/// world untouched whenever the window marker is present.  This lemma
/// states the other half: the window expires exactly when its countdown
/// is spent, and the first hit after expiry costs exactly one health
/// point and restarts a full window.
pub proof fn lemma_invulnerability_window(p: Ent, dt_ms: u32, cfg: SimConfig)
    requires
        p.invulnerable is Some,
        p.health.current > i64::MIN,
    ensures
        p.invulnerable.unwrap().spec_tick(dt_ms).remaining_ms == 0 ==> (invuln_ticked(
            p,
            dt_ms,
        ).invulnerable is None),
        p.invulnerable.unwrap().spec_tick(dt_ms).remaining_ms != 0 ==> invuln_ticked(
            p,
            dt_ms,
        ).invulnerable == Some(p.invulnerable.unwrap().spec_tick(dt_ms)),
        player_hit(invuln_ticked(p, dt_ms), cfg).health.current == p.health.current - 1,
        player_hit(invuln_ticked(p, dt_ms), cfg).invulnerable == Some(
            Timer::spec_once(cfg.invuln_ms),
        ),
{
}

/// A live gem strictly inside the pickup radius around the player.
pub open spec fn is_picked(e: Ent, player_pos: Vec2i, cfg: SimConfig) -> bool {
    &&& e.alive
    &&& e.kind == EntityKind::Gem
    &&& dist2(player_pos, e.pos) < cfg.pickup_radius * cfg.pickup_radius
}

/// The summed value of the gems below `n` strictly inside the pickup
/// radius around the player.
pub open spec fn picked_xp_sum(s: Seq<Ent>, n: int, player_pos: Vec2i, cfg: SimConfig) -> nat
    decreases n,
{
    if n <= 0 {
        0
    } else {
        picked_xp_sum(s, n - 1, player_pos, cfg) + (if is_picked(s[n - 1], player_pos, cfg) {
            s[n - 1].xp_value as nat
        } else {
            0 as nat
        })
    }
}

/// Addition on a counter that sticks at the machine maximum.
pub open spec fn sat_add_u64(a: u64, b: nat) -> u64 {
    if a + b <= u64::MAX {
        (a + b) as u64
    } else {
        u64::MAX
    }
}

/// Pickup economy: every gem strictly inside the pickup radius is queued
/// for despawn and its full value added to the experience total, exactly
/// and immediately.
pub fn pickup_xp_gem(w: &mut World, cfg: SimConfig, xp: &mut XP)
    requires
        old(w).wf(cfg),
        cfg.wf(),
        old(w).player_ok(),
    ensures
        final(w).ents@ == old(w).ents@,
        final(w).spawns@ == old(w).spawns@,
        final(w).player == old(w).player,
        final(w).despawns@ == old(w).despawns@ + ids_where(
            old(w).ents@,
            old(w).ents@.len() as int,
            |e: Ent| is_picked(e, old(w).player_ent().pos, cfg),
        ),
        forall|k: usize|
            #[trigger] final(w).despawns@.contains(k) <==> old(w).despawns@.contains(k) || ((
            k as int) < old(w).ents@.len() && is_picked(
                old(w).ents@[k as int],
                old(w).player_ent().pos,
                cfg,
            )),
        final(xp).0 == sat_add_u64(
            old(xp).0,
            picked_xp_sum(
                old(w).ents@,
                old(w).ents@.len() as int,
                old(w).player_ent().pos,
                cfg,
            ),
        ),
        final(w).wf(cfg),
        final(w).player_ok(),
{
    let ghost f = |e: Ent| is_picked(e, old(w).player_ent().pos, cfg);
    let player_position = w.ents[w.player].pos;
    proof {
        lemma_square_bound(cfg.pickup_radius as int, 100_000_000);
        assert(ent_wf(old(w).ents@[old(w).player as int], cfg));
    }
    let radius2 = cfg.pickup_radius * cfg.pickup_radius;
    let n = w.ents.len();
    let mut i: usize = 0;
    while i < n
        invariant
            cfg.wf(),
            old(w).wf(cfg),
            old(w).player_ok(),
            i <= n,
            n == w.ents@.len(),
            w.ents@ == old(w).ents@,
            w.spawns@ == old(w).spawns@,
            w.player == old(w).player,
            player_position == old(w).player_ent().pos,
            radius2 == cfg.pickup_radius * cfg.pickup_radius,
            f == (|e: Ent| is_picked(e, old(w).player_ent().pos, cfg)),
            w.despawns@ == old(w).despawns@ + ids_where(old(w).ents@, i as int, f),
            xp.0 == sat_add_u64(
                old(xp).0,
                picked_xp_sum(old(w).ents@, i as int, old(w).player_ent().pos, cfg),
            ),
        decreases n - i,
    {
        let e = w.ents[i];
        proof {
            assert(ent_wf(old(w).ents@[i as int], cfg));
        }
        if e.alive && matches!(e.kind, EntityKind::Gem) {
            let d2 = dist2_exec(player_position, e.pos);
            if d2 < radius2 {
                w.queue_despawn(i);
                if xp.0 <= u64::MAX - e.xp_value {
                    xp.0 = xp.0 + e.xp_value;
                } else {
                    xp.0 = u64::MAX;
                }
            }
        }
        proof {
            assert(ids_where(old(w).ents@, i + 1, f) == if f(old(w).ents@[i as int]) {
                ids_where(old(w).ents@, i as int, f).push(i)
            } else {
                ids_where(old(w).ents@, i as int, f)
            });
            if f(old(w).ents@[i as int]) {
                assert(old(w).despawns@ + ids_where(old(w).ents@, i + 1, f) =~= (old(w).despawns@
                    + ids_where(old(w).ents@, i as int, f)).push(i));
            }
            assert(picked_xp_sum(old(w).ents@, i + 1, old(w).player_ent().pos, cfg)
                == picked_xp_sum(old(w).ents@, i as int, old(w).player_ent().pos, cfg) + (
            if is_picked(old(w).ents@[i as int], old(w).player_ent().pos, cfg) {
                old(w).ents@[i as int].xp_value as nat
            } else {
                0 as nat
            }));
        }
        i = i + 1;
    }
    proof {
        crate::enemy::lemma_ids_where_bounds(old(w).ents@, n as int, f);
        assert forall|j: int| 0 <= j < final(w).despawns@.len() implies (
        #[trigger] final(w).despawns@[j]) < final(w).ents@.len() by {
            if j >= old(w).despawns@.len() {
                assert(final(w).despawns@[j] == ids_where(old(w).ents@, n as int, f)[j - old(
                    w,
                ).despawns@.len()]);
            }
        }
        assert forall|k: usize| #[trigger] final(w).despawns@.contains(k) <==> old(
            w,
        ).despawns@.contains(k) || ((k as int) < old(w).ents@.len() && is_picked(
            old(w).ents@[k as int],
            old(w).player_ent().pos,
            cfg,
        )) by {
            crate::enemy::lemma_despawn_membership(old(w).despawns@, old(w).ents@, n as int, f, k);
        }
    }
}

/// The bullet fired from the player toward the aim point: it starts at
/// the weapon's offset along the aim direction and flies at the bullet
/// speed in that direction, remembering where it was fired.
pub open spec fn spec_bullet(ppos: Vec2i, aim: Vec2i, cfg: SimConfig) -> Ent {
    let dx = aim.x - ppos.x;
    let dy = aim.y - ppos.y;
    let bpos = step_pos(ppos, scaled_vec(dx, dy, cfg.weapon_offset as int));
    Ent {
        half: cfg.bullet_half,
        vel: scaled_vec(dx, dy, cfg.spec_step(cfg.bullet_speed)),
        ..Ent::spec_base(EntityKind::Bullet, bpos)
    }
}

/// The trigger is pressed, the cooldown is spent, and the aim point sits
/// outside the dead zone around the player.
pub open spec fn can_fire(p: Ent, cooldown: Timer, fire: bool, aim: Vec2i, cfg: SimConfig) -> bool {
    &&& fire
    &&& cooldown.remaining_ms == 0
    &&& dist2(aim, p.pos) >= cfg.aim_deadzone * cfg.aim_deadzone
}

/// The main weapon: on a pressed trigger with a spent cooldown and a
/// usable aim direction, queues one bullet toward the aim point and
/// rewinds the cooldown; otherwise changes nothing.
pub fn fire_main(
    w: &mut World,
    cfg: SimConfig,
    cooldown: &mut Timer,
    fire: bool,
    aim: MouseWorldCoords,
)
    requires
        old(w).wf(cfg),
        cfg.wf(),
        old(w).player_ok(),
        in_world(aim.0),
    ensures
        final(w).ents@ == old(w).ents@,
        final(w).despawns@ == old(w).despawns@,
        final(w).player == old(w).player,
        final(w).spawns@ == if can_fire(old(w).player_ent(), *old(cooldown), fire, aim.0, cfg) {
            old(w).spawns@.push(spec_bullet(old(w).player_ent().pos, aim.0, cfg))
        } else {
            old(w).spawns@
        },
        *final(cooldown) == if can_fire(old(w).player_ent(), *old(cooldown), fire, aim.0, cfg) {
            Timer::spec_once(cfg.cooldown_ms)
        } else {
            *old(cooldown)
        },
        final(w).wf(cfg),
        final(w).player_ok(),
{
    let p = w.ents[w.player];
    proof {
        assert(ent_wf(old(w).ents@[old(w).player as int], cfg));
        lemma_square_bound(cfg.aim_deadzone as int, 100_000_000);
        cfg.lemma_step_bounds(cfg.bullet_speed);
    }
    if !fire {
        return ;
    }
    if !cooldown.finished() {
        return ;
    }
    let d2 = dist2_exec(aim.0, p.pos);
    if d2 < cfg.aim_deadzone * cfg.aim_deadzone {
        return ;
    }
    let d = Vec2i { x: aim.0.x - p.pos.x, y: aim.0.y - p.pos.y };
    let offset = scaled_dir(d, cfg.weapon_offset);
    let bpos = crate::geom::advance_pos(p.pos, offset);
    let bstep = cfg.step_of(cfg.bullet_speed);
    let bvel = scaled_dir(d, bstep);
    let bullet = Ent {
        half: cfg.bullet_half,
        vel: bvel,
        ..Ent::base(EntityKind::Bullet, bpos)
    };
    w.queue_spawn(bullet);
    *cooldown = Timer::once(cfg.cooldown_ms);
}

/// Advances the main weapon's cooldown by the tick duration.
pub fn tick_weapon_cooldown(cooldown: &mut Timer, dt_ms: u32)
    ensures
        *final(cooldown) == old(cooldown).spec_tick(dt_ms),
        old(cooldown).wf() ==> final(cooldown).wf(),
{
    cooldown.tick(dt_ms);
}

/// A live bullet strictly farther from where it was fired than the weapon
/// range.
pub open spec fn is_spent(e: Ent, cfg: SimConfig) -> bool {
    &&& e.alive
    &&& e.kind == EntityKind::Bullet
    &&& dist2(e.spawn_location, e.pos) > cfg.weapon_range * cfg.weapon_range
}

/// Range limit: queues a despawn for every bullet that has flown farther
/// from its spawn point than the weapon range.
pub fn despawn_bullets(w: &mut World, cfg: SimConfig)
    requires
        old(w).wf(cfg),
        cfg.wf(),
    ensures
        final(w).ents@ == old(w).ents@,
        final(w).spawns@ == old(w).spawns@,
        final(w).player == old(w).player,
        final(w).despawns@ == old(w).despawns@ + ids_where(
            old(w).ents@,
            old(w).ents@.len() as int,
            |e: Ent| is_spent(e, cfg),
        ),
        forall|k: usize|
            #[trigger] final(w).despawns@.contains(k) <==> old(w).despawns@.contains(k) || ((
            k as int) < old(w).ents@.len() && is_spent(old(w).ents@[k as int], cfg)),
        final(w).wf(cfg),
{
    let ghost f = |e: Ent| is_spent(e, cfg);
    proof {
        lemma_square_bound(cfg.weapon_range as int, 100_000_000);
    }
    let range2 = cfg.weapon_range * cfg.weapon_range;
    let n = w.ents.len();
    let mut i: usize = 0;
    while i < n
        invariant
            cfg.wf(),
            old(w).wf(cfg),
            i <= n,
            n == w.ents@.len(),
            w.ents@ == old(w).ents@,
            w.spawns@ == old(w).spawns@,
            w.player == old(w).player,
            range2 == cfg.weapon_range * cfg.weapon_range,
            f == (|e: Ent| is_spent(e, cfg)),
            w.despawns@ == old(w).despawns@ + ids_where(old(w).ents@, i as int, f),
        decreases n - i,
    {
        let e = w.ents[i];
        proof {
            assert(ent_wf(old(w).ents@[i as int], cfg));
        }
        if e.alive && matches!(e.kind, EntityKind::Bullet) {
            let d2 = dist2_exec(e.spawn_location, e.pos);
            if d2 > range2 {
                w.queue_despawn(i);
            }
        }
        proof {
            assert(ids_where(old(w).ents@, i + 1, f) == if f(old(w).ents@[i as int]) {
                ids_where(old(w).ents@, i as int, f).push(i)
            } else {
                ids_where(old(w).ents@, i as int, f)
            });
            if f(old(w).ents@[i as int]) {
                assert(old(w).despawns@ + ids_where(old(w).ents@, i + 1, f) =~= (old(w).despawns@
                    + ids_where(old(w).ents@, i as int, f)).push(i));
            }
        }
        i = i + 1;
    }
    proof {
        crate::enemy::lemma_ids_where_bounds(old(w).ents@, n as int, f);
        assert forall|j: int| 0 <= j < final(w).despawns@.len() implies (
        #[trigger] final(w).despawns@[j]) < final(w).ents@.len() by {
            if j >= old(w).despawns@.len() {
                assert(final(w).despawns@[j] == ids_where(old(w).ents@, n as int, f)[j - old(
                    w,
                ).despawns@.len()]);
            }
        }
        assert forall|k: usize| #[trigger] final(w).despawns@.contains(k) <==> old(
            w,
        ).despawns@.contains(k) || ((k as int) < old(w).ents@.len() && is_spent(
            old(w).ents@[k as int],
            cfg,
        )) by {
            crate::enemy::lemma_despawn_membership(old(w).despawns@, old(w).ents@, n as int, f, k);
        }
    }
}

} // verus!
