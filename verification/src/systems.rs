//! World-wide per-tick systems: movement integration, knockback-state
//! transition, and death resolution.

use vstd::prelude::*;
use crate::config::SimConfig;
use crate::enemy::{drop_on_dead, spec_gem};
use crate::geom::{
    dist2, dist2_exec, in_world, lemma_clamp_sq_le, lemma_overshoot, lemma_square_bound,
    lemma_sq_mono, step_pos, Vec2i, POS_LIMIT,
};
use crate::resources::Score;
use crate::rng::rand_below;
use crate::world::{all_kb_within, ent_wf, ids_where, kb_within, EntityKind, Ent, World};

verus! {

/// The entity after one movement integration step: a live entity advances
/// by its velocity (clamped to the world boundary), a despawned one stays
/// put.
pub open spec fn moved(e: Ent) -> Ent {
    if e.alive {
        Ent { pos: step_pos(e.pos, e.vel), ..e }
    } else {
        e
    }
}

/// Movement integrator: every entity advances by its per-tick velocity.
/// Runs before collision detection, so combat sees post-movement
/// positions.  Velocities are untouched: a tick whose input set the
/// player's velocity to zero leaves the player exactly where it was.
pub fn move_all(w: &mut World, cfg: SimConfig)
    requires
        old(w).wf(cfg),
        cfg.wf(),
    ensures
        final(w).ents@.len() == old(w).ents@.len(),
        forall|i: int|
            0 <= i < old(w).ents@.len() ==> final(w).ents@[i] == moved(#[trigger] old(
                w,
            ).ents@[i]),
        final(w).despawns@ == old(w).despawns@,
        final(w).spawns@ == old(w).spawns@,
        final(w).player == old(w).player,
        final(w).wf(cfg),
        all_kb_within(old(w).ents@, 0) ==> all_kb_within(
            final(w).ents@,
            2 * cfg.spec_step(cfg.knockback_speed),
        ),
{
    let n = w.ents.len();
    let mut i: usize = 0;
    while i < n
        invariant
            cfg.wf(),
            old(w).wf(cfg),
            i <= n,
            n == w.ents@.len(),
            n == old(w).ents@.len(),
            w.player == old(w).player,
            w.despawns@ == old(w).despawns@,
            w.spawns@ == old(w).spawns@,
            forall|j: int| 0 <= j < i ==> w.ents@[j] == moved(#[trigger] old(w).ents@[j]),
            forall|j: int| i <= j < n ==> w.ents@[j] == #[trigger] old(w).ents@[j],
        decreases n - i,
    {
        let e = w.ents[i];
        proof {
            assert(e == old(w).ents@[i as int]);
            assert(ent_wf(old(w).ents@[i as int], cfg));
        }
        if e.alive {
            let p = crate::geom::advance_pos(e.pos, e.vel);
            w.ents[i] = Ent { pos: p, ..e };
        }
        i = i + 1;
    }
    proof {
        assert forall|j: int| 0 <= j < final(w).ents@.len() implies ent_wf(
            #[trigger] final(w).ents@[j],
            cfg,
        ) by {
            assert(final(w).ents@[j] == moved(old(w).ents@[j]));
        }
        if all_kb_within(old(w).ents@, 0) {
            let s = cfg.spec_step(cfg.knockback_speed);
            cfg.lemma_step_bounds(cfg.knockback_speed);
            assert forall|j: int| 0 <= j < final(w).ents@.len() implies kb_within(
                #[trigger] final(w).ents@[j],
                2 * s,
            ) by {
                let e0 = old(w).ents@[j];
                let e1 = final(w).ents@[j];
                assert(e1 == moved(e0));
                assert(kb_within(e0, 0));
                if e1.knockback is Some {
                    let kb = e1.knockback.unwrap();
                    assert(e0.knockback == Some(kb));
                    assert(ent_wf(e0, cfg));
                    assert((kb.distance + 0) * (kb.distance + 0) == kb.distance * kb.distance);
                    if e0.alive {
                        let vx = e0.vel.x as int;
                        let vy = e0.vel.y as int;
                        lemma_square_bound(vx, s);
                        lemma_square_bound(vy, s);
                        assert(vx * vx + vy * vy <= (2 * s) * (2 * s)) by (nonlinear_arith)
                            requires
                                vx * vx <= s * s,
                                vy * vy <= s * s,
                                s >= 0,
                        ;
                        lemma_overshoot(
                            e0.pos.x as int,
                            e0.pos.y as int,
                            kb.start_position.x as int,
                            kb.start_position.y as int,
                            vx,
                            vy,
                            kb.distance as int,
                            2 * s,
                        );
                        lemma_clamp_sq_le(
                            e0.pos.x + vx,
                            kb.start_position.x as int,
                            -POS_LIMIT as int,
                            POS_LIMIT as int,
                        );
                        lemma_clamp_sq_le(
                            e0.pos.y + vy,
                            kb.start_position.y as int,
                            -POS_LIMIT as int,
                            POS_LIMIT as int,
                        );
                    } else {
                        assert(kb.distance * kb.distance <= (kb.distance + 2 * s) * (kb.distance
                            + 2 * s)) by (nonlinear_arith)
                            requires
                                kb.distance >= 0,
                                s >= 0,
                        ;
                    }
                }
            }
        }
    }
}

/// The entity after the knockback-state transition: once the displacement
/// from the captured origin reaches or exceeds the threshold, the
/// knockback is removed and the velocity reset to zero, returning control
/// to normal steering next tick.
pub open spec fn kb_resolved(e: Ent) -> Ent {
    if e.knockback is Some {
        let kb = e.knockback.unwrap();
        if dist2(e.pos, kb.start_position) >= kb.distance * kb.distance {
            Ent { knockback: None, vel: Vec2i::spec_zero(), ..e }
        } else {
            e
        }
    } else {
        e
    }
}

/// Knockback physics: ends every knockback whose displacement from its
/// captured origin has reached the threshold, and only those.
pub fn handle_knockback(w: &mut World, cfg: SimConfig)
    requires
        old(w).wf(cfg),
        cfg.wf(),
    ensures
        final(w).ents@.len() == old(w).ents@.len(),
        forall|i: int|
            0 <= i < old(w).ents@.len() ==> final(w).ents@[i] == kb_resolved(
                #[trigger] old(w).ents@[i],
            ),
        final(w).despawns@ == old(w).despawns@,
        final(w).spawns@ == old(w).spawns@,
        final(w).player == old(w).player,
        final(w).wf(cfg),
        all_kb_within(final(w).ents@, 0),
{
    let n = w.ents.len();
    let mut i: usize = 0;
    while i < n
        invariant
            cfg.wf(),
            old(w).wf(cfg),
            i <= n,
            n == w.ents@.len(),
            n == old(w).ents@.len(),
            w.player == old(w).player,
            w.despawns@ == old(w).despawns@,
            w.spawns@ == old(w).spawns@,
            forall|j: int| 0 <= j < i ==> w.ents@[j] == kb_resolved(#[trigger] old(w).ents@[j]),
            forall|j: int| i <= j < n ==> w.ents@[j] == #[trigger] old(w).ents@[j],
        decreases n - i,
    {
        let e = w.ents[i];
        proof {
            assert(e == old(w).ents@[i as int]);
            assert(ent_wf(old(w).ents@[i as int], cfg));
        }
        if let Some(kb) = e.knockback {
            proof {
                lemma_square_bound(kb.distance as int, 100_000_000);
            }
            let d2 = dist2_exec(e.pos, kb.start_position);
            if d2 >= kb.distance * kb.distance {
                w.ents[i] = Ent { knockback: None, vel: Vec2i::zero(), ..e };
            }
        }
        i = i + 1;
    }
    proof {
        assert forall|j: int| 0 <= j < final(w).ents@.len() implies ent_wf(
            #[trigger] final(w).ents@[j],
            cfg,
        ) && kb_within(final(w).ents@[j], 0) by {
            assert(old(w).wf(cfg));
            assert(ent_wf(old(w).ents@[j], cfg));
            assert(final(w).ents@[j] == kb_resolved(old(w).ents@[j]));
        }
    }
}

/// A live combatant whose health has dropped to zero or below.
pub open spec fn is_dead_unit(e: Ent) -> bool {
    &&& e.alive
    &&& (e.kind == EntityKind::Enemy || e.kind == EntityKind::Player)
    &&& e.health.spec_dead()
}

pub open spec fn is_dead_enemy(e: Ent) -> bool {
    is_dead_unit(e) && e.kind == EntityKind::Enemy
}

pub open spec fn is_dead_player(e: Ent) -> bool {
    is_dead_unit(e) && e.kind == EntityKind::Player
}

/// How many live enemies below `n` are dead on their feet: health at or
/// below zero, awaiting death resolution.
pub open spec fn dead_enemy_count(s: Seq<Ent>, n: int) -> nat
    decreases n,
{
    if n <= 0 {
        0
    } else {
        dead_enemy_count(s, n - 1) + (if is_dead_enemy(s[n - 1]) {
            1 as nat
        } else {
            0 as nat
        })
    }
}

/// Addition on a counter that sticks at the machine maximum.
pub open spec fn sat_add(a: u64, b: nat) -> u64 {
    if a + b <= u64::MAX {
        (a + b) as u64
    } else {
        u64::MAX
    }
}

/// A gem queued by death resolution matches some dead enemy of the tick.
pub open spec fn gem_of_some_dead(g: Ent, s: Seq<Ent>, cfg: SimConfig) -> bool {
    exists|i: int|
        0 <= i < s.len() && is_dead_enemy(#[trigger] s[i]) && g == spec_gem(
            s[i].pos,
            s[i].xp_value,
            cfg,
        )
}

/// Death resolution.  Every live combatant with health at or below zero
/// is queued for despawn within the same tick.  A dead enemy raises the
/// score by exactly one (saturating only at the machine maximum) and, with
/// the configured probability, queues an experience gem at its last
/// position carrying its experience value.  A dead player raises the
/// player-died notification instead.
pub fn die(w: &mut World, cfg: SimConfig, score: &mut Score) -> (died: bool)
    requires
        old(w).wf(cfg),
        cfg.wf(),
    ensures
        final(w).ents@ == old(w).ents@,
        final(w).player == old(w).player,
        final(w).despawns@ == old(w).despawns@ + ids_where(
            old(w).ents@,
            old(w).ents@.len() as int,
            |e: Ent| is_dead_unit(e),
        ),
        forall|k: usize|
            #[trigger] final(w).despawns@.contains(k) <==> old(w).despawns@.contains(k) || ((
            k as int) < old(w).ents@.len() && is_dead_unit(old(w).ents@[k as int])),
        final(score).0 == sat_add(
            old(score).0,
            dead_enemy_count(old(w).ents@, old(w).ents@.len() as int),
        ),
        died == exists|i: int|
            0 <= i < old(w).ents@.len() && is_dead_player(#[trigger] old(w).ents@[i]),
        old(w).spawns@.len() <= final(w).spawns@.len(),
        forall|k: int|
            0 <= k < old(w).spawns@.len() ==> final(w).spawns@[k] == #[trigger] old(w).spawns@[k],
        forall|k: int|
            old(w).spawns@.len() <= k < final(w).spawns@.len() ==> gem_of_some_dead(
                #[trigger] final(w).spawns@[k],
                old(w).ents@,
                cfg,
            ),
        final(w).spawns@.len() - old(w).spawns@.len() <= dead_enemy_count(
            old(w).ents@,
            old(w).ents@.len() as int,
        ),
        final(w).wf(cfg),
{
    let ghost fdead = |e: Ent| is_dead_unit(e);
    let ghost fenemy = |e: Ent| is_dead_enemy(e);
    let n = w.ents.len();
    let mut i: usize = 0;
    let mut died = false;
    while i < n
        invariant
            cfg.wf(),
            old(w).wf(cfg),
            i <= n,
            n == w.ents@.len(),
            w.ents@ == old(w).ents@,
            w.player == old(w).player,
            fdead == (|e: Ent| is_dead_unit(e)),
            fenemy == (|e: Ent| is_dead_enemy(e)),
            w.despawns@ == old(w).despawns@ + ids_where(old(w).ents@, i as int, fdead),
            forall|j: int|
                0 <= j < w.despawns@.len() ==> (#[trigger] w.despawns@[j]) < n,
            score.0 == sat_add(old(score).0, dead_enemy_count(old(w).ents@, i as int)),
            died == exists|k: int|
                0 <= k < i && is_dead_player(#[trigger] old(w).ents@[k]),
            old(w).spawns@.len() <= w.spawns@.len(),
            forall|k: int|
                0 <= k < old(w).spawns@.len() ==> w.spawns@[k] == #[trigger] old(w).spawns@[k],
            forall|k: int|
                old(w).spawns@.len() <= k < w.spawns@.len() ==> gem_of_some_dead(
                    #[trigger] w.spawns@[k],
                    old(w).ents@,
                    cfg,
                ),
            w.spawns@.len() - old(w).spawns@.len() <= dead_enemy_count(old(w).ents@, i as int),
            forall|k: int| 0 <= k < w.spawns@.len() ==> ent_wf(#[trigger] w.spawns@[k], cfg),
            forall|k: int|
                0 <= k < w.spawns@.len() ==> (#[trigger] w.spawns@[k]).knockback is None,
        decreases n - i,
    {
        let e = w.ents[i];
        proof {
            assert(ent_wf(old(w).ents@[i as int], cfg));
        }
        let ghost pre_spawns = w.spawns@;
        if e.alive && (matches!(e.kind, EntityKind::Enemy) || matches!(
            e.kind,
            EntityKind::Player,
        )) && e.health.current <= 0 {
            w.queue_despawn(i);
            if matches!(e.kind, EntityKind::Enemy) {
                if score.0 < u64::MAX {
                    score.0 = score.0 + 1;
                }
                let roll = rand_below(100);
                drop_on_dead(w, e.pos, e.xp_value, roll, &cfg);
                proof {
                    if roll < cfg.gem_drop_percent {
                        assert(w.spawns@ == pre_spawns.push(
                            spec_gem(e.pos, e.xp_value, cfg),
                        ));
                        assert(is_dead_enemy(old(w).ents@[i as int]));
                        assert(gem_of_some_dead(spec_gem(e.pos, e.xp_value, cfg), old(w).ents@, cfg));
                        assert(ent_wf(spec_gem(e.pos, e.xp_value, cfg), cfg));
                    }
                }
            } else {
                died = true;
            }
        }
        proof {
            assert(ids_where(old(w).ents@, i + 1, fdead) == if fdead(old(w).ents@[i as int]) {
                ids_where(old(w).ents@, i as int, fdead).push(i)
            } else {
                ids_where(old(w).ents@, i as int, fdead)
            });
            if fdead(old(w).ents@[i as int]) {
                assert(old(w).despawns@ + ids_where(old(w).ents@, i + 1, fdead) =~= (old(
                    w,
                ).despawns@ + ids_where(old(w).ents@, i as int, fdead)).push(i));
            }
            assert(dead_enemy_count(old(w).ents@, i + 1) == dead_enemy_count(
                old(w).ents@,
                i as int,
            ) + (if is_dead_enemy(old(w).ents@[i as int]) {
                1 as nat
            } else {
                0 as nat
            }));
        }
        i = i + 1;
    }
    proof {
        assert forall|k: usize| #[trigger] w.despawns@.contains(k) <==> old(
            w,
        ).despawns@.contains(k) || ((k as int) < old(w).ents@.len() && is_dead_unit(
            old(w).ents@[k as int],
        )) by {
            crate::enemy::lemma_despawn_membership(
                old(w).despawns@,
                old(w).ents@,
                n as int,
                fdead,
                k,
            );
        }
    }
    died
}

/// An enemy whose health has dropped to zero or below when death
/// resolution runs is in the despawn queue it builds, and is no longer
/// live once the tick boundary applies that queue.  When it is the only
/// dead enemy, the score rises by exactly one.  Whether its gem drops is
/// decided per enemy by the configured probability (see `drop_on_dead`).
pub proof fn lemma_dead_enemy_resolved(s: Seq<Ent>, d: Seq<usize>, i: int)
    requires
        0 <= i < s.len(),
        s.len() <= usize::MAX,
        is_dead_enemy(s[i]),
    ensures
        ids_where(s, s.len() as int, |e: Ent| is_dead_unit(e)).contains(i as usize),
        !crate::world::killed_seq(
            s,
            d + ids_where(s, s.len() as int, |e: Ent| is_dead_unit(e)),
        )[i].alive,
        dead_enemy_count(s, s.len() as int) >= 1,
        (forall|k: int| 0 <= k < s.len() && k != i ==> !is_dead_enemy(#[trigger] s[k]))
            ==> dead_enemy_count(s, s.len() as int) == 1,
{
    let fdead = |e: Ent| is_dead_unit(e);
    crate::enemy::lemma_ids_where_contains(s, s.len() as int, fdead, i);
    crate::world::lemma_concat_contains(d, ids_where(s, s.len() as int, fdead), i as usize);
    lemma_dead_enemy_count_unique(s, s.len() as int, i);
}

/// One dead enemy makes the count positive; with no other dead enemy it
/// is exactly one.
pub proof fn lemma_dead_enemy_count_unique(s: Seq<Ent>, n: int, i: int)
    requires
        0 <= i < n <= s.len(),
        is_dead_enemy(s[i]),
    ensures
        dead_enemy_count(s, n) >= 1,
        (forall|k: int| 0 <= k < n && k != i ==> !is_dead_enemy(#[trigger] s[k]))
            ==> dead_enemy_count(s, n) == 1,
    decreases n,
{
    if i == n - 1 {
        lemma_dead_enemy_count_skip(s, n - 1, i);
    } else {
        lemma_dead_enemy_count_unique(s, n - 1, i);
    }
}

/// With no dead enemy below `n` other than possibly `skip`, the count
/// below `n` is zero.
proof fn lemma_dead_enemy_count_skip(s: Seq<Ent>, n: int, skip: int)
    requires
        n <= s.len(),
    ensures
        (forall|k: int| 0 <= k < n && k != skip ==> !is_dead_enemy(#[trigger] s[k])) && (skip >= n
            || !is_dead_enemy(s[skip])) ==> dead_enemy_count(s, n) == 0,
    decreases n,
{
    if n > 0 {
        lemma_dead_enemy_count_skip(s, n - 1, skip);
    }
}

} // verus!
