//! Rift portals: the timer-driven wave spawner.
//!
//! A global timer opens one rift per fire at a point on a circle around
//! the player; each rift's own timer then releases one enemy per fire
//! until the rift's quota is spent, after which the rift is despawned.

use vstd::prelude::*;
use vstd::arithmetic::div_mod::{lemma_div_is_ordered, lemma_div_multiples_vanish};
use crate::config::SimConfig;
use crate::enemy::{lemma_ids_where_bounds, prepare_enemy, spec_enemy};
use crate::geom::{step_pos, Vec2i};
use crate::rng::rand_below;
use crate::timer::Timer;
use crate::world::{ent_wf, ids_where, EntityKind, Ent, World};

verus! {

/// The scaled sine approximation on [0, 180] degrees: a rational in
/// thousandths whose value never leaves [0, 1000].
pub open spec fn spec_sin_milli(d: int) -> int {
    4000 * (d * (180 - d)) / (40500 - d * (180 - d))
}

/// Computes the thousandths-scaled sine of an angle in [0, 180] degrees.
pub fn sin_milli(d: u32) -> (r: u64)
    requires
        d <= 180,
    ensures
        r == spec_sin_milli(d as int),
        r <= 1000,
{
    proof {
        assert(0 <= (d as int) * (180 - d as int) <= 8100) by (nonlinear_arith)
            requires
                0 <= d as int <= 180,
        ;
    }
    let u: u64 = (d as u64) * (180 - d as u64);
    let num: u64 = 4000 * u;
    let den: u64 = 40500 - u;
    let q = num / den;
    proof {
        assert(num <= 1000 * den);
        lemma_div_is_ordered(num as int, (1000 * den) as int, den as int);
        lemma_div_multiples_vanish(1000, den as int);
        assert((den as int) * 1000 / (den as int) == 1000);
        assert((1000 * den) as int == (den as int) * 1000);
    }
    q
}

/// The y component of the point at angle `a` on the circle of radius `r`:
/// the radius scaled by the sine, in milliunits.
pub open spec fn spec_sin_scaled(a: int, r: int) -> int {
    if a <= 180 {
        r * spec_sin_milli(a) / 1000
    } else {
        -(r * spec_sin_milli(a - 180) / 1000)
    }
}

/// The x component uses the shifted angle.
pub open spec fn spec_cos_scaled(a: int, r: int) -> int {
    spec_sin_scaled((a + 90) % 360, r)
}

/// The point at angle `a` degrees on the circle of radius `r` around the
/// origin.
pub open spec fn spec_circle_point(a: int, r: int) -> Vec2i {
    Vec2i { x: spec_cos_scaled(a, r) as i64, y: spec_sin_scaled(a, r) as i64 }
}

fn sin_scaled(a: u32, r: i64) -> (v: i64)
    requires
        a < 360,
        0 <= r <= crate::geom::VEL_LIMIT,
    ensures
        v == spec_sin_scaled(a as int, r as int),
        -r <= v <= r,
{
    let (m, neg): (u64, bool) = if a <= 180 {
        (sin_milli(a), false)
    } else {
        (sin_milli(a - 180), true)
    };
    proof {
        assert((r as int) * (m as int) <= (r as int) * 1000) by (nonlinear_arith)
            requires
                0 <= m as int <= 1000,
                r >= 0,
        ;
        assert((r as int) * (m as int) >= 0) by (nonlinear_arith)
            requires
                m as int >= 0,
                r >= 0,
        ;
        assert((r as int) * 1000 <= 10_000_000_000) by (nonlinear_arith)
            requires
                0 <= r as int <= 10_000_000,
        ;
    }
    let p: u64 = ((r as u64) * m) / 1000;
    proof {
        lemma_div_is_ordered((r as int) * (m as int), (r as int) * 1000, 1000);
        lemma_div_multiples_vanish(r as int, 1000);
        assert(1000 * (r as int) / 1000 == r as int);
        assert((r as int) * 1000 == 1000 * (r as int));
    }
    if neg {
        -(p as i64)
    } else {
        p as i64
    }
}

/// Computes the point at angle `a` degrees on the circle of radius `r`
/// around the origin, for a point drawn uniformly over the circle's
/// discretised circumference.
pub fn point_on_circle(a: u32, r: i64) -> (p: Vec2i)
    requires
        a < 360,
        0 <= r <= crate::geom::VEL_LIMIT,
    ensures
        p == spec_circle_point(a as int, r as int),
        -r <= p.x <= r,
        -r <= p.y <= r,
        crate::geom::small_vel(p),
{
    let y = sin_scaled(a, r);
    let x = sin_scaled((a + 90) % 360, r);
    Vec2i { x, y }
}

/// A freshly opened rift: on the spawn circle around `player_pos`, with
/// the full enemy quota and its own fresh spawn timer.
pub open spec fn spec_rift(player_pos: Vec2i, a: int, cfg: SimConfig) -> Ent {
    Ent {
        half: cfg.rift_half,
        quota: cfg.rift_quota,
        spawn_timer: Timer::spec_repeating(cfg.rift_spawn_interval_ms),
        ..Ent::spec_base(
            EntityKind::Rift,
            step_pos(player_pos, spec_circle_point(a, cfg.rift_radius as int)),
        )
    }
}

/// The global rift timer, fresh for a new run.
pub fn setup_rift_spawning(cfg: &SimConfig) -> (t: Timer)
    requires
        cfg.wf(),
    ensures
        t == Timer::spec_repeating(cfg.rift_interval_ms),
        t.wf(),
{
    Timer::repeating(cfg.rift_interval_ms)
}

/// Opens one rift at the given angle of the spawn circle around the
/// player.
pub fn spawn_rift_at(w: &mut World, cfg: SimConfig, a: u32)
    requires
        old(w).wf(cfg),
        cfg.wf(),
        old(w).player_ok(),
        a < 360,
    ensures
        final(w).ents@ == old(w).ents@,
        final(w).despawns@ == old(w).despawns@,
        final(w).player == old(w).player,
        final(w).spawns@ == old(w).spawns@.push(spec_rift(old(w).player_ent().pos, a as int, cfg)),
        final(w).wf(cfg),
        final(w).player_ok(),
{
    let ppos = w.ents[w.player].pos;
    proof {
        assert(ent_wf(old(w).ents@[old(w).player as int], cfg));
    }
    let offset = point_on_circle(a, cfg.rift_radius);
    let pos = crate::geom::advance_pos(ppos, offset);
    let rift = Ent {
        half: cfg.rift_half,
        quota: cfg.rift_quota,
        spawn_timer: Timer::repeating(cfg.rift_spawn_interval_ms),
        ..Ent::base(EntityKind::Rift, pos)
    };
    w.queue_spawn(rift);
}

/// The rift spawner: advances the global rift timer and, on a fire, opens
/// one rift at a random point drawn uniformly on the spawn circle around
/// the player.  Which point comes up is not promised -- only that the new
/// rift sits on the circle at some angle.
pub fn spawn_rift(w: &mut World, cfg: SimConfig, timer: &mut Timer, dt_ms: u32)
    requires
        old(w).wf(cfg),
        cfg.wf(),
        old(w).player_ok(),
    ensures
        *final(timer) == old(timer).spec_tick(dt_ms),
        old(timer).wf() ==> final(timer).wf(),
        final(w).ents@ == old(w).ents@,
        final(w).despawns@ == old(w).despawns@,
        final(w).player == old(w).player,
        !old(timer).spec_fires(dt_ms) ==> final(w).spawns@ == old(w).spawns@,
        old(timer).spec_fires(dt_ms) ==> exists|a: int|
            0 <= a < 360 && final(w).spawns@ == old(w).spawns@.push(
                spec_rift(old(w).player_ent().pos, a, cfg),
            ),
        final(w).wf(cfg),
        final(w).player_ok(),
{
    let fired = timer.tick(dt_ms);
    if fired {
        let a = rand_below(360);
        spawn_rift_at(w, cfg, a);
    }
}

/// A live rift whose spawn timer fires this tick with quota remaining.
pub open spec fn rift_fires(e: Ent, dt_ms: u32) -> bool {
    &&& e.alive
    &&& e.kind == EntityKind::Rift
    &&& e.spawn_timer.spec_fires(dt_ms)
    &&& e.quota > 0
}

/// The rift after one spawner step: its timer advances, and its quota
/// drops by one exactly when an enemy was released -- the quota never
/// goes below zero.
pub open spec fn rift_stepped(e: Ent, dt_ms: u32) -> Ent {
    if e.alive && e.kind == EntityKind::Rift {
        Ent {
            spawn_timer: e.spawn_timer.spec_tick(dt_ms),
            quota: if rift_fires(e, dt_ms) {
                (e.quota - 1) as u32
            } else {
                e.quota
            },
            ..e
        }
    } else {
        e
    }
}

/// The enemies released this tick by the rifts below `n`, in index order.
pub open spec fn rift_spawn_list(s: Seq<Ent>, n: int, dt_ms: u32, cfg: SimConfig) -> Seq<Ent>
    decreases n,
{
    if n <= 0 {
        Seq::empty()
    } else {
        let prev = rift_spawn_list(s, n - 1, dt_ms, cfg);
        if rift_fires(s[n - 1], dt_ms) {
            prev.push(spec_enemy(s[n - 1].pos, cfg))
        } else {
            prev
        }
    }
}

/// The per-rift spawner: advances each live rift's own timer and, on each
/// fire with quota remaining, releases one enemy at the rift's position
/// and decrements the quota by exactly one.
pub fn spawn_enemies(w: &mut World, cfg: SimConfig, dt_ms: u32)
    requires
        old(w).wf(cfg),
        cfg.wf(),
    ensures
        final(w).ents@.len() == old(w).ents@.len(),
        forall|i: int|
            0 <= i < old(w).ents@.len() ==> final(w).ents@[i] == rift_stepped(
                #[trigger] old(w).ents@[i],
                dt_ms,
            ),
        final(w).despawns@ == old(w).despawns@,
        final(w).player == old(w).player,
        final(w).spawns@ == old(w).spawns@ + rift_spawn_list(
            old(w).ents@,
            old(w).ents@.len() as int,
            dt_ms,
            cfg,
        ),
        final(w).wf(cfg),
{
    let n = w.ents.len();
    let mut i: usize = 0;
    while i < n
        invariant
            cfg.wf(),
            old(w).wf(cfg),
            i <= n,
            n == w.ents@.len(),
            n == old(w).ents@.len(),
            w.despawns@ == old(w).despawns@,
            w.player == old(w).player,
            w.spawns@ == old(w).spawns@ + rift_spawn_list(old(w).ents@, i as int, dt_ms, cfg),
            forall|j: int|
                0 <= j < i ==> w.ents@[j] == rift_stepped(#[trigger] old(w).ents@[j], dt_ms),
            forall|j: int| i <= j < n ==> w.ents@[j] == #[trigger] old(w).ents@[j],
            forall|j: int| 0 <= j < n ==> ent_wf(#[trigger] w.ents@[j], cfg),
            forall|j: int|
                0 <= j < w.spawns@.len() ==> ent_wf(#[trigger] w.spawns@[j], cfg),
            forall|j: int|
                0 <= j < w.spawns@.len() ==> (#[trigger] w.spawns@[j]).knockback is None,
        decreases n - i,
    {
        let e = w.ents[i];
        proof {
            assert(ent_wf(old(w).ents@[i as int], cfg));
        }
        let ghost pre_spawns = w.spawns@;
        if e.alive && matches!(e.kind, EntityKind::Rift) {
            let mut t = e.spawn_timer;
            let fired = t.tick(dt_ms);
            let mut q = e.quota;
            if fired && q > 0 {
                let enemy = prepare_enemy(e.pos, &cfg);
                w.queue_spawn(enemy);
                q = q - 1;
            }
            w.ents[i] = Ent { spawn_timer: t, quota: q, ..e };
        }
        proof {
            assert(rift_spawn_list(old(w).ents@, i + 1, dt_ms, cfg) == if rift_fires(
                old(w).ents@[i as int],
                dt_ms,
            ) {
                rift_spawn_list(old(w).ents@, i as int, dt_ms, cfg).push(
                    spec_enemy(old(w).ents@[i as int].pos, cfg),
                )
            } else {
                rift_spawn_list(old(w).ents@, i as int, dt_ms, cfg)
            });
            if rift_fires(old(w).ents@[i as int], dt_ms) {
                assert(old(w).spawns@ + rift_spawn_list(old(w).ents@, i + 1, dt_ms, cfg) =~= (old(
                    w,
                ).spawns@ + rift_spawn_list(old(w).ents@, i as int, dt_ms, cfg)).push(
                    spec_enemy(old(w).ents@[i as int].pos, cfg),
                ));
            }
        }
        i = i + 1;
    }
}

/// A live rift whose quota is spent.
pub open spec fn is_exhausted(e: Ent) -> bool {
    &&& e.alive
    &&& e.kind == EntityKind::Rift
    &&& e.quota == 0
}

/// Queues a despawn for every rift whose quota has reached zero.
pub fn destroy_rift(w: &mut World, cfg: SimConfig)
    requires
        old(w).wf(cfg),
        cfg.wf(),
    ensures
        final(w).ents@ == old(w).ents@,
        final(w).spawns@ == old(w).spawns@,
        final(w).player == old(w).player,
        final(w).despawns@ == old(w).despawns@ + ids_where(
            old(w).ents@,
            old(w).ents@.len() as int,
            |e: Ent| is_exhausted(e),
        ),
        forall|k: usize|
            #[trigger] final(w).despawns@.contains(k) <==> old(w).despawns@.contains(k) || ((
            k as int) < old(w).ents@.len() && is_exhausted(old(w).ents@[k as int])),
        final(w).wf(cfg),
{
    let ghost f = |e: Ent| is_exhausted(e);
    let n = w.ents.len();
    let mut i: usize = 0;
    while i < n
        invariant
            cfg.wf(),
            old(w).wf(cfg),
            i <= n,
            n == w.ents@.len(),
            w.ents@ == old(w).ents@,
            w.spawns@ == old(w).spawns@,
            w.player == old(w).player,
            f == (|e: Ent| is_exhausted(e)),
            w.despawns@ == old(w).despawns@ + ids_where(old(w).ents@, i as int, f),
        decreases n - i,
    {
        let e = w.ents[i];
        if e.alive && matches!(e.kind, EntityKind::Rift) && e.quota == 0 {
            w.queue_despawn(i);
        }
        proof {
            assert(ids_where(old(w).ents@, i + 1, f) == if f(old(w).ents@[i as int]) {
                ids_where(old(w).ents@, i as int, f).push(i)
            } else {
                ids_where(old(w).ents@, i as int, f)
            });
            if f(old(w).ents@[i as int]) {
                assert(old(w).despawns@ + ids_where(old(w).ents@, i + 1, f) =~= (old(w).despawns@
                    + ids_where(old(w).ents@, i as int, f)).push(i));
            }
        }
        i = i + 1;
    }
    proof {
        lemma_ids_where_bounds(old(w).ents@, n as int, f);
        assert forall|j: int| 0 <= j < final(w).despawns@.len() implies (
        #[trigger] final(w).despawns@[j]) < final(w).ents@.len() by {
            if j >= old(w).despawns@.len() {
                assert(final(w).despawns@[j] == ids_where(old(w).ents@, n as int, f)[j - old(
                    w,
                ).despawns@.len()]);
            }
        }
        assert forall|k: usize| #[trigger] final(w).despawns@.contains(k) <==> old(
            w,
        ).despawns@.contains(k) || ((k as int) < old(w).ents@.len() && is_exhausted(
            old(w).ents@[k as int],
        )) by {
            crate::enemy::lemma_despawn_membership(old(w).despawns@, old(w).ents@, n as int, f, k);
        }
    }
}

/// A rift after a whole run of spawner ticks, and how many enemies the
/// run released.
pub open spec fn rift_run(e: Ent, dts: Seq<u32>) -> Ent
    decreases dts.len(),
{
    if dts.len() == 0 {
        e
    } else {
        rift_stepped(rift_run(e, dts.take(dts.len() - 1)), dts[dts.len() - 1])
    }
}

pub open spec fn rift_spawn_count(e: Ent, dts: Seq<u32>) -> nat
    decreases dts.len(),
{
    if dts.len() == 0 {
        0
    } else {
        rift_spawn_count(e, dts.take(dts.len() - 1)) + (if rift_fires(
            rift_run(e, dts.take(dts.len() - 1)),
            dts[dts.len() - 1],
        ) {
            1 as nat
        } else {
            0 as nat
        })
    }
}

/// Quota conservation: over any run of spawner ticks, the enemies a rift
/// has released plus its remaining quota equal its initial quota.  The
/// quota is decremented only on an actual spawn and can never go below
/// zero, so a rift with quota N releases exactly N enemies before
/// `destroy_rift` removes it.
pub proof fn lemma_rift_quota_conservation(e: Ent, dts: Seq<u32>)
    requires
        e.alive,
        e.kind == EntityKind::Rift,
    ensures
        rift_run(e, dts).quota + rift_spawn_count(e, dts) == e.quota,
        rift_spawn_count(e, dts) <= e.quota,
        rift_run(e, dts).alive,
        rift_run(e, dts).kind == EntityKind::Rift,
    decreases dts.len(),
{
    if dts.len() > 0 {
        lemma_rift_quota_conservation(e, dts.take(dts.len() - 1));
    }
}

} // verus!
