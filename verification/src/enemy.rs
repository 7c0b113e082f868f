//! Enemies: spawning data, steering, projectile combat, culling and gem
//! drops.

use vstd::prelude::*;
use crate::components::{Health, Knockback};
use crate::config::SimConfig;
use crate::geom::{
    aabb_overlap, dist2, dist2_exec, in_world, lemma_square_bound, overlap_exec, scaled_dir,
    scaled_vec, Vec2i,
};
use crate::world::{ent_wf, ids_where, EntityKind, Ent, World};

verus! {

/// A freshly spawned enemy at the given location.
pub open spec fn spec_enemy(location: Vec2i, cfg: SimConfig) -> Ent {
    Ent {
        half: cfg.enemy_half,
        health: Health::spec_full(cfg.enemy_max_health),
        move_speed: cfg.spec_step(cfg.enemy_speed) as i64,
        xp_value: cfg.enemy_xp,
        ..Ent::spec_base(EntityKind::Enemy, location)
    }
}

/// Builds the component bundle of a new enemy.
pub fn prepare_enemy(location: Vec2i, cfg: &SimConfig) -> (e: Ent)
    requires
        in_world(location),
        cfg.wf(),
    ensures
        e == spec_enemy(location, *cfg),
        ent_wf(e, *cfg),
{
    let speed = cfg.step_of(cfg.enemy_speed);
    Ent {
        half: cfg.enemy_half,
        health: Health::full(cfg.enemy_max_health),
        move_speed: speed,
        xp_value: cfg.enemy_xp,
        ..Ent::base(EntityKind::Enemy, location)
    }
}

/// An experience gem dropped at a death location.
pub open spec fn spec_gem(location: Vec2i, xp: u64, cfg: SimConfig) -> Ent {
    Ent { half: cfg.gem_half, xp_value: xp, ..Ent::spec_base(EntityKind::Gem, location) }
}

/// Death loot: queues an experience gem at the death location exactly when
/// the percent roll clears the configured drop rate.
pub fn drop_on_dead(w: &mut World, location: Vec2i, xp: u64, roll: u32, cfg: &SimConfig)
    requires
        in_world(location),
        cfg.wf(),
    ensures
        final(w).ents@ == old(w).ents@,
        final(w).despawns@ == old(w).despawns@,
        final(w).player == old(w).player,
        final(w).spawns@ == if roll < cfg.gem_drop_percent {
            old(w).spawns@.push(spec_gem(location, xp, *cfg))
        } else {
            old(w).spawns@
        },
        old(w).wf(*cfg) ==> final(w).wf(*cfg),
{
    if roll < cfg.gem_drop_percent {
        let gem = Ent { half: cfg.gem_half, xp_value: xp, ..Ent::base(EntityKind::Gem, location) };
        w.queue_spawn(gem);
    }
}

/// The enemy after one steering step: a live enemy not in knockback heads
/// for the target at its move speed; an enemy exactly on the target keeps
/// a zero velocity rather than an undefined direction.
pub open spec fn steered(e: Ent, target: Vec2i) -> Ent {
    if e.alive && e.kind == EntityKind::Enemy && e.knockback is None {
        Ent { vel: scaled_vec(target.x - e.pos.x, target.y - e.pos.y, e.move_speed as int), ..e }
    } else {
        e
    }
}

/// Enemy steering: every live enemy outside knockback turns toward the
/// player.  Entities in knockback are excluded, so their forced velocity
/// is never overwritten.
pub fn move_towards_player_when_not_knockback(w: &mut World, cfg: SimConfig)
    requires
        old(w).wf(cfg),
        cfg.wf(),
        old(w).player_ok(),
    ensures
        final(w).ents@.len() == old(w).ents@.len(),
        forall|i: int|
            0 <= i < old(w).ents@.len() ==> final(w).ents@[i] == steered(
                #[trigger] old(w).ents@[i],
                old(w).player_ent().pos,
            ),
        final(w).despawns@ == old(w).despawns@,
        final(w).spawns@ == old(w).spawns@,
        final(w).player == old(w).player,
        final(w).wf(cfg),
{
    let target = w.ents[w.player].pos;
    let n = w.ents.len();
    let mut i: usize = 0;
    while i < n
        invariant
            cfg.wf(),
            old(w).wf(cfg),
            i <= n,
            n == w.ents@.len(),
            n == old(w).ents@.len(),
            old(w).player_ok(),
            target == old(w).player_ent().pos,
            w.player == old(w).player,
            w.despawns@ == old(w).despawns@,
            w.spawns@ == old(w).spawns@,
            forall|j: int|
                0 <= j < i ==> w.ents@[j] == steered(#[trigger] old(w).ents@[j], target),
            forall|j: int| i <= j < n ==> w.ents@[j] == #[trigger] old(w).ents@[j],
            forall|j: int| 0 <= j < n ==> ent_wf(#[trigger] w.ents@[j], cfg),
        decreases n - i,
    {
        let e = w.ents[i];
        proof {
            assert(e == old(w).ents@[i as int]);
            assert(ent_wf(old(w).ents@[i as int], cfg));
            assert(ent_wf(old(w).ents@[old(w).player as int], cfg));
        }
        if e.alive && matches!(e.kind, EntityKind::Enemy) && e.knockback.is_none() {
            let d = Vec2i { x: target.x - e.pos.x, y: target.y - e.pos.y };
            let v = scaled_dir(d, e.move_speed);
            w.ents[i] = Ent { vel: v, ..e };
        }
        i = i + 1;
    }
}

/// A live enemy overlapping the given collider.
pub open spec fn hit_target(e: Ent, b: Ent) -> bool {
    &&& e.alive
    &&& e.kind == EntityKind::Enemy
    &&& aabb_overlap(b.pos, b.half, e.pos, e.half)
}

/// The smallest enemy index at or above `j` that the bullet overlaps.
pub open spec fn first_enemy_hit_from(s: Seq<Ent>, b: Ent, j: int) -> Option<int>
    decreases s.len() - j,
{
    if j < 0 || j >= s.len() {
        None
    } else if hit_target(s[j], b) {
        Some(j)
    } else {
        first_enemy_hit_from(s, b, j + 1)
    }
}

/// The enemy after a bullet hit: one point of damage, and a knockback
/// whose velocity is the bullet's direction rescaled to the knockback
/// speed, whose origin is the enemy's current position, and whose
/// threshold is the configured knockback distance.
pub open spec fn hit_enemy(e: Ent, b: Ent, cfg: SimConfig) -> Ent {
    let kv = scaled_vec(b.vel.x as int, b.vel.y as int, cfg.spec_step(cfg.knockback_speed));
    Ent {
        health: e.health.spec_damaged(),
        knockback: Some(
            Knockback { velocity: kv, start_position: e.pos, distance: cfg.knockback_distance },
        ),
        vel: kv,
        ..e
    }
}

/// The world after one bullet is resolved: a live bullet that overlaps at
/// least one live enemy damages and knocks back the first such enemy and
/// is queued for despawn; any other bullet changes nothing.
pub open spec fn bullet_step(s: Seq<Ent>, d: Seq<usize>, bi: int, cfg: SimConfig) -> (Seq<Ent>, Seq<
    usize,
>) {
    let b = s[bi];
    if b.alive && b.kind == EntityKind::Bullet {
        if first_enemy_hit_from(s, b, 0) is Some {
            let e = first_enemy_hit_from(s, b, 0).unwrap();
            (s.update(e, hit_enemy(s[e], b, cfg)), d.push(bi as usize))
        } else {
            (s, d)
        }
    } else {
        (s, d)
    }
}

/// All bullets below `n` resolved in index order.
pub open spec fn bullet_pass(s: Seq<Ent>, d: Seq<usize>, n: int, cfg: SimConfig) -> (Seq<Ent>, Seq<
    usize,
>)
    decreases n,
{
    if n <= 0 {
        (s, d)
    } else {
        let prev = bullet_pass(s, d, n - 1, cfg);
        bullet_step(prev.0, prev.1, n - 1, cfg)
    }
}

/// A projectile overlapping exactly one enemy always: queues the
/// projectile for despawn, decrements that enemy's health by exactly one,
/// and attaches a knockback whose origin is the enemy's position before
/// the knockback, whose velocity is the projectile's direction rescaled
/// to the knockback speed, and whose threshold is the configured
/// knockback distance.  No other entity changes.
pub proof fn lemma_single_hit(s: Seq<Ent>, d: Seq<usize>, bi: int, e: int, cfg: SimConfig)
    requires
        0 <= bi < s.len(),
        0 <= e < s.len(),
        s[bi].alive,
        s[bi].kind == EntityKind::Bullet,
        hit_target(s[e], s[bi]),
        forall|k: int| 0 <= k < s.len() && k != e ==> !hit_target(#[trigger] s[k], s[bi]),
        s[e].health.current > i64::MIN,
    ensures
        bullet_step(s, d, bi, cfg).1 == d.push(bi as usize),
        bullet_step(s, d, bi, cfg).0[e].health.current == s[e].health.current - 1,
        bullet_step(s, d, bi, cfg).0[e].health.max == s[e].health.max,
        bullet_step(s, d, bi, cfg).0[e].knockback == Some(
            Knockback {
                velocity: scaled_vec(
                    s[bi].vel.x as int,
                    s[bi].vel.y as int,
                    cfg.spec_step(cfg.knockback_speed),
                ),
                start_position: s[e].pos,
                distance: cfg.knockback_distance,
            },
        ),
        forall|k: int| 0 <= k < s.len() && k != e ==> bullet_step(s, d, bi, cfg).0[k] == s[k],
{
    lemma_first_hit_prefix(s, s[bi], e);
    assert(first_enemy_hit_from(s, s[bi], e) == Some(e));
}

/// If nothing below `j` is hit, the first hit from `0` is the first hit
/// from `j`.
proof fn lemma_first_hit_prefix(s: Seq<Ent>, b: Ent, j: int)
    requires
        0 <= j <= s.len(),
        forall|k: int| 0 <= k < j ==> !hit_target(#[trigger] s[k], b),
    ensures
        first_enemy_hit_from(s, b, 0) == first_enemy_hit_from(s, b, j),
    decreases j,
{
    if j > 0 {
        lemma_first_hit_prefix(s, b, j - 1);
    }
}

/// Projectile combat: each live bullet, in index order, is tested against
/// the live enemies; the first overlapped enemy takes one damage and the
/// knockback, and the bullet is queued for despawn.
pub fn bullet_hit_enemy(w: &mut World, cfg: SimConfig)
    requires
        old(w).wf(cfg),
        cfg.wf(),
    ensures
        final(w).ents@ == bullet_pass(
            old(w).ents@,
            old(w).despawns@,
            old(w).ents@.len() as int,
            cfg,
        ).0,
        final(w).despawns@ == bullet_pass(
            old(w).ents@,
            old(w).despawns@,
            old(w).ents@.len() as int,
            cfg,
        ).1,
        final(w).ents@.len() == old(w).ents@.len(),
        final(w).spawns@ == old(w).spawns@,
        final(w).player == old(w).player,
        final(w).wf(cfg),
{
    let ghost s0 = w.ents@;
    let ghost d0 = w.despawns@;
    let n = w.ents.len();
    let mut bi: usize = 0;
    while bi < n
        invariant
            cfg.wf(),
            bi <= n,
            n == w.ents@.len(),
            n == s0.len(),
            w.ents@ == bullet_pass(s0, d0, bi as int, cfg).0,
            w.despawns@ == bullet_pass(s0, d0, bi as int, cfg).1,
            w.spawns@ == old(w).spawns@,
            w.player == old(w).player,
            forall|j: int| 0 <= j < n ==> ent_wf(#[trigger] w.ents@[j], cfg),
            forall|j: int|
                0 <= j < w.despawns@.len() ==> (#[trigger] w.despawns@[j]) < n,
        decreases n - bi,
    {
        let ghost s_i = w.ents@;
        let ghost d_i = w.despawns@;
        let b = w.ents[bi];
        if b.alive && matches!(b.kind, EntityKind::Bullet) {
            let mut j: usize = 0;
            let mut hit_idx: Option<usize> = None;
            while j < n
                invariant
                    cfg.wf(),
                    j <= n,
                    bi < n,
                    n == w.ents@.len(),
                    w.ents@ == s_i,
                    w.despawns@ == d_i,
                    w.spawns@ == old(w).spawns@,
                    w.player == old(w).player,
                    b == s_i[bi as int],
                    forall|k: int| 0 <= k < n ==> ent_wf(#[trigger] s_i[k], cfg),
                    hit_idx is None ==> forall|k: int|
                        0 <= k < j ==> !hit_target(#[trigger] s_i[k], b),
                    hit_idx matches Some(t) ==> first_enemy_hit_from(s_i, b, 0) == Some(t as int)
                        && t < n,
                decreases n - j,
            {
                if hit_idx.is_none() {
                    let e = w.ents[j];
                    proof {
                        assert(ent_wf(s_i[j as int], cfg));
                        assert(ent_wf(s_i[bi as int], cfg));
                    }
                    if e.alive && matches!(e.kind, EntityKind::Enemy) && overlap_exec(
                        b.pos,
                        b.half,
                        e.pos,
                        e.half,
                    ) {
                        hit_idx = Some(j);
                        proof {
                            lemma_first_hit_prefix(s_i, b, j as int);
                        }
                    }
                }
                j = j + 1;
            }
            if let Some(t) = hit_idx {
                let e = w.ents[t];
                proof {
                    assert(ent_wf(s_i[t as int], cfg));
                    cfg.lemma_step_bounds(cfg.knockback_speed);
                }
                let kstep = cfg.step_of(cfg.knockback_speed);
                let kv = scaled_dir(b.vel, kstep);
                let kb = Knockback {
                    velocity: kv,
                    start_position: e.pos,
                    distance: cfg.knockback_distance,
                };
                let damaged = Ent {
                    health: e.health.damaged(),
                    knockback: Some(kb),
                    vel: kv,
                    ..e
                };
                w.ents[t] = damaged;
                w.queue_despawn(bi);
                proof {
                    assert(first_enemy_hit_from(s_i, b, 0) == Some(t as int));
                    assert(damaged == hit_enemy(s_i[t as int], b, cfg));
                    assert(w.ents@ == bullet_step(s_i, d_i, bi as int, cfg).0);
                    assert(w.despawns@ == bullet_step(s_i, d_i, bi as int, cfg).1);
                }
            } else {
                proof {
                    lemma_first_hit_prefix(s_i, b, n as int);
                    assert(first_enemy_hit_from(s_i, b, 0) is None);
                    assert(w.ents@ == bullet_step(s_i, d_i, bi as int, cfg).0);
                }
            }
        } else {
            proof {
                assert(w.ents@ == bullet_step(s_i, d_i, bi as int, cfg).0);
            }
        }
        proof {
            assert(bullet_pass(s0, d0, bi + 1, cfg).0 == bullet_step(s_i, d_i, bi as int, cfg).0);
            assert(bullet_pass(s0, d0, bi + 1, cfg).1 == bullet_step(s_i, d_i, bi as int, cfg).1);
        }
        bi = bi + 1;
    }
}

/// A live enemy strictly farther from the player than the cull distance.
pub open spec fn is_far(e: Ent, player_pos: Vec2i, cfg: SimConfig) -> bool {
    &&& e.alive
    &&& e.kind == EntityKind::Enemy
    &&& dist2(e.pos, player_pos) > cfg.cull_distance * cfg.cull_distance
}

/// Culling: queues a despawn for every enemy that has wandered farther
/// from the player than the cull distance, bounding the entity count.
pub fn despawn_far_away_enemies(w: &mut World, cfg: SimConfig)
    requires
        old(w).wf(cfg),
        cfg.wf(),
        old(w).player_ok(),
    ensures
        final(w).ents@ == old(w).ents@,
        final(w).spawns@ == old(w).spawns@,
        final(w).player == old(w).player,
        final(w).despawns@ == old(w).despawns@ + ids_where(
            old(w).ents@,
            old(w).ents@.len() as int,
            |e: Ent| is_far(e, old(w).player_ent().pos, cfg),
        ),
        forall|k: usize|
            #[trigger] final(w).despawns@.contains(k) <==> old(w).despawns@.contains(k) || ((
            k as int) < old(w).ents@.len() && is_far(
                old(w).ents@[k as int],
                old(w).player_ent().pos,
                cfg,
            )),
        final(w).wf(cfg),
{
    let ghost f = |e: Ent| is_far(e, old(w).player_ent().pos, cfg);
    let player_position = w.ents[w.player].pos;
    proof {
        lemma_square_bound(cfg.cull_distance as int, 100_000_000);
    }
    let cull2 = cfg.cull_distance * cfg.cull_distance;
    let n = w.ents.len();
    let mut i: usize = 0;
    while i < n
        invariant
            cfg.wf(),
            old(w).wf(cfg),
            old(w).player_ok(),
            i <= n,
            n == w.ents@.len(),
            w.ents@ == old(w).ents@,
            w.spawns@ == old(w).spawns@,
            w.player == old(w).player,
            player_position == old(w).player_ent().pos,
            cull2 == cfg.cull_distance * cfg.cull_distance,
            w.despawns@ == old(w).despawns@ + ids_where(old(w).ents@, i as int, f),
            f == (|e: Ent| is_far(e, old(w).player_ent().pos, cfg)),
        decreases n - i,
    {
        let e = w.ents[i];
        proof {
            assert(ent_wf(old(w).ents@[i as int], cfg));
        }
        if e.alive && matches!(e.kind, EntityKind::Enemy) {
            let d2 = dist2_exec(e.pos, player_position);
            if d2 > cull2 {
                w.queue_despawn(i);
            }
        }
        proof {
            assert(ids_where(old(w).ents@, i + 1, f) == if f(old(w).ents@[i as int]) {
                ids_where(old(w).ents@, i as int, f).push(i)
            } else {
                ids_where(old(w).ents@, i as int, f)
            });
            if f(old(w).ents@[i as int]) {
                assert(old(w).despawns@ + ids_where(old(w).ents@, i + 1, f) =~= (old(w).despawns@
                    + ids_where(old(w).ents@, i as int, f)).push(i));
            }
        }
        i = i + 1;
    }
    proof {
        assert(ent_wf(old(w).ents@[old(w).player as int], cfg));
        assert forall|j: int| 0 <= j < final(w).despawns@.len() implies (
        #[trigger] final(w).despawns@[j]) < final(w).ents@.len() by {
            lemma_ids_where_bounds(old(w).ents@, n as int, f);
            if j >= old(w).despawns@.len() {
                assert(final(w).despawns@[j] == ids_where(old(w).ents@, n as int, f)[j - old(
                    w,
                ).despawns@.len()]);
            }
        }
        assert forall|k: usize| #[trigger] final(w).despawns@.contains(k) <==> old(
            w,
        ).despawns@.contains(k) || ((k as int) < old(w).ents@.len() && is_far(
            old(w).ents@[k as int],
            old(w).player_ent().pos,
            cfg,
        )) by {
            lemma_despawn_membership(old(w).despawns@, old(w).ents@, n as int, f, k);
        }
    }
}

/// Every index collected by `ids_where` is below `n`, and its entity
/// satisfies the predicate.
pub proof fn lemma_ids_where_bounds(s: Seq<Ent>, n: int, f: spec_fn(Ent) -> bool)
    requires
        n <= s.len(),
        n <= usize::MAX,
    ensures
        forall|j: int|
            0 <= j < ids_where(s, n, f).len() ==> (#[trigger] ids_where(s, n, f)[j]) < n,
        forall|j: int|
            0 <= j < ids_where(s, n, f).len() ==> f(s[#[trigger] ids_where(s, n, f)[j] as int]),
    decreases n,
{
    if n > 0 {
        lemma_ids_where_bounds(s, n - 1, f);
        assert forall|j: int| 0 <= j < ids_where(s, n, f).len() implies (
        #[trigger] ids_where(s, n, f)[j]) < n && f(s[ids_where(s, n, f)[j] as int]) by {
            if f(s[n - 1]) {
                if j < ids_where(s, n - 1, f).len() {
                    assert(ids_where(s, n, f)[j] == ids_where(s, n - 1, f)[j]);
                } else {
                    assert(ids_where(s, n, f)[j] == (n - 1) as usize);
                }
            } else {
                assert(ids_where(s, n, f) == ids_where(s, n - 1, f));
            }
        }
    }
}

/// An index whose entity satisfies the predicate is collected.
pub proof fn lemma_ids_where_contains(s: Seq<Ent>, n: int, f: spec_fn(Ent) -> bool, i: int)
    requires
        0 <= i < n <= s.len(),
        n <= usize::MAX,
        f(s[i]),
    ensures
        ids_where(s, n, f).contains(i as usize),
    decreases n,
{
    if i == n - 1 {
        assert(ids_where(s, n, f)[ids_where(s, n, f).len() - 1] == (n - 1) as usize);
    } else {
        lemma_ids_where_contains(s, n - 1, f, i);
        let r = ids_where(s, n - 1, f);
        let j = choose|j: int| 0 <= j < r.len() && #[trigger] r[j] == i as usize;
        if f(s[n - 1]) {
            assert(ids_where(s, n, f)[j] == i as usize);
        }
    }
}

/// A bullet pass never moves an entity or stretches an existing
/// knockback: every knockback it attaches starts at the entity's own
/// position, so any displacement bound on the world survives the pass.
pub proof fn lemma_bullet_pass_preserves(
    s: Seq<Ent>,
    d: Seq<usize>,
    n: int,
    cfg: SimConfig,
    slack: int,
)
    requires
        cfg.wf(),
        slack >= 0,
        crate::world::all_kb_within(s, slack),
    ensures
        bullet_pass(s, d, n, cfg).0.len() == s.len(),
        crate::world::all_kb_within(bullet_pass(s, d, n, cfg).0, slack),
    decreases n,
{
    if n > 0 {
        lemma_bullet_pass_preserves(s, d, n - 1, cfg, slack);
        let prev = bullet_pass(s, d, n - 1, cfg);
        let b = prev.0[n - 1];
        if b.alive && b.kind == EntityKind::Bullet && first_enemy_hit_from(prev.0, b, 0) is Some {
            let e = first_enemy_hit_from(prev.0, b, 0).unwrap();
            lemma_first_hit_in_range(prev.0, b, 0);
            let he = hit_enemy(prev.0[e], b, cfg);
            let hx = he.pos.x as int;
            let hy = he.pos.y as int;
            assert((hx - hx) * (hx - hx) + (hy - hy) * (hy - hy) == 0) by (nonlinear_arith);
            assert(dist2(he.pos, he.knockback.unwrap().start_position) == 0);
            assert((cfg.knockback_distance + slack) * (cfg.knockback_distance + slack) >= 0)
                by (nonlinear_arith)
                requires
                    cfg.knockback_distance >= 0,
                    slack >= 0,
            ;
            assert(crate::world::kb_within(he, slack));
        }
    }
}

/// What ends up in a despawn queue extended by `ids_where`: exactly the
/// old entries and the indices whose entity satisfies the predicate.
pub proof fn lemma_despawn_membership(
    base: Seq<usize>,
    s: Seq<Ent>,
    n: int,
    f: spec_fn(Ent) -> bool,
    k: usize,
)
    requires
        n == s.len(),
        n <= usize::MAX,
    ensures
        (base + ids_where(s, n, f)).contains(k) <==> base.contains(k) || ((k as int) < n && f(
            s[k as int],
        )),
{
    crate::world::lemma_concat_contains(base, ids_where(s, n, f), k);
    lemma_ids_where_bounds(s, n, f);
    if ids_where(s, n, f).contains(k) {
        let j = choose|j: int|
            0 <= j < ids_where(s, n, f).len() && #[trigger] ids_where(s, n, f)[j] == k;
        assert(f(s[k as int]));
    }
    if (k as int) < n && f(s[k as int]) {
        lemma_ids_where_contains(s, n, f, k as int);
    }
}

/// A bullet pass keeps every entity's kind, and every index it queues for
/// despawn held a bullet.
pub proof fn lemma_bullet_pass_despawns(s: Seq<Ent>, d: Seq<usize>, n: int, cfg: SimConfig)
    requires
        n <= s.len(),
        n <= usize::MAX,
    ensures
        bullet_pass(s, d, n, cfg).0.len() == s.len(),
        forall|j: int|
            0 <= j < s.len() ==> (#[trigger] bullet_pass(s, d, n, cfg).0[j]).kind == s[j].kind,
        forall|k: usize|
            #[trigger] bullet_pass(s, d, n, cfg).1.contains(k) ==> d.contains(k) || ((
            k as int) < s.len() && s[k as int].kind == EntityKind::Bullet),
    decreases n,
{
    if n > 0 {
        lemma_bullet_pass_despawns(s, d, n - 1, cfg);
        let prev = bullet_pass(s, d, n - 1, cfg);
        let b = prev.0[n - 1];
        if b.alive && b.kind == EntityKind::Bullet && first_enemy_hit_from(prev.0, b, 0) is Some {
            lemma_first_hit_in_range(prev.0, b, 0);
            assert forall|k: usize| #[trigger] bullet_pass(s, d, n, cfg).1.contains(k) implies
                d.contains(k) || ((k as int) < s.len() && s[k as int].kind
                == EntityKind::Bullet) by {
                let q = prev.1.push((n - 1) as usize);
                let j = choose|j: int| 0 <= j < q.len() && #[trigger] q[j] == k;
                if j < prev.1.len() {
                    assert(prev.1[j] == k);
                    assert(prev.1.contains(k));
                } else {
                    assert(k == (n - 1) as usize);
                    assert(prev.0[n - 1].kind == s[n - 1].kind);
                }
            }
        }
    }
}

/// A bullet pass touches only enemies: any entity of another kind comes
/// out of the pass exactly as it went in.
pub proof fn lemma_bullet_pass_fixes_non_enemy(
    s: Seq<Ent>,
    d: Seq<usize>,
    n: int,
    cfg: SimConfig,
    i: int,
)
    requires
        0 <= i < s.len(),
        s[i].kind != EntityKind::Enemy,
    ensures
        bullet_pass(s, d, n, cfg).0.len() == s.len(),
        bullet_pass(s, d, n, cfg).0[i] == s[i],
    decreases n,
{
    if n > 0 {
        lemma_bullet_pass_fixes_non_enemy(s, d, n - 1, cfg, i);
        let prev = bullet_pass(s, d, n - 1, cfg);
        let b = prev.0[n - 1];
        if b.alive && b.kind == EntityKind::Bullet && first_enemy_hit_from(prev.0, b, 0) is Some {
            lemma_first_hit_in_range(prev.0, b, 0);
        }
    }
}

/// A found first hit indexes a real entity.
pub proof fn lemma_first_hit_in_range(s: Seq<Ent>, b: Ent, j: int)
    requires
        first_enemy_hit_from(s, b, j) is Some,
    ensures
        j <= first_enemy_hit_from(s, b, j).unwrap() < s.len(),
        hit_target(s[first_enemy_hit_from(s, b, j).unwrap()], b),
    decreases s.len() - j,
{
    if !(j < 0 || j >= s.len()) && !hit_target(s[j], b) {
        lemma_first_hit_in_range(s, b, j + 1);
    }
}

} // verus!
