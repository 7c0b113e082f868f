//! The entity store.
//!
//! All live entities sit in one entity-indexed table.  Systems mutate
//! component data in place, but removals and insertions are only queued
//! during a tick and applied at the tick boundary, so no system observes a
//! half-removed entity mid-tick.

use vstd::prelude::*;
use crate::components::{Health, Knockback};
use crate::config::{half_ok, SimConfig, DIST_CAP, HEALTH_CAP};
use crate::geom::{dist2, in_world, small_vel, Vec2i, VEL_LIMIT};
use crate::timer::Timer;

verus! {

#[derive(Clone, Copy, PartialEq, Eq, Structural, Debug)]
pub enum EntityKind {
    Player,
    Enemy,
    Bullet,
    Gem,
    Rift,
}

/// One entity and its attached data.  Fields that a kind does not use
/// keep their neutral spawn value.
#[derive(Clone, Copy, Debug)]
pub struct Ent {
    /// Cleared when a queued despawn is applied at the tick boundary.
    pub alive: bool,
    pub kind: EntityKind,
    pub pos: Vec2i,
    /// Per-tick displacement in milliunits.
    pub vel: Vec2i,
    /// Collider half-extents.
    pub half: Vec2i,
    pub health: Health,
    /// Per-tick displacement magnitude used by steering.
    pub move_speed: i64,
    /// Present exactly while the entity is in forced knockback.
    pub knockback: Option<Knockback>,
    /// Present exactly while the player's invulnerability window runs.
    pub invulnerable: Option<Timer>,
    /// Experience carried by a gem, or dropped by an enemy.
    pub xp_value: u64,
    /// Where a bullet was fired, for range-based despawn.
    pub spawn_location: Vec2i,
    /// Enemies a rift has yet to release.
    pub quota: u32,
    /// A rift's own enemy spawn timer.
    pub spawn_timer: Timer,
}

/// The entity with its liveness cleared and all other data kept.
pub open spec fn killed(e: Ent) -> Ent {
    Ent { alive: false, ..e }
}

pub open spec fn ent_wf(e: Ent, cfg: SimConfig) -> bool {
    &&& in_world(e.pos)
    &&& small_vel(e.vel)
    &&& half_ok(e.half)
    &&& e.health.wf()
    &&& e.health.max <= HEALTH_CAP
    &&& 0 <= e.move_speed <= VEL_LIMIT
    &&& (e.knockback matches Some(kb) ==> {
        &&& e.vel == kb.velocity
        &&& in_world(kb.start_position)
        &&& 0 <= kb.distance <= DIST_CAP
        &&& -cfg.spec_step(cfg.knockback_speed) <= kb.velocity.x <= cfg.spec_step(
            cfg.knockback_speed,
        )
        &&& -cfg.spec_step(cfg.knockback_speed) <= kb.velocity.y <= cfg.spec_step(
            cfg.knockback_speed,
        )
    })
    &&& (e.invulnerable matches Some(t) ==> t.wf())
    &&& e.spawn_timer.wf()
    &&& in_world(e.spawn_location)
}

/// The entity's displacement from its knockback origin is within the
/// threshold extended by `slack`.
pub open spec fn kb_within(e: Ent, slack: int) -> bool {
    e.knockback matches Some(kb) ==> dist2(e.pos, kb.start_position) <= (kb.distance + slack) * (
    kb.distance + slack)
}

pub open spec fn all_kb_within(s: Seq<Ent>, slack: int) -> bool {
    forall|i: int| 0 <= i < s.len() ==> kb_within(#[trigger] s[i], slack)
}

impl Ent {
    /// A fresh entity with every component at its neutral value.
    pub open spec fn spec_base(kind: EntityKind, pos: Vec2i) -> Ent {
        Ent {
            alive: true,
            kind,
            pos,
            vel: Vec2i::spec_zero(),
            half: Vec2i::spec_zero(),
            health: Health { current: 1, max: 1 },
            move_speed: 0,
            knockback: None,
            invulnerable: None,
            xp_value: 0,
            spawn_location: pos,
            quota: 0,
            spawn_timer: Timer::spec_done(),
        }
    }

    pub fn base(kind: EntityKind, pos: Vec2i) -> (e: Ent)
        ensures
            e == Ent::spec_base(kind, pos),
    {
        Ent {
            alive: true,
            kind,
            pos,
            vel: Vec2i::zero(),
            half: Vec2i::zero(),
            health: Health { current: 1, max: 1 },
            move_speed: 0,
            knockback: None,
            invulnerable: None,
            xp_value: 0,
            spawn_location: pos,
            quota: 0,
            spawn_timer: Timer::done(),
        }
    }
}

/// The indices below `n` whose entity satisfies `f`, in ascending order.
pub open spec fn ids_where(s: Seq<Ent>, n: int, f: spec_fn(Ent) -> bool) -> Seq<usize>
    decreases n,
{
    if n <= 0 {
        Seq::empty()
    } else {
        let r = ids_where(s, n - 1, f);
        if f(s[n - 1]) {
            r.push((n - 1) as usize)
        } else {
            r
        }
    }
}

/// The queued removals applied to the table: marked entities lose their
/// liveness, everything else is untouched.
pub open spec fn killed_seq(s: Seq<Ent>, d: Seq<usize>) -> Seq<Ent> {
    Seq::new(s.len(), |i: int| if d.contains(i as usize) { killed(s[i]) } else { s[i] })
}

/// Membership in a concatenation is membership in one of the parts.
pub proof fn lemma_concat_contains(a: Seq<usize>, b: Seq<usize>, x: usize)
    ensures
        (a + b).contains(x) <==> a.contains(x) || b.contains(x),
{
    if (a + b).contains(x) {
        let j = choose|j: int| 0 <= j < (a + b).len() && #[trigger] (a + b)[j] == x;
        if j < a.len() {
            assert(a[j] == x);
        } else {
            assert(b[j - a.len()] == x);
        }
    }
    if a.contains(x) {
        let j = choose|j: int| 0 <= j < a.len() && #[trigger] a[j] == x;
        assert((a + b)[j] == x);
    }
    if b.contains(x) {
        let j = choose|j: int| 0 <= j < b.len() && #[trigger] b[j] == x;
        assert((a + b)[j + a.len()] == x);
    }
}

pub struct World {
    pub ents: Vec<Ent>,
    /// Index of the player entity, valid whenever `player_ok` holds.
    pub player: usize,
    /// Entity removals queued during the tick.
    pub despawns: Vec<usize>,
    /// Entity insertions queued during the tick.
    pub spawns: Vec<Ent>,
}

impl World {
    pub open spec fn wf(self, cfg: SimConfig) -> bool {
        &&& forall|i: int| 0 <= i < self.ents@.len() ==> ent_wf(#[trigger] self.ents@[i], cfg)
        &&& forall|i: int| 0 <= i < self.spawns@.len() ==> ent_wf(#[trigger] self.spawns@[i], cfg)
        &&& forall|i: int|
            0 <= i < self.spawns@.len() ==> (#[trigger] self.spawns@[i]).knockback is None
        &&& forall|i: int|
            0 <= i < self.despawns@.len() ==> (#[trigger] self.despawns@[i]) < self.ents@.len()
    }

    /// There is a live player entity at the recorded index.
    pub open spec fn player_ok(self) -> bool {
        &&& self.player < self.ents@.len()
        &&& self.ents@[self.player as int].kind == EntityKind::Player
        &&& self.ents@[self.player as int].alive
    }

    pub open spec fn player_ent(self) -> Ent {
        self.ents@[self.player as int]
    }

    pub fn new() -> (w: World)
        ensures
            w.ents@ =~= Seq::<Ent>::empty(),
            w.despawns@ =~= Seq::<usize>::empty(),
            w.spawns@ =~= Seq::<Ent>::empty(),
            w.player == 0,
    {
        World { ents: Vec::new(), player: 0, despawns: Vec::new(), spawns: Vec::new() }
    }

    /// Queues the entity for removal at the tick boundary.  Queueing an
    /// already queued entity is a harmless no-op at apply time.
    pub fn queue_despawn(&mut self, id: usize)
        requires
            id < old(self).ents@.len(),
        ensures
            final(self).ents@ == old(self).ents@,
            final(self).spawns@ == old(self).spawns@,
            final(self).player == old(self).player,
            final(self).despawns@ == old(self).despawns@.push(id),
    {
        self.despawns.push(id);
    }

    /// Queues a fresh entity for insertion at the tick boundary.
    pub fn queue_spawn(&mut self, e: Ent)
        ensures
            final(self).ents@ == old(self).ents@,
            final(self).despawns@ == old(self).despawns@,
            final(self).player == old(self).player,
            final(self).spawns@ == old(self).spawns@.push(e),
    {
        self.spawns.push(e);
    }

    /// Applies the queued removals and insertions: the tick boundary.
    pub fn apply_commands(&mut self)
        requires
            forall|i: int|
                0 <= i < old(self).despawns@.len() ==> (#[trigger] old(self).despawns@[i]) < old(
                    self,
                ).ents@.len(),
        ensures
            final(self).ents@ == killed_seq(old(self).ents@, old(self).despawns@) + old(
                self,
            ).spawns@,
            final(self).despawns@ =~= Seq::<usize>::empty(),
            final(self).spawns@ =~= Seq::<Ent>::empty(),
            final(self).player == old(self).player,
    {
        let ghost orig = self.ents@;
        let ghost dq = self.despawns@;
        let n = self.ents.len();
        let mut k: usize = 0;
        while k < self.despawns.len()
            invariant
                orig.len() == n,
                k <= self.despawns@.len(),
                self.despawns@ == dq,
                self.spawns@ == old(self).spawns@,
                self.player == old(self).player,
                forall|i: int| 0 <= i < dq.len() ==> (#[trigger] dq[i]) < orig.len(),
                self.ents@.len() == orig.len(),
                forall|i: int|
                    0 <= i < orig.len() ==> #[trigger] self.ents@[i] == (if dq.take(
                        k as int,
                    ).contains(i as usize) {
                        killed(orig[i])
                    } else {
                        orig[i]
                    }),
            decreases self.despawns@.len() - k,
        {
            let id = self.despawns[k];
            let e = self.ents[id];
            let ghost pre = self.ents@;
            self.ents[id] = Ent { alive: false, ..e };
            proof {
                assert(dq.take(k + 1) =~= dq.take(k as int).push(dq[k as int]));
                assert forall|i: int| 0 <= i < orig.len() implies #[trigger] self.ents@[i] == (
                if dq.take(k + 1).contains(i as usize) {
                    killed(orig[i])
                } else {
                    orig[i]
                }) by {
                    if i == id as int {
                        assert(dq.take(k + 1)[k as int] == id);
                        assert(dq.take(k + 1).contains(id));
                    } else {
                        assert(self.ents@[i] == pre[i]);
                        if dq.take(k + 1).contains(i as usize) {
                            let j = choose|j: int|
                                0 <= j < dq.take(k + 1).len() && #[trigger] dq.take(k + 1)[j]
                                    == i as usize;
                            assert(j < k) by {
                                if j == k as int {
                                    assert(dq.take(k + 1)[k as int] == id);
                                    assert(i as usize == id);
                                    assert(0 <= i <= usize::MAX);
                                    assert(i == id as int);
                                }
                            }
                            assert(dq.take(k as int)[j] == i as usize);
                            assert(dq.take(k as int).contains(i as usize));
                        }
                    }
                }
            }
            k = k + 1;
        }
        proof {
            assert(dq.take(dq.len() as int) =~= dq);
            assert(self.ents@ =~= killed_seq(orig, dq));
        }
        self.despawns.clear();
        let ghost killed_part = self.ents@;
        let mut j: usize = 0;
        while j < self.spawns.len()
            invariant
                j <= self.spawns@.len(),
                self.spawns@ == old(self).spawns@,
                self.despawns@ =~= Seq::<usize>::empty(),
                self.player == old(self).player,
                self.ents@ == killed_part + self.spawns@.take(j as int),
            decreases self.spawns@.len() - j,
        {
            let e = self.spawns[j];
            self.ents.push(e);
            proof {
                assert(self.spawns@.take(j + 1) =~= self.spawns@.take(j as int).push(
                    self.spawns@[j as int],
                ));
                assert(self.ents@ =~= killed_part + self.spawns@.take(j + 1));
            }
            j = j + 1;
        }
        proof {
            assert(self.spawns@.take(self.spawns@.len() as int) =~= self.spawns@);
        }
        self.spawns.clear();
    }
}

} // verus!
