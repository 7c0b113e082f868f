//! The simulation: all per-tick systems run in a fixed order over one
//! shared state, gated by the game-flow state machine.

use vstd::prelude::*;
use crate::config::SimConfig;
use crate::enemy::{
    bullet_hit_enemy, despawn_far_away_enemies, lemma_bullet_pass_fixes_non_enemy,
    lemma_bullet_pass_preserves, move_towards_player_when_not_knockback,
};
use crate::events::{Events, PlayerDies};
use crate::geom::{in_world, Vec2i};
use crate::player::{
    countdown_invulnerability, despawn_bullets, enemy_hits_player, fire_main, pickup_xp_gem,
    player_input, tick_weapon_cooldown,
};
use crate::resources::{AppState, InGameState, MouseWorldCoords, Score, XP};
use crate::rift::{destroy_rift, spawn_enemies, spawn_rift};
use crate::systems::{die, handle_knockback, move_all};
use crate::timer::Timer;
use crate::world::{
    all_kb_within, ent_wf, killed, killed_seq, kb_within, EntityKind, Ent, World,
};

verus! {

/// Everything the input layer hands the simulation for one tick.
#[derive(Clone, Copy, PartialEq, Eq, Structural, Debug)]
pub struct TickInput {
    /// Movement intent on each axis, one of -1, 0, 1.
    pub move_x: i64,
    pub move_y: i64,
    /// The fire trigger.
    pub fire: bool,
    /// The aim point in world coordinates.
    pub aim: MouseWorldCoords,
    /// The start or restart signal from the menu screens.
    pub start: bool,
}

pub open spec fn input_ok(input: TickInput) -> bool {
    &&& -1 <= input.move_x <= 1
    &&& -1 <= input.move_y <= 1
    &&& in_world(input.aim.0)
}

/// The whole game: the entity store, the process-wide counters, the
/// spawner and weapon timers, and the game-flow state that gates the tick.
pub struct Game {
    pub state: AppState,
    pub ingame: InGameState,
    pub cfg: SimConfig,
    pub world: World,
    pub score: Score,
    pub xp: XP,
    /// The global timer that opens new rifts.
    pub rift_timer: Timer,
    /// The cooldown of the player's main weapon.
    pub weapon_cooldown: Timer,
}

/// The two games hold the same state, field by field.
pub open spec fn same_game(a: Game, b: Game) -> bool {
    &&& a.state == b.state
    &&& a.ingame == b.ingame
    &&& a.cfg == b.cfg
    &&& a.world.ents@ == b.world.ents@
    &&& a.world.player == b.world.player
    &&& a.world.despawns@ == b.world.despawns@
    &&& a.world.spawns@ == b.world.spawns@
    &&& a.score == b.score
    &&& a.xp == b.xp
    &&& a.rift_timer == b.rift_timer
    &&& a.weapon_cooldown == b.weapon_cooldown
}

impl Game {
    /// Structural well-formedness at a tick boundary: a well-formed world
    /// with empty command queues, well-formed timers, and every knockback
    /// displacement within its threshold.
    pub open spec fn wf(self) -> bool {
        &&& self.cfg.wf()
        &&& self.world.wf(self.cfg)
        &&& self.world.despawns@.len() == 0
        &&& self.world.spawns@.len() == 0
        &&& self.rift_timer.wf()
        &&& self.weapon_cooldown.wf()
        &&& all_kb_within(self.world.ents@, 0)
    }

    /// Well-formed, and holding a live player whenever the game runs.
    pub open spec fn ready(self) -> bool {
        &&& self.wf()
        &&& self.state is InGame ==> self.world.player_ok()
    }

    /// A fresh game at the main menu, with the design-default tuning.
    pub fn new() -> (g: Game)
        ensures
            g.ready(),
            g.state is MainMenu,
            g.cfg == SimConfig::spec_standard(),
            g.score.0 == 0,
            g.xp.0 == 0,
            g.world.ents@ =~= Seq::<Ent>::empty(),
    {
        Game {
            state: AppState::MainMenu,
            ingame: InGameState::Running,
            cfg: SimConfig::standard(),
            world: World::new(),
            score: Score(0),
            xp: XP(0),
            rift_timer: Timer::done(),
            weapon_cooldown: Timer::done(),
        }
    }
}

/// The table after this tick's movement intent is applied to the player.
pub open spec fn stage_input(pre: Game, input: TickInput) -> Seq<Ent> {
    let s0 = pre.world.ents@;
    let pid = pre.world.player as int;
    if s0[pid].knockback is None {
        s0.update(
            pid,
            Ent {
                vel: crate::player::intent_vel(s0[pid], input.move_x as int, input.move_y as int),
                ..s0[pid]
            },
        )
    } else {
        s0
    }
}

/// ... then enemy steering toward the player.
pub open spec fn stage_steered(pre: Game, input: TickInput) -> Seq<Ent> {
    let s = stage_input(pre, input);
    let target = s[pre.world.player as int].pos;
    Seq::new(s.len(), |i: int| crate::enemy::steered(s[i], target))
}

/// ... then movement integration.
pub open spec fn stage_moved(pre: Game, input: TickInput) -> Seq<Ent> {
    let s = stage_steered(pre, input);
    Seq::new(s.len(), |i: int| crate::systems::moved(s[i]))
}

/// ... then the projectile pass.
pub open spec fn stage_shot(pre: Game, input: TickInput) -> Seq<Ent> {
    let s = stage_moved(pre, input);
    crate::enemy::bullet_pass(s, Seq::empty(), s.len() as int, pre.cfg).0
}

/// The removals the projectile pass queues: the bullets that hit.
pub open spec fn shot_removals(pre: Game, input: TickInput) -> Seq<usize> {
    let s = stage_moved(pre, input);
    crate::enemy::bullet_pass(s, Seq::empty(), s.len() as int, pre.cfg).1
}

/// ... then contact damage on the player.
pub open spec fn stage_contact(pre: Game, input: TickInput) -> Seq<Ent> {
    let s = stage_shot(pre, input);
    let pid = pre.world.player as int;
    if s[pid].invulnerable is None && crate::player::any_enemy_overlap(s, s[pid]) {
        s.update(pid, crate::player::player_hit(s[pid], pre.cfg))
    } else {
        s
    }
}

/// ... then the knockback-state transition.
pub open spec fn stage_knockback(pre: Game, input: TickInput) -> Seq<Ent> {
    let s = stage_contact(pre, input);
    Seq::new(s.len(), |i: int| crate::systems::kb_resolved(s[i]))
}

/// ... then the invulnerability countdown.
pub open spec fn stage_countdown(pre: Game, input: TickInput) -> Seq<Ent> {
    let s = stage_knockback(pre, input);
    Seq::new(s.len(), |i: int| crate::player::invuln_ticked(s[i], pre.cfg.tick_ms))
}

/// ... then the per-rift spawner step: the table death resolution sees.
pub open spec fn stage_final(pre: Game, input: TickInput) -> Seq<Ent> {
    let s = stage_countdown(pre, input);
    Seq::new(s.len(), |i: int| crate::rift::rift_stepped(s[i], pre.cfg.tick_ms))
}

/// Whether the tick queues entity `k` for removal at the boundary: a
/// bullet that hit, a collected gem, a culled enemy, a spent bullet, an
/// exhausted rift, or a dead combatant.
pub open spec fn removed_this_tick(pre: Game, input: TickInput, k: usize) -> bool {
    let cfg = pre.cfg;
    let pid = pre.world.player as int;
    let s8 = stage_countdown(pre, input);
    let s9 = stage_final(pre, input);
    let n = s8.len();
    let ppos = s8[pid].pos;
    ||| shot_removals(pre, input).contains(k)
    ||| ((k as int) < n && crate::player::is_picked(s8[k as int], ppos, cfg))
    ||| ((k as int) < n && crate::enemy::is_far(s8[k as int], ppos, cfg))
    ||| ((k as int) < n && crate::player::is_spent(s8[k as int], cfg))
    ||| ((k as int) < n && crate::rift::is_exhausted(s9[k as int]))
    ||| ((k as int) < n && crate::systems::is_dead_unit(s9[k as int]))
}

/// The table at the boundary: the pre-boundary table with every removal
/// the tick queued applied.
pub open spec fn boundary_table(pre: Game, input: TickInput) -> Seq<Ent> {
    let s9 = stage_final(pre, input);
    Seq::new(
        s9.len(),
        |i: int|
            if removed_this_tick(pre, input, i as usize) {
                killed(s9[i])
            } else {
                s9[i]
            },
    )
}

/// Every insertion the tick queues, given the angle the rift spawner
/// drew: the fired bullet, the opened rift, and the enemies the rifts
/// released.  Gems are accounted separately, one roll per dead enemy.
pub open spec fn tick_insertions(pre: Game, input: TickInput, angle: int) -> Seq<Ent> {
    let cfg = pre.cfg;
    let pid = pre.world.player as int;
    let s3 = stage_moved(pre, input);
    let s8 = stage_countdown(pre, input);
    let fire_part: Seq<Ent> = if crate::player::can_fire(
        s3[pid],
        pre.weapon_cooldown,
        input.fire,
        input.aim.0,
        cfg,
    ) {
        seq![crate::player::spec_bullet(s3[pid].pos, input.aim.0, cfg)]
    } else {
        Seq::empty()
    };
    let rift_part: Seq<Ent> = if pre.rift_timer.spec_fires(cfg.tick_ms) {
        seq![crate::rift::spec_rift(s8[pid].pos, angle, cfg)]
    } else {
        Seq::empty()
    };
    fire_part + rift_part + crate::rift::rift_spawn_list(s8, s8.len() as int, cfg.tick_ms, cfg)
}

/// The final table matches the tick run at this rift angle: the boundary
/// table, then the queued insertions, then at most one gem per dead
/// enemy, each at a dead enemy's position with its experience value.
pub open spec fn tick_table_matches(pre: Game, post: Game, input: TickInput, angle: int) -> bool {
    let s9 = stage_final(pre, input);
    let base = boundary_table(pre, input) + tick_insertions(pre, input, angle);
    &&& base.len() <= post.world.ents@.len()
    &&& post.world.ents@.subrange(0, base.len() as int) =~= base
    &&& post.world.ents@.len() - base.len() <= crate::systems::dead_enemy_count(
        s9,
        s9.len() as int,
    )
    &&& forall|k: int|
        base.len() <= k < post.world.ents@.len() ==> crate::systems::gem_of_some_dead(
            #[trigger] post.world.ents@[k],
            s9,
            pre.cfg,
        )
}

/// The whole effect of one tick, composed from the per-system
/// transformers.  The tick's two random outcomes are pinned as far as
/// chance allows: the rift angle is existentially quantified over the
/// circle, and the dead enemies' gem rolls leave a bounded gem suffix.
/// Everything else -- the final table, score, experience, both timers,
/// and both notifications -- is fixed exactly.
pub open spec fn tick_effect(pre: Game, post: Game, input: TickInput, events: Events) -> bool {
    let cfg = pre.cfg;
    let pid = pre.world.player as int;
    let s3 = stage_moved(pre, input);
    let s5 = stage_shot(pre, input);
    let s8 = stage_countdown(pre, input);
    let s9 = stage_final(pre, input);
    &&& exists|angle: int|
        0 <= angle < 360 && #[trigger] tick_table_matches(pre, post, input, angle)
    &&& post.score.0 == crate::systems::sat_add(
        pre.score.0,
        crate::systems::dead_enemy_count(s9, s9.len() as int),
    )
    &&& post.xp.0 == crate::player::sat_add_u64(
        pre.xp.0,
        crate::player::picked_xp_sum(s8, s8.len() as int, s8[pid].pos, cfg),
    )
    &&& ((events.player_dies is Some) <==> exists|i: int|
        0 <= i < s9.len() && crate::systems::is_dead_player(#[trigger] s9[i]))
    &&& events.health_changed@ == (if (s5[pid].invulnerable is None)
        && crate::player::any_enemy_overlap(s5, s5[pid]) {
        seq![
            crate::events::PlayerHealthChanged {
                current: crate::player::player_hit(s5[pid], cfg).health.current,
                max: s5[pid].health.max,
            },
        ]
    } else {
        Seq::<crate::events::PlayerHealthChanged>::empty()
    })
    &&& post.weapon_cooldown == (if crate::player::can_fire(
        s3[pid],
        pre.weapon_cooldown,
        input.fire,
        input.aim.0,
        cfg,
    ) {
        Timer::spec_once(cfg.cooldown_ms)
    } else {
        pre.weapon_cooldown
    }).spec_tick(cfg.tick_ms)
    &&& post.rift_timer == pre.rift_timer.spec_tick(cfg.tick_ms)
}

/// A table whose entities keep their knockback and position pointwise
/// keeps any displacement bound.
proof fn lemma_kb_after_steer(a: Seq<Ent>, b: Seq<Ent>, target: Vec2i, slack: int)
    requires
        b.len() == a.len(),
        all_kb_within(a, slack),
        forall|i: int| 0 <= i < a.len() ==> b[i] == crate::enemy::steered(#[trigger] a[i], target),
    ensures
        all_kb_within(b, slack),
{
    assert forall|i: int| 0 <= i < b.len() implies kb_within(#[trigger] b[i], slack) by {
        assert(b[i] == crate::enemy::steered(a[i], target));
        assert(kb_within(a[i], slack));
    }
}

proof fn lemma_kb_after_invuln(a: Seq<Ent>, b: Seq<Ent>, dt_ms: u32, slack: int)
    requires
        b.len() == a.len(),
        all_kb_within(a, slack),
        forall|i: int|
            0 <= i < a.len() ==> b[i] == crate::player::invuln_ticked(#[trigger] a[i], dt_ms),
    ensures
        all_kb_within(b, slack),
{
    assert forall|i: int| 0 <= i < b.len() implies kb_within(#[trigger] b[i], slack) by {
        assert(b[i] == crate::player::invuln_ticked(a[i], dt_ms));
        assert(kb_within(a[i], slack));
    }
}

proof fn lemma_kb_after_rift_step(a: Seq<Ent>, b: Seq<Ent>, dt_ms: u32, slack: int)
    requires
        b.len() == a.len(),
        all_kb_within(a, slack),
        forall|i: int|
            0 <= i < a.len() ==> b[i] == crate::rift::rift_stepped(#[trigger] a[i], dt_ms),
    ensures
        all_kb_within(b, slack),
{
    assert forall|i: int| 0 <= i < b.len() implies kb_within(#[trigger] b[i], slack) by {
        assert(b[i] == crate::rift::rift_stepped(a[i], dt_ms));
        assert(kb_within(a[i], slack));
    }
}

/// Overwriting one entity with one that keeps its knockback and position
/// keeps any displacement bound.
proof fn lemma_kb_after_update(a: Seq<Ent>, b: Seq<Ent>, pid: int, e: Ent, slack: int)
    requires
        0 <= pid < a.len(),
        b == a.update(pid, e),
        e.knockback == a[pid].knockback,
        e.pos == a[pid].pos,
        all_kb_within(a, slack),
    ensures
        all_kb_within(b, slack),
{
    assert forall|i: int| 0 <= i < b.len() implies kb_within(#[trigger] b[i], slack) by {
        assert(kb_within(a[i], slack));
    }
}

/// The boundary table stays well formed: killed entities keep all their
/// component data, and every queued insertion is a fresh well-formed
/// entity outside knockback.
proof fn lemma_boundary_wf(s9: Seq<Ent>, dq: Seq<usize>, sq: Seq<Ent>, ents: Seq<Ent>, cfg: SimConfig)
    requires
        ents == killed_seq(s9, dq) + sq,
        forall|i: int| 0 <= i < s9.len() ==> ent_wf(#[trigger] s9[i], cfg),
        all_kb_within(s9, 0),
        forall|i: int| 0 <= i < sq.len() ==> ent_wf(#[trigger] sq[i], cfg),
        forall|i: int| 0 <= i < sq.len() ==> (#[trigger] sq[i]).knockback is None,
    ensures
        forall|i: int| 0 <= i < ents.len() ==> ent_wf(#[trigger] ents[i], cfg),
        all_kb_within(ents, 0),
        ents.len() == s9.len() + sq.len(),
{
    assert forall|i: int| 0 <= i < ents.len() implies ent_wf(#[trigger] ents[i], cfg)
        && kb_within(ents[i], 0) by {
        if i < s9.len() {
            assert(ents[i] == killed_seq(s9, dq)[i]);
            assert(killed_seq(s9, dq)[i] == if dq.contains(i as usize) {
                killed(s9[i])
            } else {
                s9[i]
            });
            assert(ent_wf(s9[i], cfg));
            assert(kb_within(s9[i], 0));
        } else {
            assert(ents[i] == sq[i - s9.len()]);
        }
    }
}

/// The pointwise images of the per-entity transformers are the spec
/// stages, as whole-sequence equalities.
proof fn lemma_stage_steered_eq(pre: Game, input: TickInput, b: Seq<Ent>)
    requires
        b.len() == stage_input(pre, input).len(),
        forall|i: int|
            0 <= i < b.len() ==> b[i] == crate::enemy::steered(
                #[trigger] stage_input(pre, input)[i],
                stage_input(pre, input)[pre.world.player as int].pos,
            ),
    ensures
        b =~= stage_steered(pre, input),
{
    assert forall|i: int| 0 <= i < b.len() implies b[i] == stage_steered(pre, input)[i] by {}
}

proof fn lemma_stage_moved_eq(pre: Game, input: TickInput, b: Seq<Ent>)
    requires
        b.len() == stage_steered(pre, input).len(),
        forall|i: int|
            0 <= i < b.len() ==> b[i] == crate::systems::moved(
                #[trigger] stage_steered(pre, input)[i],
            ),
    ensures
        b =~= stage_moved(pre, input),
{
    assert forall|i: int| 0 <= i < b.len() implies b[i] == stage_moved(pre, input)[i] by {}
}

proof fn lemma_stage_knockback_eq(pre: Game, input: TickInput, b: Seq<Ent>)
    requires
        b.len() == stage_contact(pre, input).len(),
        forall|i: int|
            0 <= i < b.len() ==> b[i] == crate::systems::kb_resolved(
                #[trigger] stage_contact(pre, input)[i],
            ),
    ensures
        b =~= stage_knockback(pre, input),
{
    assert forall|i: int| 0 <= i < b.len() implies b[i] == stage_knockback(pre, input)[i] by {}
}

proof fn lemma_stage_countdown_eq(pre: Game, input: TickInput, b: Seq<Ent>)
    requires
        b.len() == stage_knockback(pre, input).len(),
        forall|i: int|
            0 <= i < b.len() ==> b[i] == crate::player::invuln_ticked(
                #[trigger] stage_knockback(pre, input)[i],
                pre.cfg.tick_ms,
            ),
    ensures
        b =~= stage_countdown(pre, input),
{
    assert forall|i: int| 0 <= i < b.len() implies b[i] == stage_countdown(pre, input)[i] by {}
}

proof fn lemma_stage_final_eq(pre: Game, input: TickInput, b: Seq<Ent>)
    requires
        b.len() == stage_countdown(pre, input).len(),
        forall|i: int|
            0 <= i < b.len() ==> b[i] == crate::rift::rift_stepped(
                #[trigger] stage_countdown(pre, input)[i],
                pre.cfg.tick_ms,
            ),
    ensures
        b =~= stage_final(pre, input),
{
    assert forall|i: int| 0 <= i < b.len() implies b[i] == stage_final(pre, input)[i] by {}
}

/// Chains the membership of the six removal queues of one tick into the
/// single removal predicate.
proof fn lemma_removed_iff(
    pre: Game,
    input: TickInput,
    dq_b: Seq<usize>,
    dq_p: Seq<usize>,
    dq_f: Seq<usize>,
    dq_s: Seq<usize>,
    dq_x: Seq<usize>,
    dq: Seq<usize>,
)
    requires
        dq_b == shot_removals(pre, input),
        forall|k: usize|
            #[trigger] dq_p.contains(k) <==> dq_b.contains(k) || ((k as int) < stage_countdown(
                pre,
                input,
            ).len() && crate::player::is_picked(
                stage_countdown(pre, input)[k as int],
                stage_countdown(pre, input)[pre.world.player as int].pos,
                pre.cfg,
            )),
        forall|k: usize|
            #[trigger] dq_f.contains(k) <==> dq_p.contains(k) || ((k as int) < stage_countdown(
                pre,
                input,
            ).len() && crate::enemy::is_far(
                stage_countdown(pre, input)[k as int],
                stage_countdown(pre, input)[pre.world.player as int].pos,
                pre.cfg,
            )),
        forall|k: usize|
            #[trigger] dq_s.contains(k) <==> dq_f.contains(k) || ((k as int) < stage_countdown(
                pre,
                input,
            ).len() && crate::player::is_spent(stage_countdown(pre, input)[k as int], pre.cfg)),
        forall|k: usize|
            #[trigger] dq_x.contains(k) <==> dq_s.contains(k) || ((k as int) < stage_final(
                pre,
                input,
            ).len() && crate::rift::is_exhausted(stage_final(pre, input)[k as int])),
        forall|k: usize|
            #[trigger] dq.contains(k) <==> dq_x.contains(k) || ((k as int) < stage_final(
                pre,
                input,
            ).len() && crate::systems::is_dead_unit(stage_final(pre, input)[k as int])),
        stage_countdown(pre, input).len() == stage_final(pre, input).len(),
    ensures
        forall|k: usize| #[trigger] dq.contains(k) <==> removed_this_tick(pre, input, k),
{
    assert forall|k: usize| #[trigger] dq.contains(k) <==> removed_this_tick(pre, input, k) by {
        assert(dq.contains(k) <==> dq_x.contains(k) || ((k as int) < stage_final(
            pre,
            input,
        ).len() && crate::systems::is_dead_unit(stage_final(pre, input)[k as int])));
        assert(dq_x.contains(k) <==> dq_s.contains(k) || ((k as int) < stage_final(
            pre,
            input,
        ).len() && crate::rift::is_exhausted(stage_final(pre, input)[k as int])));
        assert(dq_s.contains(k) <==> dq_f.contains(k) || ((k as int) < stage_countdown(
            pre,
            input,
        ).len() && crate::player::is_spent(stage_countdown(pre, input)[k as int], pre.cfg)));
    }
}

/// Regroups the spawn queue built across the tick into the insertion
/// list of the tick's specification.
proof fn lemma_tick_insertions_eq(
    pre: Game,
    input: TickInput,
    angle: int,
    sq_f: Seq<Ent>,
    sq_r: Seq<Ent>,
    sq_e: Seq<Ent>,
)
    requires
        sq_f == (if crate::player::can_fire(
            stage_moved(pre, input)[pre.world.player as int],
            pre.weapon_cooldown,
            input.fire,
            input.aim.0,
            pre.cfg,
        ) {
            Seq::<Ent>::empty().push(
                crate::player::spec_bullet(
                    stage_moved(pre, input)[pre.world.player as int].pos,
                    input.aim.0,
                    pre.cfg,
                ),
            )
        } else {
            Seq::<Ent>::empty()
        }),
        pre.rift_timer.spec_fires(pre.cfg.tick_ms) ==> sq_r == sq_f.push(
            crate::rift::spec_rift(
                stage_countdown(pre, input)[pre.world.player as int].pos,
                angle,
                pre.cfg,
            ),
        ),
        !pre.rift_timer.spec_fires(pre.cfg.tick_ms) ==> sq_r == sq_f,
        sq_e == sq_r + crate::rift::rift_spawn_list(
            stage_countdown(pre, input),
            stage_countdown(pre, input).len() as int,
            pre.cfg.tick_ms,
            pre.cfg,
        ),
    ensures
        sq_e =~= tick_insertions(pre, input, angle),
{
    let ins = tick_insertions(pre, input, angle);
    assert forall|i: int| 0 <= i < sq_e.len() implies sq_e[i] == ins[i] by {}
    assert(sq_e.len() == ins.len());
}

/// Assembles the final table facts of one tick from the applied removal
/// queue and spawn queue.
proof fn lemma_tick_tables(
    pre: Game,
    post: Game,
    input: TickInput,
    dq: Seq<usize>,
    sq: Seq<Ent>,
    angle: int,
)
    requires
        post.world.ents@ == killed_seq(stage_final(pre, input), dq) + sq,
        forall|k: usize| #[trigger] dq.contains(k) <==> removed_this_tick(pre, input, k),
        0 <= angle < 360,
        tick_insertions(pre, input, angle).len() <= sq.len(),
        sq.subrange(0, tick_insertions(pre, input, angle).len() as int) =~= tick_insertions(
            pre,
            input,
            angle,
        ),
        sq.len() - tick_insertions(pre, input, angle).len() <= crate::systems::dead_enemy_count(
            stage_final(pre, input),
            stage_final(pre, input).len() as int,
        ),
        forall|k: int|
            tick_insertions(pre, input, angle).len() <= k < sq.len()
                ==> crate::systems::gem_of_some_dead(
                #[trigger] sq[k],
                stage_final(pre, input),
                pre.cfg,
            ),
    ensures
        tick_table_matches(pre, post, input, angle),
{
    let s9 = stage_final(pre, input);
    let ins = tick_insertions(pre, input, angle);
    let base = boundary_table(pre, input) + ins;
    assert(boundary_table(pre, input) =~= killed_seq(s9, dq)) by {
        assert forall|i: int|
            0 <= i < s9.len() implies boundary_table(pre, input)[i] == killed_seq(s9, dq)[i] by {
            assert(dq.contains(i as usize) <==> removed_this_tick(pre, input, i as usize));
        }
    }
    assert(base.len() == s9.len() + ins.len());
    assert(post.world.ents@.len() == s9.len() + sq.len());
    assert(post.world.ents@.subrange(0, base.len() as int) =~= base) by {
        assert forall|i: int|
            0 <= i < base.len() implies post.world.ents@.subrange(0, base.len() as int)[i]
                == base[i] by {
            if i < s9.len() {
                assert(post.world.ents@[i] == killed_seq(s9, dq)[i]);
                assert(base[i] == boundary_table(pre, input)[i]);
            } else {
                assert(post.world.ents@[i] == sq[i - s9.len()]);
                assert(sq[i - s9.len()] == sq.subrange(0, ins.len() as int)[i - s9.len()]);
                assert(base[i] == ins[i - s9.len()]);
            }
        }
    }
    assert forall|k: int|
        base.len() <= k < post.world.ents@.len() implies crate::systems::gem_of_some_dead(
        #[trigger] post.world.ents@[k],
        s9,
        pre.cfg,
    ) by {
        assert(post.world.ents@[k] == sq[k - s9.len()]);
    }
}

/// One fixed-duration simulation tick, in the fixed order: movement input
/// and enemy steering set velocities, the integrator moves every entity,
/// the weapon fires, projectile and contact combat resolve, knockback
/// state transitions, the invulnerability window counts down, gems are
/// collected, far-away enemies and spent bullets are culled, the rift
/// spawner runs, death resolution settles score and loot, and the queued
/// removals and insertions are applied at the boundary.
#[verifier::rlimit(100)]
pub fn run_tick(g: &mut Game, input: TickInput) -> (events: Events)
    requires
        old(g).ready(),
        old(g).state is InGame,
        input_ok(input),
    ensures
        final(g).state == old(g).state,
        final(g).ingame == old(g).ingame,
        final(g).cfg == old(g).cfg,
        final(g).wf(),
        final(g).world.player == old(g).world.player,
        final(g).world.player < final(g).world.ents@.len(),
        final(g).world.player_ent().kind == EntityKind::Player,
        (events.player_dies is None) ==> final(g).world.player_ok(),
        input.move_x == 0 && input.move_y == 0 && (old(g).world.player_ent().knockback is None)
            ==> final(g).world.player_ent().vel == Vec2i::spec_zero()
                && final(g).world.player_ent().pos == old(g).world.player_ent().pos,
        final(g).score.0 >= old(g).score.0,
        final(g).rift_timer == old(g).rift_timer.spec_tick(old(g).cfg.tick_ms),
        tick_effect(*old(g), *final(g), input, events),
{
    let cfg = g.cfg;
    let dt = cfg.tick_ms;
    let pid = g.world.player;
    let mut events = Events::none();
    let ghost zero_intent = input.move_x == 0 && input.move_y == 0 && (old(
        g,
    ).world.player_ent().knockback is None);

    // Velocities: movement intent for the player, steering for enemies.
    player_input(&mut g.world, cfg, input.move_x, input.move_y);
    proof {
        if old(g).world.player_ent().knockback is None {
            lemma_kb_after_update(
                old(g).world.ents@,
                g.world.ents@,
                old(g).world.player as int,
                g.world.ents@[old(g).world.player as int],
                0,
            );
        }
        assert(all_kb_within(g.world.ents@, 0));
        assert(g.world.ents@ == stage_input(*old(g), input));
    }
    let ghost s1 = g.world.ents@;
    move_towards_player_when_not_knockback(&mut g.world, cfg);
    proof {
        lemma_kb_after_steer(s1, g.world.ents@, s1[pid as int].pos, 0);
        assert(g.world.player_ok()) by {
            assert(g.world.ents@[pid as int] == crate::enemy::steered(
                s1[pid as int],
                old(g).world.ents@[old(g).world.player as int].pos,
            ));
        }
        if zero_intent {
            assert(g.world.player_ent().vel == Vec2i::spec_zero());
            assert(g.world.player_ent().knockback is None);
        }
        lemma_stage_steered_eq(*old(g), input, g.world.ents@);
    }

    // Movement integration: combat must see post-movement positions.
    let ghost s2 = g.world.ents@;
    move_all(&mut g.world, cfg);
    let ghost slack = 2 * cfg.spec_step(cfg.knockback_speed);
    proof {
        assert(g.world.ents@[pid as int] == crate::systems::moved(s2[pid as int]));
        assert(g.world.player_ok());
        if zero_intent {
            assert(g.world.player_ent().vel == Vec2i::spec_zero());
            assert(g.world.player_ent().pos == old(g).world.player_ent().pos);
            assert(g.world.player_ent().knockback is None);
        }
        lemma_stage_moved_eq(*old(g), input, g.world.ents@);
    }

    // The main weapon.
    fire_main(&mut g.world, cfg, &mut g.weapon_cooldown, input.fire, input.aim);
    tick_weapon_cooldown(&mut g.weapon_cooldown, dt);

    // Projectile combat.
    let nb = g.world.ents.len();
    let ghost s4 = g.world.ents@;
    let ghost d4 = g.world.despawns@;
    proof {
        // Pins the table length to a machine word for the pass lemmas.
        assert(s4.len() == nb as int);
    }
    bullet_hit_enemy(&mut g.world, cfg);
    proof {
        lemma_bullet_pass_preserves(s4, d4, s4.len() as int, cfg, slack);
        lemma_bullet_pass_fixes_non_enemy(s4, d4, s4.len() as int, cfg, pid as int);
        assert(g.world.ents@[pid as int] == s4[pid as int]);
        assert(g.world.player_ok());
        crate::enemy::lemma_bullet_pass_despawns(s4, d4, s4.len() as int, cfg);
        assert(!g.world.despawns@.contains(pid)) by {
            assert(d4.len() == 0);
            assert(s4[pid as int].kind == EntityKind::Player);
        }
        assert(s4 == stage_moved(*old(g), input));
        assert(d4 =~= Seq::<usize>::empty());
        assert(g.world.ents@ == stage_shot(*old(g), input));
        assert(g.world.despawns@ == shot_removals(*old(g), input));
    }

    // Contact combat.
    let ghost s5 = g.world.ents@;
    enemy_hits_player(&mut g.world, cfg, &mut events);
    proof {
        if (s5[pid as int].invulnerable is None) && crate::player::any_enemy_overlap(
            s5,
            s5[pid as int],
        ) {
            lemma_kb_after_update(
                s5,
                g.world.ents@,
                pid as int,
                crate::player::player_hit(s5[pid as int], cfg),
                slack,
            );
        }
        assert(all_kb_within(g.world.ents@, slack));
        assert(s5 == stage_shot(*old(g), input));
        assert(g.world.ents@ == stage_contact(*old(g), input));
    }

    // Knockback state transition: back within the thresholds.
    let ghost s6 = g.world.ents@;
    handle_knockback(&mut g.world, cfg);
    proof {
        assert(g.world.ents@[pid as int] == crate::systems::kb_resolved(s6[pid as int]));
        assert(g.world.player_ok());
        assert(s6 == stage_contact(*old(g), input));
        lemma_stage_knockback_eq(*old(g), input, g.world.ents@);
    }

    // Invulnerability countdown.
    let ghost s7b = g.world.ents@;
    countdown_invulnerability(&mut g.world, cfg, dt);
    proof {
        lemma_kb_after_invuln(s7b, g.world.ents@, dt, 0);
        assert(g.world.ents@[pid as int] == crate::player::invuln_ticked(s7b[pid as int], dt));
        assert(g.world.player_ok());
        assert(s7b == stage_knockback(*old(g), input));
        lemma_stage_countdown_eq(*old(g), input, g.world.ents@);
    }

    // Pickup economy, then culling of enemies and spent bullets.
    let ghost dq_b = g.world.despawns@;
    let ghost xp_before = g.xp.0;
    pickup_xp_gem(&mut g.world, cfg, &mut g.xp);
    let ghost dq_p = g.world.despawns@;
    proof {
        assert(!g.world.despawns@.contains(pid));
    }
    despawn_far_away_enemies(&mut g.world, cfg);
    let ghost dq_f = g.world.despawns@;
    proof {
        assert(!g.world.despawns@.contains(pid));
    }
    despawn_bullets(&mut g.world, cfg);
    let ghost dq_s = g.world.despawns@;
    proof {
        assert(!g.world.despawns@.contains(pid));
    }

    // The rift spawner.
    let ghost sq_f = g.world.spawns@;
    let ghost rift_timer_before = g.rift_timer;
    spawn_rift(&mut g.world, cfg, &mut g.rift_timer, dt);
    let ghost sq_r = g.world.spawns@;
    let ghost angle: int = if rift_timer_before.spec_fires(dt) {
        choose|a: int|
            0 <= a < 360 && sq_r == sq_f.push(
                crate::rift::spec_rift(stage_countdown(*old(g), input)[pid as int].pos, a, cfg),
            )
    } else {
        0
    };
    proof {
        if rift_timer_before.spec_fires(dt) {
            assert(exists|a: int|
                0 <= a < 360 && sq_r == sq_f.push(
                    crate::rift::spec_rift(
                        stage_countdown(*old(g), input)[pid as int].pos,
                        a,
                        cfg,
                    ),
                ));
        }
    }
    let ghost s8 = g.world.ents@;
    spawn_enemies(&mut g.world, cfg, dt);
    let ghost sq_e = g.world.spawns@;
    proof {
        lemma_kb_after_rift_step(s8, g.world.ents@, dt, 0);
        assert(g.world.ents@[pid as int] == crate::rift::rift_stepped(s8[pid as int], dt));
        assert(g.world.player_ok());
        assert(s8 == stage_countdown(*old(g), input));
        lemma_stage_final_eq(*old(g), input, g.world.ents@);
    }
    destroy_rift(&mut g.world, cfg);
    let ghost dq_x = g.world.despawns@;
    proof {
        assert(!g.world.despawns@.contains(pid));
    }

    // Death resolution and the tick boundary.
    let ghost s9 = g.world.ents@;
    let ghost score_before = g.score.0;
    let died = die(&mut g.world, cfg, &mut g.score);
    let ghost dq = g.world.despawns@;
    let ghost sq = g.world.spawns@;
    proof {
        assert(g.score.0 >= score_before);
        assert(g.score.0 >= old(g).score.0);
    }
    g.world.apply_commands();
    proof {
        assert(g.world.ents@ == killed_seq(s9, dq) + sq);
        lemma_boundary_wf(s9, dq, sq, g.world.ents@, cfg);
        // The player survives the boundary unless death resolution found
        // it dead.
        assert(g.world.ents@[pid as int] == killed_seq(s9, dq)[pid as int]);
        if !died {
            assert(!dq.contains(pid)) by {
                if crate::systems::is_dead_unit(s9[pid as int]) {
                    assert(crate::systems::is_dead_player(s9[pid as int]));
                }
            }
            assert(g.world.ents@[pid as int] == s9[pid as int]);
            assert(g.world.player_ok());
        }
        if zero_intent {
            assert(s4[pid as int].vel == Vec2i::spec_zero());
            assert(s4[pid as int].pos == old(g).world.player_ent().pos);
            assert(s4[pid as int].knockback is None);
            assert(s5[pid as int] == s4[pid as int]);
            assert(s6[pid as int].vel == s5[pid as int].vel && s6[pid as int].pos
                == s5[pid as int].pos && s6[pid as int].knockback == s5[pid as int].knockback);
            assert(s7b[pid as int] == crate::systems::kb_resolved(s6[pid as int]));
            assert(s7b[pid as int].vel == s6[pid as int].vel && s7b[pid as int].pos
                == s6[pid as int].pos);
            assert(s8[pid as int] == crate::player::invuln_ticked(s7b[pid as int], dt));
            assert(s8[pid as int].vel == s7b[pid as int].vel && s8[pid as int].pos
                == s7b[pid as int].pos);
            assert(s9[pid as int] == crate::rift::rift_stepped(s8[pid as int], dt));
            assert(s9[pid as int].vel == s8[pid as int].vel && s9[pid as int].pos
                == s8[pid as int].pos);
            assert(g.world.ents@[pid as int].vel == s9[pid as int].vel
                && g.world.ents@[pid as int].pos == s9[pid as int].pos);
        }
    }
    if died {
        events.player_dies = Some(PlayerDies);
    }
    proof {
        let pre = *old(g);
        // The six removal queues collapse into the removal predicate.
        lemma_removed_iff(pre, input, dq_b, dq_p, dq_f, dq_s, dq_x, dq);
        // The spawn queue regroups into the insertion list plus the gems.
        let ins = tick_insertions(pre, input, angle);
        assert(pre.world.spawns@ =~= Seq::<Ent>::empty());
        assert(sq_f == (if crate::player::can_fire(
            stage_moved(pre, input)[pre.world.player as int],
            pre.weapon_cooldown,
            input.fire,
            input.aim.0,
            pre.cfg,
        ) {
            Seq::<Ent>::empty().push(
                crate::player::spec_bullet(
                    stage_moved(pre, input)[pre.world.player as int].pos,
                    input.aim.0,
                    pre.cfg,
                ),
            )
        } else {
            Seq::<Ent>::empty()
        }));
        lemma_tick_insertions_eq(pre, input, angle, sq_f, sq_r, sq_e);
        assert(sq.subrange(0, ins.len() as int) =~= ins) by {
            assert forall|i: int|
                0 <= i < ins.len() implies sq.subrange(0, ins.len() as int)[i] == ins[i] by {
                assert(sq[i] == sq_e[i]);
                assert(sq_e[i] == ins[i]);
            }
        }
        lemma_tick_tables(pre, *g, input, dq, sq, angle);
        assert(tick_table_matches(pre, *g, input, angle));
        assert(tick_effect(pre, *g, input, events));
    }
    events
}

/// One step of the whole game: the state machine gates the tick.  At the
/// main menu and on the game-over screen no gameplay resource is mutated;
/// only while InGame does the simulation pipeline run, and a player death
/// flips the state to GameOver at the end of the same step.
pub fn advance(g: &mut Game, input: TickInput) -> (events: Events)
    requires
        old(g).ready(),
        input_ok(input),
    ensures
        final(g).ready(),
        final(g).cfg == old(g).cfg,
        old(g).state is MainMenu && !input.start ==> same_game(*final(g), *old(g)),
        old(g).state is MainMenu && input.start ==> {
            &&& final(g).state is InGame
            &&& final(g).score.0 == 0
            &&& final(g).xp.0 == 0
            &&& final(g).world.ents@ =~= seq![crate::player::spec_player(old(g).cfg)]
            &&& events.health_changed@ == seq![
                crate::events::PlayerHealthChanged {
                    current: old(g).cfg.player_max_health,
                    max: old(g).cfg.player_max_health,
                },
            ]
        },
        old(g).state is GameOver ==> {
            &&& final(g).state == if input.start {
                AppState::MainMenu
            } else {
                AppState::GameOver
            }
            &&& final(g).world.ents@ == old(g).world.ents@
            &&& final(g).score == old(g).score
            &&& final(g).xp == old(g).xp
            &&& final(g).rift_timer == old(g).rift_timer
            &&& final(g).weapon_cooldown == old(g).weapon_cooldown
        },
        old(g).state is InGame ==> {
            &&& (final(g).state is InGame || final(g).state is GameOver)
            &&& (final(g).state is GameOver <==> events.player_dies is Some)
            &&& tick_effect(*old(g), *final(g), input, events)
            &&& final(g).score.0 >= old(g).score.0
            &&& (input.move_x == 0 && input.move_y == 0 && (old(
                g,
            ).world.player_ent().knockback is None) ==> final(g).world.player_ent().vel
                == Vec2i::spec_zero() && final(g).world.player_ent().pos == old(
                g,
            ).world.player_ent().pos)
        },
{
    match g.state {
        AppState::MainMenu => {
            let mut events = Events::none();
            crate::scenes::handle_main_menu(g, input.start, &mut events);
            events
        },
        AppState::InGame => {
            let ghost pre = *old(g);
            let events = run_tick(g, input);
            let ghost mid = *g;
            let died = events.player_dies.is_some();
            crate::scenes::game_over_when_player_dies(g, died);
            proof {
                // The state flip touches no gameplay resource, so the
                // tick's effect carries over to the final game value.
                let a = choose|a: int|
                    0 <= a < 360 && #[trigger] tick_table_matches(pre, mid, input, a);
                assert(tick_table_matches(pre, *g, input, a));
                assert(tick_effect(pre, *g, input, events));
            }
            events
        },
        AppState::GameOver => {
            let events = Events::none();
            crate::scenes::handle_game_over(g, input.start);
            events
        },
    }
}

} // verus!
