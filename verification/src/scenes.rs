//! The game-flow state machine: MainMenu, InGame, GameOver.
//!
//! Transitions: MainMenu to InGame on the start signal, InGame to
//! GameOver on the player-died notification, GameOver to MainMenu on the
//! restart signal.  Entering InGame rebuilds every gameplay resource from
//! scratch; in any other state no gameplay resource is touched.

use vstd::prelude::*;
use crate::events::Events;
use crate::game::{same_game, Game};
use crate::player::{setup_player, spec_player};
use crate::resources::{AppState, InGameState, Score, XP};
use crate::rift::setup_rift_spawning;
use crate::timer::Timer;
use crate::world::{ent_wf, kb_within, World};

verus! {

/// Enters a fresh run: all gameplay resources are rebuilt from scratch --
/// a new world holding only the player at full health, zero score, zero
/// experience, and fresh spawner and weapon timers.
pub fn enter_in_game(g: &mut Game, events: &mut Events)
    requires
        old(g).cfg.wf(),
    ensures
        final(g).state is InGame,
        final(g).ingame is Running,
        final(g).cfg == old(g).cfg,
        final(g).score.0 == 0,
        final(g).xp.0 == 0,
        final(g).world.ents@ =~= seq![spec_player(old(g).cfg)],
        final(g).world.player == 0,
        final(g).world.player_ok(),
        final(g).rift_timer == Timer::spec_repeating(old(g).cfg.rift_interval_ms),
        final(g).weapon_cooldown == Timer::spec_done(),
        final(g).ready(),
        final(events).health_changed@ == old(events).health_changed@.push(
            crate::events::PlayerHealthChanged {
                current: old(g).cfg.player_max_health,
                max: old(g).cfg.player_max_health,
            },
        ),
        final(events).player_dies == old(events).player_dies,
{
    g.state = AppState::InGame;
    g.ingame = InGameState::Running;
    g.score = Score(0);
    g.xp = XP(0);
    g.world = World::new();
    setup_player(&mut g.world, &g.cfg, events);
    g.rift_timer = setup_rift_spawning(&g.cfg);
    g.weapon_cooldown = Timer::done();
    proof {
        assert(ent_wf(spec_player(g.cfg), g.cfg));
        assert forall|i: int| 0 <= i < g.world.ents@.len() implies ent_wf(
            #[trigger] g.world.ents@[i],
            g.cfg,
        ) && kb_within(g.world.ents@[i], 0) by {
            assert(g.world.ents@[i] == spec_player(g.cfg));
        }
    }
}

/// The main menu: the start signal begins a fresh run, anything else
/// leaves the whole game untouched.
pub fn handle_main_menu(g: &mut Game, start: bool, events: &mut Events)
    requires
        old(g).ready(),
        old(g).state is MainMenu,
    ensures
        final(g).ready(),
        final(g).cfg == old(g).cfg,
        !start ==> same_game(*final(g), *old(g)) && final(events).health_changed@ == old(
            events,
        ).health_changed@ && final(events).player_dies == old(events).player_dies,
        start ==> {
            &&& final(g).state is InGame
            &&& final(g).score.0 == 0
            &&& final(g).xp.0 == 0
            &&& final(g).world.ents@ =~= seq![spec_player(old(g).cfg)]
            &&& final(g).world.player_ok()
            &&& final(events).health_changed@ == old(events).health_changed@.push(
                crate::events::PlayerHealthChanged {
                    current: old(g).cfg.player_max_health,
                    max: old(g).cfg.player_max_health,
                },
            )
        },
{
    if start {
        enter_in_game(g, events);
    }
}

/// While a run is live, the player-died notification ends it.
pub fn game_over_when_player_dies(g: &mut Game, died: bool)
    requires
        old(g).wf(),
        old(g).state is InGame,
    ensures
        final(g).wf(),
        died ==> final(g).state is GameOver,
        !died ==> final(g).state == old(g).state,
        final(g).ingame == old(g).ingame,
        final(g).cfg == old(g).cfg,
        final(g).world.ents@ == old(g).world.ents@,
        final(g).world.player == old(g).world.player,
        final(g).world.despawns@ == old(g).world.despawns@,
        final(g).world.spawns@ == old(g).world.spawns@,
        final(g).score == old(g).score,
        final(g).xp == old(g).xp,
        final(g).rift_timer == old(g).rift_timer,
        final(g).weapon_cooldown == old(g).weapon_cooldown,
{
    if died {
        g.state = AppState::GameOver;
    }
}

/// The game-over screen: the restart signal returns to the main menu,
/// anything else leaves the whole game untouched.  No gameplay resource
/// is mutated either way.
pub fn handle_game_over(g: &mut Game, restart: bool)
    requires
        old(g).ready(),
        old(g).state is GameOver,
    ensures
        final(g).ready(),
        restart ==> final(g).state is MainMenu,
        !restart ==> final(g).state == old(g).state,
        final(g).ingame == old(g).ingame,
        final(g).cfg == old(g).cfg,
        final(g).world.ents@ == old(g).world.ents@,
        final(g).world.player == old(g).world.player,
        final(g).world.despawns@ == old(g).world.despawns@,
        final(g).world.spawns@ == old(g).world.spawns@,
        final(g).score == old(g).score,
        final(g).xp == old(g).xp,
        final(g).rift_timer == old(g).rift_timer,
        final(g).weapon_cooldown == old(g).weapon_cooldown,
{
    if restart {
        g.state = AppState::MainMenu;
    }
}

} // verus!
