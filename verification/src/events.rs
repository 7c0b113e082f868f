//! Notifications emitted by a tick for display layers and the game-flow
//! state machine.

use vstd::prelude::*;

verus! {

/// The player's health changed this tick.
#[derive(Clone, Copy, PartialEq, Eq, Structural, Debug)]
pub struct PlayerHealthChanged {
    pub current: i64,
    pub max: i64,
}

/// The player's health dropped to zero or below this tick.
#[derive(Clone, Copy, PartialEq, Eq, Structural, Debug)]
pub struct PlayerDies;

/// Everything a tick reports to the outside.
pub struct Events {
    pub health_changed: Vec<PlayerHealthChanged>,
    pub player_dies: Option<PlayerDies>,
}

impl Events {
    pub fn none() -> (e: Events)
        ensures
            e.health_changed@ =~= Seq::<PlayerHealthChanged>::empty(),
            e.player_dies is None,
    {
        Events { health_changed: Vec::new(), player_dies: None }
    }
}

} // verus!
