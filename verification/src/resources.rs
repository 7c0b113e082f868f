//! Process-wide counters and the game-flow states.

use vstd::prelude::*;
use crate::geom::Vec2i;

verus! {

/// Enemies defeated in the current run.  Written only by death resolution.
#[derive(Clone, Copy, PartialEq, Eq, Structural, Debug)]
pub struct Score(pub u64);

/// Experience collected in the current run.  Written only by gem pickup.
#[derive(Clone, Copy, PartialEq, Eq, Structural, Debug)]
pub struct XP(pub u64);

/// The game-flow state gating which systems run.
#[derive(Clone, Copy, PartialEq, Eq, Structural, Debug)]
pub enum AppState {
    MainMenu,
    GameOver,
    InGame,
}

/// Sub-state of a running game.
#[derive(Clone, Copy, PartialEq, Eq, Structural, Debug)]
pub enum InGameState {
    Running,
    Paused,
}

/// The aim point in world coordinates, as projected by the input layer.
#[derive(Clone, Copy, PartialEq, Eq, Structural, Debug)]
pub struct MouseWorldCoords(pub Vec2i);

} // verus!
