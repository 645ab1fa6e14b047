//! The coarse game lifecycle: a six-state machine driven only by discrete
//! events (the primary start/pause key, the restart key, ball loss, and the
//! live brick count reaching zero), never by continuous simulation.

use vstd::prelude::*;

verus! {

#[derive(Clone, Copy, PartialEq, Eq, Structural, Debug)]
pub enum GameState {
    Starting,
    Restarting,
    Playing,
    Paused,
    Win,
    Lose,
}

/// Where the primary key's release sends each state: it starts a waiting
/// round, toggles pause, and confirms a finished round into a restart.
pub open spec fn after_primary(s: GameState) -> GameState {
    match s {
        GameState::Starting => GameState::Playing,
        GameState::Restarting => GameState::Restarting,
        GameState::Playing => GameState::Paused,
        GameState::Paused => GameState::Playing,
        GameState::Win => GameState::Restarting,
        GameState::Lose => GameState::Restarting,
    }
}

/// The state after one tick's discrete input edges: the primary key's
/// release is handled first; otherwise the restart key's release forces
/// `Restarting` from any state; with neither edge the state is unchanged.
pub open spec fn after_input(s: GameState, primary_released: bool, restart_released: bool) -> GameState {
    if primary_released {
        after_primary(s)
    } else if restart_released {
        GameState::Restarting
    } else {
        s
    }
}

pub fn state_after_input(s: GameState, primary_released: bool, restart_released: bool) -> (r:
    GameState)
    ensures
        r == after_input(s, primary_released, restart_released),
{
    if primary_released {
        match s {
            GameState::Starting => GameState::Playing,
            GameState::Restarting => GameState::Restarting,
            GameState::Playing => GameState::Paused,
            GameState::Paused => GameState::Playing,
            GameState::Win => GameState::Restarting,
            GameState::Lose => GameState::Restarting,
        }
    } else if restart_released {
        GameState::Restarting
    } else {
        s
    }
}

/// The status line shown for each state.
pub fn state_label(s: GameState) -> (r: &'static str)
    ensures
        s == GameState::Starting ==> r@ == "Press Space to start"@,
        s == GameState::Playing ==> r@ == ""@,
        s == GameState::Restarting ==> r@ == ""@,
        s == GameState::Paused ==> r@ == "PAUSED"@,
        s == GameState::Win ==> r@ == "YOU WIN! :D"@,
        s == GameState::Lose ==> r@ == "YOU LOSE :("@,
{
    match s {
        GameState::Starting => "Press Space to start",
        GameState::Playing => "",
        GameState::Restarting => "",
        GameState::Paused => "PAUSED",
        GameState::Win => "YOU WIN! :D",
        GameState::Lose => "YOU LOSE :(",
    }
}

/// Law: the primary key alone walks the start/pause/resume cycle, so a
/// waiting round starts, a playing round pauses, and a paused round resumes.
pub proof fn lemma_start_pause_resume_cycle()
    ensures
        after_input(GameState::Starting, true, false) == GameState::Playing,
        after_input(GameState::Playing, true, false) == GameState::Paused,
        after_input(GameState::Paused, true, false) == GameState::Playing,
{
}

/// Law: a tick without input edges never moves the state machine.
pub proof fn lemma_no_edges_no_transition(s: GameState)
    ensures
        after_input(s, false, false) == s,
{
}

} // verus!
