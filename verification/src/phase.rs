//! The game phase state machine.
//!
//! Exactly one phase is active at a time.  A single edge-triggered "confirm"
//! input drives every player-visible transition; the collision resolver adds
//! the loss and win transitions while `Playing` (see `collision`).

use vstd::prelude::*;

verus! {

/// The discrete gameplay mode gating which systems act this frame.
#[derive(Clone, Copy, Debug, PartialEq, Eq, Structural)]
pub enum Phase {
    /// Title screen; confirm starts a fresh round.
    Welcome,
    /// Ball rides the paddle, awaiting the serve.
    WaitLaunch,
    /// Free simulation: motion and collision run.
    Playing,
    /// Frozen mid-round; confirm resumes.
    Pause,
    /// Terminal for the round: the last life was lost.
    GameOverScreen,
    /// Terminal for the round: every brick was destroyed.
    WinScreen,
}

/// The phase reached from `p` when the confirm key is pressed this frame.
pub open spec fn spec_confirm_next(p: Phase) -> Phase {
    match p {
        Phase::Welcome => Phase::WaitLaunch,
        Phase::WaitLaunch => Phase::Playing,
        Phase::Playing => Phase::Pause,
        Phase::Pause => Phase::Playing,
        Phase::GameOverScreen => Phase::Welcome,
        Phase::WinScreen => Phase::Welcome,
    }
}

/// Executable form of the confirm transition table.
pub fn confirm_next(p: Phase) -> (r: Phase)
    ensures
        r == spec_confirm_next(p),
{
    match p {
        Phase::Welcome => Phase::WaitLaunch,
        Phase::WaitLaunch => Phase::Playing,
        Phase::Playing => Phase::Pause,
        Phase::Pause => Phase::Playing,
        Phase::GameOverScreen => Phase::Welcome,
        Phase::WinScreen => Phase::Welcome,
    }
}

/// The confirm transition table is total and exact: each of the six phases
/// maps to precisely the listed successor, no phase is re-entrant to itself
/// via confirm, and `Pause` is entered only from `Playing` and returns only
/// to `Playing`.
pub proof fn lemma_phase_table()
    ensures
        spec_confirm_next(Phase::Welcome) == Phase::WaitLaunch,
        spec_confirm_next(Phase::WaitLaunch) == Phase::Playing,
        spec_confirm_next(Phase::Playing) == Phase::Pause,
        spec_confirm_next(Phase::Pause) == Phase::Playing,
        spec_confirm_next(Phase::GameOverScreen) == Phase::Welcome,
        spec_confirm_next(Phase::WinScreen) == Phase::Welcome,
        forall|p: Phase| spec_confirm_next(p) != p,
        forall|p: Phase| spec_confirm_next(p) == Phase::Pause ==> p == Phase::Playing,
{
    assert(forall|p: Phase| spec_confirm_next(p) != p) by {
        assert(spec_confirm_next(Phase::Welcome) != Phase::Welcome);
    }
}

} // verus!
