//! The three session states and the reasons given for them.

use vstd::prelude::*;

verus! {

/// What the session is allowed at an instant.
#[derive(Clone, Copy, Debug, PartialEq, Eq, Structural)]
pub enum CurrentState {
    /// A work period is running.
    Unlocked,
    /// The session is held locked.
    Locked,
    /// Nothing holds the session: a work period may be started.
    Unlockable,
}

/// Why the session is in its state.
#[derive(Clone, Copy, Debug, PartialEq, Eq, Structural)]
pub enum CurrentStateReason {
    /// The break after a work period is running.
    BreakTimer,
    /// The requirement `id` is due and not complete.
    RequirementNotMet { id: u64 },
    /// The instant lies in the locked time range `id`.
    LockedTimeRange { id: u64 },
    /// Nothing locks the session.
    NoConstraints,
}

/// Whether `reason` is one that `state` can carry: a locked session names what
/// locks it, and a session that is not locked names no lock.
pub open spec fn reason_fits(state: CurrentState, reason: CurrentStateReason) -> bool {
    match state {
        CurrentState::Locked => reason != CurrentStateReason::NoConstraints,
        CurrentState::Unlocked => reason == CurrentStateReason::NoConstraints,
        CurrentState::Unlockable => reason == CurrentStateReason::NoConstraints,
    }
}

} // verus!
