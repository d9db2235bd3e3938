//! Failures a session operation can report to its caller.

use vstd::prelude::*;

verus! {

/// Why a session operation failed. Every failure is returned to the
/// immediate caller; none is fatal to the process.
#[derive(Clone, Copy, Debug, PartialEq, Eq, Structural)]
pub enum SessionError {
    /// The voice backend capability was never handed to the caller. Raised
    /// by the command layer when it cannot obtain the backend; the registry
    /// itself never produces it.
    BackendUnavailable,
    /// The voice backend refused or failed the join. Carries an opaque
    /// reason code chosen by the caller that observed the backend failure.
    JoinFailed(u64),
    /// A join asked for a different channel while the guild already has a
    /// live session.
    AlreadyConnected,
    /// A join completion was reported for a guild that has no pending join:
    /// the record disappeared underneath (the registry was drained while the
    /// backend call was in flight) or no join was ever begun. Absence is
    /// never an error for `remove`, which treats it as a no-op success.
    SessionNotFound,
}

} // verus!
