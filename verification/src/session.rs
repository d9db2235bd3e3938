//! One guild's voice session: its lifecycle states and its record.

use vstd::prelude::*;

verus! {

/// Lifecycle of a voice session. A session is created in `Connecting`,
/// becomes `Connected` when the voice backend confirms the join, may move to
/// `Playing` while a diagnostic stream is sent, and leaves through
/// `Disconnecting` into the absorbing `Terminated` state. A failed join goes
/// from `Connecting` straight to `Terminated`.
#[derive(Clone, Copy, Debug, PartialEq, Eq, Structural)]
pub enum SessionState {
    Connecting,
    Connected,
    Playing,
    Disconnecting,
    Terminated,
}

/// The single-step transitions the lifecycle allows. `Terminated` is
/// absorbing; the registry drops a session's record once it gets there.
pub open spec fn step_allowed(from: SessionState, to: SessionState) -> bool {
    match (from, to) {
        (SessionState::Connecting, SessionState::Connected) => true,
        (SessionState::Connecting, SessionState::Terminated) => true,
        (SessionState::Connected, SessionState::Playing) => true,
        (SessionState::Connected, SessionState::Disconnecting) => true,
        (SessionState::Playing, SessionState::Disconnecting) => true,
        (SessionState::Disconnecting, SessionState::Terminated) => true,
        _ => false,
    }
}

/// This bot's voice presence in one guild. Values handed out by the registry
/// are snapshots: all mutation goes through the registry itself, which keeps
/// the per-guild invariants.
#[derive(Clone, Copy, Debug)]
pub struct Session {
    /// The guild the session belongs to; never changes.
    pub guild: u64,
    /// The voice channel currently joined.
    pub channel: u64,
    /// Where the session stands in its lifecycle.
    pub state: SessionState,
    /// When the backend confirmed the connection; meaningful from
    /// `Connected` on.
    pub joined_at: u64,
    /// The instant at which the auto-disconnect timer will remove this
    /// session; present exactly while a scheduled teardown is pending.
    pub auto_disconnect_deadline: Option<u64>,
}

impl Session {
    /// A session the registry may keep a record of: not yet torn down, and
    /// carrying a deadline only while playing.
    pub open spec fn live(self) -> bool {
        &&& self.state != SessionState::Terminated
        &&& self.state != SessionState::Disconnecting
        &&& self.auto_disconnect_deadline is Some ==> self.state is Playing
    }

    /// The record a fresh `join` puts into the registry.
    pub open spec fn connecting(guild: u64, channel: u64) -> Session {
        Session {
            guild,
            channel,
            state: SessionState::Connecting,
            joined_at: 0,
            auto_disconnect_deadline: None,
        }
    }
}

/// `Terminated` is absorbing: no transition leaves it.
pub proof fn lemma_terminated_is_absorbing(to: SessionState)
    ensures
        !step_allowed(SessionState::Terminated, to),
{
}

/// Playback is entered from `Connected` alone.
pub proof fn lemma_playing_only_from_connected(from: SessionState)
    ensures
        step_allowed(from, SessionState::Playing) ==> from is Connected,
{
}

} // verus!
