//! The session registry: the single owner of all live sessions, keyed by
//! guild, with at most one live session per guild.
//!
//! The registry never performs I/O itself. A lifecycle operation returns a
//! decision or an outcome; the caller carries out the voice-backend call it
//! asks for and reports the result back. The caller must serialize the
//! operations for one guild (the decision values assume nothing happens to
//! that guild between `begin_join` and `complete_join`); operations on
//! different guilds are independent.
//!
//! Join policy, applied uniformly: a `join` for a guild that already has a
//! live session returns that session when the requested channel matches its
//! channel, and fails with `AlreadyConnected` when it differs. In neither
//! case is a second backend join issued.

use vstd::prelude::*;

use crate::errors::SessionError;
use crate::session::{Session, SessionState};

verus! {

/// Whether some record in `s` belongs to guild `g`.
pub open spec fn has_guild(s: Seq<Session>, g: u64) -> bool {
    exists|i: int| 0 <= i < s.len() && s[i].guild == g
}

/// The index of guild `g`'s record. Meaningful under `registry_wf`, which
/// makes the record unique.
pub open spec fn guild_index(s: Seq<Session>, g: u64) -> int {
    choose|i: int| 0 <= i < s.len() && s[i].guild == g
}

/// Guild `g`'s record. Meaningful when `has_guild(s, g)`.
pub open spec fn session_for(s: Seq<Session>, g: u64) -> Session {
    s[guild_index(s, g)]
}

/// The registry invariant: every record is live, and no two records belong
/// to the same guild — so each guild has zero or one live session.
pub open spec fn registry_wf(s: Seq<Session>) -> bool {
    &&& forall|i: int| 0 <= i < s.len() ==> (#[trigger] s[i]).live()
    &&& forall|i: int, j: int|
        #![trigger s[i].guild, s[j].guild]
        0 <= i < s.len() && 0 <= j < s.len() && i != j ==> s[i].guild != s[j].guild
}

/// The guilds of the records in `s`, in registry order.
pub open spec fn guilds_of(s: Seq<Session>) -> Seq<u64> {
    s.map_values(|r: Session| r.guild)
}

/// What `begin_join` answers, given the records before the call.
pub open spec fn join_decision(s: Seq<Session>, g: u64, c: u64) -> JoinDecision {
    if has_guild(s, g) {
        if session_for(s, g).channel == c {
            JoinDecision::UseExisting(session_for(s, g))
        } else {
            JoinDecision::Reject(SessionError::AlreadyConnected)
        }
    } else {
        JoinDecision::Proceed
    }
}

/// The records after `begin_join`: unchanged unless the guild was absent, in
/// which case a `Connecting` record is added.
pub open spec fn after_begin_join(s: Seq<Session>, g: u64, c: u64) -> Seq<Session> {
    if has_guild(s, g) {
        s
    } else {
        s.push(Session::connecting(g, c))
    }
}

/// Whether guild `g` has a join waiting for its backend result.
pub open spec fn has_pending_join(s: Seq<Session>, g: u64) -> bool {
    has_guild(s, g) && session_for(s, g).state is Connecting
}

/// The record a confirmed join settles into.
pub open spec fn connected_record(r: Session, now: u64) -> Session {
    Session { state: SessionState::Connected, joined_at: now, ..r }
}

/// The records after `complete_join`: the pending record becomes `Connected`
/// on success and is dropped on failure; without a pending join nothing
/// changes.
pub open spec fn after_complete_join(s: Seq<Session>, g: u64, joined: bool, now: u64) -> Seq<
    Session,
> {
    if has_pending_join(s, g) {
        if joined {
            s.update(guild_index(s, g), connected_record(session_for(s, g), now))
        } else {
            s.remove(guild_index(s, g))
        }
    } else {
        s
    }
}

/// What `complete_join` answers, given the records before the call.
pub open spec fn complete_join_result(
    s: Seq<Session>,
    g: u64,
    joined: bool,
    reason: u64,
    now: u64,
) -> Result<Session, SessionError> {
    if has_pending_join(s, g) {
        if joined {
            Ok(connected_record(session_for(s, g), now))
        } else {
            Err(SessionError::JoinFailed(reason))
        }
    } else {
        Err(SessionError::SessionNotFound)
    }
}

/// The record a session playing since `now` carries, due for automatic
/// removal at `deadline`.
pub open spec fn playing_record(r: Session, deadline: u64) -> Session {
    Session {
        state: SessionState::Playing,
        auto_disconnect_deadline: Some(deadline),
        ..r
    }
}

/// The records after `start_playback`.
pub open spec fn after_start_playback(s: Seq<Session>, g: u64, deadline: u64) -> Seq<Session> {
    if has_guild(s, g) && session_for(s, g).state is Connected {
        s.update(guild_index(s, g), playing_record(session_for(s, g), deadline))
    } else {
        s
    }
}

/// The snapshot `remove` hands back while the teardown is carried out.
pub open spec fn disconnecting_record(r: Session) -> Session {
    Session { state: SessionState::Disconnecting, ..r }
}

/// The records after `remove`: guild `g`'s record is gone; without one,
/// nothing changes.
pub open spec fn after_remove(s: Seq<Session>, g: u64) -> Seq<Session> {
    if has_guild(s, g) {
        s.remove(guild_index(s, g))
    } else {
        s
    }
}

/// What `remove` answers, given the records before the call.
pub open spec fn remove_outcome(s: Seq<Session>, g: u64) -> RemoveOutcome {
    if has_guild(s, g) {
        RemoveOutcome::Removed(disconnecting_record(session_for(s, g)))
    } else {
        RemoveOutcome::NotPresent
    }
}

/// What `begin_join` asks of its caller.
#[derive(Clone, Copy, Debug)]
pub enum JoinDecision {
    /// No session exists: a `Connecting` record was created. The caller must
    /// issue exactly one backend join for this guild and report its result
    /// through `complete_join`.
    Proceed,
    /// A live session for the requested channel already exists; use it. No
    /// backend call is made.
    UseExisting(Session),
    /// The guild has a live session on a different channel. No backend call
    /// is made and nothing changes.
    Reject(SessionError),
}

/// What `remove` asks of its caller.
#[derive(Clone, Copy, Debug)]
pub enum RemoveOutcome {
    /// The guild's record, here in `Disconnecting`, left the registry. The
    /// caller must issue exactly one backend removal for this guild.
    Removed(Session),
    /// The guild had no session: a no-op success, nothing to do.
    NotPresent,
}

/// Concurrency-safe mapping from guild to its one live session, and the only
/// component that moves sessions through their lifecycle.
pub struct SessionRegistry {
    sessions: Vec<Session>,
}

impl View for SessionRegistry {
    type V = Seq<Session>;

    closed spec fn view(&self) -> Seq<Session> {
        self.sessions@
    }
}

/// Under `registry_wf`, an index holding guild `g` is the only one, so it is
/// the one `guild_index` denotes.
pub proof fn lemma_unique_index(s: Seq<Session>, g: u64, i: int)
    requires
        registry_wf(s),
        0 <= i < s.len(),
        s[i].guild == g,
    ensures
        has_guild(s, g),
        guild_index(s, g) == i,
        session_for(s, g) == s[i],
{
    assert(has_guild(s, g));
    let j = guild_index(s, g);
    assert(0 <= j < s.len() && s[j].guild == g);
    assert(j == i) by {
        if j != i {
            assert(s[i].guild != s[j].guild);
        }
    }
}

/// Appending a live record for an absent guild keeps the registry
/// invariant, registers exactly that record, and leaves every other guild's
/// record untouched.
pub proof fn lemma_wf_push(s: Seq<Session>, r: Session)
    requires
        registry_wf(s),
        r.live(),
        !has_guild(s, r.guild),
    ensures
        registry_wf(s.push(r)),
        has_guild(s.push(r), r.guild),
        session_for(s.push(r), r.guild) == r,
        forall|g: u64|
            g != r.guild ==> (#[trigger] has_guild(s.push(r), g) <==> has_guild(s, g)),
        forall|g: u64|
            g != r.guild && has_guild(s, g) ==> #[trigger] session_for(s.push(r), g)
                == session_for(s, g),
{
    let t = s.push(r);
    assert forall|i: int| 0 <= i < t.len() implies (#[trigger] t[i]).live() by {
        if i < s.len() {
            assert(s[i].live());
        }
    }
    assert forall|i: int, j: int|
        #![trigger t[i].guild, t[j].guild]
        0 <= i < t.len() && 0 <= j < t.len() && i != j implies t[i].guild != t[j].guild by {
        if i < s.len() && j < s.len() {
            assert(s[i].guild != s[j].guild);
        } else if i < s.len() {
            assert(t[j] == r);
            if s[i].guild == r.guild {
                assert(has_guild(s, r.guild));
            }
        } else {
            assert(t[i] == r);
            if s[j].guild == r.guild {
                assert(has_guild(s, r.guild));
            }
        }
    }
    lemma_unique_index(t, r.guild, s.len() as int);
    assert forall|g: u64| g != r.guild implies (#[trigger] has_guild(t, g) <==> has_guild(
        s,
        g,
    )) by {
        if has_guild(s, g) {
            let k = choose|k: int| 0 <= k < s.len() && s[k].guild == g;
            assert(t[k].guild == g);
        }
        if has_guild(t, g) {
            let k = choose|k: int| 0 <= k < t.len() && t[k].guild == g;
            assert(k < s.len());
            assert(s[k].guild == g);
        }
    }
    assert forall|g: u64| g != r.guild && has_guild(s, g) implies #[trigger] session_for(t, g)
        == session_for(s, g) by {
        let k = guild_index(s, g);
        assert(0 <= k < s.len() && s[k].guild == g);
        assert(t[k] == s[k]);
        lemma_unique_index(t, g, k);
    }
}

/// Replacing a record with a live one for the same guild keeps the registry
/// invariant, registers exactly the new record, and leaves every other
/// guild's record untouched.
pub proof fn lemma_wf_update(s: Seq<Session>, i: int, r: Session)
    requires
        registry_wf(s),
        0 <= i < s.len(),
        r.live(),
        r.guild == s[i].guild,
    ensures
        registry_wf(s.update(i, r)),
        has_guild(s.update(i, r), r.guild),
        session_for(s.update(i, r), r.guild) == r,
        forall|g: u64|
            g != r.guild ==> (#[trigger] has_guild(s.update(i, r), g) <==> has_guild(s, g)),
        forall|g: u64|
            g != r.guild && has_guild(s, g) ==> #[trigger] session_for(s.update(i, r), g)
                == session_for(s, g),
{
    let t = s.update(i, r);
    assert forall|k: int| 0 <= k < t.len() implies (#[trigger] t[k]).live() by {
        if k != i {
            assert(t[k] == s[k]);
        }
    }
    assert forall|k: int, l: int|
        #![trigger t[k].guild, t[l].guild]
        0 <= k < t.len() && 0 <= l < t.len() && k != l implies t[k].guild != t[l].guild by {
        assert(s[k].guild != s[l].guild);
        if k != i {
            assert(t[k] == s[k]);
        }
        if l != i {
            assert(t[l] == s[l]);
        }
    }
    lemma_unique_index(t, r.guild, i);
    assert forall|g: u64| g != r.guild implies (#[trigger] has_guild(t, g) <==> has_guild(
        s,
        g,
    )) by {
        if has_guild(s, g) {
            let k = choose|k: int| 0 <= k < s.len() && s[k].guild == g;
            assert(k != i);
            assert(t[k].guild == g);
        }
        if has_guild(t, g) {
            let k = choose|k: int| 0 <= k < t.len() && t[k].guild == g;
            assert(k != i);
            assert(s[k].guild == g);
        }
    }
    assert forall|g: u64| g != r.guild && has_guild(s, g) implies #[trigger] session_for(t, g)
        == session_for(s, g) by {
        let k = guild_index(s, g);
        assert(0 <= k < s.len() && s[k].guild == g);
        assert(k != i);
        assert(t[k] == s[k]);
        lemma_unique_index(t, g, k);
    }
}

/// Dropping a record keeps the registry invariant, erases exactly its guild,
/// and leaves every other guild's record untouched.
pub proof fn lemma_wf_remove(s: Seq<Session>, i: int)
    requires
        registry_wf(s),
        0 <= i < s.len(),
    ensures
        registry_wf(s.remove(i)),
        !has_guild(s.remove(i), s[i].guild),
        forall|g: u64|
            g != s[i].guild ==> (#[trigger] has_guild(s.remove(i), g) <==> has_guild(s, g)),
        forall|g: u64|
            g != s[i].guild && has_guild(s, g) ==> #[trigger] session_for(s.remove(i), g)
                == session_for(s, g),
{
    let t = s.remove(i);
    assert(t.len() == s.len() - 1);
    assert forall|k: int| 0 <= k < t.len() implies t[k] == (if k < i {
        s[k]
    } else {
        s[k + 1]
    }) by {}
    assert forall|k: int| 0 <= k < t.len() implies (#[trigger] t[k]).live() by {
        if k < i {
            assert(s[k].live());
        } else {
            assert(s[k + 1].live());
        }
    }
    assert forall|k: int, l: int|
        #![trigger t[k].guild, t[l].guild]
        0 <= k < t.len() && 0 <= l < t.len() && k != l implies t[k].guild != t[l].guild by {
        let k0: int = if k < i { k } else { k + 1 };
        let l0: int = if l < i { l } else { l + 1 };
        assert(s[k0].guild != s[l0].guild);
    }
    assert(!has_guild(t, s[i].guild)) by {
        if has_guild(t, s[i].guild) {
            let k = choose|k: int| 0 <= k < t.len() && t[k].guild == s[i].guild;
            let k0: int = if k < i { k } else { k + 1 };
            assert(s[k0].guild == s[i].guild);
            assert(s[k0].guild != s[i].guild);
        }
    }
    assert forall|g: u64| g != s[i].guild implies (#[trigger] has_guild(t, g) <==> has_guild(
        s,
        g,
    )) by {
        if has_guild(t, g) {
            let k = choose|k: int| 0 <= k < t.len() && t[k].guild == g;
            let k0: int = if k < i { k } else { k + 1 };
            assert(s[k0].guild == g);
            assert(has_guild(s, g));
        }
        if has_guild(s, g) {
            let k = choose|k: int| 0 <= k < s.len() && s[k].guild == g;
            if k < i {
                assert(t[k].guild == g);
            } else {
                assert(k > i);
                assert(t[k - 1].guild == g);
            }
            assert(has_guild(t, g));
        }
    }
    assert forall|g: u64| g != s[i].guild && has_guild(s, g) implies #[trigger] session_for(t, g)
        == session_for(s, g) by {
        let k = guild_index(s, g);
        assert(0 <= k < s.len() && s[k].guild == g);
        if k < i {
            assert(t[k] == s[k]);
            lemma_unique_index(t, g, k);
        } else {
            assert(k > i);
            assert(t[k - 1] == s[k]);
            lemma_unique_index(t, g, k - 1);
        }
    }
}

impl SessionRegistry {
    /// The registry invariant, as seen through the view.
    pub open spec fn wf(self) -> bool {
        registry_wf(self@)
    }

    /// An empty registry: no guild has a session.
    pub fn new() -> (r: SessionRegistry)
        ensures
            r@ == Seq::<Session>::empty(),
            r.wf(),
    {
        SessionRegistry { sessions: Vec::new() }
    }

    /// The position of guild `g`'s record, if it has one.
    fn index_of(&self, guild: u64) -> (r: Option<usize>)
        requires
            self.wf(),
        ensures
            match r {
                Some(i) => {
                    &&& i < self@.len()
                    &&& self@[i as int].guild == guild
                    &&& has_guild(self@, guild)
                    &&& guild_index(self@, guild) == i as int
                },
                None => !has_guild(self@, guild),
            },
    {
        let n = self.sessions.len();
        let mut i: usize = 0;
        while i < n
            invariant
                self.wf(),
                n == self@.len(),
                i <= n,
                forall|j: int| 0 <= j < i ==> self@[j].guild != guild,
            decreases n - i,
        {
            if self.sessions[i].guild == guild {
                proof {
                    lemma_unique_index(self@, guild, i as int);
                }
                return Some(i);
            }
            i += 1;
        }
        None
    }

    /// Non-blocking snapshot lookup of one guild's session.
    pub fn get(&self, guild: u64) -> (r: Option<Session>)
        requires
            self.wf(),
        ensures
            has_guild(self@, guild) ==> r == Some(session_for(self@, guild)),
            !has_guild(self@, guild) ==> r is None,
    {
        match self.index_of(guild) {
            Some(i) => Some(self.sessions[i]),
            None => None,
        }
    }

    /// First half of `join`. If the guild is absent, records a `Connecting`
    /// session and answers `Proceed`: the caller must issue exactly one
    /// backend join and report its result through `complete_join`, without
    /// letting another operation on this guild in between. If the guild
    /// already has a session, nothing changes and no backend call is asked
    /// for: the existing session is returned when the channel matches, and
    /// `AlreadyConnected` when it differs.
    pub fn begin_join(&mut self, guild: u64, channel: u64) -> (d: JoinDecision)
        requires
            old(self).wf(),
        ensures
            final(self).wf(),
            final(self)@ == after_begin_join(old(self)@, guild, channel),
            d == join_decision(old(self)@, guild, channel),
            has_guild(final(self)@, guild),
            d is Proceed ==> !has_guild(old(self)@, guild) && session_for(final(self)@, guild)
                == Session::connecting(guild, channel),
            !(d is Proceed) ==> final(self)@ == old(self)@,
            forall|g: u64|
                g != guild ==> (#[trigger] has_guild(final(self)@, g) <==> has_guild(
                    old(self)@,
                    g,
                )),
            forall|g: u64|
                g != guild && has_guild(old(self)@, g) ==> #[trigger] session_for(final(self)@, g)
                    == session_for(old(self)@, g),
    {
        match self.index_of(guild) {
            Some(i) => {
                let existing = self.sessions[i];
                if existing.channel == channel {
                    JoinDecision::UseExisting(existing)
                } else {
                    JoinDecision::Reject(SessionError::AlreadyConnected)
                }
            },
            None => {
                let record = Session {
                    guild,
                    channel,
                    state: SessionState::Connecting,
                    joined_at: 0,
                    auto_disconnect_deadline: None,
                };
                proof {
                    lemma_wf_push(self@, record);
                }
                self.sessions.push(record);
                JoinDecision::Proceed
            },
        }
    }

    /// Second half of `join`: the backend answered at instant `now`. On
    /// success the pending record becomes `Connected` and is returned. On
    /// failure the record is dropped (`Connecting` goes straight to
    /// `Terminated`) and `JoinFailed` carries `reason`, the caller's code
    /// for what the backend reported. Without a pending join — the record
    /// was drained while the backend call was in flight — nothing changes
    /// and `SessionNotFound` is returned.
    pub fn complete_join(&mut self, guild: u64, joined: bool, reason: u64, now: u64) -> (r: Result<
        Session,
        SessionError,
    >)
        requires
            old(self).wf(),
        ensures
            final(self).wf(),
            final(self)@ == after_complete_join(old(self)@, guild, joined, now),
            r == complete_join_result(old(self)@, guild, joined, reason, now),
            r matches Ok(confirmed) ==> has_guild(final(self)@, guild) && session_for(
                final(self)@,
                guild,
            ) == confirmed && confirmed.state is Connected,
            (r matches Err(e) && e is JoinFailed) ==> !has_guild(final(self)@, guild),
            (r matches Err(e) && e is SessionNotFound) ==> final(self)@ == old(self)@,
            forall|g: u64|
                g != guild ==> (#[trigger] has_guild(final(self)@, g) <==> has_guild(
                    old(self)@,
                    g,
                )),
            forall|g: u64|
                g != guild && has_guild(old(self)@, g) ==> #[trigger] session_for(final(self)@, g)
                    == session_for(old(self)@, g),
    {
        match self.index_of(guild) {
            Some(i) => {
                let cur = self.sessions[i];
                if cur.state == SessionState::Connecting {
                    if joined {
                        let upd = Session {
                            state: SessionState::Connected,
                            joined_at: now,
                            ..cur
                        };
                        proof {
                            lemma_wf_update(self@, i as int, upd);
                        }
                        self.sessions.set(i, upd);
                        Ok(upd)
                    } else {
                        proof {
                            lemma_wf_remove(self@, i as int);
                        }
                        self.sessions.remove(i);
                        Err(SessionError::JoinFailed(reason))
                    }
                } else {
                    Err(SessionError::SessionNotFound)
                }
            },
            None => Err(SessionError::SessionNotFound),
        }
    }

    /// Marks a connected session as playing from instant `now` on, with an
    /// automatic teardown owed at the returned deadline, exactly `delay`
    /// after `now`. The caller schedules a timer that calls `remove` for
    /// this guild once the deadline has passed.
    pub fn start_playback(&mut self, guild: u64, now: u64, delay: u64) -> (deadline: u64)
        requires
            old(self).wf(),
            has_guild(old(self)@, guild),
            session_for(old(self)@, guild).state is Connected,
            now + delay <= u64::MAX,
        ensures
            final(self).wf(),
            deadline == now + delay,
            final(self)@ == after_start_playback(old(self)@, guild, deadline),
            has_guild(final(self)@, guild),
            session_for(final(self)@, guild) == playing_record(
                session_for(old(self)@, guild),
                deadline,
            ),
            forall|g: u64|
                g != guild ==> (#[trigger] has_guild(final(self)@, g) <==> has_guild(
                    old(self)@,
                    g,
                )),
            forall|g: u64|
                g != guild && has_guild(old(self)@, g) ==> #[trigger] session_for(final(self)@, g)
                    == session_for(old(self)@, g),
    {
        let deadline = now + delay;
        match self.index_of(guild) {
            Some(i) => {
                let cur = self.sessions[i];
                let upd = Session {
                    state: SessionState::Playing,
                    auto_disconnect_deadline: Some(deadline),
                    ..cur
                };
                proof {
                    lemma_wf_update(self@, i as int, upd);
                }
                self.sessions.set(i, upd);
                proof {
                    lemma_unique_index(self@, guild, i as int);
                }
                deadline
            },
            None => {
                // Unreachable: the guild is required to have a session.
                deadline
            },
        }
    }

    /// Removes guild `g`'s session. With a session present, its snapshot —
    /// transitioned to `Disconnecting` — comes back in `Removed`, and the
    /// caller must issue exactly one backend removal. With none present the
    /// call is a no-op success: removal is idempotent, so a late
    /// auto-disconnect timer or a second manual removal is harmless and
    /// issues no backend call.
    pub fn remove(&mut self, guild: u64) -> (r: RemoveOutcome)
        requires
            old(self).wf(),
        ensures
            final(self).wf(),
            final(self)@ == after_remove(old(self)@, guild),
            r == remove_outcome(old(self)@, guild),
            !has_guild(final(self)@, guild),
            !has_guild(old(self)@, guild) ==> final(self)@ == old(self)@,
            forall|g: u64|
                g != guild ==> (#[trigger] has_guild(final(self)@, g) <==> has_guild(
                    old(self)@,
                    g,
                )),
            forall|g: u64|
                g != guild && has_guild(old(self)@, g) ==> #[trigger] session_for(final(self)@, g)
                    == session_for(old(self)@, g),
    {
        match self.index_of(guild) {
            Some(i) => {
                let cur = self.sessions[i];
                proof {
                    lemma_wf_remove(self@, i as int);
                }
                self.sessions.remove(i);
                RemoveOutcome::Removed(
                    Session { state: SessionState::Disconnecting, ..cur },
                )
            },
            None => RemoveOutcome::NotPresent,
        }
    }

    /// A point-in-time snapshot of every session, safe to walk while other
    /// guilds' sessions keep changing underneath.
    pub fn get_all_sessions(&self) -> (v: Vec<Session>)
        ensures
            v@ == self@,
    {
        let n = self.sessions.len();
        let mut v: Vec<Session> = Vec::new();
        let mut i: usize = 0;
        while i < n
            invariant
                n == self@.len(),
                i <= n,
                v@ == self@.subrange(0, i as int),
            decreases n - i,
        {
            v.push(self.sessions[i]);
            i += 1;
        }
        proof {
            assert(v@ =~= self@);
        }
        v
    }

    /// Drains the registry: every session leaves it, and the returned
    /// guilds — each current guild exactly once, in registry order — are the
    /// ones the caller must ask the backend to disconnect. A backend error
    /// for one guild must not keep the caller from asking for the rest.
    pub fn shutdown_all(&mut self) -> (drained: Vec<u64>)
        requires
            old(self).wf(),
        ensures
            final(self).wf(),
            final(self)@ == Seq::<Session>::empty(),
            drained@ == guilds_of(old(self)@),
            drained@.no_duplicates(),
    {
        let n = self.sessions.len();
        let mut drained: Vec<u64> = Vec::new();
        let mut i: usize = 0;
        while i < n
            invariant
                n == self@.len(),
                i <= n,
                self.wf(),
                drained@ == guilds_of(self@.subrange(0, i as int)),
            decreases n - i,
        {
            drained.push(self.sessions[i].guild);
            proof {
                assert(drained@ =~= guilds_of(self@.subrange(0, i + 1 as int)));
            }
            i += 1;
        }
        proof {
            assert(self@.subrange(0, self@.len() as int) =~= self@);
            lemma_distinct_guilds(self@);
        }
        self.sessions.clear();
        drained
    }
}

/// Under the registry invariant the guild column has no duplicates.
pub proof fn lemma_distinct_guilds(s: Seq<Session>)
    requires
        registry_wf(s),
    ensures
        guilds_of(s).no_duplicates(),
{
    let gs = guilds_of(s);
    assert forall|i: int, j: int|
        0 <= i < gs.len() && 0 <= j < gs.len() && i != j implies gs[i] != gs[j] by {
        assert(s[i].guild != s[j].guild);
    }
}

} // verus!
