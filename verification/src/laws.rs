//! The guarantees the registry gives under any interleaving of commands.
//!
//! The registry serializes the operations on one guild, so every concurrent
//! history the system can produce is some sequence of the atomic transitions
//! below. The lemmas here state what holds along every such sequence: the
//! registry invariant is never lost, a guild never holds two live sessions,
//! concurrent joins issue one backend join, removal is idempotent, and a
//! drained registry stays quiet.

use vstd::prelude::*;

use crate::registry::{
    after_begin_join, after_complete_join, after_remove, after_start_playback, connected_record,
    guild_index, guilds_of, has_guild, join_decision, lemma_distinct_guilds, lemma_unique_index,
    lemma_wf_push, lemma_wf_remove, lemma_wf_update, playing_record, registry_wf, remove_outcome,
    session_for, RemoveOutcome,
};
use crate::session::{step_allowed, Session, SessionState};

verus! {

/// One serialized lifecycle transition, as the registry sees it. A `Join`
/// covers the whole command: the decision, the backend call when one is
/// asked for, and the backend's answer `backend_ok` reported at `now`.
pub enum RegistryEvent {
    Join { guild: u64, channel: u64, backend_ok: bool, now: u64 },
    StartPlayback { guild: u64, deadline: u64 },
    Remove { guild: u64 },
    ShutdownAll,
}

/// The records after one transition.
pub open spec fn apply_event(s: Seq<Session>, e: RegistryEvent) -> Seq<Session> {
    match e {
        RegistryEvent::Join { guild, channel, backend_ok, now } => {
            if join_decision(s, guild, channel) is Proceed {
                after_complete_join(after_begin_join(s, guild, channel), guild, backend_ok, now)
            } else {
                s
            }
        },
        RegistryEvent::StartPlayback { guild, deadline } => after_start_playback(
            s,
            guild,
            deadline,
        ),
        RegistryEvent::Remove { guild } => after_remove(s, guild),
        RegistryEvent::ShutdownAll => Seq::empty(),
    }
}

/// The records after a whole series of transitions, applied in order.
pub open spec fn apply_events(s: Seq<Session>, es: Seq<RegistryEvent>) -> Seq<Session>
    decreases es.len(),
{
    if es.len() == 0 {
        s
    } else {
        apply_events(apply_event(s, es[0]), es.drop_first())
    }
}

/// How many backend joins for guild `g` one transition issues: one exactly
/// when it is a join for `g` whose decision is `Proceed`.
pub open spec fn backend_joins_of(s: Seq<Session>, e: RegistryEvent, g: u64) -> nat {
    match e {
        RegistryEvent::Join { guild, channel, .. } => {
            if guild == g && join_decision(s, guild, channel) is Proceed {
                1nat
            } else {
                0nat
            }
        },
        _ => 0nat,
    }
}

/// How many backend joins for guild `g` a series of transitions issues.
pub open spec fn backend_joins_during(s: Seq<Session>, es: Seq<RegistryEvent>, g: u64) -> nat
    decreases es.len(),
{
    if es.len() == 0 {
        0nat
    } else {
        backend_joins_of(s, es[0], g) + backend_joins_during(
            apply_event(s, es[0]),
            es.drop_first(),
            g,
        )
    }
}

/// A join request for guild `g` and channel `c`, whatever the backend then
/// answers.
pub open spec fn is_join_request(e: RegistryEvent, g: u64, c: u64) -> bool {
    e matches RegistryEvent::Join { guild, channel, .. } && guild == g && channel == c
}

/// A successful join for an absent guild leaves exactly one record for it:
/// connected, on the requested channel. Records of other guilds are
/// untouched.
pub proof fn lemma_join_success(s: Seq<Session>, g: u64, c: u64, now: u64)
    requires
        registry_wf(s),
        !has_guild(s, g),
    ensures
        ({
            let t = after_complete_join(after_begin_join(s, g, c), g, true, now);
            &&& registry_wf(t)
            &&& has_guild(t, g)
            &&& session_for(t, g) == connected_record(
                Session::connecting(g, c),
                now,
            )
            &&& forall|g2: u64|
                g2 != g ==> (#[trigger] has_guild(t, g2) <==> has_guild(s, g2))
            &&& forall|g2: u64|
                g2 != g && has_guild(s, g2) ==> #[trigger] session_for(t, g2) == session_for(
                    s,
                    g2,
                )
        }),
{
    let r = Session::connecting(g, c);
    let pushed = s.push(r);
    lemma_wf_push(s, r);
    lemma_unique_index(pushed, g, s.len() as int);
    let upd = connected_record(r, now);
    let t = pushed.update(s.len() as int, upd);
    lemma_wf_update(pushed, s.len() as int, upd);
    lemma_unique_index(t, g, s.len() as int);
    assert forall|g2: u64| g2 != g implies (#[trigger] has_guild(t, g2) <==> has_guild(s, g2)) by {
        assert(has_guild(pushed, g2) <==> has_guild(s, g2));
    }
    assert forall|g2: u64| g2 != g && has_guild(s, g2) implies #[trigger] session_for(t, g2)
        == session_for(s, g2) by {
        assert(session_for(pushed, g2) == session_for(s, g2));
        assert(session_for(t, g2) == session_for(pushed, g2));
    }
}

/// One transition keeps the registry invariant.
pub proof fn lemma_event_preserves_wf(s: Seq<Session>, e: RegistryEvent)
    requires
        registry_wf(s),
    ensures
        registry_wf(apply_event(s, e)),
{
    match e {
        RegistryEvent::Join { guild, channel, backend_ok, now } => {
            if join_decision(s, guild, channel) is Proceed {
                let r = Session::connecting(guild, channel);
                let pushed = s.push(r);
                lemma_wf_push(s, r);
                lemma_unique_index(pushed, guild, s.len() as int);
                if backend_ok {
                    lemma_wf_update(
                        pushed,
                        s.len() as int,
                        connected_record(r, now),
                    );
                } else {
                    lemma_wf_remove(pushed, s.len() as int);
                }
            }
        },
        RegistryEvent::StartPlayback { guild, deadline } => {
            if has_guild(s, guild) && session_for(s, guild).state
                is Connected {
                let i = guild_index(s, guild);
                lemma_wf_update(s, i, playing_record(s[i], deadline));
            }
        },
        RegistryEvent::Remove { guild } => {
            if has_guild(s, guild) {
                lemma_wf_remove(s, guild_index(s, guild));
            }
        },
        RegistryEvent::ShutdownAll => {},
    }
}

/// Every change the registry makes to a session follows the lifecycle state
/// machine: a record that survives a transition either keeps its state or
/// moves along an allowed step. (A record enters the registry in
/// `Connecting` and leaves it through `Disconnecting`, through `Terminated`
/// on a failed join, or in the shutdown drain.)
pub proof fn lemma_event_respects_lifecycle(s: Seq<Session>, e: RegistryEvent, g: u64)
    requires
        registry_wf(s),
    ensures
        ({
            let t = apply_event(s, e);
            has_guild(s, g) && has_guild(t, g) ==> {
                let before = session_for(s, g).state;
                let after = session_for(t, g).state;
                after == before || step_allowed(before, after)
            }
        }),
{
    if has_guild(s, g) {
        match e {
            RegistryEvent::Join { guild, channel, backend_ok, now } => {
                if join_decision(s, guild, channel) is Proceed {
                    // `Proceed` means the joining guild was absent, so it is
                    // not `g`: g's record is untouched.
                    let r = Session::connecting(guild, channel);
                    let pushed = s.push(r);
                    lemma_wf_push(s, r);
                    lemma_unique_index(pushed, guild, s.len() as int);
                    if backend_ok {
                        lemma_wf_update(pushed, s.len() as int, connected_record(r, now));
                    } else {
                        lemma_wf_remove(pushed, s.len() as int);
                    }
                    assert(session_for(apply_event(s, e), g) == session_for(s, g));
                }
            },
            RegistryEvent::StartPlayback { guild, deadline } => {
                if has_guild(s, guild) && session_for(s, guild).state is Connected {
                    let i = guild_index(s, guild);
                    lemma_wf_update(s, i, playing_record(s[i], deadline));
                }
            },
            RegistryEvent::Remove { guild } => {
                if has_guild(s, guild) {
                    lemma_wf_remove(s, guild_index(s, guild));
                }
            },
            RegistryEvent::ShutdownAll => {},
        }
    }
}

/// A whole series of transitions keeps the registry invariant.
pub proof fn lemma_events_preserve_wf(s: Seq<Session>, es: Seq<RegistryEvent>)
    requires
        registry_wf(s),
    ensures
        registry_wf(apply_events(s, es)),
    decreases es.len(),
{
    if es.len() > 0 {
        lemma_event_preserves_wf(s, es[0]);
        lemma_events_preserve_wf(apply_event(s, es[0]), es.drop_first());
    }
}

/// At most one session per guild: after any series of joins, removals,
/// playback starts and shutdowns, the registry holds zero or one session for
/// each guild — and none of its records is ever `Terminated`.
pub proof fn lemma_at_most_one_session(s: Seq<Session>, es: Seq<RegistryEvent>, g: u64)
    requires
        registry_wf(s),
    ensures
        ({
            let t = apply_events(s, es);
            &&& forall|i: int, j: int|
                #![trigger t[i].guild, t[j].guild]
                0 <= i < t.len() && 0 <= j < t.len() && t[i].guild == g && t[j].guild == g ==> i
                    == j
            &&& forall|i: int| 0 <= i < t.len() ==> (#[trigger] t[i]).state != SessionState::Terminated
        }),
{
    lemma_events_preserve_wf(s, es);
}

/// Join requests for a guild that already has a session on the requested
/// channel change nothing and issue no backend join.
proof fn lemma_joins_while_present_are_noops(
    s: Seq<Session>,
    es: Seq<RegistryEvent>,
    g: u64,
    c: u64,
)
    requires
        registry_wf(s),
        has_guild(s, g),
        session_for(s, g).channel == c,
        forall|i: int| 0 <= i < es.len() ==> is_join_request(#[trigger] es[i], g, c),
    ensures
        backend_joins_during(s, es, g) == 0,
        apply_events(s, es) == s,
    decreases es.len(),
{
    if es.len() > 0 {
        assert(is_join_request(es[0], g, c));
        assert(!(join_decision(s, g, c) is Proceed));
        assert(apply_event(s, es[0]) == s);
        assert forall|i: int| 0 <= i < es.drop_first().len() implies is_join_request(
            #[trigger] es.drop_first()[i],
            g,
            c,
        ) by {
            assert(es.drop_first()[i] == es[i + 1]);
        }
        lemma_joins_while_present_are_noops(s, es.drop_first(), g, c);
    }
}

/// Serialized join: any number of join requests for one guild and channel,
/// arriving together against a registry without a session for that guild,
/// issue exactly one backend join — the first request's — provided that one
/// succeeds; and they all end up with the same connected session.
pub proof fn lemma_serialized_join(s: Seq<Session>, es: Seq<RegistryEvent>, g: u64, c: u64)
    requires
        registry_wf(s),
        !has_guild(s, g),
        es.len() >= 1,
        forall|i: int| 0 <= i < es.len() ==> is_join_request(#[trigger] es[i], g, c),
        es[0]->Join_backend_ok,
    ensures
        backend_joins_during(s, es, g) == 1,
        has_guild(apply_events(s, es), g),
        session_for(apply_events(s, es), g) == connected_record(
            Session::connecting(g, c),
            es[0]->Join_now,
        ),
{
    assert(is_join_request(es[0], g, c));
    assert(join_decision(s, g, c) is Proceed);
    assert(backend_joins_of(s, es[0], g) == 1);
    let now = es[0]->Join_now;
    let t = after_complete_join(after_begin_join(s, g, c), g, true, now);
    assert(apply_event(s, es[0]) == t);
    lemma_join_success(s, g, c, now);
    assert(session_for(t, g).channel == c);
    assert forall|i: int| 0 <= i < es.drop_first().len() implies is_join_request(
        #[trigger] es.drop_first()[i],
        g,
        c,
    ) by {
        assert(es.drop_first()[i] == es[i + 1]);
    }
    lemma_joins_while_present_are_noops(t, es.drop_first(), g, c);
}

/// Idempotent remove: removing a guild without a session answers a no-op
/// success and changes nothing.
pub proof fn lemma_remove_absent_is_noop(s: Seq<Session>, g: u64)
    requires
        !has_guild(s, g),
    ensures
        after_remove(s, g) == s,
        remove_outcome(s, g) == RemoveOutcome::NotPresent,
{
}

/// Safe double removal: once a guild's session is removed, a later removal
/// for the same guild — the auto-disconnect timer firing after a manual
/// removal — finds nothing, answers a no-op success, and asks for no second
/// backend call.
pub proof fn lemma_safe_double_removal(s: Seq<Session>, g: u64)
    requires
        registry_wf(s),
    ensures
        !has_guild(after_remove(s, g), g),
        after_remove(after_remove(s, g), g) == after_remove(s, g),
        remove_outcome(after_remove(s, g), g) == RemoveOutcome::NotPresent,
{
    if has_guild(s, g) {
        lemma_wf_remove(s, guild_index(s, g));
    }
}

/// Bounded auto-disconnect: playback started at `now` carries a teardown
/// deadline of exactly `now + delay`, and the timer's removal at that
/// deadline leaves no session for the guild — whether or not a manual
/// removal already came first.
pub proof fn lemma_bounded_auto_disconnect(
    s: Seq<Session>,
    g: u64,
    now: u64,
    delay: u64,
    manually_removed: bool,
)
    requires
        registry_wf(s),
        has_guild(s, g),
        session_for(s, g).state is Connected,
        now + delay <= u64::MAX,
    ensures
        ({
            let playing = after_start_playback(s, g, (now + delay) as u64);
            let before_timer = if manually_removed {
                after_remove(playing, g)
            } else {
                playing
            };
            &&& session_for(playing, g).auto_disconnect_deadline == Some(
                (now + delay) as u64,
            )
            &&& !has_guild(after_remove(before_timer, g), g)
        }),
{
    let d = (now + delay) as u64;
    let i = guild_index(s, g);
    let playing = after_start_playback(s, g, d);
    lemma_wf_update(s, i, playing_record(s[i], d));
    lemma_unique_index(playing, g, i);
    if manually_removed {
        lemma_safe_double_removal(playing, g);
        lemma_event_preserves_wf(playing, RegistryEvent::Remove { guild: g });
        lemma_safe_double_removal(after_remove(playing, g), g);
    } else {
        lemma_safe_double_removal(playing, g);
    }
}

/// Shutdown drains all: the cascade empties the registry, asks exactly one
/// disconnect per guild that held a session, and a timer firing afterwards
/// finds nothing to do.
pub proof fn lemma_shutdown_drains_all(s: Seq<Session>, g: u64)
    requires
        registry_wf(s),
    ensures
        apply_event(s, RegistryEvent::ShutdownAll) == Seq::<Session>::empty(),
        guilds_of(s).no_duplicates(),
        guilds_of(s).contains(g) <==> has_guild(s, g),
        remove_outcome(Seq::<Session>::empty(), g) == RemoveOutcome::NotPresent,
        after_remove(Seq::<Session>::empty(), g) == Seq::<Session>::empty(),
{
    lemma_distinct_guilds(s);
    assert(guilds_of(s).contains(g) <==> has_guild(s, g)) by {
        if has_guild(s, g) {
            let i = choose|i: int| 0 <= i < s.len() && s[i].guild == g;
            assert(guilds_of(s)[i] == g);
        }
        if guilds_of(s).contains(g) {
            let i = choose|i: int| 0 <= i < guilds_of(s).len() && guilds_of(s)[i] == g;
            assert(s[i].guild == g);
        }
    }
}

} // verus!
