//! Session registry behaviour, driven the way the command layer drives it.

use voice_sessions::errors::SessionError;
use voice_sessions::registry::{JoinDecision, RemoveOutcome, SessionRegistry};
use voice_sessions::session::SessionState;

/// A fresh join ends in a connected session that `get` then returns.
#[test]
fn join_creates_connected_session() {
    let mut reg = SessionRegistry::new();
    assert!(reg.get(42).is_none());

    let decision = reg.begin_join(42, 7);
    assert!(matches!(decision, JoinDecision::Proceed));

    // One backend join is issued here; it succeeds at t=100.
    let session = reg.complete_join(42, true, 0, 100).unwrap();
    assert_eq!(session.guild, 42);
    assert_eq!(session.channel, 7);
    assert_eq!(session.state, SessionState::Connected);
    assert_eq!(session.joined_at, 100);
    assert_eq!(session.auto_disconnect_deadline, None);

    let got = reg.get(42).unwrap();
    assert_eq!(got.guild, 42);
    assert_eq!(got.channel, 7);
    assert_eq!(got.state, SessionState::Connected);
}

/// Two joins for the same guild and channel at the same instant: exactly one
/// backend join, and both callers end up with the same session.
#[test]
fn concurrent_joins_share_one_backend_call() {
    let mut reg = SessionRegistry::new();
    let mut backend_joins = 0;

    // First caller wins the per-guild serialization.
    if matches!(reg.begin_join(42, 7), JoinDecision::Proceed) {
        backend_joins += 1;
        reg.complete_join(42, true, 0, 0).unwrap();
    }
    // Second caller runs right after, within the same instant.
    match reg.begin_join(42, 7) {
        JoinDecision::Proceed => backend_joins += 1,
        JoinDecision::UseExisting(existing) => {
            assert_eq!(existing.guild, 42);
            assert_eq!(existing.channel, 7);
            assert_eq!(existing.state, SessionState::Connected);
        }
        JoinDecision::Reject(_) => panic!("matching channel must not be rejected"),
    }

    assert_eq!(backend_joins, 1);
}

/// A join that lands while the first one's backend call is still in flight
/// also issues no second backend join.
#[test]
fn join_during_pending_join_issues_no_backend_call() {
    let mut reg = SessionRegistry::new();
    assert!(matches!(reg.begin_join(42, 7), JoinDecision::Proceed));

    // Backend call for the first join still in flight: same request again.
    match reg.begin_join(42, 7) {
        JoinDecision::UseExisting(pending) => {
            assert_eq!(pending.state, SessionState::Connecting);
        }
        _ => panic!("the pending session must be reused"),
    }

    let session = reg.complete_join(42, true, 0, 3).unwrap();
    assert_eq!(session.state, SessionState::Connected);
}

/// A join for a guild that is already connected to a different channel fails
/// with `AlreadyConnected` and changes nothing.
#[test]
fn join_other_channel_is_rejected() {
    let mut reg = SessionRegistry::new();
    reg.begin_join(42, 7);
    reg.complete_join(42, true, 0, 0).unwrap();

    match reg.begin_join(42, 9) {
        JoinDecision::Reject(e) => assert_eq!(e, SessionError::AlreadyConnected),
        _ => panic!("a different channel must be rejected"),
    }
    // The existing session is untouched.
    let got = reg.get(42).unwrap();
    assert_eq!(got.channel, 7);
    assert_eq!(got.state, SessionState::Connected);
}

/// A failed backend join drops the pending record: the guild is free to try
/// again, and the new attempt issues a fresh backend join.
#[test]
fn failed_join_drops_the_record() {
    let mut reg = SessionRegistry::new();
    assert!(matches!(reg.begin_join(42, 7), JoinDecision::Proceed));

    let err = reg.complete_join(42, false, 55, 0).unwrap_err();
    assert_eq!(err, SessionError::JoinFailed(55));
    assert!(reg.get(42).is_none());
    assert_eq!(reg.get_all_sessions().len(), 0);

    assert!(matches!(reg.begin_join(42, 7), JoinDecision::Proceed));
}

/// A join completion for a guild with no pending join reports
/// `SessionNotFound` and changes nothing.
#[test]
fn completion_without_pending_join_is_not_found() {
    let mut reg = SessionRegistry::new();
    let err = reg.complete_join(42, true, 0, 0).unwrap_err();
    assert_eq!(err, SessionError::SessionNotFound);
    assert!(reg.get(42).is_none());

    // Also when the session is already past `Connecting`.
    reg.begin_join(42, 7);
    reg.complete_join(42, true, 0, 0).unwrap();
    let err = reg.complete_join(42, true, 0, 1).unwrap_err();
    assert_eq!(err, SessionError::SessionNotFound);
    assert_eq!(reg.get(42).unwrap().joined_at, 0);
}

/// Removing a guild that has no session is a no-op success.
#[test]
fn remove_absent_guild_is_noop_success() {
    let mut reg = SessionRegistry::new();
    assert!(matches!(reg.remove(42), RemoveOutcome::NotPresent));
    assert_eq!(reg.get_all_sessions().len(), 0);
}

/// Playback at t=0 with a 7-second auto-disconnect; a manual removal at t=3
/// issues the one backend removal; the timer firing at t=7 finds nothing and
/// does nothing.
#[test]
fn manual_remove_then_late_timer_is_harmless() {
    let mut reg = SessionRegistry::new();
    reg.begin_join(42, 7);
    reg.complete_join(42, true, 0, 0).unwrap();

    let deadline = reg.start_playback(42, 0, 7);
    assert_eq!(deadline, 7);

    // t=3: manual removal; exactly one backend removal is asked for.
    let mut backend_removals = 0;
    match reg.remove(42) {
        RemoveOutcome::Removed(snapshot) => {
            backend_removals += 1;
            assert_eq!(snapshot.state, SessionState::Disconnecting);
            assert_eq!(snapshot.guild, 42);
        }
        RemoveOutcome::NotPresent => panic!("the session was present"),
    }

    // t=7: the auto-disconnect timer fires on the now-absent session.
    if let RemoveOutcome::Removed(_) = reg.remove(42) {
        backend_removals += 1;
    }

    assert_eq!(backend_removals, 1);
    assert!(reg.get(42).is_none());
}

/// Starting playback schedules the deadline exactly `delay` after `now`, and
/// the timer's removal takes the session down.
#[test]
fn auto_disconnect_bounds_a_playback_session() {
    let mut reg = SessionRegistry::new();
    reg.begin_join(42, 7);
    reg.complete_join(42, true, 0, 0).unwrap();

    let deadline = reg.start_playback(42, 0, 7);
    assert_eq!(deadline, 7);
    let playing = reg.get(42).unwrap();
    assert_eq!(playing.state, SessionState::Playing);
    assert_eq!(playing.auto_disconnect_deadline, Some(7));

    // The timer fires at the deadline and removes the session.
    assert!(matches!(reg.remove(42), RemoveOutcome::Removed(_)));
    assert!(reg.get(42).is_none());
}

/// Identifiers and deadlines at the top of the value range behave the same.
#[test]
fn largest_identifiers_and_deadline() {
    let mut reg = SessionRegistry::new();
    reg.begin_join(u64::MAX, u64::MAX);
    reg.complete_join(u64::MAX, true, 0, u64::MAX - 7).unwrap();
    let deadline = reg.start_playback(u64::MAX, u64::MAX - 7, 7);
    assert_eq!(deadline, u64::MAX);
    let got = reg.get(u64::MAX).unwrap();
    assert_eq!(got.auto_disconnect_deadline, Some(u64::MAX));
}

/// The snapshot lists every live session, and sessions of other guilds are
/// untouched by one guild's removal.
#[test]
fn snapshot_and_per_guild_independence() {
    let mut reg = SessionRegistry::new();
    for g in [1u64, 2, 3] {
        reg.begin_join(g, 10 + g);
        reg.complete_join(g, true, 0, 0).unwrap();
    }
    let all = reg.get_all_sessions();
    assert_eq!(all.len(), 3);
    let mut guilds: Vec<u64> = all.iter().map(|s| s.guild).collect();
    guilds.sort();
    assert_eq!(guilds, vec![1, 2, 3]);

    reg.remove(2);
    assert!(reg.get(2).is_none());
    assert_eq!(reg.get(1).unwrap().channel, 11);
    assert_eq!(reg.get(3).unwrap().channel, 13);
    assert_eq!(reg.get_all_sessions().len(), 2);
}

/// A mixed history of joins and removals never leaves two sessions for one
/// guild.
#[test]
fn one_session_per_guild_under_mixed_history() {
    let mut reg = SessionRegistry::new();
    reg.begin_join(42, 7);
    reg.begin_join(42, 7); // the pending join is reused
    reg.complete_join(42, true, 0, 0).unwrap();
    reg.begin_join(42, 9); // rejected: other channel
    reg.begin_join(42, 7); // the existing session is reused
    reg.remove(42);
    reg.begin_join(42, 9); // a fresh join on the freed guild
    reg.complete_join(42, true, 0, 1).unwrap();
    reg.begin_join(7, 7);
    reg.complete_join(7, true, 0, 1).unwrap();

    let all = reg.get_all_sessions();
    let mut guilds: Vec<u64> = all.iter().map(|s| s.guild).collect();
    guilds.sort();
    guilds.dedup();
    assert_eq!(guilds.len(), all.len());
    assert_eq!(reg.get(42).unwrap().channel, 9);
}

/// After `shutdown_all` the registry is empty, every guild was drained
/// exactly once, and a late auto-disconnect timer causes nothing.
#[test]
fn shutdown_drains_every_session() {
    let mut reg = SessionRegistry::new();
    for g in [1u64, 2, 3] {
        reg.begin_join(g, 7);
        reg.complete_join(g, true, 0, 0).unwrap();
    }
    let mut drained = reg.shutdown_all();
    drained.sort();
    assert_eq!(drained, vec![1, 2, 3]);
    assert_eq!(reg.get_all_sessions().len(), 0);

    // A timer that fires after the cascade finds nothing to do.
    assert!(matches!(reg.remove(2), RemoveOutcome::NotPresent));
}
