//! Background monitor behaviour: periodic counts and the interrupt race.

use voice_sessions::monitor::{active_count, BackgroundMonitor, MonitorAction, MonitorEvent};
use voice_sessions::registry::SessionRegistry;

/// Three guilds hold sessions; two report active, one query fails: the tick
/// reports a count of 2, and the failure aborts nothing.
#[test]
fn tick_counts_active_sessions_and_skips_failures() {
    let mut reg = SessionRegistry::new();
    for g in [1u64, 2, 3] {
        reg.begin_join(g, 7);
        reg.complete_join(g, true, 0, 0).unwrap();
    }

    let mut monitor = BackgroundMonitor::new();
    assert_eq!(monitor.step(MonitorEvent::TimerElapsed), MonitorAction::SampleAndReport);

    // One activity query per snapshot entry; the query for guild 3 fails.
    let snapshot = reg.get_all_sessions();
    let mut results: Vec<Option<bool>> = Vec::new();
    for session in &snapshot {
        results.push(match session.guild {
            1 => Some(true),
            2 => Some(true),
            _ => None,
        });
    }
    // Reported to the telemetry sink exactly once for this tick.
    let mut reports: Vec<usize> = Vec::new();
    reports.push(active_count(&results));
    assert_eq!(reports, vec![2]);

    // The failed query did not stop the loop: the next tick still samples.
    assert_eq!(monitor.step(MonitorEvent::TimerElapsed), MonitorAction::SampleAndReport);
}

/// An empty snapshot reports zero.
#[test]
fn empty_snapshot_counts_zero() {
    let results: Vec<Option<bool>> = Vec::new();
    assert_eq!(active_count(&results), 0);
}

/// Inactive sessions and failed queries are both excluded from the count.
#[test]
fn inactive_and_failed_queries_are_not_counted() {
    let results = vec![Some(false), None, Some(true), Some(false), None];
    assert_eq!(active_count(&results), 1);
    let all_failed = vec![None, None, None];
    assert_eq!(active_count(&all_failed), 0);
}

/// The interrupt wins the wait: the monitor runs the shutdown cascade once
/// and never samples again.
#[test]
fn interrupt_stops_the_loop_for_good() {
    let mut monitor = BackgroundMonitor::new();
    assert_eq!(monitor.step(MonitorEvent::TimerElapsed), MonitorAction::SampleAndReport);
    assert_eq!(monitor.step(MonitorEvent::Interrupted), MonitorAction::RunShutdown);
    // No further periodic tick after the interrupt.
    assert_eq!(monitor.step(MonitorEvent::TimerElapsed), MonitorAction::Idle);
    assert_eq!(monitor.step(MonitorEvent::Interrupted), MonitorAction::Idle);
}
