//! The shutdown cascade, as the interrupt handler runs it.

use voice_sessions::monitor::{BackgroundMonitor, MonitorAction, MonitorEvent};
use voice_sessions::registry::{RemoveOutcome, SessionRegistry};
use voice_sessions::shutdown::{plan_shutdown, ShutdownStep};

/// Interrupt with five guilds holding sessions: each of the five is asked to
/// disconnect exactly once, then the shard layer is shut down, then the
/// telemetry gauge is cleared — in that order — and the loop makes no
/// further tick.
#[test]
fn interrupt_drains_five_guilds_in_order() {
    let mut reg = SessionRegistry::new();
    for g in [10u64, 20, 30, 40, 50] {
        reg.begin_join(g, 7);
        reg.complete_join(g, true, 0, 0).unwrap();
    }
    let mut monitor = BackgroundMonitor::new();

    assert_eq!(monitor.step(MonitorEvent::Interrupted), MonitorAction::RunShutdown);
    let plan = plan_shutdown(&mut reg);

    assert_eq!(plan.len(), 7);
    let mut disconnected: Vec<u64> = Vec::new();
    for step in &plan[..5] {
        match step {
            ShutdownStep::DisconnectGuild(g) => disconnected.push(*g),
            _ => panic!("every disconnect must come before the shard shutdown"),
        }
    }
    disconnected.sort();
    assert_eq!(disconnected, vec![10, 20, 30, 40, 50]);
    assert_eq!(plan[5], ShutdownStep::ShutdownShards);
    assert_eq!(plan[6], ShutdownStep::ClearActiveCount);

    assert_eq!(reg.get_all_sessions().len(), 0);
    // A late auto-disconnect timer after the cascade causes no error.
    assert!(matches!(reg.remove(30), RemoveOutcome::NotPresent));
    // And the loop is over: no periodic tick follows the interrupt.
    assert_eq!(monitor.step(MonitorEvent::TimerElapsed), MonitorAction::Idle);
}

/// The cascade on an empty registry still runs its two trailing steps.
#[test]
fn shutdown_with_no_sessions_still_orders_the_tail() {
    let mut reg = SessionRegistry::new();
    let plan = plan_shutdown(&mut reg);
    assert_eq!(
        plan,
        vec![ShutdownStep::ShutdownShards, ShutdownStep::ClearActiveCount]
    );
}
