//! The background monitor: one long-running loop that, each fixed period,
//! samples every session's activity and reports a count, and that owns the
//! process-wide shutdown trigger.
//!
//! The loop itself — the periodic timer, the wait on the interrupt signal,
//! the activity queries — lives with the caller. On each iteration the
//! caller waits for whichever comes first, hands the winning event to
//! `step`, and carries out the action handed back: one sample-and-report per
//! timer period, or the shutdown cascade once on interrupt, after which the
//! loop is over and every further event is ignored.

use vstd::prelude::*;

verus! {

/// What woke the monitor loop: its periodic timer, or the process-wide
/// interrupt.
#[derive(Clone, Copy, Debug, PartialEq, Eq, Structural)]
pub enum MonitorEvent {
    TimerElapsed,
    Interrupted,
}

/// What the monitor asks its caller to do.
#[derive(Clone, Copy, Debug, PartialEq, Eq, Structural)]
pub enum MonitorAction {
    /// Take a snapshot of all sessions, query each one's activity, and
    /// report the count of active ones exactly once.
    SampleAndReport,
    /// Run the shutdown cascade, then leave the loop. No further periodic
    /// report is made.
    RunShutdown,
    /// The monitor has halted; do nothing.
    Idle,
}

/// Whether the monitor keeps running after seeing `ev`: only an interrupt
/// stops it, for good.
pub open spec fn running_after(running: bool, ev: MonitorEvent) -> bool {
    running && !(ev is Interrupted)
}

/// The action a monitor in state `running` answers to `ev`.
pub open spec fn action_for(running: bool, ev: MonitorEvent) -> MonitorAction {
    if !running {
        MonitorAction::Idle
    } else if ev is TimerElapsed {
        MonitorAction::SampleAndReport
    } else {
        MonitorAction::RunShutdown
    }
}

/// The actions a monitor in state `running` answers to a whole series of
/// events, in order.
pub open spec fn actions_from(running: bool, evs: Seq<MonitorEvent>) -> Seq<MonitorAction>
    decreases evs.len(),
{
    if evs.len() == 0 {
        Seq::empty()
    } else {
        seq![action_for(running, evs[0])] + actions_from(
            running_after(running, evs[0]),
            evs.drop_first(),
        )
    }
}

/// How many of the queried sessions reported themselves active. A query
/// that failed (`None`) is excluded from the count, as is a session that
/// answered inactive.
pub open spec fn count_active(results: Seq<Option<bool>>) -> nat
    decreases results.len(),
{
    if results.len() == 0 {
        0
    } else {
        count_active(results.drop_last()) + if results.last() == Some(true) {
            1nat
        } else {
            0nat
        }
    }
}

/// The state of the background monitor loop: started once, running until
/// the interrupt arrives.
pub struct BackgroundMonitor {
    running: bool,
}

impl BackgroundMonitor {
    /// Whether the loop is still running.
    pub closed spec fn is_running(self) -> bool {
        self.running
    }

    /// A monitor ready to run its loop.
    pub fn new() -> (m: BackgroundMonitor)
        ensures
            m.is_running(),
    {
        BackgroundMonitor { running: true }
    }

    /// One loop iteration: answers the event that won the wait with the
    /// action the caller must carry out. An interrupt stops the monitor; a
    /// stopped monitor answers `Idle` to everything, so no periodic report
    /// follows the interrupt.
    pub fn step(&mut self, ev: MonitorEvent) -> (a: MonitorAction)
        ensures
            final(self).is_running() == running_after(old(self).is_running(), ev),
            a == action_for(old(self).is_running(), ev),
    {
        if !self.running {
            MonitorAction::Idle
        } else {
            match ev {
                MonitorEvent::TimerElapsed => MonitorAction::SampleAndReport,
                MonitorEvent::Interrupted => {
                    self.running = false;
                    MonitorAction::RunShutdown
                },
            }
        }
    }
}

/// The count a monitor tick reports: how many of the per-session activity
/// queries came back `true`. A failed query (`None`) is left out and aborts
/// neither the count nor the tick.
pub fn active_count(results: &Vec<Option<bool>>) -> (n: usize)
    ensures
        n == count_active(results@),
{
    let len = results.len();
    let mut n: usize = 0;
    let mut i: usize = 0;
    while i < len
        invariant
            len == results@.len(),
            i <= len,
            n <= i,
            n == count_active(results@.subrange(0, i as int)),
        decreases len - i,
    {
        let counted: bool = match results[i] {
            Some(true) => true,
            _ => false,
        };
        proof {
            assert(results@.subrange(0, i + 1 as int).drop_last() =~= results@.subrange(
                0,
                i as int,
            ));
            assert(results@.subrange(0, i + 1 as int).last() == results@[i as int]);
        }
        if counted {
            n += 1;
        }
        i += 1;
    }
    proof {
        assert(results@.subrange(0, len as int) =~= results@);
    }
    n
}

/// A stopped monitor stays stopped and answers `Idle` to every further
/// event.
pub proof fn lemma_halted_monitor_stays_idle(evs: Seq<MonitorEvent>)
    ensures
        actions_from(false, evs).len() == evs.len(),
        forall|i: int| 0 <= i < evs.len() ==> actions_from(false, evs)[i] == MonitorAction::Idle,
    decreases evs.len(),
{
    if evs.len() > 0 {
        lemma_halted_monitor_stays_idle(evs.drop_first());
        assert forall|i: int| 0 <= i < evs.len() implies actions_from(false, evs)[i]
            == MonitorAction::Idle by {
            if i > 0 {
                assert(actions_from(false, evs)[i] == actions_from(false, evs.drop_first())[i - 1]);
            }
        }
    }
}

/// Once the interrupt arrives, the monitor runs the shutdown cascade once
/// and then makes no further periodic report: every later answer is `Idle`.
pub proof fn lemma_interrupt_ends_the_loop(evs: Seq<MonitorEvent>)
    requires
        evs.len() >= 1,
        evs[0] is Interrupted,
    ensures
        actions_from(true, evs).len() == evs.len(),
        actions_from(true, evs)[0] == MonitorAction::RunShutdown,
        forall|i: int| 1 <= i < evs.len() ==> actions_from(true, evs)[i] == MonitorAction::Idle,
{
    lemma_halted_monitor_stays_idle(evs.drop_first());
    assert forall|i: int| 1 <= i < evs.len() implies actions_from(true, evs)[i]
        == MonitorAction::Idle by {
        assert(actions_from(true, evs)[i] == actions_from(false, evs.drop_first())[i - 1]);
    }
}

} // verus!
