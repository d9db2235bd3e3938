//! The shutdown cascade: executed once, on interrupt, before the process
//! exits, and leaving no orphaned voice connection behind.
//!
//! The cascade is an ordered plan: first every guild's voice connection is
//! asked to disconnect, then the connection-shard layer is shut down so no
//! new interactions are accepted, then the telemetry gauge is cleared. The
//! caller carries the steps out in the order given; a failing step is logged
//! and must not keep it from attempting the rest.

use vstd::prelude::*;

use crate::registry::{guilds_of, SessionRegistry};
use crate::session::Session;

verus! {

/// One step of the shutdown cascade, to be carried out in plan order.
#[derive(Clone, Copy, Debug, PartialEq, Eq, Structural)]
pub enum ShutdownStep {
    /// Ask the voice backend to disconnect this guild.
    DisconnectGuild(u64),
    /// Shut the connection-shard layer down; no new interactions afterwards.
    ShutdownShards,
    /// Best effort: report an active-session count of zero to telemetry.
    ClearActiveCount,
}

/// One disconnect step per record of `s`, in registry order.
pub open spec fn disconnect_steps(s: Seq<Session>) -> Seq<ShutdownStep> {
    guilds_of(s).map_values(|g: u64| ShutdownStep::DisconnectGuild(g))
}

/// The whole cascade for the records `s`: every disconnect first, then the
/// shard shutdown, then the telemetry clear.
pub open spec fn shutdown_plan(s: Seq<Session>) -> Seq<ShutdownStep> {
    disconnect_steps(s) + seq![ShutdownStep::ShutdownShards, ShutdownStep::ClearActiveCount]
}

/// Drains the registry and lays out the cascade: exactly one disconnect for
/// each guild that held a session — none is asked to disconnect twice —
/// followed by the shard shutdown, followed by the telemetry clear.
pub fn plan_shutdown(registry: &mut SessionRegistry) -> (plan: Vec<ShutdownStep>)
    requires
        old(registry).wf(),
    ensures
        final(registry).wf(),
        final(registry)@ == Seq::<Session>::empty(),
        plan@ == shutdown_plan(old(registry)@),
{
    let drained = registry.shutdown_all();
    let n = drained.len();
    let mut plan: Vec<ShutdownStep> = Vec::new();
    let mut i: usize = 0;
    while i < n
        invariant
            n == drained@.len(),
            i <= n,
            plan@ == drained@.subrange(0, i as int).map_values(
                (|g: u64| ShutdownStep::DisconnectGuild(g)),
            ),
        decreases n - i,
    {
        plan.push(ShutdownStep::DisconnectGuild(drained[i]));
        proof {
            assert(plan@ =~= drained@.subrange(0, i + 1 as int).map_values(
                (|g: u64| ShutdownStep::DisconnectGuild(g)),
            ));
        }
        i += 1;
    }
    proof {
        assert(drained@.subrange(0, n as int) =~= drained@);
    }
    plan.push(ShutdownStep::ShutdownShards);
    plan.push(ShutdownStep::ClearActiveCount);
    proof {
        assert(plan@ =~= shutdown_plan(old(registry)@));
    }
    plan
}

} // verus!
