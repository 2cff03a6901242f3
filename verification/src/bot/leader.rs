//! Whether this keeper may submit: the policy that is asked before every tick.
use vstd::prelude::*;

use crate::decoder::leader_lock;
use crate::decoder::leader_lock::{HeartbeatOutcome, KeeperLeaderLock};
use crate::decoder::Pubkey32;

verus! {

/// Decides whether a tick's tasks are carried out.
pub trait LeaderPolicy: Sized {
    /// At `current_slot` the policy may answer `r`, turning from `before`
    /// into `after`. One that does not say may answer anything.
    open spec fn may_decide(before: Self, current_slot: u64, after: Self, r: bool) -> bool {
        true
    }

    /// Whether the tasks of this tick are carried out.
    fn should_submit(&mut self, current_slot: u64) -> (r: bool)
        ensures
            Self::may_decide(*old(self), current_slot, *final(self), r),
    ;

    /// Tells the policy what became of a heartbeat. A policy need not care.
    fn record_outcome(&mut self, outcome: HeartbeatOutcome)
        default_ensures
            *final(self) == *old(self),
    {
    }
}

/// A policy that goes by a copy of the on-chain lock.
#[derive(Debug, Clone, Copy)]
pub struct HostMirrorLeaderPolicy {
    /// This keeper.
    pub signer: Pubkey32,
    /// The copy of the lock.
    pub mirror: KeeperLeaderLock,
}

/// The lock after the outcome of a heartbeat has been learned from the
/// chain. A success is already in the copy; a rejection names the leader, or
/// the slot that is recorded at least.
pub open spec fn corrected(lock: KeeperLeaderLock, outcome: HeartbeatOutcome) -> KeeperLeaderLock {
    match outcome {
        HeartbeatOutcome::RejectedHeldByOther { current_leader, .. } => KeeperLeaderLock {
            has_leader: true,
            current_leader,
            ..lock
        },
        HeartbeatOutcome::RejectedClockSkew { recorded_slot, .. } => KeeperLeaderLock {
            last_heartbeat_slot: if lock.last_heartbeat_slot < recorded_slot {
                recorded_slot
            } else {
                lock.last_heartbeat_slot
            },
            ..lock
        },
        _ => lock,
    }
}

impl HostMirrorLeaderPolicy {
    /// A policy for the keeper `signer` with a first copy of the lock.
    pub fn new(signer: Pubkey32, initial: KeeperLeaderLock) -> (r: Self)
        ensures
            r.signer == signer,
            r.mirror == initial,
    {
        HostMirrorLeaderPolicy { signer, mirror: initial }
    }

    /// Replaces the copy by what was read from the chain.
    pub fn reconcile(&mut self, snapshot: KeeperLeaderLock)
        ensures
            final(self).mirror == snapshot,
            final(self).signer == old(self).signer,
    {
        self.mirror = snapshot;
    }

    /// The copy of the lock.
    pub fn snapshot(&self) -> (r: KeeperLeaderLock)
        ensures
            r == self.mirror,
    {
        self.mirror
    }
}

impl LeaderPolicy for HostMirrorLeaderPolicy {
    /// The policy sends a heartbeat to its copy, and submits when that leads.
    open spec fn may_decide(before: Self, current_slot: u64, after: Self, r: bool) -> bool {
        &&& after.signer == before.signer
        &&& after.mirror == before.mirror.after_heartbeat(before.signer, current_slot)
        &&& r == before.mirror.heartbeat_outcome(before.signer, current_slot).leads()
    }

    fn should_submit(&mut self, current_slot: u64) -> (r: bool) {
        let outcome: HeartbeatOutcome = self.mirror.try_heartbeat(self.signer, current_slot);
        outcome.is_leader()
    }

    fn record_outcome(&mut self, outcome: HeartbeatOutcome)
        ensures
            final(self).signer == old(self).signer,
            final(self).mirror == corrected(old(self).mirror, outcome),
    {
        match outcome {
            HeartbeatOutcome::AcquiredFresh
            | HeartbeatOutcome::AcquiredFromStale { .. }
            | HeartbeatOutcome::Refreshed => {},
            HeartbeatOutcome::RejectedHeldByOther { current_leader, .. } => {
                self.mirror.has_leader = true;
                self.mirror.current_leader = current_leader;
            },
            HeartbeatOutcome::RejectedClockSkew { recorded_slot, .. } => {
                if self.mirror.last_heartbeat_slot < recorded_slot {
                    self.mirror.last_heartbeat_slot = recorded_slot;
                }
            },
        }
    }
}

/// A policy that always gives one answer.
#[derive(Debug, Clone, Copy)]
pub struct FixedLeaderPolicy {
    /// The answer.
    pub submit: bool,
}

impl FixedLeaderPolicy {
    /// Always submit.
    pub fn always_leader() -> (r: Self)
        ensures
            r.submit,
    {
        FixedLeaderPolicy { submit: true }
    }

    /// Never submit.
    pub fn always_standby() -> (r: Self)
        ensures
            !r.submit,
    {
        FixedLeaderPolicy { submit: false }
    }
}

impl LeaderPolicy for FixedLeaderPolicy {
    open spec fn may_decide(before: Self, current_slot: u64, after: Self, r: bool) -> bool {
        after == before && r == before.submit
    }

    fn should_submit(&mut self, current_slot: u64) -> (r: bool) {
        self.submit
    }
}

/// A policy that submits has the lock in its copy, and submits again at the
/// same slot.
pub proof fn law_submitter_holds_the_mirror(
    before: HostMirrorLeaderPolicy,
    current_slot: u64,
    after: HostMirrorLeaderPolicy,
)
    requires
        HostMirrorLeaderPolicy::may_decide(before, current_slot, after, true),
    ensures
        after.mirror.has_leader,
        after.mirror.current_leader == before.signer,
        after.mirror.heartbeat_outcome(after.signer, current_slot).leads(),
{
}

/// Of two keepers with the same copy of the lock, whose holder is known and
/// not stale, at most one submits.
pub proof fn law_at_most_one_submits(
    a: HostMirrorLeaderPolicy,
    b: HostMirrorLeaderPolicy,
    current_slot: u64,
    a_after: HostMirrorLeaderPolicy,
    b_after: HostMirrorLeaderPolicy,
    a_submits: bool,
    b_submits: bool,
)
    requires
        a.signer != b.signer,
        a.mirror == b.mirror,
        !a.mirror.stale_at(current_slot),
        HostMirrorLeaderPolicy::may_decide(a, current_slot, a_after, a_submits),
        HostMirrorLeaderPolicy::may_decide(b, current_slot, b_after, b_submits),
    ensures
        !(a_submits && b_submits),
{
}

/// A policy that was told that another keeper leads does not submit while
/// that keeper's lock is fresh.
pub proof fn law_told_rejection_stops_submission(
    policy: HostMirrorLeaderPolicy,
    leader: Pubkey32,
    slots_until_stale: u64,
    current_slot: u64,
    after: HostMirrorLeaderPolicy,
    r: bool,
)
    requires
        leader != policy.signer,
        ({
            let told = HostMirrorLeaderPolicy {
                mirror: corrected(
                    policy.mirror,
                    HeartbeatOutcome::RejectedHeldByOther {
                        current_leader: leader,
                        slots_until_stale,
                    },
                ),
                ..policy
            };
            &&& !told.mirror.stale_at(current_slot)
            &&& HostMirrorLeaderPolicy::may_decide(told, current_slot, after, r)
        }),
    ensures
        !r,
{
}

} // verus!
