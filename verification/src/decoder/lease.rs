//! What the leader lock grants, told in slots: who may lead when, and until
//! when the others wait.
use vstd::prelude::*;

use crate::decoder::leader_lock;
use crate::decoder::leader_lock::{HeartbeatOutcome, KeeperLeaderLock, ReleaseOutcome};
use crate::decoder::Pubkey32;

verus! {

/// The leader may renew its lease at every slot from its last heartbeat on,
/// however late; another keeper gets it only after more slots than the
/// threshold have passed since then; without a leader anyone gets it at once.
/// Before the last heartbeat nobody gets it.
pub proof fn law_lease_in_slots(lock: KeeperLeaderLock, signer: Pubkey32, slot: u64)
    ensures
        lock.heartbeat_outcome(signer, slot).leads() <==> slot >= lock.last_heartbeat_slot && (
        !lock.has_leader || lock.current_leader == signer || slot > lock.last_heartbeat_slot
            + lock.takeover_threshold_slots),
        leader_lock::should_submit_spec(lock, signer, slot) <==> slot >= lock.last_heartbeat_slot
            && (!lock.has_leader || lock.current_leader == signer || slot
            > lock.last_heartbeat_slot + lock.takeover_threshold_slots),
        lock.held_at(signer, slot) <==> lock.has_leader && lock.current_leader == signer && slot
            <= lock.last_heartbeat_slot + lock.takeover_threshold_slots,
        lock.stale_at(slot) <==> !lock.has_leader || slot > lock.last_heartbeat_slot
            + lock.takeover_threshold_slots,
{
}

/// What a keeper is told of its heartbeat: whom it took the lease from and
/// after how many slots, or who holds it and how many slots it still runs, or
/// by what slot its clock lags.
pub proof fn law_heartbeat_answers(lock: KeeperLeaderLock, signer: Pubkey32, slot: u64)
    ensures
        match lock.heartbeat_outcome(signer, slot) {
            HeartbeatOutcome::AcquiredFresh => !lock.has_leader && slot
                >= lock.last_heartbeat_slot,
            HeartbeatOutcome::AcquiredFromStale { previous_leader, elapsed_slots } => {
                &&& lock.has_leader
                &&& previous_leader == lock.current_leader
                &&& lock.last_heartbeat_slot + elapsed_slots == slot
                &&& elapsed_slots > lock.takeover_threshold_slots
            },
            HeartbeatOutcome::Refreshed => {
                &&& lock.has_leader
                &&& lock.current_leader == signer
                &&& lock.last_heartbeat_slot <= slot <= lock.last_heartbeat_slot
                    + lock.takeover_threshold_slots
            },
            HeartbeatOutcome::RejectedHeldByOther { current_leader, slots_until_stale } => {
                &&& lock.has_leader
                &&& current_leader == lock.current_leader
                &&& current_leader != signer
                &&& slot + slots_until_stale == lock.last_heartbeat_slot
                    + lock.takeover_threshold_slots
                &&& slot >= lock.last_heartbeat_slot
            },
            HeartbeatOutcome::RejectedClockSkew { caller_slot, recorded_slot } => {
                &&& caller_slot == slot
                &&& recorded_slot == lock.last_heartbeat_slot
                &&& slot < recorded_slot
            },
        },
{
}

/// A lease that is granted runs from the slot of the heartbeat, under the
/// signer's name and the same threshold: for so many slots the signer alone
/// holds the lock, and every other keeper is turned away.
pub proof fn law_granted_lease_excludes_others(
    lock: KeeperLeaderLock,
    signer: Pubkey32,
    slot: u64,
    other: Pubkey32,
    later: u64,
)
    requires
        lock.heartbeat_outcome(signer, slot).leads(),
        other != signer,
        later <= slot + lock.takeover_threshold_slots,
    ensures
        ({
            let held = lock.after_heartbeat(signer, slot);
            &&& held.has_leader
            &&& held.current_leader == signer
            &&& held.last_heartbeat_slot == slot
            &&& held.takeover_threshold_slots == lock.takeover_threshold_slots
            &&& !held.heartbeat_outcome(other, later).leads()
            &&& held.after_heartbeat(other, later) == held
            &&& later >= slot ==> held.heartbeat_outcome(signer, later).leads()
        }),
{
}

/// Only the leader gives a lock up. Afterwards it has no leader and no name
/// stands in it; its slot is the later of the two, its threshold stays. Any
/// other release leaves the lock alone and says who leads.
pub proof fn law_release_in_full(lock: KeeperLeaderLock, signer: Pubkey32, slot: u64)
    ensures
        ({
            let after = lock.after_release(signer, slot);
            if lock.has_leader && lock.current_leader == signer {
                &&& lock.release_outcome(signer) is Released
                &&& !after.has_leader
                &&& forall|i: int| 0 <= i < 32 ==> #[trigger] after.current_leader[i] == 0
                &&& after.last_heartbeat_slot >= slot
                &&& after.last_heartbeat_slot >= lock.last_heartbeat_slot
                &&& after.last_heartbeat_slot == slot || after.last_heartbeat_slot
                    == lock.last_heartbeat_slot
                &&& after.takeover_threshold_slots == lock.takeover_threshold_slots
            } else {
                &&& after == lock
                &&& match lock.release_outcome(signer) {
                    ReleaseOutcome::Released => false,
                    ReleaseOutcome::RejectedNotHolder { current_leader } => lock.has_leader
                        && current_leader == lock.current_leader,
                    ReleaseOutcome::RejectedNotHeld => !lock.has_leader,
                }
            }
        }),
{
}

} // verus!
