//! The leader lock: which of several keepers may submit transactions.
//!
//! A keeper leads while it keeps sending heartbeats. Once its last heartbeat
//! is more than `takeover_threshold_slots` old, the lock is stale and any
//! keeper may take it over.
use vstd::prelude::*;

use crate::decoder;
use crate::decoder::Pubkey32;
use crate::text;
use crate::wire;
use crate::wire::{Reader, WireDecode, WireEncode, WireError};

verus! {

/// Length of the layout of [`KeeperLeaderLock`].
pub const KEEPER_LEADER_LOCK_BODY_LEN: usize = 49;

/// The all-zero address.
pub const ZERO_PUBKEY: Pubkey32 = [
    0, 0, 0, 0, 0, 0, 0, 0, 0, 0, 0, 0, 0, 0, 0, 0,
    0, 0, 0, 0, 0, 0, 0, 0, 0, 0, 0, 0, 0, 0, 0, 0,
];

/// The on-chain `KeeperLeaderLock` account.
/// 
/// The layout is fixed at 49 bytes: the leader's address stands there
/// also while there is no leader.
#[derive(Debug, Clone, Copy, PartialEq, Eq)]
pub struct KeeperLeaderLock {
    /// Whether the lock records a leader: not before the first heartbeat,
    /// and not after a release.
    pub has_leader: bool,
    /// The keeper that holds the lock; all zero without a leader.
    pub current_leader: Pubkey32,
    /// Slot of the leader's most recent heartbeat.
    pub last_heartbeat_slot: u64,
    /// How many slots may pass before any keeper may take over.
    pub takeover_threshold_slots: u64,
}

impl KeeperLeaderLock {
    /// The layouts of the fields, in declaration order.
    pub open spec fn fields(&self) -> Seq<Seq<u8>> {
        Seq::empty()
            .push(wire::bool_wire(self.has_leader))
            .push(self.current_leader@)
            .push(wire::u64_wire(self.last_heartbeat_slot))
            .push(wire::u64_wire(self.takeover_threshold_slots))
    }
}

impl WireEncode for KeeperLeaderLock {
    open spec fn wire(&self) -> Seq<u8> {
        wire::concat(self.fields())
    }

    open spec fn fits(&self) -> bool {
        true
    }

    fn serialize(&self, out: &mut Vec<u8>) -> (r: Result<(), WireError>) {
        broadcast use crate::wire::group_wire;

        let mut body: Vec<u8> = Vec::new();
        wire::put_bool(&mut body, self.has_leader);
        wire::put_bytes(&mut body, self.current_leader.as_slice());
        wire::put_u64(&mut body, self.last_heartbeat_slot);
        wire::put_u64(&mut body, self.takeover_threshold_slots);
        out.append(&mut body);
        Ok(())
    }
}

impl WireDecode for KeeperLeaderLock {
    open spec fn fault(bytes: Seq<u8>) -> Option<WireError> {
        if bytes.len() > 0 && bytes[0] > 1 {
            Some(WireError::InvalidBool(bytes[0]))
        } else if bytes.len() < 49 {
            Some(WireError::UnexpectedLength)
        } else if bytes.len() > 49 {
            Some(WireError::NotAllBytesRead)
        } else {
            None
        }
    }

    open spec fn same(&self, other: &Self) -> bool {
        *self == *other
    }

    fn try_from_slice(bytes: &[u8]) -> (r: Result<Self, WireError>) {
        broadcast use crate::wire::group_wire;

        let mut r = Reader::new(bytes);
        let has_leader: bool = r.read_bool()?;
        let current_leader: Pubkey32 = r.read_array::<32>()?;
        let last_heartbeat_slot: u64 = r.read_u64()?;
        let takeover_threshold_slots: u64 = r.read_u64()?;
        r.finish()?;
        Ok(KeeperLeaderLock {
            has_leader,
            current_leader,
            last_heartbeat_slot,
            takeover_threshold_slots,
        })
    }

    proof fn lemma_wire_is_faultless(&self) {
        broadcast use crate::wire::group_wire;

        assert(self.wire().len() == 49);
        assert(self.wire()[0] == wire::bool_wire(self.has_leader)[0]);
    }

    proof fn lemma_wire_is_injective(&self, other: &Self) {
        broadcast use crate::wire::lemma_le_bytes_len;

        let a = self.fields();
        let b = other.fields();
        wire::lemma_concat_injective(a, b);
        wire::lemma_bool_at(a, b, 0, self.has_leader, other.has_leader);
        wire::lemma_array_at(a, b, 1, self.current_leader, other.current_leader);
        wire::lemma_u64_at(a, b, 2, self.last_heartbeat_slot, other.last_heartbeat_slot);
        wire::lemma_u64_at(a, b, 3, self.takeover_threshold_slots, other.takeover_threshold_slots);
    }
}

/// Whether two addresses are the same.
pub fn same_pubkey(a: &Pubkey32, b: &Pubkey32) -> (r: bool)
    ensures
        r == (*a == *b),
{
    let r = text::same_bytes(a.as_slice(), b.as_slice());
    proof {
        if r {
            wire::lemma_array_injective(*a, *b);
        }
    }
    r
}

/// Slots from `from` to `to`, zero when `to` comes first.
pub open spec fn slots_between(from: u64, to: u64) -> u64 {
    if to >= from {
        (to - from) as u64
    } else {
        0
    }
}

/// The later of two slots.
pub open spec fn later(a: u64, b: u64) -> u64 {
    if a >= b {
        a
    } else {
        b
    }
}

impl KeeperLeaderLock {
    /// The lock has no leader, or its leader's heartbeat is too old.
    pub open spec fn stale_at(&self, slot: u64) -> bool {
        !self.has_leader || slots_between(self.last_heartbeat_slot, slot)
            > self.takeover_threshold_slots
    }

    /// `signer` is the leader and its heartbeat is recent enough.
    pub open spec fn held_at(&self, signer: Pubkey32, slot: u64) -> bool {
        self.has_leader && self.current_leader == signer && !self.stale_at(slot)
    }

    /// The lock after `signer` has become, or stays, leader at `slot`.
    pub open spec fn led_by(&self, signer: Pubkey32, slot: u64) -> KeeperLeaderLock {
        KeeperLeaderLock {
            has_leader: true,
            current_leader: signer,
            last_heartbeat_slot: slot,
            takeover_threshold_slots: self.takeover_threshold_slots,
        }
    }

    /// What a heartbeat of `signer` at `slot` comes to.
    pub open spec fn heartbeat_outcome(&self, signer: Pubkey32, slot: u64) -> HeartbeatOutcome {
        let elapsed = slots_between(self.last_heartbeat_slot, slot);
        if slot < self.last_heartbeat_slot {
            HeartbeatOutcome::RejectedClockSkew {
                caller_slot: slot,
                recorded_slot: self.last_heartbeat_slot,
            }
        } else if !self.has_leader {
            HeartbeatOutcome::AcquiredFresh
        } else if self.stale_at(slot) {
            HeartbeatOutcome::AcquiredFromStale {
                previous_leader: self.current_leader,
                elapsed_slots: elapsed,
            }
        } else if self.current_leader == signer {
            HeartbeatOutcome::Refreshed
        } else {
            HeartbeatOutcome::RejectedHeldByOther {
                current_leader: self.current_leader,
                slots_until_stale: (self.takeover_threshold_slots - elapsed) as u64,
            }
        }
    }

    /// The lock after a heartbeat of `signer` at `slot`.
    pub open spec fn after_heartbeat(&self, signer: Pubkey32, slot: u64) -> KeeperLeaderLock {
        if self.heartbeat_outcome(signer, slot).leads() {
            self.led_by(signer, slot)
        } else {
            *self
        }
    }

    /// What a release by `signer` comes to.
    pub open spec fn release_outcome(&self, signer: Pubkey32) -> ReleaseOutcome {
        if !self.has_leader {
            ReleaseOutcome::RejectedNotHeld
        } else if self.current_leader != signer {
            ReleaseOutcome::RejectedNotHolder { current_leader: self.current_leader }
        } else {
            ReleaseOutcome::Released
        }
    }

    /// The lock after a release by `signer` at `slot`.
    pub open spec fn after_release(&self, signer: Pubkey32, slot: u64) -> KeeperLeaderLock {
        if self.release_outcome(signer) is Released {
            unowned_lock(later(self.last_heartbeat_slot, slot), self.takeover_threshold_slots)
        } else {
            *self
        }
    }

    /// A lock without a leader. It is stale at once: the next heartbeat acquires it.
    pub fn fresh(current_slot: u64, takeover_threshold_slots: u64) -> (r: Self)
        ensures
            r == unowned_lock(current_slot, takeover_threshold_slots),
    {
        KeeperLeaderLock {
            has_leader: false,
            current_leader: ZERO_PUBKEY,
            last_heartbeat_slot: current_slot,
            takeover_threshold_slots,
        }
    }

    /// A lock held by `leader` since `slot`.
    pub fn held_by(leader: Pubkey32, slot: u64, takeover_threshold_slots: u64) -> (r: Self)
        ensures
            r.has_leader,
            r.current_leader == leader,
            r.last_heartbeat_slot == slot,
            r.takeover_threshold_slots == takeover_threshold_slots,
    {
        KeeperLeaderLock {
            has_leader: true,
            current_leader: leader,
            last_heartbeat_slot: slot,
            takeover_threshold_slots,
        }
    }

    /// The leader, if there is one.
    pub fn current_leader_pubkey(&self) -> (r: Option<Pubkey32>)
        ensures
            r == if self.has_leader {
                Some(self.current_leader)
            } else {
                None
            },
    {
        if self.has_leader {
            Some(self.current_leader)
        } else {
            None
        }
    }

    /// Whether `signer` holds the lock at the given slot. A stale lock is held by nobody.
    pub fn is_held_by(&self, signer: &Pubkey32, current_slot: u64) -> (r: bool)
        ensures
            r == self.held_at(*signer, current_slot),
    {
        if !self.has_leader {
            return false;
        }
        same_pubkey(&self.current_leader, signer) && !self.is_stale(current_slot)
    }

    /// Whether the lock has no leader, or a leader whose heartbeat is older than the threshold.
    pub fn is_stale(&self, current_slot: u64) -> (r: bool)
        ensures
            r == self.stale_at(current_slot),
    {
        if !self.has_leader {
            return true;
        }
        self.slots_since_heartbeat(current_slot) > self.takeover_threshold_slots
    }

    /// Slots since the last heartbeat, zero when the heartbeat lies in the future.
    pub fn slots_since_heartbeat(&self, current_slot: u64) -> (r: u64)
        ensures
            r == slots_between(self.last_heartbeat_slot, current_slot),
    {
        current_slot.saturating_sub(self.last_heartbeat_slot)
    }

    /// The 49 bytes of the layout.
    pub fn borsh_layout_bytes(&self) -> (r: [u8; 49])
        ensures
            r@ == self.wire(),
    {
        let mut body: Vec<u8> = Vec::new();
        let _ = self.serialize(&mut body);
        proof {
            lemma_lock_len(*self);
            assert(body@ =~= self.wire());
        }
        let mut out: [u8; 49] = [0u8; 49];
        let mut i: usize = 0;
        while i < 49
            invariant
                i <= 49,
                body@.len() == 49,
                body.len() == 49,
                forall|j: int| 0 <= j < i ==> out[j] == body@[j],
            decreases 49 - i,
        {
            out[i] = body[i];
            i = i + 1;
        }
        proof {
            assert(out@ =~= body@);
        }
        out
    }

    /// Sends a heartbeat as `signer` at `current_slot`.
    ///
    /// | State of the lock                    | Outcome               | Changed      |
    /// |--------------------------------------|-----------------------|--------------|
    /// | `current_slot` before last heartbeat | `RejectedClockSkew`   | nothing      |
    /// | no leader                            | `AcquiredFresh`       | leader, slot |
    /// | stale                                | `AcquiredFromStale`   | leader, slot |
    /// | held by `signer`                     | `Refreshed`           | slot         |
    /// | held by another keeper               | `RejectedHeldByOther` | nothing      |
    pub fn try_heartbeat(&mut self, signer: Pubkey32, current_slot: u64) -> (r: HeartbeatOutcome)
        ensures
            r == old(self).heartbeat_outcome(signer, current_slot),
            *final(self) == old(self).after_heartbeat(signer, current_slot),
    {
        if current_slot < self.last_heartbeat_slot {
            return HeartbeatOutcome::RejectedClockSkew {
                caller_slot: current_slot,
                recorded_slot: self.last_heartbeat_slot,
            };
        }
        if !self.has_leader {
            self.has_leader = true;
            self.current_leader = signer;
            self.last_heartbeat_slot = current_slot;
            return HeartbeatOutcome::AcquiredFresh;
        }
        let leader: Pubkey32 = self.current_leader;
        let stale: bool = self.is_stale(current_slot);
        let elapsed: u64 = self.slots_since_heartbeat(current_slot);
        if same_pubkey(&leader, &signer) {
            self.last_heartbeat_slot = current_slot;
            if stale {
                HeartbeatOutcome::AcquiredFromStale {
                    previous_leader: leader,
                    elapsed_slots: elapsed,
                }
            } else {
                HeartbeatOutcome::Refreshed
            }
        } else if stale {
            self.current_leader = signer;
            self.last_heartbeat_slot = current_slot;
            HeartbeatOutcome::AcquiredFromStale { previous_leader: leader, elapsed_slots: elapsed }
        } else {
            let slots_until_stale: u64 = self.takeover_threshold_slots.saturating_sub(elapsed);
            HeartbeatOutcome::RejectedHeldByOther { current_leader: leader, slots_until_stale }
        }
    }

    /// Gives the lock up as `signer` at `current_slot`. Only the leader can.
    ///
    /// A released lock has no leader and is stale at once, so a standby
    /// keeper need not wait for the threshold. The recorded slot never goes
    /// back, also where `current_slot` lies before it.
    pub fn try_release(&mut self, signer: Pubkey32, current_slot: u64) -> (r: ReleaseOutcome)
        ensures
            r == old(self).release_outcome(signer),
            *final(self) == old(self).after_release(signer, current_slot),
    {
        if !self.has_leader {
            return ReleaseOutcome::RejectedNotHeld;
        }
        if !same_pubkey(&self.current_leader, &signer) {
            return ReleaseOutcome::RejectedNotHolder { current_leader: self.current_leader };
        }
        self.has_leader = false;
        self.current_leader = ZERO_PUBKEY;
        if current_slot > self.last_heartbeat_slot {
            self.last_heartbeat_slot = current_slot;
        }
        ReleaseOutcome::Released
    }
}

/// The lock without a leader, as it is before the first heartbeat and after a release.
pub open spec fn unowned_lock(slot: u64, takeover_threshold_slots: u64) -> KeeperLeaderLock {
    KeeperLeaderLock {
        has_leader: false,
        current_leader: ZERO_PUBKEY,
        last_heartbeat_slot: slot,
        takeover_threshold_slots,
    }
}

/// The layout of a lock has 49 bytes.
pub proof fn lemma_lock_len(lock: KeeperLeaderLock)
    ensures
        lock.wire().len() == KEEPER_LEADER_LOCK_BODY_LEN,
{
    broadcast use crate::wire::group_wire;

}

/// What a heartbeat came to.
#[derive(Debug, Clone, Copy, PartialEq, Eq)]
pub enum HeartbeatOutcome {
    /// The lock had no leader; the signer leads now.
    AcquiredFresh,
    /// The lock was stale; the signer leads now. The previous leader may be
    /// the signer itself, back from a stall.
    AcquiredFromStale {
        /// The leader whose heartbeat had gone stale.
        previous_leader: Pubkey32,
        /// Slots since that leader's last heartbeat.
        elapsed_slots: u64,
    },
    /// The signer was the leader and stays it.
    Refreshed,
    /// Another keeper holds the lock.
    RejectedHeldByOther {
        /// Who holds it.
        current_leader: Pubkey32,
        /// Slots until the lock goes stale.
        slots_until_stale: u64,
    },
    /// The caller's slot lies before the recorded heartbeat.
    RejectedClockSkew {
        /// The slot the caller passed.
        caller_slot: u64,
        /// The slot of the recorded heartbeat.
        recorded_slot: u64,
    },
}

impl HeartbeatOutcome {
    /// The outcomes after which the signer leads.
    pub open spec fn leads(&self) -> bool {
        self is AcquiredFresh || self is AcquiredFromStale || self is Refreshed
    }

    /// Whether the signer leads now.
    pub fn is_leader(&self) -> (r: bool)
        ensures
            r == self.leads(),
    {
        match self {
            HeartbeatOutcome::AcquiredFresh => true,
            HeartbeatOutcome::AcquiredFromStale { .. } => true,
            HeartbeatOutcome::Refreshed => true,
            HeartbeatOutcome::RejectedHeldByOther { .. } => false,
            HeartbeatOutcome::RejectedClockSkew { .. } => false,
        }
    }

    /// Whether the heartbeat changed the lock.
    pub fn mutated_lock(&self) -> (r: bool)
        ensures
            r == self.leads(),
    {
        self.is_leader()
    }
}

/// What a release came to.
#[derive(Debug, Clone, Copy, PartialEq, Eq)]
pub enum ReleaseOutcome {
    /// The signer held the lock; now nobody does.
    Released,
    /// Another keeper holds the lock.
    RejectedNotHolder {
        /// Who holds it.
        current_leader: Pubkey32,
    },
    /// The lock has no leader.
    RejectedNotHeld,
}

/// When a keeper should try to submit: its heartbeat would be accepted.
pub open spec fn should_submit_spec(lock: KeeperLeaderLock, signer: Pubkey32, slot: u64) -> bool {
    lock.heartbeat_outcome(signer, slot).leads()
}

/// Whether a keeper should try to submit a transaction at the given slot: it
/// holds the lock, or the lock is stale. At a slot before the recorded
/// heartbeat nobody should, as the heartbeat would be turned away.
pub fn keeper_bot_should_submit(
    lock: &KeeperLeaderLock,
    signer: &Pubkey32,
    current_slot: u64,
) -> (r: bool)
    ensures
        r == should_submit_spec(*lock, *signer, current_slot),
{
    if current_slot < lock.last_heartbeat_slot {
        return false;
    }
    if lock.is_held_by(signer, current_slot) {
        return true;
    }
    lock.is_stale(current_slot)
}

/// The data of a lock account under the given discriminator.
pub fn encode_keeper_leader_lock_account(
    lock: &KeeperLeaderLock,
    discriminator: &[u8; 8],
) -> (r: Vec<u8>)
    ensures
        r@ == decoder::account_bytes(lock, discriminator@),
{
    let body = lock.borsh_layout_bytes();
    let mut out: Vec<u8> = Vec::new();
    wire::put_bytes(&mut out, discriminator.as_slice());
    wire::put_bytes(&mut out, body.as_slice());
    proof {
        assert(out@ =~= decoder::account_bytes(lock, discriminator@));
    }
    out
}

/// The lock after a list of heartbeats, each by a signer at a slot.
pub open spec fn after_heartbeats(
    lock: KeeperLeaderLock,
    beats: Seq<(Pubkey32, u64)>,
) -> KeeperLeaderLock
    decreases beats.len(),
{
    if beats.len() == 0 {
        lock
    } else {
        after_heartbeats(lock, beats.drop_last()).after_heartbeat(beats.last().0, beats.last().1)
    }
}

/// At any slot at most one keeper holds the lock, whatever heartbeats came before.
pub proof fn law_at_most_one_holder(
    lock: KeeperLeaderLock,
    beats: Seq<(Pubkey32, u64)>,
    a: Pubkey32,
    b: Pubkey32,
    slot: u64,
)
    requires
        after_heartbeats(lock, beats).held_at(a, slot),
        after_heartbeats(lock, beats).held_at(b, slot),
    ensures
        a == b,
{
}

/// Heartbeats never move the recorded slot back, nor change the threshold.
pub proof fn law_heartbeats_never_regress(lock: KeeperLeaderLock, beats: Seq<(Pubkey32, u64)>)
    ensures
        after_heartbeats(lock, beats).last_heartbeat_slot >= lock.last_heartbeat_slot,
        after_heartbeats(lock, beats).takeover_threshold_slots == lock.takeover_threshold_slots,
    decreases beats.len(),
{
    if beats.len() > 0 {
        law_heartbeats_never_regress(lock, beats.drop_last());
    }
}

/// One operation on a lock, as laws over many of them speak of it: a heartbeat
/// or a release, by a signer at a slot.
pub enum LockStep {
    /// A heartbeat.
    Heartbeat {
        /// Who sends it.
        signer: Pubkey32,
        /// The slot it is sent at.
        slot: u64,
    },
    /// A release.
    Release {
        /// Who sends it.
        signer: Pubkey32,
        /// The slot it is sent at.
        slot: u64,
    },
}

/// The lock after a list of operations.
pub open spec fn after_steps(lock: KeeperLeaderLock, steps: Seq<LockStep>) -> KeeperLeaderLock
    decreases steps.len(),
{
    if steps.len() == 0 {
        lock
    } else {
        let before = after_steps(lock, steps.drop_last());
        match steps.last() {
            LockStep::Heartbeat { signer, slot } => before.after_heartbeat(signer, slot),
            LockStep::Release { signer, slot } => before.after_release(signer, slot),
        }
    }
}

/// No heartbeat and no release, at whatever slot, moves the recorded slot
/// back or changes the threshold.
pub proof fn law_recorded_slot_never_regresses(lock: KeeperLeaderLock, steps: Seq<LockStep>)
    ensures
        after_steps(lock, steps).last_heartbeat_slot >= lock.last_heartbeat_slot,
        after_steps(lock, steps).takeover_threshold_slots == lock.takeover_threshold_slots,
    decreases steps.len(),
{
    if steps.len() > 0 {
        law_recorded_slot_never_regresses(lock, steps.drop_last());
    }
}

/// A release, at whatever slot, does not move the recorded slot back.
pub proof fn law_release_never_regresses(lock: KeeperLeaderLock, signer: Pubkey32, slot: u64)
    ensures
        lock.after_release(signer, slot).last_heartbeat_slot >= lock.last_heartbeat_slot,
        lock.release_outcome(signer) is Released ==> lock.after_release(
            signer,
            slot,
        ).last_heartbeat_slot == later(lock.last_heartbeat_slot, slot),
{
}

/// Another keeper takes over only from a stale leader; while the lock is
/// fresh, every keeper but its leader is turned away and the lock stays as it is.
pub proof fn law_takeover_only_when_stale(lock: KeeperLeaderLock, signer: Pubkey32, slot: u64)
    requires
        lock.has_leader,
        signer != lock.current_leader,
    ensures
        lock.heartbeat_outcome(signer, slot).leads() ==> lock.stale_at(slot),
        !lock.stale_at(slot) ==> !lock.heartbeat_outcome(signer, slot).leads()
            && lock.after_heartbeat(signer, slot) == lock,
{
}

/// A lock without a leader is stale at every slot and held by nobody.
pub proof fn law_leaderless_lock_is_stale(lock: KeeperLeaderLock, signer: Pubkey32, slot: u64)
    requires
        !lock.has_leader,
    ensures
        lock.stale_at(slot),
        !lock.held_at(signer, slot),
{
}

/// A heartbeat is accepted exactly when the signer holds the lock afterwards
/// with the heartbeat recorded; a rejected one changes nothing.
pub proof fn law_accepted_heartbeat_holds(lock: KeeperLeaderLock, signer: Pubkey32, slot: u64)
    ensures
        lock.heartbeat_outcome(signer, slot).leads() ==> {
            &&& lock.after_heartbeat(signer, slot).held_at(signer, slot)
            &&& lock.after_heartbeat(signer, slot).last_heartbeat_slot == slot
        },
        !lock.heartbeat_outcome(signer, slot).leads() ==> lock.after_heartbeat(signer, slot)
            == lock,
{
}

/// After a release the lock is stale at every slot, and any keeper, the
/// previous leader too, acquires it afresh with its next heartbeat from the
/// recorded slot on.
pub proof fn law_release_then_anyone_acquires(
    lock: KeeperLeaderLock,
    leader: Pubkey32,
    release_slot: u64,
    signer: Pubkey32,
    slot: u64,
)
    requires
        lock.release_outcome(leader) is Released,
    ensures
        lock.after_release(leader, release_slot).stale_at(slot),
        slot >= later(lock.last_heartbeat_slot, release_slot) ==> lock.after_release(
            leader,
            release_slot,
        ).heartbeat_outcome(signer, slot) is AcquiredFresh,
{
}

/// A keeper is told to submit exactly when its heartbeat would be accepted:
/// from the recorded heartbeat on, where it holds the lock or the lock is stale.
pub proof fn law_submission_gate_predicts_heartbeat(
    lock: KeeperLeaderLock,
    signer: Pubkey32,
    slot: u64,
)
    ensures
        should_submit_spec(lock, signer, slot) <==> lock.heartbeat_outcome(signer, slot).leads(),
        should_submit_spec(lock, signer, slot) <==> slot >= lock.last_heartbeat_slot && (
        lock.held_at(signer, slot) || lock.stale_at(slot)),
{
}

} // verus!
