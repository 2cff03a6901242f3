use keeper::decoder::leader_lock::{
    encode_keeper_leader_lock_account, keeper_bot_should_submit, HeartbeatOutcome,
    KeeperLeaderLock, ReleaseOutcome, KEEPER_LEADER_LOCK_BODY_LEN,
};
use keeper::decoder::Pubkey32;
use keeper::wire::{WireDecode, WireEncode};


const ALICE: Pubkey32 = [0xa1; 32];
const BOB: Pubkey32 = [0xb0; 32];
const CARL: Pubkey32 = [0xc4; 32];
const TAKEOVER: u64 = 75;

fn fresh() -> KeeperLeaderLock {
    KeeperLeaderLock::fresh(0, TAKEOVER)
}

#[test]
fn empty_lock_is_always_stale() {
    let lock = fresh();
    assert!(lock.is_stale(0));
    assert!(lock.is_stale(u64::MAX));
    assert!(!lock.is_held_by(&ALICE, 0));
}

#[test]
fn first_heartbeat_acquires_lock_for_signer() {
    let mut lock = fresh();
    let r = lock.try_heartbeat(ALICE, 100);
    assert_eq!(r, HeartbeatOutcome::AcquiredFresh);
    assert_eq!(lock.current_leader_pubkey(), Some(ALICE));
    assert_eq!(lock.last_heartbeat_slot, 100);
    assert!(lock.is_held_by(&ALICE, 100));
}

#[test]
fn fresh_leader_refresh_extends_slot_without_handoff() {
    let mut lock = KeeperLeaderLock::held_by(ALICE, 100, TAKEOVER);
    let r = lock.try_heartbeat(ALICE, 100 + TAKEOVER);
    assert_eq!(r, HeartbeatOutcome::Refreshed);
    assert_eq!(lock.last_heartbeat_slot, 100 + TAKEOVER);
    assert_eq!(lock.current_leader_pubkey(), Some(ALICE));
}

#[test]
fn non_leader_rejected_while_lock_fresh() {
    let mut lock = KeeperLeaderLock::held_by(ALICE, 100, TAKEOVER);
    let r = lock.try_heartbeat(BOB, 100 + 30);
    match r {
        HeartbeatOutcome::RejectedHeldByOther {
            current_leader,
            slots_until_stale,
        } => {
            assert_eq!(current_leader, ALICE);
            assert_eq!(slots_until_stale, TAKEOVER - 30);
        }
        other => panic!("expected RejectedHeldByOther, got {other:?}"),
    }
    assert_eq!(lock.current_leader_pubkey(), Some(ALICE));
    assert_eq!(lock.last_heartbeat_slot, 100);
}

#[test]
fn stale_lock_takeover_promotes_new_signer() {
    let mut lock = KeeperLeaderLock::held_by(ALICE, 100, TAKEOVER);
    let r = lock.try_heartbeat(BOB, 100 + TAKEOVER + 1);
    match r {
        HeartbeatOutcome::AcquiredFromStale {
            previous_leader,
            elapsed_slots,
        } => {
            assert_eq!(previous_leader, ALICE);
            assert_eq!(elapsed_slots, TAKEOVER + 1);
        }
        other => panic!("expected AcquiredFromStale, got {other:?}"),
    }
    assert_eq!(lock.current_leader_pubkey(), Some(BOB));
    assert_eq!(lock.last_heartbeat_slot, 100 + TAKEOVER + 1);
    assert!(lock.is_held_by(&BOB, 100 + TAKEOVER + 1));
    assert!(!lock.is_held_by(&ALICE, 100 + TAKEOVER + 1));
}

#[test]
fn lock_at_exact_threshold_is_still_fresh() {
    let mut lock = KeeperLeaderLock::held_by(ALICE, 100, TAKEOVER);
    let r = lock.try_heartbeat(BOB, 100 + TAKEOVER);
    match r {
        HeartbeatOutcome::RejectedHeldByOther { .. } => {}
        other => panic!("expected RejectedHeldByOther at boundary, got {other:?}"),
    }
    assert!(!lock.is_stale(100 + TAKEOVER));
    assert!(lock.is_stale(100 + TAKEOVER + 1));
}

#[test]
fn backward_time_heartbeat_rejected() {
    let mut lock = KeeperLeaderLock::held_by(ALICE, 100, TAKEOVER);
    let r = lock.try_heartbeat(ALICE, 50);
    assert_eq!(
        r,
        HeartbeatOutcome::RejectedClockSkew {
            caller_slot: 50,
            recorded_slot: 100,
        }
    );
    assert_eq!(lock.last_heartbeat_slot, 100);
}

#[test]
fn three_keeper_rotation_chain_records_each_predecessor() {
    let mut lock = fresh();
    assert_eq!(lock.try_heartbeat(ALICE, 100), HeartbeatOutcome::AcquiredFresh);
    let after_a = lock.last_heartbeat_slot;
    let r = lock.try_heartbeat(BOB, after_a + TAKEOVER + 1);
    match r {
        HeartbeatOutcome::AcquiredFromStale { previous_leader, .. } => {
            assert_eq!(previous_leader, ALICE);
        }
        other => panic!("step B: {other:?}"),
    }
    let after_b = lock.last_heartbeat_slot;
    let r = lock.try_heartbeat(CARL, after_b + TAKEOVER + 5);
    match r {
        HeartbeatOutcome::AcquiredFromStale { previous_leader, .. } => {
            assert_eq!(previous_leader, BOB);
        }
        other => panic!("step C: {other:?}"),
    }
    assert_eq!(lock.current_leader_pubkey(), Some(CARL));
}

#[test]
fn stale_leader_recovers_via_acquired_from_stale_with_self_as_predecessor() {
    let mut lock = KeeperLeaderLock::held_by(ALICE, 100, TAKEOVER);
    let slot = 100 + TAKEOVER + 10;
    let r = lock.try_heartbeat(ALICE, slot);
    match r {
        HeartbeatOutcome::AcquiredFromStale {
            previous_leader,
            elapsed_slots,
        } => {
            assert_eq!(previous_leader, ALICE);
            assert_eq!(elapsed_slots, TAKEOVER + 10);
        }
        other => panic!("expected stale-self AcquiredFromStale, got {other:?}"),
    }
    assert_eq!(lock.current_leader_pubkey(), Some(ALICE));
    assert_eq!(lock.last_heartbeat_slot, slot);
}

#[test]
fn borsh_layout_is_49_bytes_with_signed_leader_marker() {
    let bytes = fresh().borsh_layout_bytes();
    assert_eq!(bytes.len(), KEEPER_LEADER_LOCK_BODY_LEN);
    assert_eq!(bytes[0], 0);
    assert_eq!(&bytes[1..33], &[0u8; 32]);
    let held = KeeperLeaderLock::held_by(ALICE, 7, TAKEOVER);
    let bytes = held.borsh_layout_bytes();
    assert_eq!(bytes[0], 1);
    assert_eq!(&bytes[1..33], &ALICE);
    assert_eq!(&bytes[33..41], &7u64.to_le_bytes());
    assert_eq!(&bytes[41..49], &TAKEOVER.to_le_bytes());
}

#[test]
fn borsh_derive_matches_hand_rolled_layout() {
    for lock in [
        KeeperLeaderLock::held_by(ALICE, 0xdead_beef, TAKEOVER),
        KeeperLeaderLock::fresh(0, TAKEOVER),
    ] {
        let mut derived = Vec::new();
        lock.serialize(&mut derived).unwrap();
        let hand = lock.borsh_layout_bytes();
        assert_eq!(
            derived.as_slice(),
            &hand[..],
            "mismatch for has_leader = {}",
            lock.has_leader
        );
        assert_eq!(derived.len(), KEEPER_LEADER_LOCK_BODY_LEN);
        // Round trip through derive deserialize.
        let parsed = KeeperLeaderLock::try_from_slice(&derived).unwrap();
        assert_eq!(parsed, lock);
    }
}

#[test]
fn release_only_succeeds_for_holder() {
    let mut lock = KeeperLeaderLock::held_by(ALICE, 100, TAKEOVER);
    // Non-holder can't release.
    let r = lock.try_release(BOB, 110);
    match r {
        ReleaseOutcome::RejectedNotHolder { current_leader } => {
            assert_eq!(current_leader, ALICE);
        }
        other => panic!("expected RejectedNotHolder, got {other:?}"),
    }
    assert_eq!(lock.current_leader_pubkey(), Some(ALICE));
    // Holder can.
    let r = lock.try_release(ALICE, 110);
    assert_eq!(r, ReleaseOutcome::Released);
    assert_eq!(lock.current_leader_pubkey(), None);
    // After release the next heartbeat is `AcquiredFresh`, even
    // from the previous holder.
    let r = lock.try_heartbeat(ALICE, 111);
    assert_eq!(r, HeartbeatOutcome::AcquiredFresh);
}

#[test]
fn release_on_unowned_lock_rejects() {
    let mut lock = fresh();
    let r = lock.try_release(ALICE, 100);
    assert_eq!(r, ReleaseOutcome::RejectedNotHeld);
    assert_eq!(lock.current_leader_pubkey(), None);
}

#[test]
fn keeper_bot_should_submit_predicates() {
    let lock = KeeperLeaderLock::held_by(ALICE, 100, TAKEOVER);
    // Holder, fresh: submit.
    assert!(keeper_bot_should_submit(&lock, &ALICE, 110));
    // Non-holder, fresh: skip.
    assert!(!keeper_bot_should_submit(&lock, &BOB, 110));
    // Non-holder, stale: submit (will race for takeover).
    assert!(keeper_bot_should_submit(&lock, &BOB, 100 + TAKEOVER + 1));
    // Unowned: anyone may submit.
    let unowned = KeeperLeaderLock::fresh(0, TAKEOVER);
    assert!(keeper_bot_should_submit(&unowned, &BOB, 0));
}

#[test]
fn encoded_account_payload_is_57_bytes() {
    let lock = KeeperLeaderLock::held_by(ALICE, 9, TAKEOVER);
    let raw = encode_keeper_leader_lock_account(&lock, &[7u8; 8]);
    assert_eq!(raw.len(), 8 + KEEPER_LEADER_LOCK_BODY_LEN);
    assert_eq!(&raw[..8], &[7u8; 8]);
    assert_eq!(&raw[8..], &lock.borsh_layout_bytes()[..]);
}

#[test]
fn outcome_is_leader_matches_mutation() {
    let acquired = HeartbeatOutcome::AcquiredFresh;
    assert!(acquired.is_leader());
    assert!(acquired.mutated_lock());
    let stale = HeartbeatOutcome::AcquiredFromStale {
        previous_leader: ALICE,
        elapsed_slots: 1,
    };
    assert!(stale.is_leader());
    let refreshed = HeartbeatOutcome::Refreshed;
    assert!(refreshed.is_leader());
    let other = HeartbeatOutcome::RejectedHeldByOther {
        current_leader: ALICE,
        slots_until_stale: 5,
    };
    assert!(!other.is_leader());
    assert!(!other.mutated_lock());
    let skew = HeartbeatOutcome::RejectedClockSkew {
        caller_slot: 1,
        recorded_slot: 2,
    };
    assert!(!skew.is_leader());
}

