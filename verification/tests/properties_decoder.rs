use borsh::{BorshDeserialize, BorshSerialize};
use keeper::decoder::accounts::{
    OnchainDistEntry, OnchainDistributionLedger, OnchainDormantBucket, OnchainSubPool,
};
use keeper::decoder::bridge;
use keeper::decoder::ix::{
    account_discriminator, discriminator_of, encode_keeper_leader_acquire,
    encode_keeper_leader_heartbeat, instruction_discriminator, KeeperLeaderAcquireArgs,
    KeeperLeaderHeartbeatArgs,
};
use keeper::decoder::leader_lock::{
    encode_keeper_leader_lock_account, keeper_bot_should_submit, same_pubkey, HeartbeatOutcome,
    KeeperLeaderLock, ReleaseOutcome,
};
use keeper::decoder::schema::schema_descriptor_json;
use keeper::decoder::{
    decode_anchor_account, decode_anchor_account_with_discriminator, encode_anchor_account,
    AccountDecodeError,
};
use keeper::wire::{WireDecode, WireEncode, WireError};
use sha2::{Digest, Sha256};

const ALICE: [u8; 32] = [0xa1; 32];
const BOB: [u8; 32] = [0xb0; 32];

fn bucket() -> OnchainDormantBucket {
    OnchainDormantBucket {
        sub_pool: [2; 32],
        direction_is_long: true,
        zero_price_tick: -1234,
        anchor_price: 50_000_000,
        total_recovery_shares: 7_777,
        total_recovery_notional: 8_888,
        accrued_value: 9_999,
        position_count: 4,
        last_applied_index: 12,
        bump: 253,
        _pad: [0; 6],
    }
}

fn ledger(entries: usize) -> OnchainDistributionLedger {
    OnchainDistributionLedger {
        sub_pool: [3; 32],
        direction_is_long: false,
        max_entries: 64,
        gc_offset: 1,
        next_event_index: 5,
        accrued_value_total: 6,
        pending_distribution_total: 7,
        entry_count: 2,
        entries: (0..entries)
            .map(|i| OnchainDistEntry {
                event_index: i as u64,
                p_at_event: 100,
                total_outstanding_at_event: 200,
                total_alloc_input: 300,
                allocated_sum_observed: 250,
            })
            .collect(),
        bump: 9,
        _pad: [0; 7],
    }
}

#[test]
fn accounts_are_read_back_as_written() {
    for n in [0, 1, 3] {
        let raw = encode_anchor_account(&ledger(n), &[7; 8]).unwrap();
        let back: OnchainDistributionLedger = decode_anchor_account(&raw).unwrap();
        assert_eq!(back, ledger(n));
        let strict =
            decode_anchor_account_with_discriminator::<OnchainDistributionLedger>(&raw, &[7; 8]);
        assert_eq!(strict.unwrap(), ledger(n));
        assert_eq!(encode_anchor_account(&back, &[7; 8]).unwrap(), raw);
    }
}

#[test]
fn decode_errors_are_told_apart() {
    let short = decode_anchor_account::<OnchainDormantBucket>(&[1, 2, 3]).unwrap_err();
    assert_eq!(short, AccountDecodeError::TooShort { len: 3, min: 8 });
    let raw = encode_anchor_account(&bucket(), &[7; 8]).unwrap();
    let foreign =
        decode_anchor_account_with_discriminator::<OnchainDormantBucket>(&raw, &[8; 8]).unwrap_err();
    assert_eq!(
        foreign,
        AccountDecodeError::DiscriminatorMismatch { got: [7; 8], expected: [8; 8] }
    );
    let mut long = raw.clone();
    long.push(0);
    assert!(matches!(
        decode_anchor_account::<OnchainDormantBucket>(&long).unwrap_err(),
        AccountDecodeError::Borsh(_)
    ));
    for e in [short, foreign] {
        assert!(!e.to_string().is_empty());
    }
}

#[test]
fn record_errors_are_told_apart() {
    let mut raw = Vec::new();
    bucket().serialize(&mut raw).unwrap();
    assert_eq!(
        OnchainDormantBucket::try_from_slice(&raw[..raw.len() - 1]).unwrap_err(),
        WireError::UnexpectedLength
    );
    raw[32] = 7;
    assert_eq!(
        OnchainDormantBucket::try_from_slice(&raw).unwrap_err(),
        WireError::InvalidBool(7)
    );
    raw[32] = 1;
    raw.push(0);
    assert_eq!(
        OnchainDormantBucket::try_from_slice(&raw).unwrap_err(),
        WireError::NotAllBytesRead
    );
}

#[test]
fn layouts_agree_with_borsh() {
    let b = bucket();
    let mut ours = Vec::new();
    WireEncode::serialize(&b, &mut ours).unwrap();
    let tuple = (
        (b.sub_pool, b.direction_is_long, b.zero_price_tick, b.anchor_price),
        (b.total_recovery_shares, b.total_recovery_notional, b.accrued_value),
        (b.position_count, b.last_applied_index, b.bump, b._pad),
    );
    let mut theirs = Vec::new();
    BorshSerialize::serialize(&tuple, &mut theirs).unwrap();
    assert_eq!(ours, theirs);

    let l = ledger(2);
    let mut ours = Vec::new();
    WireEncode::serialize(&l, &mut ours).unwrap();
    let entries: Vec<(u64, u64, u128, u128, u128)> = l
        .entries
        .iter()
        .map(|e| {
            (
                e.event_index,
                e.p_at_event,
                e.total_outstanding_at_event,
                e.total_alloc_input,
                e.allocated_sum_observed,
            )
        })
        .collect();
    let tuple = (
        (l.sub_pool, l.direction_is_long, l.max_entries, l.gc_offset, l.next_event_index),
        (l.accrued_value_total, l.pending_distribution_total, l.entry_count),
        (entries, l.bump, l._pad),
    );
    let mut theirs = Vec::new();
    BorshSerialize::serialize(&tuple, &mut theirs).unwrap();
    assert_eq!(ours, theirs);
}

#[test]
fn sub_pool_layout_starts_with_market_and_id() {
    let mut raw = vec![0u8; 8];
    let mut body = vec![5u8; 32];
    body.extend(9u32.to_le_bytes());
    raw.extend(&body);
    assert!(decode_anchor_account::<OnchainSubPool>(&raw).is_err());
    let (market, id): ([u8; 32], u32) = BorshDeserialize::try_from_slice(&body).unwrap();
    assert_eq!((market, id), ([5; 32], 9));
}

#[test]
fn discriminators_are_digest_prefixes() {
    let digest: [u8; 32] = Sha256::digest(b"global:keeper_leader_acquire").into();
    assert_eq!(discriminator_of(&digest), digest[..8]);
    assert_eq!(instruction_discriminator("keeper_leader_acquire"), digest[..8]);
    let digest: [u8; 32] = Sha256::digest(b"account:Market").into();
    assert_eq!(account_discriminator("Market"), digest[..8]);
}

#[test]
fn acquire_and_heartbeat_differ_in_the_discriminator_alone() {
    let acquire = encode_keeper_leader_acquire(&KeeperLeaderAcquireArgs { observed_slot: 77 });
    let heartbeat =
        encode_keeper_leader_heartbeat(&KeeperLeaderHeartbeatArgs { observed_slot: 77 });
    assert_ne!(acquire[..8], heartbeat[..8]);
    assert_eq!(acquire[8..], heartbeat[8..]);
    assert_eq!(acquire[8..], 77u64.to_le_bytes());
}

#[test]
fn bridge_gives_the_same_bytes() {
    assert_eq!(
        bridge::encode_keeper_leader_acquire(5),
        encode_keeper_leader_acquire(&KeeperLeaderAcquireArgs { observed_slot: 5 })
    );
    assert_eq!(
        bridge::encode_keeper_leader_heartbeat(5),
        encode_keeper_leader_heartbeat(&KeeperLeaderHeartbeatArgs { observed_slot: 5 })
    );
    assert_eq!(
        bridge::encode_keeper_leader_release(),
        instruction_discriminator("keeper_leader_release").to_vec()
    );
    assert_eq!(
        bridge::instruction_discriminator("x"),
        instruction_discriminator("x").to_vec()
    );
    assert_eq!(bridge::account_discriminator("x"), account_discriminator("x").to_vec());
    assert_eq!(bridge::keeper_leader_lock_seed_prefix(), b"keeper_leader_lock".to_vec());
}

#[test]
fn bridge_positions_are_laid_out_in_order() {
    let open = bridge::encode_open_position(1, 2, 3, 4, true, 5, 6);
    let mut want = instruction_discriminator("open_position").to_vec();
    for x in [1u64, 2, 3, 4] {
        want.extend(x.to_le_bytes());
    }
    want.push(1);
    want.extend(5u64.to_le_bytes());
    want.extend(6u64.to_le_bytes());
    assert_eq!(open, want);
    let close = bridge::encode_close_position(1, 2, 3, 4, 5, 6);
    let mut want = instruction_discriminator("close_position").to_vec();
    for x in [1u64, 2, 3, 4] {
        want.extend(x.to_le_bytes());
    }
    want.extend(5u32.to_le_bytes());
    want.extend(6u32.to_le_bytes());
    assert_eq!(close, want);
}

#[test]
fn lock_is_read_with_or_without_discriminator() {
    let lock = KeeperLeaderLock::held_by(ALICE, 100, 75);
    let body = lock.borsh_layout_bytes();
    let whole = encode_keeper_leader_lock_account(&lock, &account_discriminator("KeeperLeaderLock"));
    for bytes in [body.to_vec(), whole] {
        let view = bridge::decode_keeper_leader_lock(&bytes).unwrap();
        assert!(view.has_leader());
        assert_eq!(view.current_leader(), ALICE.to_vec());
        assert_eq!(view.last_heartbeat_slot(), 100);
        assert_eq!(view.takeover_threshold_slots(), 75);
    }
    assert!(bridge::decode_keeper_leader_lock(&[0; 10]).is_err());
    let mut padded = encode_keeper_leader_lock_account(&lock, &[0; 8]);
    padded.extend([0; 7]);
    assert_eq!(bridge::decode_keeper_leader_lock(&padded).unwrap().last_heartbeat_slot(), 100);
    padded.truncate(56);
    assert!(bridge::decode_keeper_leader_lock(&padded).is_err());
}

#[test]
fn schema_lists_every_record() {
    let json = schema_descriptor_json();
    for name in [
        "OnchainMarket",
        "OnchainSubPool",
        "OnchainDormantBucket",
        "OnchainDistributionLedger",
        "OnchainPosition",
        "zero_price_tick",
    ] {
        assert!(json.contains(name), "{name}");
    }
}

#[test]
fn at_most_one_signer_holds_the_lock() {
    let lock = KeeperLeaderLock::held_by(ALICE, 100, 75);
    assert!(lock.is_held_by(&ALICE, 175));
    assert!(!lock.is_held_by(&BOB, 175));
    assert!(!lock.is_held_by(&ALICE, 176));
    assert!(same_pubkey(&ALICE, &ALICE));
    assert!(!same_pubkey(&ALICE, &BOB));
    assert_eq!(lock.slots_since_heartbeat(130), 30);
    assert_eq!(lock.slots_since_heartbeat(99), 0);
}

#[test]
fn gate_predicts_what_a_heartbeat_comes_to() {
    for (holder, slot) in [(ALICE, 110u64), (BOB, 110), (BOB, 176), (ALICE, 99), (BOB, 99)] {
        let mut lock = KeeperLeaderLock::held_by(ALICE, 100, 75);
        let may = keeper_bot_should_submit(&lock, &holder, slot);
        let outcome = lock.try_heartbeat(holder, slot);
        assert_eq!(outcome.is_leader(), may, "{outcome:?}");
    }
}

#[test]
fn releases_never_turn_the_clock_back() {
    for (slot, recorded) in [(50u64, 100u64), (100, 100), (130, 130)] {
        let mut lock = KeeperLeaderLock::held_by(ALICE, 100, 75);
        assert_eq!(lock.try_release(ALICE, slot), ReleaseOutcome::Released);
        assert_eq!(lock, KeeperLeaderLock::fresh(recorded, 75));
        assert!(lock.is_stale(slot));
        assert_eq!(lock.try_heartbeat(BOB, recorded), HeartbeatOutcome::AcquiredFresh);
    }
}

#[test]
fn heartbeats_never_turn_the_clock_back() {
    let mut lock = KeeperLeaderLock::held_by(ALICE, 100, 75);
    let outcome = lock.try_heartbeat(ALICE, 99);
    assert_eq!(
        outcome,
        HeartbeatOutcome::RejectedClockSkew { caller_slot: 99, recorded_slot: 100 }
    );
    assert!(!outcome.mutated_lock());
    assert_eq!(lock.last_heartbeat_slot, 100);
}

#[test]
fn released_lock_is_open_to_anyone() {
    let mut lock = KeeperLeaderLock::held_by(ALICE, 100, 75);
    assert_eq!(
        lock.try_release(BOB, 110),
        ReleaseOutcome::RejectedNotHolder { current_leader: ALICE }
    );
    assert_eq!(lock.try_release(ALICE, 110), ReleaseOutcome::Released);
    assert_eq!(lock.current_leader_pubkey(), None);
    assert_eq!(lock.try_release(ALICE, 110), ReleaseOutcome::RejectedNotHeld);
    assert_eq!(lock.try_heartbeat(BOB, 110), HeartbeatOutcome::AcquiredFresh);
    assert_eq!(lock.current_leader_pubkey(), Some(BOB));
}
