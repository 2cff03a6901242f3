use keeper::decoder::accounts::{
    OnchainDistEntry, OnchainDistributionLedger, OnchainDormantBucket, OnchainMarket,
    OnchainPosition, OnchainSubPool,
};
use keeper::decoder::schema::schema_descriptor_json;
use keeper::decoder::{
    decode_anchor_account, decode_anchor_account_with_discriminator, encode_anchor_account,
    AccountDecodeError, Pubkey32, ANCHOR_DISCRIMINATOR_LEN,
};
use keeper::wire::{WireDecode, WireEncode};


fn dummy_pubkey(seed: u8) -> Pubkey32 {
    let mut p = [0u8; 32];
    p[0] = seed;
    p
}

fn dummy_sub_pool() -> OnchainSubPool {
    OnchainSubPool {
        market: dummy_pubkey(1),
        sub_pool_id: 7,
        long_pool_equity: 1_234_567_890,
        short_pool_equity: 234_567_890,
        long_active_shares: 100_000,
        short_active_shares: 90_000,
        long_recovery_shares: 50,
        short_recovery_shares: 40,
        long_active_notional: 5_000_000,
        short_active_notional: 4_000_000,
        long_active_generation: 3,
        short_active_generation: 2,
        last_price: 100_000_000,
        last_sync_slot: 12345,
        long_dust: 7,
        short_dust: 9,
        long_dormant_bucket_count: 12,
        short_dormant_bucket_count: 8,
        bump: 254,
        _pad: [0; 7],
    }
}

fn dummy_bucket() -> OnchainDormantBucket {
    OnchainDormantBucket {
        sub_pool: dummy_pubkey(2),
        direction_is_long: true,
        zero_price_tick: -1234,
        anchor_price: 50_000_000,
        total_recovery_shares: 7_777,
        total_recovery_notional: 8_888,
        accrued_value: 9_999,
        position_count: 4,
        last_applied_index: 12,
        bump: 253,
        _pad: [0; 6],
    }
}

fn dummy_ledger() -> OnchainDistributionLedger {
    OnchainDistributionLedger {
        sub_pool: dummy_pubkey(3),
        direction_is_long: false,
        max_entries: 64,
        gc_offset: 5,
        next_event_index: 17,
        accrued_value_total: 100,
        pending_distribution_total: 12,
        entry_count: 1,
        entries: vec![OnchainDistEntry {
            event_index: 16,
            p_at_event: 50_000_000,
            total_outstanding_at_event: 1_000_000,
            total_alloc_input: 100,
            allocated_sum_observed: 100,
        }],
        bump: 252,
        _pad: [0; 7],
    }
}

fn dummy_market() -> OnchainMarket {
    OnchainMarket {
        global_config: dummy_pubkey(4),
        symbol: *b"SOL-USD\0\0\0\0\0\0\0\0\0",
        collateral_mint: dummy_pubkey(5),
        vault: dummy_pubkey(6),
        fee_vault: dummy_pubkey(7),
        oracle_price_feed: dummy_pubkey(8),
        oracle_program_id: dummy_pubkey(9),
        leverage_bps: 5_000,
        min_margin: 1_000_000,
        max_margin_per_position: 100_000_000_000,
        max_total_principal: 5_000_000_000_000,
        max_total_notional: 50_000_000_000_000,
        current_total_principal: 1_234_567_890,
        current_total_notional: 12_345_678_900,
        open_fee_bps: 5,
        max_oracle_age_seconds: 60,
        max_oracle_age_slots: 64,
        max_confidence_bps: 200,
        max_price_move_bps_per_sync: 1_000,
        price_tick: 10_000,
        tick_aggregation_factor: 10,
        max_dormant_bucket_count_per_direction: 16,
        dilution_safety_bps: 100,
        max_idle_slots: 128,
        paused: false,
        frozen_new_position: false,
        schema_version: 1,
        sub_pool_count: 4,
        dormant_distribute_mode: 1,
        max_pending_apply_per_tx: 8,
        max_distribution_ledger_size: 64,
        bump: 251,
        _pad: [0; 2],
    }
}

fn dummy_position() -> OnchainPosition {
    OnchainPosition {
        owner: dummy_pubkey(11),
        market: dummy_pubkey(12),
        sub_pool: dummy_pubkey(13),
        position_id: 42,
        direction_is_long: true,
        status: 0,
        principal: 1_000_000,
        leverage_bps: 5_000,
        notional: 5_000_000,
        active_shares: 100,
        recovery_shares: 0,
        recovery_bucket_tick: 0,
        has_recovery_bucket: false,
        zero_price: 0,
        entry_price: 60_123_456_000,
        last_sync_slot: 217_000_000,
        active_generation: 3,
        opened_at: 1_700_000_000,
        updated_at: 1_700_000_120,
        closed_at: 0,
        schema_version: 1,
        bump: 252,
        _pad: [0; 5],
    }
}

#[test]
fn account_mirrors_round_trip_through_borsh() {
    let disc = [1u8; 8];
    let raw_sp = encode_anchor_account(&dummy_sub_pool(), &disc).unwrap();
    let raw_b = encode_anchor_account(&dummy_bucket(), &disc).unwrap();
    let raw_l = encode_anchor_account(&dummy_ledger(), &disc).unwrap();
    let raw_m = encode_anchor_account(&dummy_market(), &disc).unwrap();
    let sp2: OnchainSubPool = decode_anchor_account(&raw_sp).unwrap();
    assert_eq!(sp2, dummy_sub_pool());
    let b2: OnchainDormantBucket = decode_anchor_account(&raw_b).unwrap();
    assert_eq!(b2, dummy_bucket());
    let l2: OnchainDistributionLedger = decode_anchor_account(&raw_l).unwrap();
    assert_eq!(l2, dummy_ledger());
    let m2: OnchainMarket = decode_anchor_account(&raw_m).unwrap();
    assert_eq!(m2, dummy_market());
}

#[test]
fn strict_decoder_rejects_discriminator_mismatch() {
    let raw = encode_anchor_account(&dummy_sub_pool(), &[1u8; 8]).unwrap();
    let bad = [2u8; 8];
    let err = decode_anchor_account_with_discriminator::<OnchainSubPool>(&raw, &bad)
        .unwrap_err();
    assert!(matches!(err, AccountDecodeError::DiscriminatorMismatch { .. }));
}

#[test]
fn truncated_payload_returns_too_short() {
    let err = decode_anchor_account::<OnchainSubPool>(&[0u8; 4]).unwrap_err();
    assert!(matches!(err, AccountDecodeError::TooShort { .. }));
}

#[test]
fn empty_payload_returns_too_short() {
    let err = decode_anchor_account::<OnchainSubPool>(&[]).unwrap_err();
    assert!(matches!(err, AccountDecodeError::TooShort { len: 0, min: 8 }));
}

#[test]
fn malformed_body_surfaces_borsh_variant() {
    // 8 bytes of disc + 1 byte of body — too short for any
    // OnchainSubPool field.
    let raw = [0u8; 9];
    let err = decode_anchor_account::<OnchainSubPool>(&raw).unwrap_err();
    match err {
        AccountDecodeError::Borsh(msg) => assert!(!msg.is_empty()),
        other => panic!("expected Borsh, got {other:?}"),
    }
}

#[test]
fn dist_entry_round_trips_without_padding() {
    let e = OnchainDistEntry {
        event_index: 42,
        p_at_event: 100,
        total_outstanding_at_event: 200,
        total_alloc_input: 300,
        allocated_sum_observed: 250,
    };
    let mut buf = Vec::new();
    e.serialize(&mut buf).unwrap();
    let e2 = OnchainDistEntry::try_from_slice(&buf).unwrap();
    assert_eq!(e, e2);
}

#[test]
fn ledger_entries_vec_independent_of_entry_count() {
    let mut l = dummy_ledger();
    l.entry_count = 7; // advertise more than we actually carry
    let mut buf = Vec::new();
    l.serialize(&mut buf).unwrap();
    let l2 = OnchainDistributionLedger::try_from_slice(&buf).unwrap();
    assert_eq!(l, l2);
}

#[test]
fn pubkey32_is_thirty_two_bytes_inline() {
    let pk: Pubkey32 = [9u8; 32];
    let mut buf = Vec::new();
    pk.serialize(&mut buf).unwrap();
    assert_eq!(buf.len(), 32);
    assert_eq!(buf, vec![9u8; 32]);
}

#[test]
fn anchor_discriminator_len_is_eight() {
    assert_eq!(ANCHOR_DISCRIMINATOR_LEN, 8);
}

#[test]
fn schema_descriptor_json_lists_every_struct_and_field() {
    let json = schema_descriptor_json();
    for name in [
        "OnchainSubPool",
        "OnchainDormantBucket",
        "OnchainDistEntry",
        "OnchainDistributionLedger",
        "OnchainMarket",
        "OnchainPosition",
    ] {
        assert!(
            json.contains(&format!("\"{name}\":[")),
            "missing struct {name} in schema descriptor"
        );
    }
    for field in [
        "long_pool_equity",
        "short_dormant_bucket_count",
        "zero_price_tick",
        "max_distribution_ledger_size",
        "schema_version",
        "direction_is_long",
        "has_recovery_bucket",
        "active_generation",
    ] {
        assert!(
            json.contains(&format!("\"name\":\"{field}\"")),
            "missing field {field} in schema descriptor"
        );
    }
    assert!(json.starts_with('{') && json.ends_with('}'));
}

#[test]
fn schema_descriptor_contains_one_hundred_three_field_entries() {
    let json = schema_descriptor_json();
    let count = json.matches("\"name\":\"").count();
    assert_eq!(count, 103, "expected 103 fields, descriptor has {count}");
}

#[test]
fn position_mirror_round_trips_through_borsh() {
    let raw = encode_anchor_account(&dummy_position(), &[7u8; 8]).unwrap();
    let p2: OnchainPosition = decode_anchor_account(&raw).unwrap();
    assert_eq!(p2, dummy_position());
}

#[test]
fn position_borsh_body_is_two_hundred_thirty_nine_bytes() {
    let mut buf = Vec::new();
    dummy_position().serialize(&mut buf).unwrap();
    assert_eq!(
        buf.len(),
        239,
        "OnchainPosition borsh body length drifted from 239"
    );
}

#[test]
fn position_market_pubkey_round_trips_intact() {
    let mut p = dummy_position();
    let target: Pubkey32 = [0xABu8; 32];
    p.market = target;
    let raw = encode_anchor_account(&p, &[1u8; 8]).unwrap();
    let p2: OnchainPosition = decode_anchor_account(&raw).unwrap();
    assert_eq!(p2.market, target);
}

#[test]
fn position_status_and_direction_are_one_byte_each() {
    let mut p = dummy_position();
    p.direction_is_long = false;
    p.status = 1;
    let mut buf = Vec::new();
    p.serialize(&mut buf).unwrap();
    // owner(32) + market(32) + sub_pool(32) + position_id(8) = 104
    // direction at offset 104 (1 byte) + status at offset 105 (1 byte)
    assert_eq!(buf[104], 0, "direction_is_long false should serialize as 0");
    assert_eq!(buf[105], 1, "status 1 should serialize as 1");
}

#[test]
fn position_strict_decoder_rejects_discriminator_mismatch() {
    let raw = encode_anchor_account(&dummy_position(), &[1u8; 8]).unwrap();
    let err = decode_anchor_account_with_discriminator::<OnchainPosition>(
        &raw,
        &[2u8; 8],
    )
    .unwrap_err();
    assert!(matches!(err, AccountDecodeError::DiscriminatorMismatch { .. }));
}

#[test]
fn strict_decoder_accepts_matching_discriminator() {
    let disc = [42u8; 8];
    let raw = encode_anchor_account(&dummy_market(), &disc).unwrap();
    let m = decode_anchor_account_with_discriminator::<OnchainMarket>(&raw, &disc).unwrap();
    assert_eq!(m, dummy_market());
}
