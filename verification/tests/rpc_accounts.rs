use keeper::decoder::accounts::{OnchainDormantBucket, OnchainSubPool};
use keeper::decoder::schema::schema_descriptor_json;
use keeper::decoder::{
    decode_anchor_account, decode_anchor_account_with_discriminator, encode_anchor_account,
    AccountDecodeError, Pubkey32,
};

fn dummy_pubkey(seed: u8) -> Pubkey32 {
    let mut p = [0u8; 32];
    p[0] = seed;
    p
}

#[test]
fn re_exported_decoder_round_trips_sub_pool() {
    let sp = OnchainSubPool {
        market: dummy_pubkey(1),
        sub_pool_id: 7,
        long_pool_equity: 1_234_567_890,
        short_pool_equity: 234_567_890,
        long_active_shares: 100_000,
        short_active_shares: 90_000,
        long_recovery_shares: 50,
        short_recovery_shares: 40,
        long_active_notional: 5_000_000,
        short_active_notional: 4_000_000,
        long_active_generation: 3,
        short_active_generation: 2,
        last_price: 100_000_000,
        last_sync_slot: 12345,
        long_dust: 7,
        short_dust: 9,
        long_dormant_bucket_count: 12,
        short_dormant_bucket_count: 8,
        bump: 254,
        _pad: [0; 7],
    };
    let raw = encode_anchor_account(&sp, &[1u8; 8]).unwrap();
    let sp2: OnchainSubPool = decode_anchor_account(&raw).unwrap();
    assert_eq!(sp, sp2);
}

#[test]
fn re_exported_strict_decoder_rejects_mismatch() {
    let bucket = OnchainDormantBucket {
        sub_pool: dummy_pubkey(2),
        direction_is_long: false,
        zero_price_tick: 99,
        anchor_price: 1_000_000,
        total_recovery_shares: 1,
        total_recovery_notional: 1,
        accrued_value: 1,
        position_count: 1,
        last_applied_index: 0,
        bump: 1,
        _pad: [0; 6],
    };
    let raw = encode_anchor_account(&bucket, &[7u8; 8]).unwrap();
    let err = decode_anchor_account_with_discriminator::<OnchainDormantBucket>(&raw, &[8u8; 8])
        .unwrap_err();
    assert!(matches!(err, AccountDecodeError::DiscriminatorMismatch { .. }));
}

#[test]
fn re_exported_schema_descriptor_is_available() {
    let json = schema_descriptor_json();
    assert!(json.contains("OnchainMarket"));
}
