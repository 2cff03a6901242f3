use keeper::decoder::ix::{
    account_discriminator, encode_close_position, encode_keeper_leader_heartbeat,
    encode_keeper_leader_release, encode_open_position, instruction_discriminator,
    keeper_leader_lock_seeds, ClosePositionArgs, KeeperLeaderHeartbeatArgs,
    KeeperLeaderReleaseArgs, OpenPositionArgs, PriceEnvelopeArgs, KEEPER_LEADER_LOCK_SEED,
};


#[test]
fn instruction_discriminator_is_eight_bytes_and_stable() {
    let a = instruction_discriminator("open_position");
    let b = instruction_discriminator("open_position");
    assert_eq!(a, b);
    assert_eq!(a.len(), 8);
}

#[test]
fn account_namespace_differs_from_instruction_namespace() {
    let ix = instruction_discriminator("KeeperLeaderLock");
    let acc = account_discriminator("KeeperLeaderLock");
    assert_ne!(ix, acc);
}

#[test]
fn instruction_discriminator_golden_vectors() {
    // sha256("global:open_position")[..8] = 87802f4d0f98f031
    assert_eq!(
        instruction_discriminator("open_position"),
        [0x87, 0x80, 0x2f, 0x4d, 0x0f, 0x98, 0xf0, 0x31]
    );
    // sha256("global:close_position")[..8] = 7b86510031446262
    assert_eq!(
        instruction_discriminator("close_position"),
        [0x7b, 0x86, 0x51, 0x00, 0x31, 0x44, 0x62, 0x62]
    );
    // sha256("global:keeper_leader_heartbeat")[..8] = 2f0b5a8bb7a4081c
    assert_eq!(
        instruction_discriminator("keeper_leader_heartbeat"),
        [0x2f, 0x0b, 0x5a, 0x8b, 0xb7, 0xa4, 0x08, 0x1c]
    );
}

fn dummy_envelope() -> PriceEnvelopeArgs {
    PriceEnvelopeArgs {
        p_now: 100_000_000,
        slot: 12_345,
        expected_min: 99_500_000,
        expected_max: 100_500_000,
    }
}

#[test]
fn open_position_encoder_emits_57_bytes() {
    let args = OpenPositionArgs {
        envelope: dummy_envelope(),
        direction_is_long: true,
        gross_amount: 1_000_000,
        position_id: 0xdead_beef,
    };
    let raw = encode_open_position(&args);
    assert_eq!(raw.len(), 8 + 49);
    assert_eq!(&raw[..8], &instruction_discriminator("open_position"));
    // Envelope is 4 little-endian u64s starting at byte 8.
    assert_eq!(&raw[8..16], &args.envelope.p_now.to_le_bytes());
    assert_eq!(&raw[16..24], &args.envelope.slot.to_le_bytes());
    assert_eq!(&raw[24..32], &args.envelope.expected_min.to_le_bytes());
    assert_eq!(&raw[32..40], &args.envelope.expected_max.to_le_bytes());
    // direction_is_long is at byte 40.
    assert_eq!(raw[40], 0x01);
    // gross_amount, position_id are at 41..49 and 49..57.
    assert_eq!(&raw[41..49], &args.gross_amount.to_le_bytes());
    assert_eq!(&raw[49..57], &args.position_id.to_le_bytes());
}

#[test]
fn close_position_encoder_emits_48_bytes() {
    let args = ClosePositionArgs {
        envelope: dummy_envelope(),
        long_bucket_count: 3,
        short_bucket_count: 0,
    };
    let raw = encode_close_position(&args);
    assert_eq!(raw.len(), 8 + 40);
    assert_eq!(&raw[..8], &instruction_discriminator("close_position"));
    assert_eq!(&raw[40..44], &3u32.to_le_bytes());
    assert_eq!(&raw[44..48], &0u32.to_le_bytes());
}

#[test]
fn keeper_leader_heartbeat_encoder_emits_16_bytes() {
    let args = KeeperLeaderHeartbeatArgs { observed_slot: 1_000 };
    let raw = encode_keeper_leader_heartbeat(&args);
    assert_eq!(raw.len(), 8 + 8);
    assert_eq!(
        &raw[..8],
        &instruction_discriminator("keeper_leader_heartbeat")
    );
    // Slot bytes are little-endian.
    assert_eq!(&raw[8..16], &1_000u64.to_le_bytes());
}

#[test]
fn keeper_leader_release_encoder_emits_eight_bytes() {
    let raw = encode_keeper_leader_release(&KeeperLeaderReleaseArgs {});
    assert_eq!(raw.len(), 8);
    assert_eq!(
        raw,
        instruction_discriminator("keeper_leader_release").to_vec()
    );
}

#[test]
fn encoders_are_deterministic() {
    let args = OpenPositionArgs {
        envelope: dummy_envelope(),
        direction_is_long: true,
        gross_amount: 1_000_000,
        position_id: 0xdead_beef,
    };
    let a = encode_open_position(&args);
    let b = encode_open_position(&args);
    assert_eq!(a, b);
}

#[test]
fn keeper_leader_lock_seeds_returns_canonical_pair() {
    let market = [42u8; 32];
    let seeds = keeper_leader_lock_seeds(&market);
    assert_eq!(seeds[0], KEEPER_LEADER_LOCK_SEED);
    assert_eq!(seeds[1], &market[..]);
}
