use keeper::decoder::ix::{
    account_discriminator, instruction_discriminator, KeeperLeaderAcquireArgs,
    KeeperLeaderHeartbeatArgs,
};
use keeper::decoder::leader_lock::{encode_keeper_leader_lock_account, KeeperLeaderLock};
use keeper::decoder::Pubkey32;
use keeper::rpc::fetcher::MockAccountFetcher;
use keeper::rpc::leader_tx::{
    build_keeper_leader_acquire, build_keeper_leader_heartbeat, build_keeper_leader_release,
    fetch_keeper_leader_lock, leader_lock_seeds, KeeperLeaderTxBuilder, LeaderReconcileError,
    MockKeeperLeaderTxBuilder,
};

const PROGRAM_ID: Pubkey32 = [9u8; 32];
const MARKET: Pubkey32 = [1u8; 32];
const LOCK: Pubkey32 = [2u8; 32];
const KEEPER_PK: Pubkey32 = [3u8; 32];

#[test]
fn heartbeat_builder_layout_is_pinned() {
    let ix = build_keeper_leader_heartbeat(
        PROGRAM_ID,
        MARKET,
        LOCK,
        KEEPER_PK,
        KeeperLeaderHeartbeatArgs {
            observed_slot: 12_345,
        },
    );
    assert_eq!(ix.program_id, PROGRAM_ID);
    assert_eq!(ix.data.len(), 16);
    assert_eq!(
        &ix.data[..8],
        &instruction_discriminator("keeper_leader_heartbeat")
    );
    assert_eq!(ix.accounts.len(), 3);
    assert_eq!(ix.accounts[0].pubkey, MARKET);
    assert!(!ix.accounts[0].is_writable && !ix.accounts[0].is_signer);
    assert_eq!(ix.accounts[1].pubkey, LOCK);
    assert!(ix.accounts[1].is_writable && !ix.accounts[1].is_signer);
    assert_eq!(ix.accounts[2].pubkey, KEEPER_PK);
    assert!(ix.accounts[2].is_writable && ix.accounts[2].is_signer);
}

#[test]
fn acquire_builder_uses_acquire_discriminator() {
    let ix = build_keeper_leader_acquire(
        PROGRAM_ID,
        MARKET,
        LOCK,
        KEEPER_PK,
        KeeperLeaderAcquireArgs {
            observed_slot: 99,
        },
    );
    assert_eq!(
        &ix.data[..8],
        &instruction_discriminator("keeper_leader_acquire")
    );
    assert_eq!(ix.data.len(), 16);
    assert_eq!(ix.accounts.len(), 3);
}

#[test]
fn release_builder_emits_eight_byte_payload() {
    let ix = build_keeper_leader_release(PROGRAM_ID, MARKET, LOCK, KEEPER_PK);
    assert_eq!(ix.data.len(), 8);
    assert_eq!(
        &ix.data[..8],
        &instruction_discriminator("keeper_leader_release")
    );
    assert_eq!(ix.accounts.len(), 3);
}

#[test]
fn seed_helper_re_export_resolves_to_canonical_seeds() {
    let seeds = leader_lock_seeds(&MARKET);
    assert_eq!(seeds.segments.len(), 2);
    assert_eq!(seeds.segments[0], b"keeper_leader_lock");
    assert_eq!(seeds.segments[1], MARKET.to_vec());
}

#[test]
fn mock_builder_records_submissions_and_reports_dry_run_signature() {
    let mut builder = MockKeeperLeaderTxBuilder::new();
    let ix = build_keeper_leader_release(PROGRAM_ID, MARKET, LOCK, KEEPER_PK);
    let sig = builder.submit_leader_ix(ix.clone()).unwrap();
    assert_eq!(sig, None);
    assert_eq!(builder.submitted.len(), 1);
    assert_eq!(builder.submitted[0], ix);
}

#[test]
fn mock_builder_force_err_short_circuits_submission() {
    let mut builder = MockKeeperLeaderTxBuilder {
        force_err: Some("simulated rpc 503".into()),
        ..Default::default()
    };
    let ix = build_keeper_leader_release(PROGRAM_ID, MARKET, LOCK, KEEPER_PK);
    let err = builder.submit_leader_ix(ix).unwrap_err();
    assert_eq!(err, "simulated rpc 503");
    assert_eq!(builder.submitted.len(), 0);
}

#[test]
fn fetch_lock_round_trips_through_mock_fetcher() {
    let lock = KeeperLeaderLock::held_by(KEEPER_PK, 100, 75);
    let disc = account_discriminator("KeeperLeaderLock");
    let raw = encode_keeper_leader_lock_account(&lock, &disc);
    let mut f = MockAccountFetcher::new();
    f.insert(LOCK, PROGRAM_ID, raw);
    let decoded = fetch_keeper_leader_lock(&f, &LOCK).expect("decoded lock");
    assert_eq!(decoded, lock);
}

#[test]
fn fetch_lock_reports_not_found_when_pda_missing() {
    let f = MockAccountFetcher::new();
    let err = fetch_keeper_leader_lock(&f, &LOCK).unwrap_err();
    assert!(matches!(err, LeaderReconcileError::NotFound(_)));
}

#[test]
fn fetch_lock_rejects_wrong_discriminator() {
    let lock = KeeperLeaderLock::held_by(KEEPER_PK, 100, 75);
    let raw = encode_keeper_leader_lock_account(&lock, &[0xff; 8]);
    let mut f = MockAccountFetcher::new();
    f.insert(LOCK, PROGRAM_ID, raw);
    let err = fetch_keeper_leader_lock(&f, &LOCK).unwrap_err();
    assert!(matches!(err, LeaderReconcileError::Decode(_)));
}

#[test]
fn release_and_heartbeat_share_everything_but_their_data() {
    let release = build_keeper_leader_release(PROGRAM_ID, MARKET, LOCK, KEEPER_PK);
    for observed_slot in [0u64, 42, u64::MAX] {
        let heartbeat = build_keeper_leader_heartbeat(
            PROGRAM_ID,
            MARKET,
            LOCK,
            KEEPER_PK,
            KeeperLeaderHeartbeatArgs { observed_slot },
        );
        assert_eq!(release.program_id, heartbeat.program_id);
        assert_eq!(release.accounts, heartbeat.accounts);
        assert_eq!((release.data.len(), heartbeat.data.len()), (8, 16));
        assert_ne!(release.data[..8], heartbeat.data[..8]);
    }
    assert_eq!(release.data, instruction_discriminator("keeper_leader_release").to_vec());
}
