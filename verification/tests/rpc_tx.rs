use keeper::decoder::accounts::{
    OnchainDistEntry, OnchainDistributionLedger, OnchainDormantBucket, OnchainMarket,
    OnchainSubPool,
};
use keeper::decoder::{encode_anchor_account, Pubkey32};
use keeper::planner::cycle::{ActionDispatchResult, ActionExecutor};
use keeper::planner::{Direction, InitRationale, KeeperAction};
use keeper::rpc::fetcher::MockAccountFetcher;
use keeper::rpc::snapshot::{
    ChainSnapshot, MarketContext, SnapshotConfig, SubPoolEntry, SCHEMA_VERSION_CURRENT,
};
use keeper::rpc::tx::{
    encode_close_dormant_bucket_ix, encode_initialize_dormant_bucket_ix, MockTxBuilder,
    RpcExecutor, TxBuildError, DISC_CLOSE_DORMANT_BUCKET, DISC_INITIALIZE_DORMANT_BUCKET,
    DISC_PRE_SYNC_DORMANT_BUCKET,
};
use sha2::{Digest, Sha256};

fn anchor_disc(name: &str) -> [u8; 8] {
    let mut h = Sha256::new();
    h.update(format!("global:{name}").as_bytes());
    let r = h.finalize();
    let mut out = [0u8; 8];
    out.copy_from_slice(&r[..8]);
    out
}

#[test]
fn keeper_side_re_exported_discriminators_match_anchor_namespace() {
    assert_eq!(
        DISC_PRE_SYNC_DORMANT_BUCKET,
        anchor_disc("pre_sync_dormant_bucket"),
        "pre_sync_dormant_bucket discriminator drift",
    );
    assert_eq!(
        DISC_CLOSE_DORMANT_BUCKET,
        anchor_disc("close_dormant_bucket"),
        "close_dormant_bucket discriminator drift",
    );
    assert_eq!(
        DISC_INITIALIZE_DORMANT_BUCKET,
        anchor_disc("initialize_dormant_bucket"),
        "initialize_dormant_bucket discriminator drift",
    );
}

#[test]
fn rpc_executor_emits_same_bytes_as_tx_codec_helpers_close_and_init() {
    let snap = build_full_snapshot();
    let exec = RpcExecutor::new(
        PROGRAM_ID,
        MARKET_PUBKEY,
        KEEPER,
        CLOCK,
        SYSTEM_PROGRAM,
        &snap,
        MockTxBuilder::new(),
    );
    let close_dispatched = exec
        .build(&KeeperAction::CloseDormantBucket {
            sub_pool_id: 0,
            direction: Direction::Long,
            tick: -100,
        })
        .unwrap();
    let close_via_helper = encode_close_dormant_bucket_ix(true, -100);
    assert_eq!(close_dispatched.data, close_via_helper);

    let init_dispatched = exec
        .build(&KeeperAction::InitDormantBucket {
            sub_pool_id: 0,
            direction: Direction::Short,
            tick: 999,
            rationale: InitRationale::Explicit,
        })
        .unwrap();
    let init_via_helper = encode_initialize_dormant_bucket_ix(false, 999);
    assert_eq!(init_dispatched.data, init_via_helper);
}

const PROGRAM_ID: Pubkey32 = [9u8; 32];
const MARKET_PUBKEY: Pubkey32 = [1u8; 32];
const SUB_POOL_0_PUBKEY: Pubkey32 = [2u8; 32];
const KEEPER: Pubkey32 = [42u8; 32];
const CLOCK: Pubkey32 = [3u8; 32];
const SYSTEM_PROGRAM: Pubkey32 = [4u8; 32];

fn build_full_snapshot() -> ChainSnapshot {
    let market = OnchainSubPool {
        market: MARKET_PUBKEY,
        sub_pool_id: 0,
        long_pool_equity: 1_000_000_000,
        short_pool_equity: 1_000_000_000,
        long_active_shares: 100_000,
        short_active_shares: 100_000,
        long_recovery_shares: 0,
        short_recovery_shares: 0,
        long_active_notional: 5_000_000_000,
        short_active_notional: 5_000_000_000,
        long_active_generation: 0,
        short_active_generation: 0,
        last_price: 100_000_000,
        last_sync_slot: 1,
        long_dust: 0,
        short_dust: 0,
        long_dormant_bucket_count: 1,
        short_dormant_bucket_count: 0,
        bump: 255,
        _pad: [0u8; 7],
    };
    let bucket = OnchainDormantBucket {
        sub_pool: SUB_POOL_0_PUBKEY,
        direction_is_long: true,
        zero_price_tick: -100,
        anchor_price: 100_000_000,
        total_recovery_shares: 100,
        total_recovery_notional: 1_000_000,
        accrued_value: 0,
        position_count: 1,
        last_applied_index: 3,
        bump: 255,
        _pad: [0u8; 6],
    };
    let ledger_long = OnchainDistributionLedger {
        sub_pool: SUB_POOL_0_PUBKEY,
        direction_is_long: true,
        max_entries: 64,
        gc_offset: 0,
        next_event_index: 5,
        accrued_value_total: 0,
        pending_distribution_total: 0,
        entry_count: 0,
        entries: vec![OnchainDistEntry {
            event_index: 0,
            p_at_event: 100_000_000,
            total_outstanding_at_event: 1_000_000,
            total_alloc_input: 0,
            allocated_sum_observed: 0,
        }],
        bump: 255,
        _pad: [0u8; 7],
    };
    let mut ledger_short = ledger_long.clone();
    ledger_short.direction_is_long = false;
    ledger_short.next_event_index = 0;

    let mk = OnchainMarket {
        global_config: [0u8; 32],
        symbol: [0u8; 16],
        collateral_mint: [0u8; 32],
        vault: [0u8; 32],
        fee_vault: [0u8; 32],
        oracle_price_feed: [0u8; 32],
        oracle_program_id: [0u8; 32],
        leverage_bps: 1_000,
        min_margin: 1,
        max_margin_per_position: u64::MAX,
        max_total_principal: u128::MAX,
        max_total_notional: u128::MAX,
        current_total_principal: 0,
        current_total_notional: 0,
        open_fee_bps: 0,
        max_oracle_age_seconds: 60,
        max_oracle_age_slots: 100,
        max_confidence_bps: 100,
        max_price_move_bps_per_sync: 5_000,
        price_tick: 1,
        tick_aggregation_factor: 1,
        max_dormant_bucket_count_per_direction: 100,
        dilution_safety_bps: 100,
        max_idle_slots: 1_000_000,
        paused: false,
        frozen_new_position: false,
        schema_version: SCHEMA_VERSION_CURRENT,
        sub_pool_count: 1,
        dormant_distribute_mode: 1,
        max_pending_apply_per_tx: 8,
        max_distribution_ledger_size: 64,
        bump: 255,
        _pad: [0u8; 2],
    };

    let disc = [1u8; 8];
    let mut f = MockAccountFetcher::new();
    f.insert(MARKET_PUBKEY, PROGRAM_ID, encode_anchor_account(&mk, &disc).unwrap());
    f.insert(
        SUB_POOL_0_PUBKEY,
        PROGRAM_ID,
        encode_anchor_account(&market, &disc).unwrap(),
    );
    f.insert(
        [10u8; 32],
        PROGRAM_ID,
        encode_anchor_account(&ledger_long, &disc).unwrap(),
    );
    f.insert(
        [11u8; 32],
        PROGRAM_ID,
        encode_anchor_account(&ledger_short, &disc).unwrap(),
    );
    f.insert(
        [21u8; 32],
        PROGRAM_ID,
        encode_anchor_account(&bucket, &disc).unwrap(),
    );

    let ctx = MarketContext {
        program_id: PROGRAM_ID,
        market: MARKET_PUBKEY,
        market_symbol: [0u8; 16],
        sub_pools: vec![SubPoolEntry {
            sub_pool_id: 0,
            pubkey: SUB_POOL_0_PUBKEY,
        }],
    };
    let mut snap = ChainSnapshot::new();
    snap.refresh(&f, &ctx, SnapshotConfig::default()).unwrap();
    snap
}

#[test]
fn build_pre_sync_emits_canonical_anchor_ix() {
    let snap = build_full_snapshot();
    let exec = RpcExecutor::new(
        PROGRAM_ID,
        MARKET_PUBKEY,
        KEEPER,
        CLOCK,
        SYSTEM_PROGRAM,
        &snap,
        MockTxBuilder::new(),
    );
    let action = KeeperAction::PreSyncDormantBucket {
        sub_pool_id: 0,
        direction: Direction::Long,
        tick: -100,
        pending: 2,
    };
    let d = exec.build(&action).unwrap();
    assert_eq!(d.program_id, PROGRAM_ID);
    assert_eq!(&d.data[..8], &DISC_PRE_SYNC_DORMANT_BUCKET);
    assert_eq!(d.accounts.len(), 7);
    assert!(d.accounts[0].pubkey == MARKET_PUBKEY);
    assert!(d.accounts[5].is_signer && d.accounts[5].is_writable);
}

#[test]
fn build_close_emits_six_account_list() {
    let snap = build_full_snapshot();
    let exec = RpcExecutor::new(
        PROGRAM_ID,
        MARKET_PUBKEY,
        KEEPER,
        CLOCK,
        SYSTEM_PROGRAM,
        &snap,
        MockTxBuilder::new(),
    );
    let action = KeeperAction::CloseDormantBucket {
        sub_pool_id: 0,
        direction: Direction::Long,
        tick: -100,
    };
    let d = exec.build(&action).unwrap();
    assert_eq!(&d.data[..8], &DISC_CLOSE_DORMANT_BUCKET);
    assert_eq!(d.accounts.len(), 6);
}

#[test]
fn build_init_emits_placeholder_with_seed_marker() {
    let snap = build_full_snapshot();
    let exec = RpcExecutor::new(
        PROGRAM_ID,
        MARKET_PUBKEY,
        KEEPER,
        CLOCK,
        SYSTEM_PROGRAM,
        &snap,
        MockTxBuilder::new(),
    );
    let action = KeeperAction::InitDormantBucket {
        sub_pool_id: 0,
        direction: Direction::Long,
        tick: 999,
        rationale: InitRationale::Explicit,
    };
    let d = exec.build(&action).unwrap();
    assert_eq!(&d.data[..8], &DISC_INITIALIZE_DORMANT_BUCKET);
    assert_eq!(d.accounts[2].pubkey[0..5], [0xff, 0xff, b'P', b'D', b'A']);
    assert_eq!(d.accounts[2].pubkey[5], 1u8);
    let tick_bytes: [u8; 8] = d.accounts[2].pubkey[6..14].try_into().unwrap();
    assert_eq!(tick_bytes, 999i64.to_le_bytes());
}

#[test]
fn build_pre_sync_errors_on_missing_bucket() {
    let snap = build_full_snapshot();
    let exec = RpcExecutor::new(
        PROGRAM_ID,
        MARKET_PUBKEY,
        KEEPER,
        CLOCK,
        SYSTEM_PROGRAM,
        &snap,
        MockTxBuilder::new(),
    );
    let action = KeeperAction::PreSyncDormantBucket {
        sub_pool_id: 0,
        direction: Direction::Long,
        tick: 99_999,
        pending: 1,
    };
    let err = exec.build(&action).unwrap_err();
    assert!(matches!(err, TxBuildError::MissingBucket { .. }));
}

#[test]
fn execute_path_records_submission() {
    let snap = build_full_snapshot();
    let mut exec = RpcExecutor::new(
        PROGRAM_ID,
        MARKET_PUBKEY,
        KEEPER,
        CLOCK,
        SYSTEM_PROGRAM,
        &snap,
        MockTxBuilder::new(),
    );
    let action = KeeperAction::CloseDormantBucket {
        sub_pool_id: 0,
        direction: Direction::Long,
        tick: -100,
    };
    let r = exec.execute(action);
    assert!(matches!(r, ActionDispatchResult::Submitted { .. }));
    assert_eq!(exec.builder.submitted.len(), 1);
}

#[test]
fn execute_path_surfaces_missing_sub_pool() {
    let snap = ChainSnapshot::new();
    let mut exec = RpcExecutor::new(
        PROGRAM_ID,
        MARKET_PUBKEY,
        KEEPER,
        CLOCK,
        SYSTEM_PROGRAM,
        &snap,
        MockTxBuilder::new(),
    );
    let action = KeeperAction::CloseDormantBucket {
        sub_pool_id: 0,
        direction: Direction::Long,
        tick: -100,
    };
    let r = exec.execute(action);
    assert!(matches!(r, ActionDispatchResult::Failed { .. }));
}
