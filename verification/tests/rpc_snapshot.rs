use keeper::decoder::accounts::{
    OnchainDistEntry, OnchainDistributionLedger, OnchainDormantBucket, OnchainMarket,
    OnchainSubPool,
};
use keeper::decoder::{encode_anchor_account, Pubkey32};
use keeper::planner::{Direction, KeeperChainView};
use keeper::rpc::fetcher::MockAccountFetcher;
use keeper::rpc::snapshot::{
    ChainSnapshot, MarketContext, SnapshotConfig, SnapshotError, SubPoolEntry,
    SCHEMA_VERSION_CURRENT,
};

const PROGRAM_ID: Pubkey32 = [9u8; 32];
const MARKET_PUBKEY: Pubkey32 = [1u8; 32];
const SUB_POOL_0_PUBKEY: Pubkey32 = [2u8; 32];

fn dummy_market(schema_version: u16, paused: bool, sub_pool_count: u32) -> OnchainMarket {
    OnchainMarket {
        global_config: [0u8; 32],
        symbol: [0u8; 16],
        collateral_mint: [0u8; 32],
        vault: [0u8; 32],
        fee_vault: [0u8; 32],
        oracle_price_feed: [0u8; 32],
        oracle_program_id: [0u8; 32],
        leverage_bps: 1_000,
        min_margin: 1,
        max_margin_per_position: u64::MAX,
        max_total_principal: u128::MAX,
        max_total_notional: u128::MAX,
        current_total_principal: 0,
        current_total_notional: 0,
        open_fee_bps: 0,
        max_oracle_age_seconds: 60,
        max_oracle_age_slots: 100,
        max_confidence_bps: 100,
        max_price_move_bps_per_sync: 5_000,
        price_tick: 1,
        tick_aggregation_factor: 1,
        max_dormant_bucket_count_per_direction: 100,
        dilution_safety_bps: 100,
        max_idle_slots: 1_000_000,
        paused,
        frozen_new_position: false,
        schema_version,
        sub_pool_count,
        dormant_distribute_mode: 1,
        max_pending_apply_per_tx: 8,
        max_distribution_ledger_size: 64,
        bump: 255,
        _pad: [0u8; 2],
    }
}

fn dummy_sub_pool() -> OnchainSubPool {
    OnchainSubPool {
        market: MARKET_PUBKEY,
        sub_pool_id: 0,
        long_pool_equity: 1_000_000_000,
        short_pool_equity: 1_000_000_000,
        long_active_shares: 100_000,
        short_active_shares: 100_000,
        long_recovery_shares: 0,
        short_recovery_shares: 0,
        long_active_notional: 5_000_000_000,
        short_active_notional: 5_000_000_000,
        long_active_generation: 0,
        short_active_generation: 0,
        last_price: 100_000_000,
        last_sync_slot: 1,
        long_dust: 0,
        short_dust: 0,
        long_dormant_bucket_count: 1,
        short_dormant_bucket_count: 1,
        bump: 255,
        _pad: [0u8; 7],
    }
}

fn dummy_ledger(direction_is_long: bool, next_event_index: u64) -> OnchainDistributionLedger {
    OnchainDistributionLedger {
        sub_pool: SUB_POOL_0_PUBKEY,
        direction_is_long,
        max_entries: 64,
        gc_offset: 0,
        next_event_index,
        accrued_value_total: 0,
        pending_distribution_total: 0,
        entry_count: 0,
        entries: vec![OnchainDistEntry {
            event_index: 0,
            p_at_event: 100_000_000,
            total_outstanding_at_event: 1_000_000,
            total_alloc_input: 0,
            allocated_sum_observed: 0,
        }],
        bump: 255,
        _pad: [0u8; 7],
    }
}

fn dummy_bucket(
    direction_is_long: bool,
    tick: i64,
    last_applied_index: u64,
) -> OnchainDormantBucket {
    OnchainDormantBucket {
        sub_pool: SUB_POOL_0_PUBKEY,
        direction_is_long,
        zero_price_tick: tick,
        anchor_price: 100_000_000,
        total_recovery_shares: 100,
        total_recovery_notional: 1_000_000,
        accrued_value: 0,
        position_count: 1,
        last_applied_index,
        bump: 255,
        _pad: [0u8; 6],
    }
}

fn build_fixture_fetcher(
    market: OnchainMarket,
    sub_pool: OnchainSubPool,
    ledger_long: OnchainDistributionLedger,
    ledger_short: OnchainDistributionLedger,
    buckets_long: Vec<(Pubkey32, OnchainDormantBucket)>,
) -> MockAccountFetcher {
    let disc = [1u8; 8];
    let mut f = MockAccountFetcher::new();
    f.insert(
        MARKET_PUBKEY,
        PROGRAM_ID,
        encode_anchor_account(&market, &disc).unwrap(),
    );
    f.insert(
        SUB_POOL_0_PUBKEY,
        PROGRAM_ID,
        encode_anchor_account(&sub_pool, &disc).unwrap(),
    );
    let lg_long_pk = [10u8; 32];
    let lg_short_pk = [11u8; 32];
    f.insert(
        lg_long_pk,
        PROGRAM_ID,
        encode_anchor_account(&ledger_long, &disc).unwrap(),
    );
    f.insert(
        lg_short_pk,
        PROGRAM_ID,
        encode_anchor_account(&ledger_short, &disc).unwrap(),
    );
    for (pk, b) in buckets_long {
        f.insert(pk, PROGRAM_ID, encode_anchor_account(&b, &disc).unwrap());
    }
    f
}

fn ctx() -> MarketContext {
    MarketContext {
        program_id: PROGRAM_ID,
        market: MARKET_PUBKEY,
        market_symbol: [0u8; 16],
        sub_pools: vec![SubPoolEntry {
            sub_pool_id: 0,
            pubkey: SUB_POOL_0_PUBKEY,
        }],
    }
}

#[test]
fn refresh_decodes_market_subpool_ledgers_and_buckets() {
    let f = build_fixture_fetcher(
        dummy_market(SCHEMA_VERSION_CURRENT, false, 1),
        dummy_sub_pool(),
        dummy_ledger(true, 5),
        dummy_ledger(false, 0),
        vec![(
            [21u8; 32],
            dummy_bucket(true, -100, 3),
        )],
    );
    let mut snap = ChainSnapshot::new();
    snap.refresh(&f, &ctx(), SnapshotConfig::default()).unwrap();
    assert_eq!(snap.sub_pool_ids(), vec![0]);
    let bks = snap.buckets(0);
    assert_eq!(bks.len(), 1);
    assert_eq!(bks[0].tick, -100);
    let lg = snap.ledger(0, Direction::Long).unwrap();
    assert_eq!(lg.next_event_index, 5);
    assert_eq!(lg.bucket_count_hint, 1);
    let h = snap.sub_pool_health(0).unwrap();
    assert_eq!(h.last_price, 100_000_000);
    assert_eq!(h.long_pool_equity, 1_000_000_000);
    assert_eq!(snap.bucket_pubkey(0, Direction::Long, -100), Some([21u8; 32]));
}

#[test]
fn refresh_rejects_schema_mismatch_when_enforced() {
    let f = build_fixture_fetcher(
        dummy_market(SCHEMA_VERSION_CURRENT + 1, false, 1),
        dummy_sub_pool(),
        dummy_ledger(true, 0),
        dummy_ledger(false, 0),
        vec![],
    );
    let mut snap = ChainSnapshot::new();
    let err = snap
        .refresh(&f, &ctx(), SnapshotConfig::default())
        .unwrap_err();
    assert!(matches!(err, SnapshotError::SchemaVersionMismatch { .. }));
}

#[test]
fn refresh_rejects_paused_market_by_default() {
    let f = build_fixture_fetcher(
        dummy_market(SCHEMA_VERSION_CURRENT, true, 1),
        dummy_sub_pool(),
        dummy_ledger(true, 0),
        dummy_ledger(false, 0),
        vec![],
    );
    let mut snap = ChainSnapshot::new();
    let err = snap
        .refresh(&f, &ctx(), SnapshotConfig::default())
        .unwrap_err();
    assert!(matches!(err, SnapshotError::MarketPaused));
}

#[test]
fn refresh_can_skip_schema_check_for_forensics() {
    let f = build_fixture_fetcher(
        dummy_market(SCHEMA_VERSION_CURRENT + 1, false, 1),
        dummy_sub_pool(),
        dummy_ledger(true, 0),
        dummy_ledger(false, 0),
        vec![],
    );
    let mut snap = ChainSnapshot::new();
    let cfg = SnapshotConfig {
        enforce_schema_version: false,
        bail_when_paused: false,
    };
    snap.refresh(&f, &ctx(), cfg).unwrap();
    assert!(snap.market().is_some());
}

#[test]
fn refresh_reports_missing_sub_pool() {
    let mut f = build_fixture_fetcher(
        dummy_market(SCHEMA_VERSION_CURRENT, false, 1),
        dummy_sub_pool(),
        dummy_ledger(true, 0),
        dummy_ledger(false, 0),
        vec![],
    );
    f.accounts.remove(&SUB_POOL_0_PUBKEY);
    let mut snap = ChainSnapshot::new();
    let err = snap
        .refresh(&f, &ctx(), SnapshotConfig::default())
        .unwrap_err();
    assert!(matches!(
        err,
        SnapshotError::SubPoolNotFound { sub_pool_id: 0, .. }
    ));
}

#[test]
fn clear_drops_every_field() {
    let f = build_fixture_fetcher(
        dummy_market(SCHEMA_VERSION_CURRENT, false, 1),
        dummy_sub_pool(),
        dummy_ledger(true, 0),
        dummy_ledger(false, 0),
        vec![([21u8; 32], dummy_bucket(true, -100, 3))],
    );
    let mut snap = ChainSnapshot::new();
    snap.refresh(&f, &ctx(), SnapshotConfig::default()).unwrap();
    snap.clear();
    assert!(snap.market.is_none());
    assert!(snap.sub_pools.is_empty());
    assert!(snap.buckets.is_empty());
    assert!(snap.ledgers.is_empty());
    assert!(snap.bucket_pubkeys.is_empty());
    assert!(snap.ledger_pubkeys.is_empty());
}

#[test]
fn clones_hold_what_was_cloned_and_stand_alone() {
    let mut f = build_fixture_fetcher(
        dummy_market(SCHEMA_VERSION_CURRENT, false, 1),
        dummy_sub_pool(),
        dummy_ledger(true, 5),
        dummy_ledger(false, 0),
        vec![([21u8; 32], dummy_bucket(true, -100, 3))],
    );
    let kept = f.clone();
    let mut snap = ChainSnapshot::new();
    snap.refresh(&f, &ctx(), SnapshotConfig::default()).unwrap();
    let copy = snap.clone();
    snap.clear();
    f.accounts.clear();
    assert!(snap.sub_pool_ids().is_empty());
    assert_eq!(copy.sub_pool_ids(), vec![0]);
    assert_eq!(copy.market(), Some(&dummy_market(SCHEMA_VERSION_CURRENT, false, 1)));
    assert_eq!(copy.sub_pools.get(&0), Some(&dummy_sub_pool()));
    assert_eq!(copy.buckets.get(&0), Some(&vec![dummy_bucket(true, -100, 3)]));
    assert_eq!(copy.ledgers.get(&(0, Direction::Long)), Some(&dummy_ledger(true, 5)));
    assert_eq!(copy.bucket_pubkey(0, Direction::Long, -100), Some([21u8; 32]));
    assert_eq!(copy.ledger_pubkey(0, Direction::Short), Some([11u8; 32]));

    assert!(f.is_empty());
    assert_eq!(kept.len(), 5);
    let mut again = ChainSnapshot::new();
    again.refresh(&kept, &ctx(), SnapshotConfig::default()).unwrap();
    assert_eq!(again.buckets.get(&0), copy.buckets.get(&0));
}
