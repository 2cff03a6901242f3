use std::cell::Cell;

use keeper::bot::leader::{FixedLeaderPolicy, HostMirrorLeaderPolicy, LeaderPolicy};
use keeper::bot::metrics::{KeeperMetrics, LeaderStatus};
use keeper::bot::multi::{
    all_finished, collect_outcomes, finish_at_limit, shut_down, MarketRegistry, MarketSlot,
    MultiMarketLoopOutcome, MultiMarketRunConfig,
};
use keeper::bot::run::{
    loop_exit, try_graceful_release, LeaderRpcReconcileConfig, LoopOutcome, LoopStep,
    LoopTerminationReason, MarketSlotState, RunLoopConfig,
};
use keeper::bot::steps::{
    exit_with_release, step_with_builder, BuilderStep, step_with_factory, step_with_leader,
    step_with_leader_and_rpc_reconcile, tick_one_slot, walk_markets, SlotStep,
};
use keeper::bot::{BotConfig, BotError, KeeperBot, TickReport};
use keeper::decoder::accounts::{
    OnchainDistributionLedger, OnchainDormantBucket, OnchainMarket, OnchainSubPool,
};
use keeper::decoder::ix::{account_discriminator, instruction_discriminator};
use keeper::decoder::leader_lock::{encode_keeper_leader_lock_account, KeeperLeaderLock};
use keeper::decoder::{encode_anchor_account, Pubkey32};
use keeper::planner::cycle::ActionDispatchResult;
use keeper::planner::volatility::{RealizedVolatilityEstimator, RotatePrediction};
use keeper::planner::KeeperAction;
use keeper::rpc::fetcher::{AccountFetcher, MockAccountFetcher, RpcError};
use keeper::rpc::leader_tx::MockKeeperLeaderTxBuilder;
use keeper::rpc::snapshot::{
    ChainSnapshot, MarketContext, SnapshotConfig, SnapshotError, SubPoolEntry,
    SCHEMA_VERSION_CURRENT,
};
use keeper::rpc::tx::MockTxBuilder;

const PROGRAM_ID: Pubkey32 = [9u8; 32];
const MARKET_PUBKEY: Pubkey32 = [1u8; 32];
const SUB_POOL_0_PUBKEY: Pubkey32 = [2u8; 32];
const KEEPER: Pubkey32 = [42u8; 32];
const CLOCK: Pubkey32 = [3u8; 32];
const SYSTEM_PROGRAM: Pubkey32 = [4u8; 32];

const ACCOUNT_DISC: [u8; 8] = [1u8; 8];

fn dummy_market() -> OnchainMarket {
    OnchainMarket {
        global_config: [0u8; 32],
        symbol: [0u8; 16],
        collateral_mint: [0u8; 32],
        vault: [0u8; 32],
        fee_vault: [0u8; 32],
        oracle_price_feed: [0u8; 32],
        oracle_program_id: [0u8; 32],
        leverage_bps: 1_000,
        min_margin: 1,
        max_margin_per_position: u64::MAX,
        max_total_principal: u128::MAX,
        max_total_notional: u128::MAX,
        current_total_principal: 0,
        current_total_notional: 0,
        open_fee_bps: 0,
        max_oracle_age_seconds: 60,
        max_oracle_age_slots: 100,
        max_confidence_bps: 100,
        max_price_move_bps_per_sync: 5_000,
        price_tick: 1,
        tick_aggregation_factor: 1,
        max_dormant_bucket_count_per_direction: 100,
        dilution_safety_bps: 100,
        max_idle_slots: 1_000_000,
        paused: false,
        frozen_new_position: false,
        schema_version: SCHEMA_VERSION_CURRENT,
        sub_pool_count: 1,
        dormant_distribute_mode: 1,
        max_pending_apply_per_tx: 8,
        max_distribution_ledger_size: 64,
        bump: 255,
        _pad: [0u8; 2],
    }
}

fn dummy_sub_pool() -> OnchainSubPool {
    OnchainSubPool {
        market: MARKET_PUBKEY,
        sub_pool_id: 0,
        long_pool_equity: 1_000_000_000,
        short_pool_equity: 1_000_000_000,
        long_active_shares: 100_000,
        short_active_shares: 100_000,
        long_recovery_shares: 0,
        short_recovery_shares: 0,
        long_active_notional: 5_000_000_000,
        short_active_notional: 5_000_000_000,
        long_active_generation: 1,
        short_active_generation: 1,
        last_price: 100_000_000,
        last_sync_slot: 1,
        long_dust: 0,
        short_dust: 0,
        long_dormant_bucket_count: 1,
        short_dormant_bucket_count: 0,
        bump: 255,
        _pad: [0u8; 7],
    }
}

fn dummy_ledger(direction_is_long: bool, next_event_index: u64) -> OnchainDistributionLedger {
    OnchainDistributionLedger {
        sub_pool: SUB_POOL_0_PUBKEY,
        direction_is_long,
        max_entries: 64,
        gc_offset: 0,
        next_event_index,
        accrued_value_total: 0,
        pending_distribution_total: 0,
        entry_count: 0,
        entries: vec![],
        bump: 255,
        _pad: [0u8; 7],
    }
}

fn dead_long_bucket(tick: i64, last_applied_index: u64) -> OnchainDormantBucket {
    OnchainDormantBucket {
        sub_pool: SUB_POOL_0_PUBKEY,
        direction_is_long: true,
        zero_price_tick: tick,
        anchor_price: 100_000_000,
        total_recovery_shares: 0,
        total_recovery_notional: 0,
        accrued_value: 0,
        position_count: 0,
        last_applied_index,
        bump: 255,
        _pad: [0u8; 6],
    }
}

fn build_fetcher(
    market: OnchainMarket,
    sub_pool: OnchainSubPool,
    ledger_long: OnchainDistributionLedger,
    ledger_short: OnchainDistributionLedger,
    long_buckets: Vec<(Pubkey32, OnchainDormantBucket)>,
) -> MockAccountFetcher {
    let mut f = MockAccountFetcher::new();
    f.insert(
        MARKET_PUBKEY,
        PROGRAM_ID,
        encode_anchor_account(&market, &ACCOUNT_DISC).unwrap(),
    );
    f.insert(
        SUB_POOL_0_PUBKEY,
        PROGRAM_ID,
        encode_anchor_account(&sub_pool, &ACCOUNT_DISC).unwrap(),
    );
    f.insert(
        [10u8; 32],
        PROGRAM_ID,
        encode_anchor_account(&ledger_long, &ACCOUNT_DISC).unwrap(),
    );
    f.insert(
        [11u8; 32],
        PROGRAM_ID,
        encode_anchor_account(&ledger_short, &ACCOUNT_DISC).unwrap(),
    );
    for (pk, b) in long_buckets {
        f.insert(pk, PROGRAM_ID, encode_anchor_account(&b, &ACCOUNT_DISC).unwrap());
    }
    f
}

fn ctx() -> MarketContext {
    MarketContext {
        program_id: PROGRAM_ID,
        market: MARKET_PUBKEY,
        market_symbol: [0u8; 16],
        sub_pools: vec![SubPoolEntry {
            sub_pool_id: 0,
            pubkey: SUB_POOL_0_PUBKEY,
        }],
    }
}

const CAPACITY: u64 = 1_000;

fn silent(
    _window: &RealizedVolatilityEstimator,
    _snap: &ChainSnapshot,
) -> (Option<i64>, Vec<RotatePrediction>) {
    (None, vec![])
}

fn frozen() -> u64 {
    0
}

fn tick(
    bot: &mut KeeperBot,
    fetcher: &MockAccountFetcher,
    ctx: &MarketContext,
    builder: MockTxBuilder,
    keeper: Pubkey32,
    clock: Pubkey32,
    system_program: Pubkey32,
) -> Result<(TickReport, MockTxBuilder), BotError> {
    bot.tick(fetcher, ctx, builder, keeper, clock, system_program, &silent)
}

fn run_loop_with_leader<P: LeaderPolicy>(
    bot: &mut KeeperBot,
    fetcher: &MockAccountFetcher,
    ctx: &MarketContext,
    factory: fn() -> MockTxBuilder,
    keeper: Pubkey32,
    clock: Pubkey32,
    system_program: Pubkey32,
    metrics: &mut KeeperMetrics,
    shutdown: bool,
    cfg: RunLoopConfig,
    policy: &mut P,
) -> LoopOutcome {
    let mut ticks: u64 = 0;
    for _ in 0..CAPACITY {
        if let Some(outcome) = loop_exit(shutdown, cfg.max_ticks, ticks) {
            return outcome;
        }
        if let LoopStep::Stop(outcome) = step_with_leader(
            bot, fetcher, ctx, &factory, keeper, clock, system_program, &silent, &frozen, metrics,
            &mut ticks, policy,
        ) {
            return outcome;
        }
    }
    panic!("the loop did not end");
}

fn run_loop_with_leader_and_rpc_reconcile(
    bot: &mut KeeperBot,
    fetcher: &MockAccountFetcher,
    ctx: &MarketContext,
    factory: fn() -> MockTxBuilder,
    keeper: Pubkey32,
    clock: Pubkey32,
    system_program: Pubkey32,
    metrics: &mut KeeperMetrics,
    shutdown: bool,
    cfg: RunLoopConfig,
    policy: &mut HostMirrorLeaderPolicy,
    rpc_cfg: LeaderRpcReconcileConfig,
    leader_builder: &mut MockKeeperLeaderTxBuilder,
) -> LoopOutcome {
    let mut state = MarketSlotState::default();
    for _ in 0..CAPACITY {
        if let Some(outcome) = exit_with_release(
            shutdown, cfg.max_ticks, &state, &rpc_cfg, ctx, keeper, leader_builder,
        ) {
            return outcome;
        }
        if let LoopStep::Stop(outcome) = step_with_leader_and_rpc_reconcile(
            bot, fetcher, ctx, &factory, keeper, clock, system_program, &silent, &frozen, metrics,
            &mut state, policy, &rpc_cfg, leader_builder,
        ) {
            return outcome;
        }
    }
    panic!("the loop did not end");
}

fn run_loop_multi_market_leader_and_rpc_reconcile(
    registry: &mut MarketRegistry,
    fetcher: &MockAccountFetcher,
    factory: fn() -> MockTxBuilder,
    keeper: Pubkey32,
    clock: Pubkey32,
    system_program: Pubkey32,
    shutdown: bool,
    cfg: MultiMarketRunConfig,
    leader_builder: &mut MockKeeperLeaderTxBuilder,
) -> MultiMarketLoopOutcome {
    let mut passes: u64 = 0;
    for _ in 0..CAPACITY {
        if let Some(outcome) = loop_exit(shutdown, cfg.max_passes, passes) {
            match outcome.reason {
                LoopTerminationReason::ShutdownSignal => {
                    shut_down(registry, keeper, leader_builder)
                }
                _ => finish_at_limit(registry),
            }
            return collect_outcomes(registry, passes);
        }
        let finished = all_finished(registry);
        let mut from = 0;
        while let Some(next) = walk_markets(
            registry, from, fetcher, &factory, keeper, clock, system_program, &silent, &frozen,
            leader_builder,
        ) {
            from = next;
        }
        passes += 1;
        if finished {
            return collect_outcomes(registry, passes);
        }
    }
    panic!("the loop did not end");
}

#[test]
fn end_to_end_idle_market_emits_no_actions() {
    let f = build_fetcher(
        dummy_market(),
        dummy_sub_pool(),
        dummy_ledger(true, 0),
        dummy_ledger(false, 0),
        vec![],
    );
    let mut bot = KeeperBot::new(BotConfig {
        snapshot: SnapshotConfig::default(),
        run_predictor: true,
    });
    let (report, builder) = tick(&mut bot, &f,
            &ctx(),
            MockTxBuilder::new(),
            KEEPER,
            CLOCK,
            SYSTEM_PROGRAM,
        )
        .expect("idle bot tick succeeds");
    assert_eq!(report.actions_planned, 0, "idle market emits no actions");
    assert!(report.dispatched.is_empty());
    assert_eq!(builder.submitted.len(), 0);
}

#[test]
fn end_to_end_explicit_init_hint_dispatches_init_action() {
    let f = build_fetcher(
        dummy_market(),
        dummy_sub_pool(),
        dummy_ledger(true, 0),
        dummy_ledger(false, 0),
        vec![],
    );
    let mut bot = KeeperBot::new(BotConfig {
        snapshot: SnapshotConfig::default(),
        run_predictor: false,
    });

    let dead_pk = [21u8; 32];
    let f = {
        let mut f = f;
        f.insert(
            dead_pk,
            PROGRAM_ID,
            encode_anchor_account(
                &dead_long_bucket(-50, 0),
                &ACCOUNT_DISC,
            )
            .unwrap(),
        );
        f
    };

    let (report, builder) = tick(&mut bot, &f,
            &ctx(),
            MockTxBuilder::new(),
            KEEPER,
            CLOCK,
            SYSTEM_PROGRAM,
        )
        .expect("bot tick succeeds");

    assert_eq!(report.actions_planned, report.dispatched.len());
    assert_eq!(builder.submitted.len(), report.actions_planned);
    for (action, result) in &report.dispatched {
        match result {
            ActionDispatchResult::Submitted { signature } => {
                assert!(signature.is_none(), "MockTxBuilder produces no signature");
                let _ = matches!(
                    action,
                    KeeperAction::InitDormantBucket { .. }
                        | KeeperAction::PreSyncDormantBucket { .. }
                        | KeeperAction::CloseDormantBucket { .. }
                );
            }
            other => panic!("expected Submitted, got {other:?}"),
        }
    }
}

#[test]
fn end_to_end_paused_market_short_circuits() {
    let mut paused = dummy_market();
    paused.paused = true;
    let f = build_fetcher(
        paused,
        dummy_sub_pool(),
        dummy_ledger(true, 0),
        dummy_ledger(false, 0),
        vec![],
    );
    let mut bot = KeeperBot::new(BotConfig::default());
    let r = tick(&mut bot, &f,
        &ctx(),
        MockTxBuilder::new(),
        KEEPER,
        CLOCK,
        SYSTEM_PROGRAM,
    );
    assert!(r.is_err(), "paused market must error out the bot tick");
}

#[test]
fn end_to_end_schema_mismatch_rejects_tick() {
    let mut mismatched = dummy_market();
    mismatched.schema_version = SCHEMA_VERSION_CURRENT.saturating_add(1);
    let f = build_fetcher(
        mismatched,
        dummy_sub_pool(),
        dummy_ledger(true, 0),
        dummy_ledger(false, 0),
        vec![],
    );
    let mut bot = KeeperBot::new(BotConfig::default());
    let err = tick(&mut bot, &f,
            &ctx(),
            MockTxBuilder::new(),
            KEEPER,
            CLOCK,
            SYSTEM_PROGRAM,
        )
        .unwrap_err();
    let s = err.to_string();
    assert!(
        s.contains("schema_version"),
        "expected schema-version mismatch error, got {s}"
    );
}

#[test]
fn end_to_end_vol_estimator_warms_up_across_ticks() {
    let mut bot = KeeperBot::new(BotConfig::default());
    let mut warm_history: Vec<bool> = vec![];
    for tick_idx in 0u64..40 {
        let mut sp = dummy_sub_pool();
        sp.last_price = 100_000_000 + tick_idx * 200_000;
        sp.last_sync_slot = tick_idx * 5 + 1;
        let f = build_fetcher(
            dummy_market(),
            sp,
            dummy_ledger(true, 0),
            dummy_ledger(false, 0),
            vec![],
        );
        tick(&mut bot, &f,
                &ctx(),
                MockTxBuilder::new(),
                KEEPER,
                CLOCK,
                SYSTEM_PROGRAM,
            )
            .expect("warming tick succeeds");
        warm_history.push(bot.vol().is_warm());
    }
    assert!(!warm_history[0]);
    assert!(
        warm_history.iter().any(|v| *v),
        "vol estimator never warmed across 40 ticks: {warm_history:?}"
    );
}

#[test]
fn end_to_end_leader_gate_skips_dispatch_when_standby() {

    let f = build_fetcher(
        dummy_market(),
        dummy_sub_pool(),
        dummy_ledger(true, 0),
        dummy_ledger(false, 0),
        vec![],
    );
    let mut bot = KeeperBot::new(BotConfig::default());
    let mut metrics = KeeperMetrics::new();
    let shutdown = false;
    let mut policy = FixedLeaderPolicy::always_standby();
    let cfg = RunLoopConfig {
        tick_interval_ms: 0,
        max_ticks: Some(3),
        transient_error_backoff_ms: 0,
    };

    let outcome = run_loop_with_leader(
        &mut bot,
        &f,
        &ctx(),
        MockTxBuilder::new,
        KEEPER,
        CLOCK,
        SYSTEM_PROGRAM,
        &mut metrics,
        shutdown,
        cfg,
        &mut policy,
    );

    assert_eq!(outcome.ticks, 3);
    assert_eq!(metrics.leader_status(), LeaderStatus::Standby);
    assert_eq!(metrics.ticks_total, 0);
}

#[test]
fn end_to_end_leader_gate_dispatches_when_leader() {

    let f = build_fetcher(
        dummy_market(),
        dummy_sub_pool(),
        dummy_ledger(true, 0),
        dummy_ledger(false, 0),
        vec![],
    );
    let mut bot = KeeperBot::new(BotConfig::default());
    let mut metrics = KeeperMetrics::new();
    let shutdown = false;
    let mut policy = FixedLeaderPolicy::always_leader();
    let cfg = RunLoopConfig {
        tick_interval_ms: 0,
        max_ticks: Some(2),
        transient_error_backoff_ms: 0,
    };

    let outcome = run_loop_with_leader(
        &mut bot,
        &f,
        &ctx(),
        MockTxBuilder::new,
        KEEPER,
        CLOCK,
        SYSTEM_PROGRAM,
        &mut metrics,
        shutdown,
        cfg,
        &mut policy,
    );

    assert_eq!(outcome.ticks, 2);
    assert_eq!(metrics.leader_status(), LeaderStatus::Leader);
    assert_eq!(metrics.ticks_total, 2);
}

#[test]
fn end_to_end_leader_rpc_reconcile_publishes_heartbeat_on_first_leader_tick() {

    const LOCK_PDA: Pubkey32 = [0xa1; 32];

    let chain_lock = KeeperLeaderLock::held_by(KEEPER, 1, 75);
    let raw = encode_keeper_leader_lock_account(
        &chain_lock,
        &account_discriminator("KeeperLeaderLock"),
    );
    let mut f = build_fetcher(
        dummy_market(),
        dummy_sub_pool(),
        dummy_ledger(true, 0),
        dummy_ledger(false, 0),
        vec![],
    );
    f.insert(LOCK_PDA, PROGRAM_ID, raw);

    let mut bot = KeeperBot::new(BotConfig::default());
    let mut metrics = KeeperMetrics::new();
    let shutdown = false;
    let mut policy = HostMirrorLeaderPolicy::new(KEEPER, KeeperLeaderLock::fresh(0, 75));
    let mut leader_builder = MockKeeperLeaderTxBuilder::new();
    let cfg = RunLoopConfig {
        tick_interval_ms: 0,
        max_ticks: Some(3),
        transient_error_backoff_ms: 0,
    };
    let rpc_cfg = LeaderRpcReconcileConfig {
        reconcile_every: Some(1),
        lock_pda: LOCK_PDA,
        heartbeat_every: Some(5),
        release_on_shutdown: true,
    };

    let outcome = run_loop_with_leader_and_rpc_reconcile(
        &mut bot,
        &f,
        &ctx(),
        MockTxBuilder::new,
        KEEPER,
        CLOCK,
        SYSTEM_PROGRAM,
        &mut metrics,
        shutdown,
        cfg,
        &mut policy,
        rpc_cfg,
        &mut leader_builder,
    );

    assert_eq!(outcome.ticks, 3);
    assert_eq!(metrics.leader_status(), LeaderStatus::Leader);
    assert_eq!(
        leader_builder.submitted.len(),
        1,
        "exactly one heartbeat ix submitted in the just-became-leader window: {:?}",
        leader_builder.submitted,
    );
    let ix = &leader_builder.submitted[0];
    assert_eq!(ix.program_id, PROGRAM_ID);
    assert_eq!(ix.data.len(), 16);
    assert_eq!(ix.accounts.len(), 3);
    assert_eq!(ix.accounts[1].pubkey, LOCK_PDA);
    assert_eq!(ix.accounts[2].pubkey, KEEPER);
    assert_eq!(metrics.ticks_total, 3);
}

#[test]
fn end_to_end_shutdown_graceful_release_publishes_exactly_one_release_ix() {

    const LOCK_PDA: Pubkey32 = [0xa1; 32];

    let chain_lock = KeeperLeaderLock::held_by(KEEPER, 1, 75);
    let raw = encode_keeper_leader_lock_account(
        &chain_lock,
        &account_discriminator("KeeperLeaderLock"),
    );
    let mut f = build_fetcher(
        dummy_market(),
        dummy_sub_pool(),
        dummy_ledger(true, 0),
        dummy_ledger(false, 0),
        vec![],
    );
    f.insert(LOCK_PDA, PROGRAM_ID, raw);

    let mut bot = KeeperBot::new(BotConfig::default());
    let mut metrics = KeeperMetrics::new();
    let shutdown = false;
    let mut policy = HostMirrorLeaderPolicy::new(KEEPER, KeeperLeaderLock::fresh(0, 75));
    let mut leader_builder = MockKeeperLeaderTxBuilder::new();
    let cfg = RunLoopConfig {
        tick_interval_ms: 0,
        max_ticks: Some(2),
        transient_error_backoff_ms: 0,
    };
    let rpc_cfg = LeaderRpcReconcileConfig {
        reconcile_every: Some(1),
        lock_pda: LOCK_PDA,
        heartbeat_every: Some(5),
        release_on_shutdown: true,
    };

    let outcome = run_loop_with_leader_and_rpc_reconcile(
        &mut bot,
        &f,
        &ctx(),
        MockTxBuilder::new,
        KEEPER,
        CLOCK,
        SYSTEM_PROGRAM,
        &mut metrics,
        shutdown,
        cfg,
        &mut policy,
        rpc_cfg,
        &mut leader_builder,
    );
    assert_eq!(outcome.ticks, 2);
    assert_eq!(leader_builder.submitted.len(), 1);
}

#[test]
fn try_graceful_release_contract() {

    const LOCK_PDA: Pubkey32 = [0xa1; 32];

    {
        let cfg = LeaderRpcReconcileConfig {
            reconcile_every: Some(1),
            lock_pda: LOCK_PDA,
            heartbeat_every: Some(5),
            release_on_shutdown: false,
        };
        let mut b = MockKeeperLeaderTxBuilder::new();
        let r = try_graceful_release(&cfg, &mut b, PROGRAM_ID, [0xee; 32], KEEPER, true);
        assert_eq!(r.unwrap(), None);
        assert_eq!(b.submitted.len(), 0);
    }
    {
        let cfg = LeaderRpcReconcileConfig {
            reconcile_every: Some(1),
            lock_pda: LOCK_PDA,
            heartbeat_every: Some(5),
            release_on_shutdown: true,
        };
        let mut b = MockKeeperLeaderTxBuilder::new();
        let r = try_graceful_release(&cfg, &mut b, PROGRAM_ID, [0xee; 32], KEEPER, false);
        assert_eq!(r.unwrap(), None);
        assert_eq!(b.submitted.len(), 0);
    }
    {
        let cfg = LeaderRpcReconcileConfig {
            reconcile_every: Some(1),
            lock_pda: LOCK_PDA,
            heartbeat_every: Some(5),
            release_on_shutdown: true,
        };
        let mut b = MockKeeperLeaderTxBuilder::new();
        let r = try_graceful_release(&cfg, &mut b, PROGRAM_ID, [0xee; 32], KEEPER, true);
        assert_eq!(r.unwrap(), None);
        assert_eq!(b.submitted.len(), 1);
        let ix = &b.submitted[0];
        assert_eq!(ix.data.len(), 8);
        assert_eq!(
            &ix.data[..8],
            &instruction_discriminator("keeper_leader_release")
        );
        assert_eq!(ix.accounts.len(), 3);
        assert_eq!(ix.accounts[1].pubkey, LOCK_PDA);
        assert_eq!(ix.accounts[2].pubkey, KEEPER);
    }
    {
        let cfg = LeaderRpcReconcileConfig {
            reconcile_every: Some(1),
            lock_pda: LOCK_PDA,
            heartbeat_every: Some(5),
            release_on_shutdown: true,
        };
        let mut b = MockKeeperLeaderTxBuilder {
            force_err: Some("simulated rpc 503".into()),
            ..Default::default()
        };
        let err = try_graceful_release(&cfg, &mut b, PROGRAM_ID, [0xee; 32], KEEPER, true)
            .unwrap_err();
        assert_eq!(err, "simulated rpc 503");
        assert_eq!(b.submitted.len(), 0);
    }
}

#[test]
fn end_to_end_leader_rpc_reconcile_yields_when_chain_says_other_holder() {

    const LOCK_PDA: Pubkey32 = [0xa1; 32];
    const OTHER_KEEPER: Pubkey32 = [0xee; 32];

    let chain_lock = KeeperLeaderLock::held_by(OTHER_KEEPER, 1, 75);
    let raw = encode_keeper_leader_lock_account(
        &chain_lock,
        &account_discriminator("KeeperLeaderLock"),
    );
    let mut f = build_fetcher(
        dummy_market(),
        dummy_sub_pool(),
        dummy_ledger(true, 0),
        dummy_ledger(false, 0),
        vec![],
    );
    f.insert(LOCK_PDA, PROGRAM_ID, raw);

    let mut bot = KeeperBot::new(BotConfig::default());
    let mut metrics = KeeperMetrics::new();
    let shutdown = false;
    let mut policy = HostMirrorLeaderPolicy::new(KEEPER, KeeperLeaderLock::held_by(KEEPER, 0, 75));
    let mut leader_builder = MockKeeperLeaderTxBuilder::new();
    let cfg = RunLoopConfig {
        tick_interval_ms: 0,
        max_ticks: Some(3),
        transient_error_backoff_ms: 0,
    };
    let rpc_cfg = LeaderRpcReconcileConfig {
        reconcile_every: Some(1),
        lock_pda: LOCK_PDA,
        heartbeat_every: Some(5),
        release_on_shutdown: true,
    };

    let outcome = run_loop_with_leader_and_rpc_reconcile(
        &mut bot,
        &f,
        &ctx(),
        MockTxBuilder::new,
        KEEPER,
        CLOCK,
        SYSTEM_PROGRAM,
        &mut metrics,
        shutdown,
        cfg,
        &mut policy,
        rpc_cfg,
        &mut leader_builder,
    );

    assert_eq!(outcome.ticks, 3);
    assert_eq!(
        metrics.leader_status(),
        LeaderStatus::Standby,
        "policy must yield to OTHER_KEEPER after first reconcile"
    );
    assert!(
        leader_builder.submitted.is_empty(),
        "Standby ticks must NOT publish heartbeat ix"
    );
}

#[test]
fn end_to_end_multi_market_two_markets_distinct_per_market_outcomes() {

    const MARKET_A: Pubkey32 = MARKET_PUBKEY;
    const SUB_POOL_A: Pubkey32 = SUB_POOL_0_PUBKEY;
    const LEDGER_A_LONG: Pubkey32 = [10u8; 32];
    const LEDGER_A_SHORT: Pubkey32 = [11u8; 32];
    const LOCK_A: Pubkey32 = [0xa1; 32];

    const MARKET_B: Pubkey32 = [21u8; 32];
    const SUB_POOL_B: Pubkey32 = [22u8; 32];
    const LEDGER_B_LONG: Pubkey32 = [30u8; 32];
    const LEDGER_B_SHORT: Pubkey32 = [31u8; 32];
    const LOCK_B: Pubkey32 = [0xb1; 32];
    const OTHER_KEEPER: Pubkey32 = [99u8; 32];

    let mut f = MockAccountFetcher::new();
    f.insert(
        MARKET_A,
        PROGRAM_ID,
        encode_anchor_account(&dummy_market(), &ACCOUNT_DISC).unwrap(),
    );
    f.insert(
        SUB_POOL_A,
        PROGRAM_ID,
        encode_anchor_account(&dummy_sub_pool(), &ACCOUNT_DISC).unwrap(),
    );
    f.insert(
        LEDGER_A_LONG,
        PROGRAM_ID,
        encode_anchor_account(&dummy_ledger(true, 0), &ACCOUNT_DISC).unwrap(),
    );
    f.insert(
        LEDGER_A_SHORT,
        PROGRAM_ID,
        encode_anchor_account(&dummy_ledger(false, 0), &ACCOUNT_DISC).unwrap(),
    );
    f.insert(
        LOCK_A,
        PROGRAM_ID,
        encode_keeper_leader_lock_account(
            &KeeperLeaderLock::held_by(KEEPER, 1, 75),
            &account_discriminator("KeeperLeaderLock"),
        ),
    );
    let mut market_b = dummy_market();
    market_b.symbol = *b"B-MARKET-PAD-001";
    f.insert(
        MARKET_B,
        PROGRAM_ID,
        encode_anchor_account(&market_b, &ACCOUNT_DISC).unwrap(),
    );
    let mut sub_b = dummy_sub_pool();
    sub_b.market = MARKET_B;
    f.insert(
        SUB_POOL_B,
        PROGRAM_ID,
        encode_anchor_account(&sub_b, &ACCOUNT_DISC).unwrap(),
    );
    let mut ledger_b_long = dummy_ledger(true, 0);
    ledger_b_long.sub_pool = SUB_POOL_B;
    f.insert(
        LEDGER_B_LONG,
        PROGRAM_ID,
        encode_anchor_account(&ledger_b_long, &ACCOUNT_DISC).unwrap(),
    );
    let mut ledger_b_short = dummy_ledger(false, 0);
    ledger_b_short.sub_pool = SUB_POOL_B;
    f.insert(
        LEDGER_B_SHORT,
        PROGRAM_ID,
        encode_anchor_account(&ledger_b_short, &ACCOUNT_DISC).unwrap(),
    );
    f.insert(
        LOCK_B,
        PROGRAM_ID,
        encode_keeper_leader_lock_account(
            &KeeperLeaderLock::held_by(OTHER_KEEPER, 1, 75),
            &account_discriminator("KeeperLeaderLock"),
        ),
    );

    let ctx_a = MarketContext {
        program_id: PROGRAM_ID,
        market: MARKET_A,
        market_symbol: [0u8; 16],
        sub_pools: vec![SubPoolEntry {
            sub_pool_id: 0,
            pubkey: SUB_POOL_A,
        }],
    };
    let ctx_b = MarketContext {
        program_id: PROGRAM_ID,
        market: MARKET_B,
        market_symbol: *b"B-MARKET-PAD-001",
        sub_pools: vec![SubPoolEntry {
            sub_pool_id: 0,
            pubkey: SUB_POOL_B,
        }],
    };

    let slot_a = MarketSlot {
        label: "A".to_string(),
        ctx: ctx_a,
        rpc_cfg: LeaderRpcReconcileConfig {
            reconcile_every: Some(1),
            lock_pda: LOCK_A,
            heartbeat_every: Some(5),
            release_on_shutdown: true,
        },
        bot: KeeperBot::new(BotConfig::default()),
        metrics: KeeperMetrics::new(),
        policy: HostMirrorLeaderPolicy::new(KEEPER, KeeperLeaderLock::fresh(0, 75)),
        state: MarketSlotState::default(),
    };
    let slot_b = MarketSlot {
        label: "B".to_string(),
        ctx: ctx_b,
        rpc_cfg: LeaderRpcReconcileConfig {
            reconcile_every: Some(1),
            lock_pda: LOCK_B,
            heartbeat_every: Some(5),
            release_on_shutdown: true,
        },
        bot: KeeperBot::new(BotConfig::default()),
        metrics: KeeperMetrics::new(),
        policy: HostMirrorLeaderPolicy::new(KEEPER, KeeperLeaderLock::fresh(0, 75)),
        state: MarketSlotState::default(),
    };

    let mut registry = MarketRegistry::new();
    registry.add(slot_a).unwrap();
    registry.add(slot_b).unwrap();
    assert!(
        registry.add(MarketSlot {
            label: "A".to_string(),
            ctx: MarketContext {
                program_id: PROGRAM_ID,
                market: MARKET_A,
                market_symbol: [0u8; 16],
                sub_pools: vec![],
            },
            rpc_cfg: LeaderRpcReconcileConfig {
                reconcile_every: Some(1),
                lock_pda: LOCK_A,
                heartbeat_every: Some(5),
                release_on_shutdown: true,
            },
            bot: KeeperBot::new(BotConfig::default()),
            metrics: KeeperMetrics::new(),
            policy: HostMirrorLeaderPolicy::new(KEEPER, KeeperLeaderLock::fresh(0, 75)),
            state: MarketSlotState::default(),
        })
        .is_err(),
        "duplicate label must be rejected"
    );

    let shutdown = false;
    let mut leader_builder = MockKeeperLeaderTxBuilder::new();
    let cfg = MultiMarketRunConfig {
        tick_interval_ms: 0,
        max_passes: Some(2),
        transient_error_backoff_ms: 0,
    };

    let outcome = run_loop_multi_market_leader_and_rpc_reconcile(
        &mut registry,
        &f,
        MockTxBuilder::new,
        KEEPER,
        CLOCK,
        SYSTEM_PROGRAM,
        shutdown,
        cfg,
        &mut leader_builder,
    );

    assert_eq!(outcome.passes, 2);
    assert_eq!(outcome.per_market.len(), 2);
    for pm in &outcome.per_market {
        assert_eq!(pm.ticks, 2, "{} ticked twice", pm.label);
        assert!(matches!(
            pm.reason,
            LoopTerminationReason::TickLimitReached
        ));
        assert!(pm.error.is_none());
    }
    assert_eq!(
        leader_builder.submitted.len(),
        1,
        "exactly one heartbeat ix from leader market A: {:?}",
        leader_builder.submitted,
    );
    let hb = &leader_builder.submitted[0];
    assert_eq!(hb.accounts[1].pubkey, LOCK_A);

    let metrics_text = registry.render_prometheus_all();
    assert!(metrics_text.contains("keeper_leader_status{market=\"A\"} 1"));
    assert!(metrics_text.contains("keeper_leader_status{market=\"B\"} 2"));
    assert!(metrics_text.contains("keeper_ticks_total{market=\"A\"} 2"));

    let a = registry
        .slots()
        .iter()
        .find(|s| s.label == "A")
        .expect("A slot");
    let b = registry
        .slots()
        .iter()
        .find(|s| s.label == "B")
        .expect("B slot");
    assert_eq!(a.metrics.leader_status(), LeaderStatus::Leader);
    assert_eq!(b.metrics.leader_status(), LeaderStatus::Standby);
    assert!(a.state.was_leader_last_tick);
    assert!(!b.state.was_leader_last_tick);
}

#[test]
fn end_to_end_multi_market_shutdown_releases_only_leader_slots() {

    const MARKET_A: Pubkey32 = [1u8; 32];
    const MARKET_B: Pubkey32 = [21u8; 32];
    const LOCK_A: Pubkey32 = [0xa1; 32];
    const LOCK_B: Pubkey32 = [0xb1; 32];

    let mk_slot = |label: &str,
                   market: Pubkey32,
                   lock: Pubkey32,
                   was_leader: bool|
     -> MarketSlot {
        MarketSlot {
            label: label.to_string(),
            ctx: MarketContext {
                program_id: PROGRAM_ID,
                market,
                market_symbol: [0u8; 16],
                sub_pools: vec![],
            },
            rpc_cfg: LeaderRpcReconcileConfig {
                reconcile_every: Some(1),
                lock_pda: lock,
                heartbeat_every: Some(5),
                release_on_shutdown: true,
            },
            bot: KeeperBot::new(BotConfig::default()),
            metrics: KeeperMetrics::new(),
            policy: HostMirrorLeaderPolicy::new(KEEPER, KeeperLeaderLock::fresh(0, 75)),
            state: MarketSlotState {
                was_leader_last_tick: was_leader,
                ..Default::default()
            },
        }
    };

    let mut registry = MarketRegistry::new();
    registry
        .add(mk_slot("A", MARKET_A, LOCK_A, true))
        .unwrap();
    registry
        .add(mk_slot("B", MARKET_B, LOCK_B, false))
        .unwrap();

    let f = MockAccountFetcher::new();
    let shutdown = true;
    let mut leader_builder = MockKeeperLeaderTxBuilder::new();
    let cfg = MultiMarketRunConfig {
        tick_interval_ms: 0,
        max_passes: Some(2),
        transient_error_backoff_ms: 0,
    };

    let outcome = run_loop_multi_market_leader_and_rpc_reconcile(
        &mut registry,
        &f,
        MockTxBuilder::new,
        KEEPER,
        CLOCK,
        SYSTEM_PROGRAM,
        shutdown,
        cfg,
        &mut leader_builder,
    );

    assert!(matches!(
        outcome.reason,
        LoopTerminationReason::ShutdownSignal
    ));
    for pm in &outcome.per_market {
        assert!(matches!(
            pm.reason,
            LoopTerminationReason::ShutdownSignal
        ));
    }
    assert_eq!(
        leader_builder.submitted.len(),
        1,
        "only leader slot A must publish release ix: {:?}",
        leader_builder.submitted,
    );
    assert_eq!(leader_builder.submitted[0].accounts[1].pubkey, LOCK_A);
}

struct Down;

impl AccountFetcher for Down {
    fn fetch_account(&self, _pubkey: &Pubkey32) -> Result<Option<Vec<u8>>, RpcError> {
        Err(RpcError::Transport("down".to_string()))
    }

    fn fetch_program_accounts_filter(
        &self,
        _program_id: &Pubkey32,
        _match_offset: usize,
        _match_bytes: &[u8],
    ) -> Result<Vec<(Pubkey32, Vec<u8>)>, RpcError> {
        Err(RpcError::Transport("down".to_string()))
    }
}

fn idle_fetcher() -> MockAccountFetcher {
    build_fetcher(
        dummy_market(),
        dummy_sub_pool(),
        dummy_ledger(true, 0),
        dummy_ledger(false, 0),
        vec![],
    )
}

#[test]
fn pass_of_the_plain_loop_is_counted_and_timed() {
    let time = Cell::new(100u64);
    let clock = || {
        let now = time.get();
        time.set(now + 7);
        now
    };
    let mut bot = KeeperBot::new(BotConfig::default());
    let mut m = KeeperMetrics::new();
    let mut ticks = 0;
    let step = step_with_factory(
        &mut bot, &idle_fetcher(), &ctx(), &MockTxBuilder::new, KEEPER, CLOCK, SYSTEM_PROGRAM,
        &silent, &clock, &mut m, &mut ticks,
    );
    assert_eq!(step, LoopStep::Continue);
    assert_eq!((ticks, m.ticks_total, m.last_tick_duration_ms), (1, 1, 7));
    assert_eq!(m.vol_samples, bot.vol().sample_count() as u64);

    let backwards = || {
        let now = time.get();
        time.set(now - 3);
        now
    };
    step_with_factory(
        &mut bot, &idle_fetcher(), &ctx(), &MockTxBuilder::new, KEEPER, CLOCK, SYSTEM_PROGRAM,
        &silent, &backwards, &mut m, &mut ticks,
    );
    assert_eq!((ticks, m.last_tick_duration_ms), (2, 0));
}

#[test]
fn pass_of_the_plain_loop_is_tried_again_after_a_transport_error() {
    let mut bot = KeeperBot::new(BotConfig::default());
    let mut m = KeeperMetrics::new();
    let mut ticks = 4;
    let step = step_with_factory(
        &mut bot, &Down, &ctx(), &MockTxBuilder::new, KEEPER, CLOCK, SYSTEM_PROGRAM, &silent,
        &frozen, &mut m, &mut ticks,
    );
    let down = BotError::Snapshot(SnapshotError::Rpc(RpcError::Transport("down".to_string())));
    assert_eq!(step, LoopStep::Retry(down.clone()));
    assert_eq!((ticks, m.ticks_total, m.snapshot_errors_total), (4, 0, 1));

    let mut kept = MockTxBuilder::new();
    let mark = ActionDispatchResult::Failed { reason: "kept".to_string() };
    kept.override_result = Some(mark.clone());
    let kept = step_with_builder(
        &mut bot, &Down, &ctx(), kept, KEEPER, CLOCK, SYSTEM_PROGRAM, &silent, &frozen, &mut m,
        &mut ticks,
    );
    assert!(matches!(
        kept,
        BuilderStep::Retry { builder, error }
            if builder.override_result == Some(mark) && error == down
    ));
    assert_eq!((ticks, m.ticks_total, m.snapshot_errors_total), (4, 0, 2));

    let missing = step_with_builder(
        &mut bot, &MockAccountFetcher::new(), &ctx(), MockTxBuilder::new(), KEEPER, CLOCK,
        SYSTEM_PROGRAM, &silent, &frozen, &mut m, &mut ticks,
    );
    let BuilderStep::Stop(outcome) = missing else {
        panic!("a missing market ends the loop");
    };
    assert_eq!(outcome.reason, LoopTerminationReason::PermanentError);
    let gone = BotError::Snapshot(SnapshotError::MarketNotFound(MARKET_PUBKEY));
    assert_eq!((outcome.ticks, outcome.error), (4, Some(gone)));
    assert_eq!((ticks, m.snapshot_errors_total), (4, 3));
}

#[test]
fn pass_with_one_builder_hands_it_back() {
    let f = build_fetcher(
        dummy_market(),
        dummy_sub_pool(),
        dummy_ledger(true, 3),
        dummy_ledger(false, 0),
        vec![([20u8; 32], dead_long_bucket(10, 0))],
    );
    let mut bot = KeeperBot::new(BotConfig::default());
    let mut m = KeeperMetrics::new();
    let mut ticks = 0;
    let mut builder = MockTxBuilder::new();
    for _ in 0..2 {
        let step = step_with_builder(
            &mut bot, &f, &ctx(), builder, KEEPER, CLOCK, SYSTEM_PROGRAM, &silent, &frozen, &mut m,
            &mut ticks,
        );
        let BuilderStep::Ticked(left) = step else {
            panic!("the tick goes through");
        };
        builder = left;
    }
    assert_eq!((ticks, m.ticks_total), (2, 2));
    assert_eq!(m.actions_submitted_total, 2);
    assert_eq!(builder.submitted.len(), 2);
}

#[test]
fn shutdown_releases_what_was_led() {
    let mut cfg = LeaderRpcReconcileConfig::default();
    cfg.release_on_shutdown = true;
    let mut state = MarketSlotState::default();
    state.ticks = 3;
    for (told, led, sent) in [(false, true, 0), (true, false, 0), (true, true, 1)] {
        let mut b = MockKeeperLeaderTxBuilder::new();
        state.was_leader_last_tick = led;
        let outcome = exit_with_release(told, None, &state, &cfg, &ctx(), KEEPER, &mut b);
        assert_eq!(b.submitted.len(), sent);
        assert_eq!(outcome.is_some(), told);
        if let Some(outcome) = outcome {
            assert_eq!(outcome.reason, LoopTerminationReason::ShutdownSignal);
            assert_eq!((outcome.ticks, outcome.error), (3, None));
        }
    }
    let mut b = MockKeeperLeaderTxBuilder::new();
    let limit = exit_with_release(false, Some(3), &state, &cfg, &ctx(), KEEPER, &mut b);
    assert_eq!(limit.unwrap().reason, LoopTerminationReason::TickLimitReached);
    assert!(b.submitted.is_empty());
}

fn leading_slot(label: &str) -> MarketSlot {
    MarketSlot {
        label: label.to_string(),
        ctx: ctx(),
        rpc_cfg: LeaderRpcReconcileConfig::default(),
        bot: KeeperBot::new(BotConfig::default()),
        metrics: KeeperMetrics::new(),
        policy: HostMirrorLeaderPolicy::new(KEEPER, KeeperLeaderLock::fresh(0, 75)),
        state: MarketSlotState::default(),
    }
}

#[test]
fn pass_over_the_markets_leaves_finished_ones_alone() {
    let mut registry = MarketRegistry::new();
    for label in ["A", "B", "C"] {
        registry.add(leading_slot(label)).unwrap();
    }
    let ended = LoopOutcome {
        reason: LoopTerminationReason::PermanentError,
        ticks: 9,
        error: None,
    };
    registry.slots_mut()[1].state.finished = Some(ended.clone());
    let mut b = MockKeeperLeaderTxBuilder::new();
    let whole = walk_markets(
        &mut registry, 0, &idle_fetcher(), &MockTxBuilder::new, KEEPER, CLOCK, SYSTEM_PROGRAM,
        &silent, &frozen, &mut b,
    );
    assert_eq!(whole, None);
    let ticks: Vec<u64> = registry.slots().iter().map(|s| s.state.ticks).collect();
    assert_eq!(ticks, vec![1, 0, 1]);
    assert_eq!(registry.slots()[1].state.finished, Some(ended.clone()));

    let mut from = 0;
    let mut stops = vec![];
    while let Some(next) = walk_markets(
        &mut registry, from, &Down, &MockTxBuilder::new, KEEPER, CLOCK, SYSTEM_PROGRAM, &silent,
        &frozen, &mut b,
    ) {
        stops.push(next);
        from = next;
    }
    assert_eq!(stops, vec![1, 3]);
    assert!(registry.slots()[0].state.finished.is_none());
    assert_eq!(registry.slots()[0].metrics.snapshot_errors_total, 1);

    for slot in registry.slots_mut().iter_mut() {
        slot.state.finished = Some(ended.clone());
    }
    let rest = walk_markets(
        &mut registry, 0, &Down, &MockTxBuilder::new, KEEPER, CLOCK, SYSTEM_PROGRAM, &silent,
        &frozen, &mut b,
    );
    assert_eq!(rest, None);
}

#[test]
fn tick_of_one_slot_says_what_became_of_it() {
    let mut b = MockKeeperLeaderTxBuilder::new();
    let mut slot = leading_slot("A");
    let step = tick_one_slot(
        &mut slot, &idle_fetcher(), &MockTxBuilder::new, KEEPER, CLOCK, SYSTEM_PROGRAM, &silent,
        &frozen, &mut b,
    );
    assert_eq!((step, slot.state.ticks), (SlotStep::Ticked, 1));
    let step = tick_one_slot(
        &mut slot, &Down, &MockTxBuilder::new, KEEPER, CLOCK, SYSTEM_PROGRAM, &silent, &frozen,
        &mut b,
    );
    assert_eq!((step, slot.state.ticks), (SlotStep::Backoff, 1));
    let step = tick_one_slot(
        &mut slot, &MockAccountFetcher::new(), &MockTxBuilder::new, KEEPER, CLOCK, SYSTEM_PROGRAM,
        &silent, &frozen, &mut b,
    );
    assert_eq!((step, slot.state.ticks), (SlotStep::Finished, 1));
    assert_eq!(
        slot.state.finished.as_ref().unwrap().error,
        Some(BotError::Snapshot(SnapshotError::MarketNotFound(MARKET_PUBKEY)))
    );
    let mut other = leading_slot("B");
    other.rpc_cfg.reconcile_every = None;
    other.policy =
        HostMirrorLeaderPolicy::new(KEEPER, KeeperLeaderLock::held_by([7; 32], 1, 1_000));
    let step = tick_one_slot(
        &mut other, &idle_fetcher(), &MockTxBuilder::new, KEEPER, CLOCK, SYSTEM_PROGRAM, &silent,
        &frozen, &mut b,
    );
    assert_eq!((step, other.state.ticks), (SlotStep::Standby, 1));
    assert_eq!(other.metrics.ticks_total, 0);
}
