use keeper::bot::{health_from_sub_pool, snapshot_best_slot, BotConfig, KeeperBot};
use keeper::decoder::accounts::OnchainSubPool;
use keeper::planner::volatility::{RealizedVolatilityEstimator, RotatePrediction};
use keeper::rpc::snapshot::{ChainSnapshot, MarketContext};
use keeper::rpc::tx::MockTxBuilder;

fn silent(
    _window: &RealizedVolatilityEstimator,
    _snap: &ChainSnapshot,
) -> (Option<i64>, Vec<RotatePrediction>) {
    (None, vec![])
}

#[test]
fn health_helper_defaults_anchor_to_last_price() {
    let h = health_from_sub_pool(0, 100_000_000, 1_000, 1_000, 5_000, 5_000, 0, 0);
    assert_eq!(h.long_anchor_price, 100_000_000);
    assert_eq!(h.short_anchor_price, 100_000_000);
}

#[test]
fn default_config_runs_predictor() {
    let cfg = BotConfig::default();
    assert!(cfg.run_predictor);
}

#[test]
fn tick_with_snap_on_empty_snapshot_returns_zero_actions() {

    let mut bot = KeeperBot::new(BotConfig::default());
    let snap = ChainSnapshot::new();
    let ctx = MarketContext {
        program_id: [0u8; 32],
        market: [0u8; 32],
        market_symbol: [0u8; 16],
        sub_pools: vec![],
    };
    let (report, builder) = bot
        .tick_with_snap::<MockTxBuilder, _>(
            &snap,
            &ctx,
            MockTxBuilder::new(),
            [0u8; 32],
            [0u8; 32],
            [0u8; 32],
            &silent,
        )
        .expect("empty-snap tick succeeds");
    assert_eq!(report.actions_planned, 0);
    assert_eq!(report.dispatched.len(), 0);
    assert_eq!(report.init_hints_added, 0);
    assert!(report.applied_vol_milli.is_none());
    assert_eq!(builder.submitted.len(), 0);
}

#[test]
fn snapshot_best_slot_returns_max_or_none() {
    let mut snap = ChainSnapshot::new();
    assert_eq!(snapshot_best_slot(&snap), None);
    let make_sp = |id: u32, slot: u64| OnchainSubPool {
        market: [0u8; 32],
        sub_pool_id: id,
        long_pool_equity: 0,
        short_pool_equity: 0,
        long_active_shares: 0,
        short_active_shares: 0,
        long_recovery_shares: 0,
        short_recovery_shares: 0,
        long_active_notional: 0,
        short_active_notional: 0,
        long_active_generation: 0,
        short_active_generation: 0,
        last_price: 100_000_000,
        last_sync_slot: slot,
        long_dust: 0,
        short_dust: 0,
        long_dormant_bucket_count: 0,
        short_dormant_bucket_count: 0,
        bump: 0,
        _pad: [0u8; 7],
    };
    snap.sub_pools.insert(0, make_sp(0, 100));
    snap.sub_pools.insert(1, make_sp(1, 7_777));
    snap.sub_pools.insert(2, make_sp(2, 42));
    assert_eq!(snapshot_best_slot(&snap), Some(7_777));
}
