use keeper::planner::cycle::{
    run_plan_cycle, ActionDispatchResult, ActionExecutor, DryRunExecutor, KeeperLoop,
    KeeperLoopConfig, KeeperLoopMetrics,
};
use keeper::planner::predictor::{populate_scheduler, predict_one};
use keeper::planner::scheduler::{Scheduler, SchedulerConfig};
use keeper::planner::volatility::{
    price_to_tick, rotate_prediction, side_exposure, PriceSample, RealizedVolatilityEstimator,
    RealizedVolatilityEstimatorConfig, RotatePrediction, SideExposure,
};
use keeper::planner::{
    BucketSnapshot, Direction, InitRationale, KeeperAction, KeeperChainView, KeeperError,
    LedgerSnapshot, SubPoolHealth,
};
use std::cell::Cell;
use std::collections::HashMap;

struct StubView {
    sub_pool_ids: Vec<u32>,
    buckets: HashMap<u32, Vec<BucketSnapshot>>,
    ledgers: HashMap<(u32, Direction), LedgerSnapshot>,
}

impl StubView {
    fn new(sub_pool_ids: Vec<u32>) -> Self {
        Self {
            sub_pool_ids,
            buckets: HashMap::new(),
            ledgers: HashMap::new(),
        }
    }
}

impl KeeperChainView for StubView {
    fn sub_pool_ids(&self) -> Vec<u32> {
        self.sub_pool_ids.clone()
    }
    fn buckets(&self, sub_pool_id: u32) -> Vec<BucketSnapshot> {
        self.buckets.get(&sub_pool_id).cloned().unwrap_or_default()
    }
    fn ledger(&self, sub_pool_id: u32, direction: Direction) -> Option<LedgerSnapshot> {
        self.ledgers.get(&(sub_pool_id, direction)).copied()
    }
}

fn live_bucket(sub: u32, dir: Direction, tick: i64, last_applied: u64) -> BucketSnapshot {
    BucketSnapshot {
        sub_pool_id: sub,
        direction: dir,
        tick,
        anchor_price: 100,
        total_recovery_shares: 1_000,
        total_recovery_notional: 1_000_000,
        accrued_value: 0,
        position_count: 1,
        last_applied_index: last_applied,
    }
}

fn dead_bucket(sub: u32, dir: Direction, tick: i64, last_applied: u64) -> BucketSnapshot {
    BucketSnapshot {
        sub_pool_id: sub,
        direction: dir,
        tick,
        anchor_price: 100,
        total_recovery_shares: 0,
        total_recovery_notional: 0,
        accrued_value: 0,
        position_count: 0,
        last_applied_index: last_applied,
    }
}

fn ledger(sub: u32, dir: Direction, head: u64) -> LedgerSnapshot {
    LedgerSnapshot {
        sub_pool_id: sub,
        direction: dir,
        next_event_index: head,
        bucket_count_hint: 0,
    }
}

#[test]
fn empty_view_produces_empty_plan() {
    let view = StubView::new(vec![]);
    let mut sched = Scheduler::default();
    assert!(sched.plan(&view).unwrap().is_empty());
}

#[test]
fn live_bucket_with_pending_emits_pre_sync() {
    let mut view = StubView::new(vec![0]);
    view.buckets.insert(0, vec![live_bucket(0, Direction::Long, 5, 10)]);
    view.ledgers.insert((0, Direction::Long), ledger(0, Direction::Long, 13));
    view.ledgers.insert((0, Direction::Short), ledger(0, Direction::Short, 0));
    let mut sched = Scheduler::default();
    let actions = sched.plan(&view).unwrap();
    assert_eq!(actions.len(), 1);
    match actions[0] {
        KeeperAction::PreSyncDormantBucket { tick, pending, .. } => {
            assert_eq!(tick, 5);
            assert_eq!(pending, 3);
        }
        _ => panic!("wrong action: {:?}", actions[0]),
    }
}

#[test]
fn dead_caught_up_bucket_emits_close() {
    let mut view = StubView::new(vec![0]);
    view.buckets.insert(0, vec![dead_bucket(0, Direction::Long, 5, 10)]);
    view.ledgers.insert((0, Direction::Long), ledger(0, Direction::Long, 10));
    view.ledgers.insert((0, Direction::Short), ledger(0, Direction::Short, 0));
    let mut sched = Scheduler::default();
    let actions = sched.plan(&view).unwrap();
    assert_eq!(actions.len(), 1);
    assert!(matches!(
        actions[0],
        KeeperAction::CloseDormantBucket { tick: 5, .. }
    ));
}

#[test]
fn dead_bucket_with_pending_emits_pre_sync_first_not_close() {
    let mut view = StubView::new(vec![0]);
    view.buckets.insert(0, vec![dead_bucket(0, Direction::Long, 5, 7)]);
    view.ledgers.insert((0, Direction::Long), ledger(0, Direction::Long, 10));
    view.ledgers.insert((0, Direction::Short), ledger(0, Direction::Short, 0));
    let mut sched = Scheduler::default();
    let actions = sched.plan(&view).unwrap();
    assert_eq!(actions.len(), 1);
    assert!(matches!(actions[0], KeeperAction::PreSyncDormantBucket { .. }));
}

#[test]
fn priority_orders_init_first_then_pre_sync_then_close() {
    let mut view = StubView::new(vec![0]);
    view.buckets.insert(
        0,
        vec![
            live_bucket(0, Direction::Long, 5, 0),
            dead_bucket(0, Direction::Long, 6, 100),
        ],
    );
    view.ledgers.insert((0, Direction::Long), ledger(0, Direction::Long, 100));
    view.ledgers.insert((0, Direction::Short), ledger(0, Direction::Short, 0));
    let mut sched = Scheduler::default();
    sched.record_init_hint(0, Direction::Long, 9, InitRationale::Explicit);
    let actions = sched.plan(&view).unwrap();
    assert_eq!(actions.len(), 3);
    assert!(matches!(actions[0], KeeperAction::InitDormantBucket { .. }));
    assert!(matches!(actions[1], KeeperAction::PreSyncDormantBucket { .. }));
    assert!(matches!(actions[2], KeeperAction::CloseDormantBucket { .. }));
}

#[test]
fn pre_sync_priority_scales_with_pending_depth() {
    let mut view = StubView::new(vec![0]);
    view.buckets.insert(
        0,
        vec![
            live_bucket(0, Direction::Long, 5, 0),
            live_bucket(0, Direction::Long, 6, 90),
        ],
    );
    view.ledgers.insert((0, Direction::Long), ledger(0, Direction::Long, 100));
    view.ledgers.insert((0, Direction::Short), ledger(0, Direction::Short, 0));
    let mut sched = Scheduler::default();
    let actions = sched.plan(&view).unwrap();
    assert_eq!(actions.len(), 2);
    match (&actions[0], &actions[1]) {
        (
            KeeperAction::PreSyncDormantBucket { tick: t0, pending: p0, .. },
            KeeperAction::PreSyncDormantBucket { tick: t1, pending: p1, .. },
        ) => {
            assert!(p0 > p1, "more-behind bucket runs first");
            assert_eq!(*t0, 5);
            assert_eq!(*t1, 6);
        }
        other => panic!("unexpected: {other:?}"),
    }
}

#[test]
fn min_pending_threshold_filters_out_small_lag() {
    let mut view = StubView::new(vec![0]);
    view.buckets.insert(0, vec![live_bucket(0, Direction::Long, 5, 9)]);
    view.ledgers.insert((0, Direction::Long), ledger(0, Direction::Long, 10));
    view.ledgers.insert((0, Direction::Short), ledger(0, Direction::Short, 0));
    let mut sched = Scheduler::new(SchedulerConfig {
        min_pending_for_pre_sync: 5,
        ..Default::default()
    });
    assert!(sched.plan(&view).unwrap().is_empty(),
        "lag of 1 below threshold of 5 must be silenced");
}

#[test]
fn close_dead_buckets_can_be_disabled() {
    let mut view = StubView::new(vec![0]);
    view.buckets.insert(0, vec![dead_bucket(0, Direction::Long, 5, 10)]);
    view.ledgers.insert((0, Direction::Long), ledger(0, Direction::Long, 10));
    view.ledgers.insert((0, Direction::Short), ledger(0, Direction::Short, 0));
    let mut sched = Scheduler::new(SchedulerConfig {
        close_dead_buckets: false,
        ..Default::default()
    });
    assert!(sched.plan(&view).unwrap().is_empty());
}

#[test]
fn max_actions_per_plan_caps_queue_length() {
    let mut view = StubView::new(vec![0]);
    view.buckets.insert(
        0,
        (0..10).map(|t| live_bucket(0, Direction::Long, t, 0)).collect(),
    );
    view.ledgers.insert((0, Direction::Long), ledger(0, Direction::Long, 100));
    view.ledgers.insert((0, Direction::Short), ledger(0, Direction::Short, 0));
    let mut sched = Scheduler::new(SchedulerConfig {
        max_actions_per_plan: 3,
        ..Default::default()
    });
    assert_eq!(sched.plan(&view).unwrap().len(), 3);
}

#[test]
fn init_hint_for_existing_pda_is_dropped() {
    let mut view = StubView::new(vec![0]);
    view.buckets.insert(0, vec![dead_bucket(0, Direction::Long, 5, 0)]);
    view.ledgers.insert((0, Direction::Long), ledger(0, Direction::Long, 0));
    view.ledgers.insert((0, Direction::Short), ledger(0, Direction::Short, 0));

    let mut sched = Scheduler::default();
    sched.record_init_hint(0, Direction::Long, 5, InitRationale::Explicit);
    let actions = sched.plan(&view).unwrap();
    assert_eq!(actions.len(), 1);
    assert!(matches!(actions[0], KeeperAction::CloseDormantBucket { .. }));
    assert_eq!(sched.pending_init_hint_count(), 1, "hint stays until consumed");
}

#[test]
fn init_hint_is_one_shot_after_emit() {
    let mut view = StubView::new(vec![0]);
    view.ledgers.insert((0, Direction::Long), ledger(0, Direction::Long, 0));
    view.ledgers.insert((0, Direction::Short), ledger(0, Direction::Short, 0));

    let mut sched = Scheduler::default();
    sched.record_init_hint(0, Direction::Long, 9, InitRationale::RotateRiskHorizon);
    let first = sched.plan(&view).unwrap();
    assert_eq!(first.len(), 1);
    let second = sched.plan(&view).unwrap();
    assert!(second.is_empty(), "drain on emit");
}

#[test]
fn bucket_ahead_of_ledger_is_an_invariant_violation() {
    let mut view = StubView::new(vec![0]);
    view.buckets.insert(0, vec![live_bucket(0, Direction::Long, 5, 100)]);
    view.ledgers.insert((0, Direction::Long), ledger(0, Direction::Long, 50));
    view.ledgers.insert((0, Direction::Short), ledger(0, Direction::Short, 0));
    let mut sched = Scheduler::default();
    let err = sched.plan(&view).unwrap_err();
    assert!(matches!(err, KeeperError::BucketAheadOfLedger { applied: 100, head: 50, .. }));
}

#[test]
fn price_to_tick_floors_against_aggregation_grid() {
    assert_eq!(price_to_tick(99, 1, 10), 9);
    assert_eq!(price_to_tick(100, 1, 10), 10);
    assert_eq!(price_to_tick(100, 5, 4), 5);
    assert_eq!(price_to_tick(0, 1, 1), 0);
    assert_eq!(price_to_tick(u64::MAX, 1, 1), i64::MAX);
}

#[test]
fn dry_run_executor_records_each_action() {
    let mut exec = DryRunExecutor::new();
    let r1 = exec.execute(KeeperAction::CloseDormantBucket {
        sub_pool_id: 0,
        direction: Direction::Long,
        tick: 5,
    });
    assert_eq!(r1, ActionDispatchResult::Submitted { signature: None });
    let r2 = exec.execute(KeeperAction::PreSyncDormantBucket {
        sub_pool_id: 0,
        direction: Direction::Long,
        tick: 5,
        pending: 3,
    });
    assert_eq!(r2, ActionDispatchResult::Submitted { signature: None });
    assert_eq!(exec.log().len(), 2);

    let drained = exec.drain();
    assert_eq!(drained.len(), 2);
    assert!(exec.log().is_empty());
}

#[test]
fn run_plan_cycle_links_planner_and_executor() {
    let mut view = StubView::new(vec![0]);
    view.buckets.insert(
        0,
        vec![
            live_bucket(0, Direction::Long, 5, 0),
            dead_bucket(0, Direction::Long, 6, 100),
        ],
    );
    view.ledgers.insert((0, Direction::Long), ledger(0, Direction::Long, 100));
    view.ledgers.insert((0, Direction::Short), ledger(0, Direction::Short, 0));
    let mut sched = Scheduler::default();
    sched.record_init_hint(0, Direction::Long, 9, InitRationale::Explicit);
    let mut exec = DryRunExecutor::new();
    let pairs = run_plan_cycle(&mut sched, &view, &mut exec).unwrap();

    assert_eq!(pairs.len(), 3);
    assert!(matches!(pairs[0].0, KeeperAction::InitDormantBucket { .. }));
    assert!(matches!(pairs[1].0, KeeperAction::PreSyncDormantBucket { .. }));
    assert!(matches!(pairs[2].0, KeeperAction::CloseDormantBucket { .. }));
    for (_, r) in &pairs {
        assert_eq!(*r, ActionDispatchResult::Submitted { signature: None });
    }
    let log = exec.log();
    assert_eq!(log.len(), 3);
    for i in 0..3 {
        assert_eq!(pairs[i].0, log[i]);
    }
}

#[test]
fn run_plan_cycle_surfaces_per_action_failures_without_aborting() {
    struct FlakyExec {
        seen_pre_sync: bool,
    }
    impl ActionExecutor for FlakyExec {
        fn execute(&mut self, action: KeeperAction) -> ActionDispatchResult {
            match action {
                KeeperAction::PreSyncDormantBucket { .. } if !self.seen_pre_sync => {
                    self.seen_pre_sync = true;
                    ActionDispatchResult::Failed {
                        reason: "rpc 503".to_string(),
                    }
                }
                _ => ActionDispatchResult::Submitted {
                    signature: Some("sig".into()),
                },
            }
        }
    }
    let mut view = StubView::new(vec![0]);
    view.buckets.insert(
        0,
        vec![
            live_bucket(0, Direction::Long, 5, 0),
            live_bucket(0, Direction::Long, 6, 0),
        ],
    );
    view.ledgers.insert((0, Direction::Long), ledger(0, Direction::Long, 50));
    view.ledgers.insert((0, Direction::Short), ledger(0, Direction::Short, 0));
    let mut sched = Scheduler::default();
    let mut exec = FlakyExec { seen_pre_sync: false };
    let pairs = run_plan_cycle(&mut sched, &view, &mut exec).unwrap();
    assert_eq!(pairs.len(), 2);
    assert!(matches!(pairs[0].1, ActionDispatchResult::Failed { .. }));
    assert!(matches!(pairs[1].1, ActionDispatchResult::Submitted { .. }));
}

fn vol_config(min_samples: usize) -> RealizedVolatilityEstimatorConfig {
    RealizedVolatilityEstimatorConfig {
        max_samples: 1024,
        max_age_slots: u64::MAX,
        min_samples,
    }
}

#[test]
fn vol_estimator_none_until_warmup() {
    let mut est = RealizedVolatilityEstimator::new(vol_config(5));
    for slot in 0..4 {
        est.record(PriceSample { price: 100, slot });
    }
    assert!(!est.is_warm());
    assert_eq!(est.sample_count(), 4);
}

#[test]
fn vol_estimator_drops_out_of_order_and_duplicate_slots() {
    let mut est = RealizedVolatilityEstimator::new(vol_config(2));
    est.record(PriceSample { price: 100, slot: 10 });
    est.record(PriceSample { price: 200, slot: 5 });
    est.record(PriceSample { price: 200, slot: 10 });
    est.record(PriceSample { price: 0, slot: 11 });
    est.record(PriceSample { price: 105, slot: 11 });
    assert_eq!(est.sample_count(), 2);
}

#[test]
fn vol_estimator_evicts_by_count_then_by_age() {
    let mut est = RealizedVolatilityEstimator::new(RealizedVolatilityEstimatorConfig {
        max_samples: 4,
        max_age_slots: u64::MAX,
        min_samples: 2,
    });
    for slot in 0u64..10 {
        est.record(PriceSample { price: 100 + slot, slot });
    }
    assert_eq!(est.sample_count(), 4);

    let mut est = RealizedVolatilityEstimator::new(RealizedVolatilityEstimatorConfig {
        max_samples: 1024,
        max_age_slots: 5,
        min_samples: 2,
    });
    est.record(PriceSample { price: 100, slot: 0 });
    est.record(PriceSample { price: 101, slot: 1 });
    est.record(PriceSample { price: 102, slot: 2 });
    est.record(PriceSample { price: 103, slot: 100 });
    assert_eq!(est.sample_count(), 1);
}

#[test]
fn vol_estimator_reset_clears_history() {
    let mut est = RealizedVolatilityEstimator::new(vol_config(2));
    est.record(PriceSample { price: 100, slot: 0 });
    est.record(PriceSample { price: 110, slot: 10 });
    assert!(est.is_warm());
    est.reset();
    assert_eq!(est.sample_count(), 0);
    assert!(!est.is_warm());
}

struct StubBotEnv {
    view: StubView,
    executor: DryRunExecutor,
}

impl StubBotEnv {
    fn new(view: StubView) -> Self {
        Self {
            view,
            executor: DryRunExecutor::new(),
        }
    }
}

fn vol_config_with(min: usize) -> RealizedVolatilityEstimatorConfig {
    RealizedVolatilityEstimatorConfig {
        min_samples: min,
        max_samples: 256,
        max_age_slots: 100_000,
    }
}

fn silent(
    _window: &RealizedVolatilityEstimator,
    _tune: bool,
    _view: &StubView,
) -> (bool, Vec<RotatePrediction>) {
    (false, vec![])
}

fn realised(window: &RealizedVolatilityEstimator, slots_per_second: f64) -> Option<f64> {
    if !window.is_warm() {
        return None;
    }
    let mut sum_r2 = 0.0;
    let mut sum_years = 0.0;
    for pair in window.samples().windows(2) {
        let r = (pair[1].price as f64).ln() - (pair[0].price as f64).ln();
        sum_r2 += r * r;
        sum_years +=
            (pair[1].slot - pair[0].slot) as f64 / slots_per_second / (365.0 * 24.0 * 3600.0);
    }
    Some((sum_r2 / sum_years).sqrt().clamp(0.05, 5.0))
}

fn tuned(
    annual_vol: &Cell<f64>,
    window: &RealizedVolatilityEstimator,
    tune: bool,
) -> (bool, Vec<RotatePrediction>) {
    match realised(window, 2.5) {
        Some(sigma) if tune => {
            annual_vol.set(sigma);
            (true, vec![])
        }
        _ => (false, vec![]),
    }
}

#[test]
fn keeper_loop_auto_tunes_predictor_after_estimator_warms() {
    let mut env = StubBotEnv::new(StubView::new(vec![]));
    let mut keeper = KeeperLoop::new(
        KeeperLoopConfig::default(),
        Scheduler::new(SchedulerConfig::default()),
        RealizedVolatilityEstimator::new(vol_config_with(8)),
    );
    let annual_vol = Cell::new(0.10);
    let model = |window: &RealizedVolatilityEstimator, tune: bool, _view: &StubView| {
        tuned(&annual_vol, window, tune)
    };
    for slot in 0..4 {
        let sample = PriceSample { price: 100 + slot * 7, slot: slot * 100 };
        let out =
            keeper.tick(Some(sample), &model, &env.view, &mut env.executor).expect("tick");
        assert!(!out.metrics.vol_estimator_applied);
    }
    let pre = annual_vol.get();
    assert!((pre - 0.10).abs() < 1e-9);
    for slot in 4..16 {
        let sample = PriceSample { price: 100 + slot * 7, slot: slot * 100 };
        keeper.tick(Some(sample), &model, &env.view, &mut env.executor).expect("tick");
    }
    let post = annual_vol.get();
    assert_ne!(post, pre, "warm estimator must overwrite annual_vol");
    assert!(post > 0.0);
}

#[test]
fn keeper_loop_auto_tune_off_pins_predictor() {
    let mut env = StubBotEnv::new(StubView::new(vec![]));
    let mut keeper = KeeperLoop::new(
        KeeperLoopConfig {
            run_predictor: false,
            auto_tune_vol: false,
        },
        Scheduler::new(SchedulerConfig::default()),
        RealizedVolatilityEstimator::new(vol_config_with(2)),
    );
    let annual_vol = Cell::new(0.42);
    let model = |window: &RealizedVolatilityEstimator, tune: bool, _view: &StubView| {
        tuned(&annual_vol, window, tune)
    };
    for slot in 0..8 {
        let sample = PriceSample { price: 100 + slot * 7, slot: slot * 100 };
        keeper.tick(Some(sample), &model, &env.view, &mut env.executor).expect("tick");
    }
    assert_eq!(annual_vol.get(), 0.42);
    assert!(
        realised(keeper.vol_estimator(), 2.5).is_some(),
        "estimator did warm up but auto-tune is off, so predictor stayed pinned"
    );
}

#[test]
fn populate_scheduler_no_health_silently_skips() {
    let view = StubView::new(vec![0]);
    let mut sched = Scheduler::default();
    let preds = populate_scheduler(&view, &mut sched, &|h: &SubPoolHealth, d: Direction| {
        Some(rotate_prediction(h, d, 99, 1, 1))
    });
    assert!(preds.is_empty());
    assert_eq!(sched.pending_init_hint_count(), 0);
}

#[test]
fn keeper_loop_idle_tick_produces_zero_actions() {
    let mut env = StubBotEnv::new(StubView::new(vec![]));
    let mut keeper = KeeperLoop::new(
        KeeperLoopConfig::default(),
        Scheduler::new(SchedulerConfig::default()),
        RealizedVolatilityEstimator::new(vol_config_with(5)),
    );
    let outcome = keeper.tick(None, &silent, &env.view, &mut env.executor).expect("idle tick succeeds");
    assert_eq!(outcome.metrics, KeeperLoopMetrics::default());
    assert!(outcome.dispatched.is_empty());
}

#[test]
fn keeper_loop_dispatches_pending_init_hint() {
    let view = StubView::new(vec![0]);
    let mut env = StubBotEnv::new(view);
    let mut keeper = KeeperLoop::new(
        KeeperLoopConfig {
            run_predictor: false,
            auto_tune_vol: false,
        },
        Scheduler::new(SchedulerConfig::default()),
        RealizedVolatilityEstimator::new(vol_config_with(5)),
    );
    keeper.scheduler_mut().record_init_hint(
        0,
        Direction::Long,
        7,
        InitRationale::Explicit,
    );

    let outcome = keeper.tick(None, &silent, &env.view, &mut env.executor).expect("tick");
    assert_eq!(outcome.metrics.actions_planned, 1);
    assert_eq!(outcome.metrics.actions_submitted, 1);
    assert_eq!(outcome.metrics.actions_failed, 0);
    assert_eq!(outcome.metrics.actions_skipped, 0);
    assert_eq!(outcome.metrics.init_hints_recorded, 0);
    assert_eq!(outcome.dispatched.len(), 1);
    assert!(matches!(
        outcome.dispatched[0].0,
        KeeperAction::InitDormantBucket { sub_pool_id: 0, direction: Direction::Long, tick: 7, .. }
    ));
    assert_eq!(env.executor.log().len(), 1);
}

#[test]
fn keeper_loop_records_partial_failure_metrics() {
    struct FlakyExecutor {
        n: usize,
    }
    impl ActionExecutor for FlakyExecutor {
        fn execute(&mut self, _action: KeeperAction) -> ActionDispatchResult {
            self.n += 1;
            if self.n % 2 == 0 {
                ActionDispatchResult::Failed {
                    reason: "simulated failure".to_string(),
                }
            } else {
                ActionDispatchResult::Submitted { signature: None }
            }
        }
    }

    let view = StubView::new(vec![0]);
    let mut executor = FlakyExecutor { n: 0 };

    let mut keeper = KeeperLoop::new(
        KeeperLoopConfig {
            run_predictor: false,
            auto_tune_vol: false,
        },
        Scheduler::new(SchedulerConfig::default()),
        RealizedVolatilityEstimator::new(vol_config_with(5)),
    );
    for tick in 0..4 {
        keeper.scheduler_mut().record_init_hint(
            0,
            Direction::Long,
            tick as i64,
            InitRationale::Explicit,
        );
    }
    let outcome = keeper.tick(None, &silent, &view, &mut executor).expect("tick");
    assert_eq!(outcome.metrics.actions_planned, 4);
    assert_eq!(outcome.metrics.actions_submitted, 2);
    assert_eq!(outcome.metrics.actions_failed, 2);
    assert_eq!(outcome.metrics.actions_skipped, 0);
}

#[test]
fn keeper_loop_metrics_merge_is_field_wise() {
    let a = KeeperLoopMetrics {
        price_samples_recorded: 1,
        init_hints_recorded: 2,
        actions_planned: 3,
        actions_submitted: 2,
        actions_failed: 1,
        actions_skipped: 0,
        vol_estimator_applied: false,
    };
    let b = KeeperLoopMetrics {
        price_samples_recorded: 1,
        init_hints_recorded: 1,
        actions_planned: 1,
        actions_submitted: 0,
        actions_failed: 0,
        actions_skipped: 1,
        vol_estimator_applied: true,
    };
    let merged = a.merge(b);
    assert_eq!(merged.price_samples_recorded, 2);
    assert_eq!(merged.init_hints_recorded, 3);
    assert_eq!(merged.actions_planned, 4);
    assert_eq!(merged.actions_submitted, 2);
    assert_eq!(merged.actions_failed, 1);
    assert_eq!(merged.actions_skipped, 1);
    assert!(merged.vol_estimator_applied);
}

struct HealthView {
    health: SubPoolHealth,
}

impl KeeperChainView for HealthView {
    fn sub_pool_ids(&self) -> Vec<u32> {
        vec![self.health.sub_pool_id]
    }
    fn buckets(&self, _sub_pool_id: u32) -> Vec<BucketSnapshot> {
        vec![]
    }
    fn ledger(&self, sub_pool_id: u32, direction: Direction) -> Option<LedgerSnapshot> {
        Some(LedgerSnapshot {
            sub_pool_id,
            direction,
            next_event_index: 0,
            bucket_count_hint: 0,
        })
    }
    fn sub_pool_health(&self, sub_pool_id: u32) -> Option<SubPoolHealth> {
        if sub_pool_id == self.health.sub_pool_id {
            Some(self.health)
        } else {
            None
        }
    }
}

fn health(
    sub: u32,
    last_price: u64,
    long_eq: u128,
    short_eq: u128,
    long_notional: u128,
    short_notional: u128,
) -> SubPoolHealth {
    SubPoolHealth {
        sub_pool_id: sub,
        last_price,
        long_anchor_price: last_price,
        short_anchor_price: last_price,
        long_pool_equity: long_eq,
        short_pool_equity: short_eq,
        long_active_notional: long_notional,
        short_active_notional: short_notional,
        long_active_generation: 1,
        short_active_generation: 1,
    }
}

#[test]
fn populate_scheduler_drives_init_hints_into_plan() {
    let view = HealthView {
        health: health(7, 100, 100, 100, 10_000, 10_000),
    };
    let mut sched = Scheduler::default();
    let preds = populate_scheduler(&view, &mut sched, &|h: &SubPoolHealth, d: Direction| {
        let side = side_exposure(h, d)?;
        let ratio = side.equity as f64 / side.notional as f64;
        let anchor = side.anchor_price as f64;
        let zero_price = match d {
            Direction::Long => anchor * (1.0 - ratio),
            Direction::Short => anchor * (1.0 + ratio),
        };
        Some(rotate_prediction(h, d, zero_price.round() as u64, 1, 1))
    });
    assert!(!preds.is_empty(), "predictor must surface at least one tick");
    assert_eq!(sched.pending_init_hint_count(), preds.len());

    let actions = sched.plan(&view).unwrap();
    let init_count = actions
        .iter()
        .filter(|a| matches!(a, KeeperAction::InitDormantBucket { rationale, .. } if *rationale == InitRationale::RotateRiskHorizon))
        .count();
    assert_eq!(
        init_count, preds.len(),
        "every prediction must surface as an Init action"
    );
    assert_eq!(sched.pending_init_hint_count(), 0);
}

fn always(h: &SubPoolHealth, direction: Direction) -> Option<RotatePrediction> {
    Some(rotate_prediction(h, direction, h.last_price, 1, 1))
}

#[test]
fn predictor_skips_overcollateralised_long_pool() {
    let h = health(0, 100, 10_000, 1_000, 10_000, 10_000);
    let preds = predict_one(&h, &always);
    assert!(preds.iter().all(|p| p.direction != Direction::Long));
    assert_eq!(preds.len(), 1);
    assert_eq!(side_exposure(&h, Direction::Long), None);

    let below = health(0, 100, 9_999, 20_000, 10_000, 10_000);
    let sides: Vec<Direction> = predict_one(&below, &always).iter().map(|p| p.direction).collect();
    assert_eq!(sides, vec![Direction::Long, Direction::Short]);
}

#[test]
fn predictor_skips_empty_pool() {
    let h = health(0, 100, 0, 0, 0, 0);
    assert_eq!(side_exposure(&h, Direction::Long), None);
    assert_eq!(side_exposure(&h, Direction::Short), None);
    assert!(predict_one(&h, &always).is_empty());
}

#[test]
fn side_exposure_reads_the_side_it_is_asked_about() {
    let mut h = health(0, 100, 1, 2, 3, 4);
    h.long_anchor_price = 90;
    h.short_anchor_price = 110;
    assert_eq!(
        side_exposure(&h, Direction::Long),
        Some(SideExposure { anchor_price: 90, equity: 1, notional: 3 })
    );
    assert_eq!(
        side_exposure(&h, Direction::Short),
        Some(SideExposure { anchor_price: 110, equity: 2, notional: 4 })
    );
    h.short_anchor_price = 0;
    assert_eq!(side_exposure(&h, Direction::Short), None);
    h.last_price = 0;
    assert_eq!(side_exposure(&h, Direction::Long), None);
}
