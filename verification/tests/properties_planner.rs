use std::cell::Cell;

use keeper::planner::cycle::{
    count_answers, execute_plan, ActionDispatchResult, ActionExecutor, DryRunExecutor, KeeperLoop,
    KeeperLoopConfig, KeeperLoopMetrics,
};
use keeper::planner::predictor::{predict_all, predict_one};
use keeper::planner::scheduler::{Scheduler, SchedulerConfig};
use keeper::planner::volatility::{
    price_to_tick, rotate_prediction, PriceSample, RealizedVolatilityEstimator,
    RealizedVolatilityEstimatorConfig, RotatePrediction,
};
use keeper::planner::{
    BucketSnapshot, Direction, InitRationale, KeeperAction, KeeperChainView, KeeperError,
    LedgerSnapshot, SubPoolHealth,
};

struct View {
    buckets: Vec<BucketSnapshot>,
    heads: Vec<(u32, Direction, u64)>,
}

impl KeeperChainView for View {
    fn sub_pool_ids(&self) -> Vec<u32> {
        let mut ids: Vec<u32> = self.heads.iter().map(|h| h.0).collect();
        ids.extend(self.buckets.iter().map(|b| b.sub_pool_id));
        ids.sort();
        ids.dedup();
        ids
    }
    fn buckets(&self, sub_pool_id: u32) -> Vec<BucketSnapshot> {
        self.buckets.iter().filter(|b| b.sub_pool_id == sub_pool_id).copied().collect()
    }
    fn ledger(&self, sub_pool_id: u32, direction: Direction) -> Option<LedgerSnapshot> {
        self.heads.iter().find(|h| h.0 == sub_pool_id && h.1 == direction).map(|h| LedgerSnapshot {
            sub_pool_id,
            direction,
            next_event_index: h.2,
            bucket_count_hint: 0,
        })
    }
}

fn bucket(sub: u32, direction: Direction, tick: i64, applied: u64, shares: u128) -> BucketSnapshot {
    BucketSnapshot {
        sub_pool_id: sub,
        direction,
        tick,
        anchor_price: 100,
        total_recovery_shares: shares,
        total_recovery_notional: shares,
        accrued_value: 0,
        position_count: if shares == 0 { 0 } else { 1 },
        last_applied_index: applied,
    }
}

fn both(sub: u32, long: u64, short: u64) -> Vec<(u32, Direction, u64)> {
    vec![(sub, Direction::Long, long), (sub, Direction::Short, short)]
}

#[test]
fn every_bucket_with_pending_entries_is_planned() {
    let mut heads = both(0, 10, 20);
    heads.extend(both(1, 5, 5));
    let view = View {
        buckets: vec![
            bucket(0, Direction::Long, 1, 4, 9),
            bucket(0, Direction::Short, 1, 0, 9),
            bucket(1, Direction::Long, 2, 5, 9),
            bucket(1, Direction::Short, -3, 5, 0),
        ],
        heads,
    };
    let plan = Scheduler::default().plan(&view).unwrap();
    assert_eq!(
        plan,
        vec![
            KeeperAction::PreSyncDormantBucket {
                sub_pool_id: 0,
                direction: Direction::Short,
                tick: 1,
                pending: 20,
            },
            KeeperAction::PreSyncDormantBucket {
                sub_pool_id: 0,
                direction: Direction::Long,
                tick: 1,
                pending: 6,
            },
            KeeperAction::CloseDormantBucket {
                sub_pool_id: 1,
                direction: Direction::Short,
                tick: -3,
            },
        ]
    );
    for pair in plan.windows(2) {
        assert!(pair[0].priority() >= pair[1].priority());
    }
}

#[test]
fn drained_live_bucket_is_left_alone() {
    let view = View { buckets: vec![bucket(0, Direction::Long, 1, 10, 9)], heads: both(0, 10, 0) };
    assert!(Scheduler::default().plan(&view).unwrap().is_empty());
}

#[test]
fn bucket_without_a_ledger_is_an_error() {
    let view = View { buckets: vec![bucket(3, Direction::Long, 1, 10, 9)], heads: vec![] };
    let err = Scheduler::default().plan(&view).unwrap_err();
    assert_eq!(err, KeeperError::MissingLedger { sub_pool: 3, direction: Direction::Long });
    assert_eq!(err.to_string(), "chain view: missing ledger for (3, Long)");
}

#[test]
fn errors_of_the_planner_have_texts() {
    let view = View { buckets: vec![bucket(0, Direction::Short, -5, 9, 9)], heads: both(0, 0, 3) };
    let err = Scheduler::default().plan(&view).unwrap_err();
    assert_eq!(
        err.to_string(),
        "invariant violated: bucket last_applied_index (9) > ledger next_event_index (3) for (0, Short, tick=-5)"
    );
}

#[test]
fn urgency_goes_by_kind() {
    let init = KeeperAction::InitDormantBucket {
        sub_pool_id: 0,
        direction: Direction::Long,
        tick: 0,
        rationale: InitRationale::Explicit,
    };
    let sync = |pending: u64| KeeperAction::PreSyncDormantBucket {
        sub_pool_id: 0,
        direction: Direction::Long,
        tick: 0,
        pending,
    };
    let close =
        KeeperAction::CloseDormantBucket { sub_pool_id: 0, direction: Direction::Long, tick: 0 };
    assert_eq!(init.priority(), u64::MAX);
    assert_eq!(sync(7).priority(), 10_000_007);
    for pending in [1_000_000_000, u64::MAX - 10_000_001, u64::MAX - 10_000_000, u64::MAX] {
        assert!(init.priority() > sync(pending).priority());
    }
    assert_eq!(sync(u64::MAX).priority(), u64::MAX - 1);
    assert_eq!(close.priority(), 1);
}

#[test]
fn dead_means_that_nothing_is_left() {
    assert!(bucket(0, Direction::Long, 0, 0, 0).is_dead());
    assert!(!bucket(0, Direction::Long, 0, 0, 1).is_dead());
}

#[test]
fn hints_are_recorded_once_and_cancelled() {
    let mut s = Scheduler::new(SchedulerConfig::default());
    s.record_init_hint(0, Direction::Long, 5, InitRationale::RotateRiskHorizon);
    s.record_init_hint(0, Direction::Long, 5, InitRationale::Explicit);
    assert_eq!(s.pending_init_hint_count(), 1);
    s.cancel_init_hint(0, Direction::Short, 5);
    assert_eq!(s.pending_init_hint_count(), 1);
    let view = View { buckets: vec![], heads: both(0, 0, 0) };
    let mut other = s.clone();
    assert_eq!(
        other.plan(&view).unwrap(),
        vec![KeeperAction::InitDormantBucket {
            sub_pool_id: 0,
            direction: Direction::Long,
            tick: 5,
            rationale: InitRationale::Explicit,
        }]
    );
    assert!(other.plan(&view).unwrap().is_empty());
    s.cancel_init_hint(0, Direction::Long, 5);
    assert_eq!(s.pending_init_hint_count(), 0);
}

#[test]
fn settings_of_the_scheduler_can_be_replaced() {
    let mut s = Scheduler::default();
    assert_eq!(s.config().min_pending_for_pre_sync, 1);
    assert_eq!(s.config().max_actions_per_plan, 0);
    assert!(s.config().close_dead_buckets);
    let mut config = *s.config();
    config.max_actions_per_plan = 2;
    s.set_config(config);
    assert_eq!(s.config().max_actions_per_plan, 2);
}

#[test]
fn window_keeps_recent_samples_in_order() {
    let mut est = RealizedVolatilityEstimator::new(RealizedVolatilityEstimatorConfig {
        max_samples: 3,
        max_age_slots: 10,
        min_samples: 2,
    });
    for (price, slot) in [(5u64, 1u64), (6, 4), (0, 5), (7, 4), (8, 9), (9, 11), (1, 20)] {
        est.record(PriceSample { price, slot });
    }
    let slots: Vec<u64> = est.samples().iter().map(|s| s.slot).collect();
    assert_eq!(slots, vec![11, 20]);
    assert!(est.is_warm());
    assert_eq!(est.config().max_samples, 3);
}

#[test]
fn prices_fall_on_the_tick_grid() {
    assert_eq!(price_to_tick(99, 0, 10), 0);
    assert_eq!(price_to_tick(99, 10, 0), 9);
    let h = SubPoolHealth {
        sub_pool_id: 4,
        last_price: 100,
        long_anchor_price: 100,
        short_anchor_price: 100,
        long_pool_equity: 1,
        short_pool_equity: 1,
        long_active_notional: 1,
        short_active_notional: 1,
        long_active_generation: 0,
        short_active_generation: 0,
    };
    assert_eq!(
        rotate_prediction(&h, Direction::Short, 105, 5, 2),
        RotatePrediction {
            sub_pool_id: 4,
            direction: Direction::Short,
            zero_price: 105,
            zero_tick: 10,
        }
    );
}

struct Fussy;

impl ActionExecutor for Fussy {
    fn execute(&mut self, action: KeeperAction) -> ActionDispatchResult {
        match action {
            KeeperAction::InitDormantBucket { .. } => {
                ActionDispatchResult::Skipped { reason: "no" }
            }
            KeeperAction::PreSyncDormantBucket { .. } => {
                ActionDispatchResult::Failed { reason: "down".to_string() }
            }
            KeeperAction::CloseDormantBucket { .. } => {
                ActionDispatchResult::Submitted { signature: Some("s".to_string()) }
            }
        }
    }
}

#[test]
fn answers_add_up() {
    let close =
        KeeperAction::CloseDormantBucket { sub_pool_id: 0, direction: Direction::Long, tick: 0 };
    let sync = KeeperAction::PreSyncDormantBucket {
        sub_pool_id: 0,
        direction: Direction::Long,
        tick: 0,
        pending: 1,
    };
    let init = KeeperAction::InitDormantBucket {
        sub_pool_id: 0,
        direction: Direction::Long,
        tick: 0,
        rationale: InitRationale::Explicit,
    };
    let plan = vec![close, sync, init, close];
    let answers = execute_plan(&plan, &mut Fussy);
    assert_eq!(answers.iter().map(|a| a.0).collect::<Vec<_>>(), plan);
    assert_eq!(count_answers(&answers), (2, 1, 1));
    assert_eq!(answers[2].1.duplicate(), answers[2].1);
    let mut dry = DryRunExecutor::new();
    execute_plan(&plan, &mut dry);
    assert_eq!(dry.drain(), plan);
}

#[test]
fn merging_with_nothing_changes_nothing() {
    let a = KeeperLoopMetrics {
        price_samples_recorded: 1,
        init_hints_recorded: 2,
        actions_planned: 3,
        actions_submitted: 2,
        actions_failed: 1,
        actions_skipped: 0,
        vol_estimator_applied: true,
    };
    assert_eq!(a.merge(KeeperLoopMetrics::default()), a);
    assert_eq!(KeeperLoopMetrics::default().merge(a), a);
}

#[test]
fn pass_records_predictions_and_prices() {
    let mut keeper = KeeperLoop::new(
        KeeperLoopConfig::default(),
        Scheduler::default(),
        RealizedVolatilityEstimator::default(),
    );
    let view = View { buckets: vec![], heads: both(0, 0, 0) };
    let predictions = vec![RotatePrediction {
        sub_pool_id: 0,
        direction: Direction::Long,
        zero_price: 9,
        zero_tick: 9,
    }];
    let mut dry = DryRunExecutor::new();
    let asked = Cell::new((0usize, false));
    let model = |window: &RealizedVolatilityEstimator, tune: bool, _view: &View| {
        asked.set((window.sample_count(), tune));
        (true, predictions.clone())
    };
    let sample = PriceSample { price: 5, slot: 1 };
    let outcome = keeper.tick(Some(sample), &model, &view, &mut dry).unwrap();
    assert_eq!(asked.get(), (1, true));
    assert_eq!(
        outcome.metrics,
        KeeperLoopMetrics {
            price_samples_recorded: 1,
            init_hints_recorded: 1,
            actions_planned: 1,
            actions_submitted: 1,
            actions_failed: 0,
            actions_skipped: 0,
            vol_estimator_applied: true,
        }
    );
    let mut config = *keeper.config();
    config.run_predictor = false;
    config.auto_tune_vol = false;
    keeper.set_config(config);
    let outcome = keeper.tick(None, &model, &view, &mut dry).unwrap();
    assert_eq!(asked.get(), (1, false));
    assert_eq!(outcome.metrics, KeeperLoopMetrics::default());
    assert_eq!(keeper.scheduler().pending_init_hint_count(), 0);
    config.run_predictor = true;
    keeper.set_config(config);
    let outcome = keeper.carry_out(1, true, &predictions, &view, &mut dry).unwrap();
    assert_eq!(outcome.metrics.init_hints_recorded, 1);
    assert!(!outcome.metrics.vol_estimator_applied);
}

#[test]
fn hints_cut_off_by_the_limit_are_planned_later() {
    let config = SchedulerConfig { max_actions_per_plan: 1, ..SchedulerConfig::default() };
    let mut s = Scheduler::new(config);
    for tick in [1, 2] {
        s.record_init_hint(0, Direction::Long, tick, InitRationale::Explicit);
    }
    let view = View { buckets: vec![], heads: both(0, 0, 0) };
    let first = s.plan(&view).unwrap();
    assert_eq!((first.len(), s.pending_init_hint_count()), (1, 1));
    let second = s.plan(&view).unwrap();
    assert_eq!((second.len(), s.pending_init_hint_count()), (1, 0));
    assert_ne!(first, second);
    assert!(s.plan(&view).unwrap().is_empty());
}

#[test]
fn model_is_asked_about_both_sides_of_known_sub_pools() {
    struct Pools;
    impl KeeperChainView for Pools {
        fn sub_pool_ids(&self) -> Vec<u32> {
            vec![3, 5, 8]
        }
        fn buckets(&self, _sub_pool_id: u32) -> Vec<BucketSnapshot> {
            vec![]
        }
        fn ledger(&self, _sub_pool_id: u32, _direction: Direction) -> Option<LedgerSnapshot> {
            None
        }
        fn sub_pool_health(&self, sub_pool_id: u32) -> Option<SubPoolHealth> {
            (sub_pool_id != 5).then(|| SubPoolHealth {
                sub_pool_id,
                last_price: 100,
                long_anchor_price: 100,
                short_anchor_price: 100,
                long_pool_equity: 1,
                short_pool_equity: 1,
                long_active_notional: 2,
                short_active_notional: 2,
                long_active_generation: 1,
                short_active_generation: 1,
            })
        }
    }
    let model = |h: &SubPoolHealth, d: Direction| {
        if h.sub_pool_id == 8 && d == Direction::Long {
            return None;
        }
        Some(RotatePrediction {
            sub_pool_id: h.sub_pool_id,
            direction: d,
            zero_price: 50,
            zero_tick: 50,
        })
    };
    let all = predict_all(&Pools, &model);
    let asked: Vec<(u32, Direction)> = all.iter().map(|p| (p.sub_pool_id, p.direction)).collect();
    assert_eq!(
        asked,
        vec![(3, Direction::Long), (3, Direction::Short), (8, Direction::Short)]
    );
    let one = predict_one(&Pools.sub_pool_health(8).unwrap(), &model);
    assert_eq!(one.len(), 1);
}

#[test]
fn error_of_the_planner_carries_nothing_out() {
    let mut keeper = KeeperLoop::new(
        KeeperLoopConfig::default(),
        Scheduler::default(),
        RealizedVolatilityEstimator::default(),
    );
    let view = View {
        buckets: vec![bucket(0, Direction::Long, 1, 9, 9), bucket(0, Direction::Short, 1, 0, 0)],
        heads: both(0, 3, 0),
    };
    let mut dry = DryRunExecutor::new();
    let model =
        |_window: &RealizedVolatilityEstimator, _tune: bool, _view: &View| (false, vec![]);
    assert!(keeper.tick(None, &model, &view, &mut dry).is_err());
    assert!(dry.log().is_empty());
}

fn carry_out(view: &View, plan: &[KeeperAction]) -> View {
    let mut buckets = view.buckets.clone();
    for action in plan {
        match *action {
            KeeperAction::PreSyncDormantBucket { sub_pool_id, direction, tick, pending } => {
                for b in buckets.iter_mut() {
                    if (b.sub_pool_id, b.direction, b.tick) == (sub_pool_id, direction, tick) {
                        b.last_applied_index += pending;
                    }
                }
            }
            KeeperAction::CloseDormantBucket { sub_pool_id, direction, tick } => {
                buckets.retain(|b| (b.sub_pool_id, b.direction, b.tick) != (sub_pool_id, direction, tick));
            }
            KeeperAction::InitDormantBucket { .. } => {}
        }
    }
    View { buckets, heads: view.heads.clone() }
}

#[test]
fn carrying_plans_out_drains_the_queue() {
    let mut heads = both(0, 10, 20);
    heads.extend(both(1, 5, 5));
    let view = View {
        buckets: vec![
            bucket(0, Direction::Long, 1, 4, 9),
            bucket(0, Direction::Short, 1, 0, 0),
            bucket(1, Direction::Long, 2, 5, 9),
            bucket(1, Direction::Short, -3, 5, 0),
        ],
        heads,
    };
    let mut scheduler = Scheduler::default();
    let first = scheduler.plan(&view).unwrap();
    assert_eq!(first.len(), 3);
    let view = carry_out(&view, &first);
    let second = scheduler.plan(&view).unwrap();
    assert_eq!(
        second,
        vec![KeeperAction::CloseDormantBucket {
            sub_pool_id: 0,
            direction: Direction::Short,
            tick: 1,
        }]
    );
    let view = carry_out(&view, &second);
    assert!(scheduler.plan(&view).unwrap().is_empty());
}

#[test]
fn no_bucket_is_planned_twice() {
    let view = View {
        buckets: (0..6).map(|t| bucket(0, Direction::Long, t, t as u64, 1)).collect(),
        heads: both(0, 10, 0),
    };
    let mut scheduler = Scheduler::default();
    for tick in 4..9 {
        scheduler.record_init_hint(0, Direction::Long, tick, InitRationale::Explicit);
    }
    let plan = scheduler.plan(&view).unwrap();
    let mut ticks: Vec<i64> = plan
        .iter()
        .map(|a| match *a {
            KeeperAction::PreSyncDormantBucket { tick, .. }
            | KeeperAction::CloseDormantBucket { tick, .. }
            | KeeperAction::InitDormantBucket { tick, .. } => tick,
        })
        .collect();
    ticks.sort();
    assert_eq!(ticks, (0..9).collect::<Vec<i64>>());
}
