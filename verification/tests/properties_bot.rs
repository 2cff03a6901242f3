use keeper::bot::cli::{
    parse_args, parse_number, serve_registry, slot_for, CliError, Mode,
};
use keeper::bot::leader::{HostMirrorLeaderPolicy, LeaderPolicy};
use keeper::bot::metrics::{
    format_label_block, KeeperMetrics, LeaderStatus, APPLIED_VOL_NOT_WARM,
};
use keeper::bot::multi::{
    all_finished, collect_outcomes, finish_at_limit, promote_worst, MarketRegistry, MarketSlot,
    MultiMarketRunConfig,
};
use keeper::bot::run::{
    accept_lock, cadence_due, heartbeat_if_due, loop_exit, open_gated_tick, reconcile_if_due,
    settle_error, settle_tick, LeaderRpcReconcileConfig, LoopOutcome, LoopStep,
    LoopTerminationReason, MarketSlotState, RunLoopConfig, TickGate,
};
use keeper::bot::serve::{
    first_request_line, render_response, request_complete, request_line, request_too_large, route,
    Route,
    MAX_REQUEST_BYTES,
};
use keeper::bot::{refresh_snapshot, BotConfig, BotError, KeeperBot, TickReport};
use keeper::decoder::ix::account_discriminator;
use keeper::decoder::leader_lock::{
    encode_keeper_leader_lock_account, HeartbeatOutcome, KeeperLeaderLock,
};
use keeper::decoder::Pubkey32;
use keeper::planner::cycle::ActionDispatchResult;
use keeper::planner::volatility::{RealizedVolatilityEstimator, RotatePrediction};
use keeper::planner::{Direction, KeeperAction, KeeperError};
use keeper::rpc::fetcher::{MockAccountFetcher, RpcError};
use keeper::rpc::leader_tx::{LeaderReconcileError, MockKeeperLeaderTxBuilder};
use keeper::rpc::market_registry::MarketRegistry as MarketList;
use keeper::rpc::snapshot::{ChainSnapshot, MarketContext, SnapshotConfig, SnapshotError};
use keeper::rpc::tx::MockTxBuilder;

const ALICE: Pubkey32 = [0xa1; 32];
const BOB: Pubkey32 = [0xb0; 32];
const LOCK: Pubkey32 = [7; 32];

fn context() -> MarketContext {
    MarketContext {
        program_id: [9; 32],
        market: [1; 32],
        market_symbol: [0; 16],
        sub_pools: vec![],
    }
}

fn slot(label: &str) -> MarketSlot {
    MarketSlot {
        label: label.to_string(),
        ctx: context(),
        rpc_cfg: LeaderRpcReconcileConfig::default(),
        bot: KeeperBot::new(BotConfig::default()),
        metrics: KeeperMetrics::new(),
        policy: HostMirrorLeaderPolicy::new(ALICE, KeeperLeaderLock::fresh(0, 75)),
        state: MarketSlotState::default(),
    }
}

fn transport() -> BotError {
    BotError::Snapshot(SnapshotError::Rpc(RpcError::Transport("down".to_string())))
}

#[test]
fn status_numbers_are_read_back() {
    for s in [LeaderStatus::Unknown, LeaderStatus::Leader, LeaderStatus::Standby] {
        assert_eq!(LeaderStatus::from_u8(s.to_u8()), s);
    }
    assert_eq!(LeaderStatus::from_u8(77), LeaderStatus::Unknown);
}

#[test]
fn label_blocks_are_escaped() {
    assert_eq!(format_label_block(&[]), "");
    assert_eq!(format_label_block(&[("a", "b"), ("c", "d")]), "{a=\"b\",c=\"d\"}");
    let odd = format_label_block(&[("a", "x\"y\\z\nw")]);
    assert!(!odd.contains('\n'));
    assert_eq!(odd, "{a=\"x\\\"y\\\\zw\"}");
}

#[test]
fn tick_counts_every_task() {
    let task =
        KeeperAction::CloseDormantBucket { sub_pool_id: 0, direction: Direction::Long, tick: 0 };
    let report = TickReport {
        actions_planned: 3,
        dispatched: vec![
            (task, ActionDispatchResult::Submitted { signature: None }),
            (task, ActionDispatchResult::Failed { reason: "x".to_string() }),
            (task, ActionDispatchResult::Skipped { reason: "y" }),
        ],
        applied_vol_milli: Some(1_250),
        init_hints_added: 2,
    };
    let mut m = KeeperMetrics::new();
    m.observe_tick(&report, 5);
    m.observe_tick(&report, 6);
    assert_eq!(m.ticks_total, 2);
    assert_eq!(
        (m.actions_submitted_total, m.actions_failed_total, m.actions_skipped_total),
        (2, 2, 2)
    );
    assert_eq!((m.last_tick_duration_ms, m.last_applied_vol_milli), (6, 1_250));
    assert_eq!((m.init_hints_recorded_total, m.last_init_hints), (4, 2));
    assert!(m.render_json_snapshot().starts_with('{'));
}

#[test]
fn requests_end_with_an_empty_line() {
    assert!(!request_complete(b"GET / HTTP/1.1\r\n"));
    assert!(request_complete(b"GET / HTTP/1.1\r\n\r\n"));
    assert!(request_complete(b"GET /\n\nrest"));
    assert!(!request_complete(b""));
    assert!(!request_too_large(MAX_REQUEST_BYTES - 1));
    assert!(request_too_large(MAX_REQUEST_BYTES));
    assert_eq!(first_request_line("GET /\r\nHost: x\r\n"), Some("GET /".to_string()));
    assert_eq!(first_request_line(""), None);
}

#[test]
fn bytes_of_a_request_need_not_be_utf8() {
    assert_eq!(request_line(b"GET /metrics\r\nHost: x\r\n\r\n"), Some("GET /metrics".to_string()));
    assert_eq!(request_line(b""), None);
    assert_eq!(request_line("GET /\u{e9}\n".as_bytes()), Some("GET /\u{e9}".to_string()));
    assert_eq!(request_line(b"GET /\xff\nrest"), Some("GET /\u{fffd}".to_string()));
    assert_eq!(request_line(b"GET /metrics \xc3\n").map(|l| route(&l)), Some(Route::Metrics));
}

#[test]
fn routes() {
    assert_eq!(route("GET /metrics HTTP/1.1"), Route::Metrics);
    assert_eq!(route("  GET   /metrics?x=1"), Route::Metrics);
    assert_eq!(route("GET /metrics-multi"), Route::MetricsMulti);
    assert_eq!(route("GET /healthz"), Route::Healthz);
    assert_eq!(route("GET /"), Route::NotFound);
    assert_eq!(route("GET"), Route::NotFound);
    assert_eq!(route("POST /metrics"), Route::MethodNotAllowed);
    assert_eq!(route(""), Route::MethodNotAllowed);
}

#[test]
fn response_lengths_are_in_bytes() {
    let m = KeeperMetrics::new();
    for line in ["GET /metrics", "GET /healthz", "GET /x", "PUT /x"] {
        let response = render_response(line, &m);
        let (head, body) = response.split_once("\r\n\r\n").unwrap();
        assert!(head.contains(&format!("Content-Length: {}\r\n", body.len())));
    }
}

#[test]
fn loops_end_on_the_signal_or_the_limit() {
    assert_eq!(loop_exit(false, None, u64::MAX), None);
    assert_eq!(loop_exit(false, Some(3), 2), None);
    let at_limit = loop_exit(false, Some(3), 3).unwrap();
    assert_eq!(at_limit.reason, LoopTerminationReason::TickLimitReached);
    let told = loop_exit(true, Some(3), 3).unwrap();
    assert_eq!(
        told,
        LoopOutcome { reason: LoopTerminationReason::ShutdownSignal, ticks: 3, error: None }
    );
}

#[test]
fn errors_settle_by_their_kind() {
    let mut m = KeeperMetrics::new();
    assert_eq!(settle_error(&mut m, 4, transport()), LoopStep::Retry(transport()));
    let paused = BotError::Snapshot(SnapshotError::MarketPaused);
    assert_eq!(
        settle_error(&mut m, 4, paused.clone()),
        LoopStep::Stop(LoopOutcome {
            reason: LoopTerminationReason::PermanentError,
            ticks: 4,
            error: Some(paused),
        })
    );
    assert_eq!(m.snapshot_errors_total, 2);
    let mut ticks = 9;
    let planner = BotError::Scheduler(KeeperError::MissingLedger {
        sub_pool: 0,
        direction: Direction::Long,
    });
    assert!(!planner.to_string().is_empty());
    assert!(matches!(settle_tick(&mut m, 3, &mut ticks, Err(planner), 1), LoopStep::Stop(_)));
    assert_eq!(ticks, 9);
    let report = TickReport {
        actions_planned: 0,
        dispatched: vec![],
        applied_vol_milli: None,
        init_hints_added: 0,
    };
    assert_eq!(settle_tick(&mut m, 3, &mut ticks, Ok(report), 1), LoopStep::Continue);
    assert_eq!((ticks, m.ticks_total, m.vol_samples), (10, 1, 3));
}

#[test]
fn cadence_counts_ticks() {
    assert!(cadence_due(5, None, 0));
    assert!(!cadence_due(5, Some(10), 14));
    assert!(cadence_due(5, Some(10), 15));
    assert!(!cadence_due(5, Some(10), 3));
    assert!(cadence_due(0, Some(10), 3));
}

#[test]
fn lock_that_was_read_is_mirrored() {
    let mut policy = HostMirrorLeaderPolicy::new(ALICE, KeeperLeaderLock::fresh(0, 75));
    let mut state = MarketSlotState::default();
    state.ticks = 4;
    let down = LeaderReconcileError::Rpc(RpcError::Transport("x".to_string()));
    accept_lock(&mut policy, &mut state, Err(down));
    assert_eq!(state.last_reconcile_tick, None);
    accept_lock(&mut policy, &mut state, Err(LeaderReconcileError::NotFound(LOCK)));
    assert_eq!(state.last_reconcile_tick, Some(4));
    let held = KeeperLeaderLock::held_by(BOB, 3, 75);
    accept_lock(&mut policy, &mut state, Ok(held));
    assert_eq!(policy.snapshot(), held);
}

#[test]
fn lock_is_read_when_due() {
    let held = KeeperLeaderLock::held_by(BOB, 3, 75);
    let mut f = MockAccountFetcher::new();
    let raw = encode_keeper_leader_lock_account(&held, &account_discriminator("KeeperLeaderLock"));
    f.insert(LOCK, [9; 32], raw);
    let mut cfg = LeaderRpcReconcileConfig::default();
    cfg.lock_pda = LOCK;
    let mut policy = HostMirrorLeaderPolicy::new(ALICE, KeeperLeaderLock::fresh(0, 75));
    let mut state = MarketSlotState::default();
    cfg.reconcile_every = None;
    reconcile_if_due(&f, &cfg, &mut policy, &mut state);
    assert_eq!(state, MarketSlotState::default());
    cfg.reconcile_every = Some(20);
    reconcile_if_due(&f, &cfg, &mut policy, &mut state);
    assert_eq!(state.last_reconcile_tick, Some(0));
    assert_eq!(policy.snapshot(), held);
}

#[test]
fn heartbeats_keep_their_distance() {
    let mut cfg = LeaderRpcReconcileConfig::default();
    cfg.heartbeat_every = Some(5);
    let mut state = MarketSlotState::default();
    let mut builder = MockKeeperLeaderTxBuilder::new();
    for tick in 0..12 {
        state.ticks = tick;
        heartbeat_if_due(&cfg, &context(), ALICE, 100 + tick, &mut state, &mut builder);
        state.was_leader_last_tick = true;
    }
    assert_eq!(builder.submitted.len(), 3);
    assert_eq!(builder.submitted[1].data[8..], 105u64.to_le_bytes());
    state.was_leader_last_tick = false;
    heartbeat_if_due(&cfg, &context(), ALICE, 200, &mut state, &mut builder);
    assert_eq!(builder.submitted.len(), 4);
    builder.force_err = Some("down".to_string());
    state.ticks = 30;
    heartbeat_if_due(&cfg, &context(), ALICE, 200, &mut state, &mut builder);
    assert_eq!(state.last_heartbeat_tick, Some(11));
}

#[test]
fn at_most_one_keeper_submits() {
    let lock = KeeperLeaderLock::held_by(ALICE, 100, 75);
    for slot in [100u64, 150, 175] {
        let mut a = HostMirrorLeaderPolicy::new(ALICE, lock);
        let mut b = HostMirrorLeaderPolicy::new(BOB, lock);
        assert!(a.should_submit(slot));
        assert!(!b.should_submit(slot));
    }
    let mut a = HostMirrorLeaderPolicy::new(ALICE, lock);
    a.record_outcome(HeartbeatOutcome::RejectedHeldByOther {
        current_leader: BOB,
        slots_until_stale: 10,
    });
    assert!(!a.should_submit(110));
}

#[test]
fn transport_errors_are_retried() {
    let mut m = KeeperMetrics::new();
    let mut ticks = 0;
    let mut policy = HostMirrorLeaderPolicy::new(ALICE, KeeperLeaderLock::fresh(0, 75));
    let f = MockAccountFetcher::new();
    match open_gated_tick(&f, &context(), &mut policy, &mut m, &mut ticks) {
        TickGate::Stop(outcome) => {
            assert_eq!(
                outcome.error,
                Some(BotError::Snapshot(SnapshotError::MarketNotFound([1; 32])))
            );
        }
        other => panic!("expected a stop, got {other:?}"),
    }
    assert_eq!(m.snapshot_errors_total, 1);
    assert!(refresh_snapshot(&f, &context(), SnapshotConfig::default()).is_err());
}

#[test]
fn worst_reason_wins() {
    let order = [
        LoopTerminationReason::TickLimitReached,
        LoopTerminationReason::ShutdownSignal,
        LoopTerminationReason::PermanentError,
    ];
    for (i, a) in order.iter().enumerate() {
        for (j, b) in order.iter().enumerate() {
            assert_eq!(promote_worst(*a, *b), order[i.max(j)]);
        }
    }
}

#[test]
fn permanent_error_shows_in_the_outcome() {
    let mut registry = MarketRegistry::new();
    registry.add(slot("A")).unwrap();
    registry.add(slot("B")).unwrap();
    assert_eq!(registry.len(), 2);
    assert!(!registry.is_empty());
    assert!(!all_finished(&registry));
    registry.slots_mut()[0].state.finished = Some(LoopOutcome {
        reason: LoopTerminationReason::PermanentError,
        ticks: 7,
        error: Some(transport()),
    });
    finish_at_limit(&mut registry);
    assert!(all_finished(&registry));
    let outcome = collect_outcomes(&mut registry, 11);
    assert_eq!(outcome.passes, 11);
    assert_eq!(outcome.reason, LoopTerminationReason::PermanentError);
    assert_eq!(outcome.per_market[0].error, Some(transport()));
    assert_eq!(outcome.per_market[1].reason, LoopTerminationReason::TickLimitReached);
    assert!(!all_finished(&registry));
}

#[test]
fn overall_reason_is_the_worst_of_the_markets() {
    let mut registry = MarketRegistry::new();
    assert_eq!(
        collect_outcomes(&mut registry, 0).reason,
        LoopTerminationReason::ShutdownSignal
    );
    registry.add(slot("A")).unwrap();
    registry.add(slot("B")).unwrap();
    finish_at_limit(&mut registry);
    let outcome = collect_outcomes(&mut registry, 2);
    assert_eq!(outcome.reason, LoopTerminationReason::TickLimitReached);
    assert!(outcome.per_market.iter().all(|m| m.reason == outcome.reason));
    registry.slots_mut()[1].state.finished = Some(LoopOutcome {
        reason: LoopTerminationReason::TickLimitReached,
        ticks: 0,
        error: None,
    });
    let outcome = collect_outcomes(&mut registry, 2);
    assert_eq!(outcome.reason, LoopTerminationReason::ShutdownSignal);
}

#[test]
fn control_characters_are_left_out_of_json_labels() {
    let mut registry = MarketRegistry::new();
    registry.add(slot("a\"b\\c\u{1}\u{7f}\u{80}\u{9f}\u{a0}d")).unwrap();
    let json = registry.render_per_market_json();
    assert!(json.starts_with("[{\"market\":\"abc\u{a0}d\",\"metrics\":{"), "{json}");
    assert_eq!(MarketRegistry::new().render_per_market_json(), "[]");
}

#[test]
fn samples_are_a_name_and_a_value() {
    let mut m = KeeperMetrics::new();
    m.set_wallet_balance_lamports(7);
    let text = m.render_prometheus();
    assert_eq!(text, m.render_prometheus_with_labels(&[]));
    for line in text.lines().filter(|line| !line.starts_with('#')) {
        let parts: Vec<&str> = line.split(' ').collect();
        assert_eq!(parts.len(), 2, "{line}");
        assert!(!line.contains('{'));
    }
}

#[test]
fn leader_beats_every_so_many_ticks() {
    for every in [1u64, 2, 5] {
        let mut cfg = LeaderRpcReconcileConfig::default();
        cfg.heartbeat_every = Some(every);
        let mut state = MarketSlotState::default();
        let mut builder = MockKeeperLeaderTxBuilder::new();
        let mut want = vec![];
        for pass in 0..13u64 {
            heartbeat_if_due(&cfg, &context(), ALICE, 900 + pass, &mut state, &mut builder);
            state.was_leader_last_tick = true;
            state.ticks += 1;
            if pass % every == 0 {
                want.push((900 + pass).to_le_bytes().to_vec());
            }
        }
        let sent: Vec<Vec<u8>> = builder.submitted.iter().map(|i| i.data[8..].to_vec()).collect();
        assert_eq!(sent, want);
    }
}

#[test]
fn labels_of_a_registry_are_distinct() {
    let mut registry = MarketRegistry::new();
    registry.add(slot("A")).unwrap();
    assert!(registry.add(slot("A")).is_err());
    assert_eq!(registry.slots().len(), 1);
}

#[test]
fn settings_have_their_defaults() {
    let single = RunLoopConfig::default();
    assert_eq!((single.tick_interval_ms, single.max_ticks), (800, None));
    assert_eq!(single.transient_error_backoff_ms, 200);
    let multi = MultiMarketRunConfig::from(single);
    assert_eq!(multi, MultiMarketRunConfig::default());
    let bot = KeeperBot::new(BotConfig::default());
    assert!(bot.config().run_predictor);
    assert_eq!(bot.scheduler().pending_init_hint_count(), 0);
}

fn words(args: &[&str]) -> Vec<String> {
    args.iter().map(|a| a.to_string()).collect()
}

#[test]
fn command_lines() {
    assert_eq!(parse_args(&words(&[])), Ok(Mode::Smoke));
    assert_eq!(parse_args(&words(&["smoke", "x"])), Ok(Mode::Smoke));
    assert_eq!(
        parse_args(&words(&["serve"])),
        Ok(Mode::Serve { addr: "0.0.0.0:9099".to_string(), max_ticks: None })
    );
    assert_eq!(
        parse_args(&words(&["serve", "[::]:1", "12"])),
        Ok(Mode::Serve { addr: "[::]:1".to_string(), max_ticks: Some(12) })
    );
    assert_eq!(
        parse_args(&words(&["serve-multi", "a", "m.toml", "x"])),
        Ok(Mode::ServeMulti {
            addr: "a".to_string(),
            registry_path: "m.toml".to_string(),
            max_passes: None,
        })
    );
    let missing = parse_args(&words(&["serve-multi", "a"])).unwrap_err();
    assert_eq!(missing, CliError::MissingRegistryPath);
    assert!(missing.to_string().contains("<markets.toml>"));
    let unknown = parse_args(&words(&["dance"])).unwrap_err();
    assert_eq!(
        unknown.to_string(),
        "unknown mode `dance`. supported: smoke | serve | serve-multi"
    );
}

#[test]
fn numbers_agree_with_parse() {
    for text in [
        "", "+", "0", "+7", "007", "-0", "-1", "1 ", " 1", "1a", "18446744073709551615",
        "18446744073709551616", "99999999999999999999999", "++1", "٣",
    ] {
        assert_eq!(parse_number(text), text.parse::<u64>().ok(), "{text:?}");
    }
}

#[test]
fn markets_of_a_file_are_served() {
    let key = "11111111111111111111111111111112";
    let one = |symbol: &str| {
        format!("[[markets]]\nsymbol = \"{symbol}\"\nprogram_id = \"{key}\"\nmarket_pda = \"{key}\"\n")
    };
    let list = MarketList::from_resolved_str(&(one("A") + &one("B"))).unwrap();
    let registry = serve_registry(&list, ALICE).unwrap();
    assert_eq!(registry.len(), 2);
    for (slot, entry) in registry.slots().iter().zip(list.iter()) {
        assert_eq!(slot.label, entry.symbol);
        assert_eq!(slot.ctx.market, entry.market_pda);
        assert_eq!(slot.ctx.market_symbol, entry.symbol_bytes());
        assert_eq!(slot.rpc_cfg.lock_pda, entry.lock_pda);
        assert_eq!(slot.policy.signer, ALICE);
        assert_eq!(slot.state, MarketSlotState::default());
    }
    let twice = MarketList { markets: vec![list.markets[0].clone(), list.markets[0].clone()] };
    assert_eq!(
        serve_registry(&twice, ALICE).unwrap_err(),
        "registry add failed for `A`: duplicate market label 'A'"
    );
    assert_eq!(slot_for(&list.markets[1], BOB).label, "B");
    let bot = slot_for(&list.markets[0], ALICE).bot;
    let plan = bot.scheduler().config();
    assert_eq!((plan.min_pending_for_pre_sync, plan.max_actions_per_plan), (1, 0));
    assert!(plan.close_dead_buckets);
    let window = bot.vol().config();
    assert_eq!((window.max_samples, window.max_age_slots, window.min_samples), (256, 54_000, 16));
}

#[test]
fn volatility_gauge_is_the_decimal_of_thousandths() {
    let mut m = KeeperMetrics::new();
    let big = [123_456_789i64, -987_654_321, 999_999_999_999_999, 100_000, 1_000_000_010];
    for milli in (-2_500i64..2_500).chain(big) {
        if milli == APPLIED_VOL_NOT_WARM {
            continue;
        }
        m.last_applied_vol_milli = milli;
        let want = format!("\nkeeper_last_applied_vol {}\n", (milli as f64) / 1000.0);
        assert!(m.render_prometheus().contains(&want), "{want}");
    }
}

#[test]
fn large_volatility_gauge_is_the_shortest_decimal_of_its_quotient() {
    let mut cases: Vec<i64> = vec![
        i64::MIN,
        i64::MAX,
        1_844_679_518_563_690_323,
        1_990_980_354_791_980_309,
        2_106_445_748_622_659_243,
        651_650_559_245_190_228,
        1_304_680_498_834_922_132,
        1_410_182_734_995_233_200,
    ];
    for e in 40..63u32 {
        for d in -3i64..=3 {
            cases.push((1i64 << e) + d);
            if e <= 53 {
                cases.push(1000 * (1i64 << e) + d);
            }
        }
    }
    let mut seed: u64 = 0x9e37_79b9_7f4a_7c15;
    for k in 0..6_000u32 {
        seed = seed.wrapping_mul(6_364_136_223_846_793_005).wrapping_add(1_442_695_040_888_963_407);
        cases.push((seed as i64) >> (k % 14));
    }
    let mut m = KeeperMetrics::new();
    for milli in cases {
        if milli == APPLIED_VOL_NOT_WARM {
            continue;
        }
        m.last_applied_vol_milli = milli;
        let want = format!("\nkeeper_last_applied_vol {}\n", (milli as f64) / 1000.0);
        assert!(m.render_prometheus().contains(&want), "{milli}: {want}");
    }
    m.last_applied_vol_milli = i64::MAX;
    assert!(m.render_prometheus().contains("\nkeeper_last_applied_vol 9223372036854776\n"));
    m.last_applied_vol_milli = 1_844_679_518_563_690_323;
    assert!(m.render_prometheus().contains("\nkeeper_last_applied_vol 1844679518563690.3\n"));
}

#[test]
fn model_is_asked_and_its_answer_recorded() {
    let mut bot = KeeperBot::new(BotConfig::default());
    let model = |_: &RealizedVolatilityEstimator, _: &ChainSnapshot| {
        (
            Some(700),
            vec![RotatePrediction {
                sub_pool_id: 3,
                direction: Direction::Long,
                zero_price: 9,
                zero_tick: 9,
            }],
        )
    };
    let snap = ChainSnapshot::new();
    let (report, builder) = bot
        .tick_with_snap(&snap, &context(), MockTxBuilder::new(), ALICE, BOB, LOCK, &model)
        .unwrap();
    assert_eq!(report.applied_vol_milli, Some(700));
    assert_eq!((report.init_hints_added, report.actions_planned), (1, 1));
    assert!(matches!(report.dispatched[0].0, KeeperAction::InitDormantBucket { tick: 9, .. }));
    assert!(matches!(report.dispatched[0].1, ActionDispatchResult::Failed { .. }));
    assert!(builder.submitted.is_empty());
    assert_eq!(bot.scheduler().pending_init_hint_count(), 0);
}
