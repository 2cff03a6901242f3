use keeper::bot::metrics::{KeeperMetrics, LeaderStatus, APPLIED_VOL_NOT_WARM};
use keeper::bot::TickReport;
use keeper::planner::cycle::ActionDispatchResult;
use keeper::planner::{Direction, KeeperAction};

fn fake_action(sub_pool_id: u32) -> KeeperAction {
    KeeperAction::CloseDormantBucket {
        sub_pool_id,
        direction: Direction::Long,
        tick: 0,
    }
}

fn report_with(submitted: usize, failed: usize, skipped: usize) -> TickReport {
    let mut dispatched = Vec::new();
    for i in 0..submitted {
        dispatched.push((
            fake_action(i as u32),
            ActionDispatchResult::Submitted { signature: None },
        ));
    }
    for i in 0..failed {
        dispatched.push((
            fake_action((submitted + i) as u32),
            ActionDispatchResult::Failed {
                reason: "test".into(),
            },
        ));
    }
    for i in 0..skipped {
        dispatched.push((
            fake_action((submitted + failed + i) as u32),
            ActionDispatchResult::Skipped { reason: "test" },
        ));
    }
    TickReport {
        actions_planned: submitted + failed + skipped,
        dispatched,
        applied_vol_milli: Some((1.234f64 * 1000.0).round() as i64),
        init_hints_added: 2,
    }
}

#[test]
fn observe_tick_increments_counters_and_gauges() {
    let mut m = KeeperMetrics::new();
    let r = report_with(3, 1, 2);
    m.observe_tick(&r, 95);
    m.observe_tick(&r, 105);

    assert_eq!(m.ticks_total, 2);
    assert_eq!(m.actions_submitted_total, 6);
    assert_eq!(m.actions_failed_total, 2);
    assert_eq!(m.actions_skipped_total, 4);
    assert_eq!(m.init_hints_recorded_total, 4);
    assert_eq!(m.last_tick_duration_ms, 105);
    assert_eq!(m.last_actions_planned, 6);
    assert_eq!(m.last_applied_vol_milli, 1234);
}

#[test]
fn observe_tick_records_warming_up_vol() {
    let mut m = KeeperMetrics::new();
    let mut r = report_with(0, 0, 0);
    r.applied_vol_milli = None;
    m.observe_tick(&r, 50);
    assert_eq!(
        m.last_applied_vol_milli,
        APPLIED_VOL_NOT_WARM
    );
}

#[test]
fn render_prometheus_emits_help_and_type_per_metric() {
    let mut m = KeeperMetrics::new();
    m.observe_tick(&report_with(2, 1, 0), 80);
    m.set_leader_status(LeaderStatus::Leader);
    m.observe_boot(1_700_000_000);
    m.set_vol_samples(17);
    let text = m.render_prometheus();

    assert!(text.contains("# HELP keeper_ticks_total"));
    assert!(text.contains("# TYPE keeper_ticks_total counter"));
    assert!(text.contains("\nkeeper_ticks_total 1\n"));
    assert!(text.contains("# TYPE keeper_actions_submitted_total counter"));
    assert!(text.contains("\nkeeper_actions_submitted_total 2\n"));
    assert!(text.contains("# TYPE keeper_leader_status gauge"));
    assert!(text.contains("\nkeeper_leader_status 1\n"));
    assert!(text.contains("\nkeeper_up_since_unix_seconds 1700000000\n"));
    assert!(text.contains("\nkeeper_vol_samples 17\n"));

    for (i, line) in text.lines().enumerate() {
        if line.is_empty() || line.starts_with('#') {
            continue;
        }
        let parts: Vec<&str> = line.splitn(2, ' ').collect();
        assert_eq!(
            parts.len(),
            2,
            "line {i} `{line}` is not `<name> <value>`",
        );
    }
}

#[test]
fn warming_up_vol_renders_as_nan() {
    let mut m = KeeperMetrics::new();
    let mut r = report_with(0, 0, 0);
    r.applied_vol_milli = None;
    m.observe_tick(&r, 10);
    let text = m.render_prometheus();
    assert!(text.contains("keeper_last_applied_vol NaN\n"));
}

#[test]
fn leader_status_round_trips() {
    let mut m = KeeperMetrics::new();
    assert_eq!(m.leader_status(), LeaderStatus::Unknown);
    m.set_leader_status(LeaderStatus::Leader);
    assert_eq!(m.leader_status(), LeaderStatus::Leader);
    m.set_leader_status(LeaderStatus::Standby);
    assert_eq!(m.leader_status(), LeaderStatus::Standby);
}

#[test]
fn snapshot_errors_counter_increments() {
    let mut m = KeeperMetrics::new();
    m.observe_snapshot_error();
    m.observe_snapshot_error();
    assert_eq!(m.snapshot_errors_total, 2);
}

#[test]
fn wallet_balance_reflects_latest_write() {
    let mut m = KeeperMetrics::new();
    m.set_wallet_balance_lamports(1_000_000_000);
    m.set_wallet_balance_lamports(2_500_000_000);
    let text = m.render_prometheus();
    assert!(text.contains("\nkeeper_wallet_balance_lamports 2500000000\n"));
}

#[test]
fn render_prometheus_with_labels_splices_market_dimension() {
    let mut m = KeeperMetrics::new();
    m.observe_tick(&report_with(2, 0, 0), 50);
    m.set_leader_status(LeaderStatus::Leader);
    m.set_wallet_balance_lamports(7_000_000);

    let text = m.render_prometheus_with_labels(&[("market", "SOL-USD")]);
    assert!(text.contains("# HELP keeper_ticks_total"));
    assert!(text.contains("# TYPE keeper_ticks_total counter"));
    assert!(text.contains("\nkeeper_ticks_total{market=\"SOL-USD\"} 1\n"));
    assert!(
        text.contains("\nkeeper_actions_submitted_total{market=\"SOL-USD\"} 2\n")
    );
    assert!(text.contains("\nkeeper_leader_status{market=\"SOL-USD\"} 1\n"));
    assert!(
        text.contains("\nkeeper_wallet_balance_lamports{market=\"SOL-USD\"} 7000000\n")
    );

    let plain = m.render_prometheus_with_labels(&[]);
    assert_eq!(plain, m.render_prometheus());
}

#[test]
fn render_prometheus_with_multi_labels_orders_and_escapes() {
    let mut m = KeeperMetrics::new();
    m.observe_tick(&report_with(1, 0, 0), 10);

    let text = m.render_prometheus_with_labels(&[
        ("market", "SOL-USD"),
        ("region", "ap-east-1"),
    ]);
    assert!(text.contains(
        "\nkeeper_ticks_total{market=\"SOL-USD\",region=\"ap-east-1\"} 1\n"
    ));

    let escaped = m.render_prometheus_with_labels(&[("market", r#"a"b\c"#)]);
    assert!(escaped.contains(
        r#"keeper_ticks_total{market="a\"b\\c"} 1"#
    ));

    let stripped = m.render_prometheus_with_labels(&[("market", "x\ny")]);
    assert!(stripped.contains("keeper_ticks_total{market=\"xy\"} 1"));
}
