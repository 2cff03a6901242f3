use keeper::bot::metrics::KeeperMetrics;
use keeper::bot::run::{clamp_ms_pub, is_transient};
use keeper::bot::{BotError, TickReport};
use keeper::planner::cycle::ActionDispatchResult;
use keeper::planner::{Direction, KeeperAction};
use keeper::rpc::fetcher::RpcError;
use keeper::rpc::snapshot::SnapshotError;
use std::time::Duration;

#[test]
fn governance_errors_are_permanent() {
    assert!(!is_transient(&BotError::Snapshot(SnapshotError::MarketPaused)));
    assert!(!is_transient(&BotError::Snapshot(
        SnapshotError::SchemaVersionMismatch {
            onchain: 2,
            compiled: 1,
        }
    )));
    assert!(!is_transient(&BotError::Snapshot(
        SnapshotError::MarketNotFound([0u8; 32])
    )));
}

#[test]
fn rpc_transport_errors_are_transient() {
    let e = BotError::Snapshot(SnapshotError::Rpc(RpcError::Transport(
        "timeout".to_string(),
    )));
    assert!(is_transient(&e));
}

#[test]
fn clamp_ms_handles_overflow() {
    let huge = Duration::from_secs(u64::MAX / 1000);
    let _ = clamp_ms_pub(huge.as_millis());
}

#[test]
fn observe_tick_via_metrics_round_trips() {
    let mut m = KeeperMetrics::new();
    let r = TickReport {
        actions_planned: 1,
        dispatched: vec![(
            KeeperAction::CloseDormantBucket {
                sub_pool_id: 0,
                direction: Direction::Long,
                tick: 0,
            },
            ActionDispatchResult::Submitted { signature: None },
        )],
        applied_vol_milli: Some((0.7f64 * 1000.0).round() as i64),
        init_hints_added: 0,
    };
    m.observe_tick(&r, 12);
    let text = m.render_prometheus();
    assert!(text.contains("\nkeeper_actions_submitted_total 1\n"));
    assert!(text.contains("\nkeeper_last_tick_duration_milliseconds 12\n"));
}
