use keeper::bot::metrics::{KeeperMetrics, LeaderStatus, APPLIED_VOL_NOT_WARM};
use keeper::bot::serve::{render_response, render_response_with_multi};

#[test]
fn metrics_endpoint_returns_200_and_prometheus_body() {
    let mut m = KeeperMetrics::new();
    m.observe_boot(1_700_000_000);
    m.set_leader_status(LeaderStatus::Leader);
    let resp = render_response("GET /metrics HTTP/1.1", &m);
    assert!(resp.starts_with("HTTP/1.1 200 OK\r\n"));
    assert!(resp.contains("Content-Type: text/plain; version=0.0.4"));
    assert!(resp.contains("\nkeeper_leader_status 1\n"));
    assert!(resp.contains("\nkeeper_up_since_unix_seconds 1700000000\n"));
}

#[test]
fn healthz_returns_503_before_boot() {
    let mut m = KeeperMetrics::new();
    let resp = render_response("GET /healthz HTTP/1.1", &m);
    assert!(resp.starts_with("HTTP/1.1 503"));
    assert!(resp.contains("booting"));
}

#[test]
fn healthz_returns_200_after_boot() {
    let mut m = KeeperMetrics::new();
    m.observe_boot(1);
    let resp = render_response("GET /healthz HTTP/1.1", &m);
    assert!(resp.starts_with("HTTP/1.1 200 OK"));
    assert!(resp.contains("\"ok\""));
}

#[test]
fn unknown_path_returns_404() {
    let mut m = KeeperMetrics::new();
    let resp = render_response("GET /api/v1/whatever HTTP/1.1", &m);
    assert!(resp.starts_with("HTTP/1.1 404"));
}

#[test]
fn non_get_returns_405() {
    let mut m = KeeperMetrics::new();
    let resp = render_response("POST /metrics HTTP/1.1", &m);
    assert!(resp.starts_with("HTTP/1.1 405"));
}

#[test]
fn query_string_is_stripped() {
    let mut m = KeeperMetrics::new();
    m.observe_boot(1);
    let resp = render_response("GET /metrics?foo=bar HTTP/1.1", &m);
    assert!(resp.starts_with("HTTP/1.1 200 OK"));
}

#[test]
fn metrics_multi_returns_404_when_provider_absent() {
    let mut m = KeeperMetrics::new();
    m.observe_boot(1);
    let resp = render_response_with_multi("GET /metrics-multi HTTP/1.1", &m, None::<&fn() -> String>);
    assert!(resp.starts_with("HTTP/1.1 404"));
    assert!(resp.contains("not configured"));
}

#[test]
fn metrics_multi_returns_200_json_when_provider_present() {
    let mut m = KeeperMetrics::new();
    m.observe_boot(1_700_000_000);
    let provider = || "[{\"market\":\"SOL-USD\",\"metrics\":{}}]".to_string();
    let resp = render_response_with_multi(
        "GET /metrics-multi HTTP/1.1",
        &m,
        Some(&provider),
    );
    assert!(resp.starts_with("HTTP/1.1 200 OK"));
    assert!(resp.contains("Content-Type: application/json"));
    assert!(resp.contains("\"market\":\"SOL-USD\""));
}

#[test]
fn keeper_metrics_render_json_snapshot_emits_camelcase_keys() {
    let mut m = KeeperMetrics::new();
    m.observe_boot(1_700_000_001);
    m.set_leader_status(LeaderStatus::Leader);
    m.set_wallet_balance_lamports(123_456_789);
    m.set_vol_samples(40);
    m.last_applied_vol_milli = APPLIED_VOL_NOT_WARM;
    let json = m.render_json_snapshot();
    for key in [
        "ticksTotal",
        "actionsSubmittedTotal",
        "actionsFailedTotal",
        "actionsSkippedTotal",
        "initHintsRecordedTotal",
        "snapshotErrorsTotal",
        "lastTickDurationMs",
        "volSamples",
        "lastInitHints",
        "lastActionsPlanned",
        "upSinceUnixSecs",
        "walletBalanceLamports",
        "appliedVolMilli",
        "leaderStatus",
    ] {
        assert!(json.contains(&format!("\"{key}\":")), "missing {key} in {json}");
    }
    assert!(json.contains("\"leaderStatus\":\"leader\""));
    assert!(json.contains("\"upSinceUnixSecs\":1700000001"));
    assert!(json.contains("\"walletBalanceLamports\":123456789"));
    assert!(json.contains("\"volSamples\":40"));
    assert!(json.contains("\"appliedVolMilli\":null"));
    assert!(json.starts_with('{') && json.ends_with('}'));
}

#[test]
fn keeper_metrics_render_json_snapshot_serialises_warmed_vol() {
    let mut m = KeeperMetrics::new();
    m.last_applied_vol_milli = 857;
    let json = m.render_json_snapshot();
    assert!(json.contains("\"appliedVolMilli\":857"));
}

#[test]
fn keeper_metrics_render_json_snapshot_default_vol_is_zero_not_null() {
    let mut m = KeeperMetrics::new();
    let json = m.render_json_snapshot();
    assert!(json.contains("\"appliedVolMilli\":0"));
}

#[test]
fn malformed_request_returns_404() {
    let mut m = KeeperMetrics::new();
    let resp = render_response("/metrics", &m);
    assert!(resp.starts_with("HTTP/1.1 405"));
}

