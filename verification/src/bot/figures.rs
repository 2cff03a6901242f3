//! What the figures of a keeper say: which counter stands behind which name,
//! and what a tick adds to each.
use vstd::prelude::*;
use vstd::seq_lib::*;

use crate::bot::metrics;
use crate::bot::metrics::{KeeperMetrics, LeaderStatus};
use crate::bot::TickReport;
use crate::planner::cycle;
use crate::planner::cycle::{ActionDispatchResult, KeeperLoopMetrics};
use crate::planner::KeeperAction;
use crate::text;

verus! {

/// The text has this part.
pub open spec fn has(s: Seq<char>, part: Seq<char>) -> bool {
    exists|i: int|
        0 <= i && i + part.len() <= s.len() && #[trigger] s.subrange(i, i + part.len()) == part
}

/// A text has what its middle is.
proof fn lemma_middle(a: Seq<char>, b: Seq<char>, c: Seq<char>)
    ensures
        has(a + b + c, b),
{
    let s = a + b + c;
    let i = a.len() as int;
    assert(s.subrange(i, i + b.len()) =~= b);
}

/// A text has what a part of it has.
proof fn lemma_nested(s: Seq<char>, part: Seq<char>, small: Seq<char>)
    requires
        has(s, part),
        has(part, small),
    ensures
        has(s, small),
{
    let i = choose|i: int|
        0 <= i && i + part.len() <= s.len() && #[trigger] s.subrange(i, i + part.len()) == part;
    let j = choose|j: int|
        0 <= j && j + small.len() <= part.len() && #[trigger] part.subrange(j, j + small.len())
            == small;
    assert(s.subrange(i + j, i + j + small.len()) =~= part.subrange(j, j + small.len()));
}

/// The block of a metric has its type and its sample.
proof fn lemma_block_has(
    name: Seq<char>,
    help: Seq<char>,
    kind: Seq<char>,
    labels: Seq<char>,
    value: Seq<char>,
)
    ensures
        has(
            metrics::metric_block(name, help, kind, labels, value),
            "\n"@ + name + labels + " "@ + value + "\n"@,
        ),
        has(
            metrics::metric_block(name, help, kind, labels, value),
            "# TYPE "@ + name + " "@ + kind + "\n"@,
        ),
{
    let whole = metrics::metric_block(name, help, kind, labels, value);
    let head = "# HELP "@ + name + " "@ + help + "\n"@;
    let typed = "# TYPE "@ + name + " "@ + kind + "\n"@;
    let bare = "# TYPE "@ + name + " "@ + kind;
    let line = "\n"@ + name + labels + " "@ + value + "\n"@;
    assert(whole =~= head + typed + (name + labels + " "@ + value + "\n"@));
    lemma_middle(head, typed, name + labels + " "@ + value + "\n"@);
    assert(whole =~= (head + bare) + line + Seq::<char>::empty());
    lemma_middle(head + bare, line, Seq::empty());
}

/// The text has a counter with this name and value.
pub open spec fn counts(s: Seq<char>, name: Seq<char>, labels: Seq<char>, value: nat) -> bool {
    &&& has(s, "\n"@ + name + labels + " "@ + text::decimal(value) + "\n"@)
    &&& has(s, "# TYPE "@ + name + " "@ + "counter"@ + "\n"@)
}

/// The text has a gauge with this name and value.
pub open spec fn gauges(s: Seq<char>, name: Seq<char>, labels: Seq<char>, value: Seq<char>) -> bool {
    &&& has(s, "\n"@ + name + labels + " "@ + value + "\n"@)
    &&& has(s, "# TYPE "@ + name + " "@ + "gauge"@ + "\n"@)
}

/// A block that a text has brings its samples.
proof fn lemma_block_in(
    s: Seq<char>,
    name: Seq<char>,
    help: Seq<char>,
    kind: Seq<char>,
    labels: Seq<char>,
    value: Seq<char>,
)
    requires
        has(s, metrics::metric_block(name, help, kind, labels, value)),
    ensures
        has(s, "\n"@ + name + labels + " "@ + value + "\n"@),
        has(s, "# TYPE "@ + name + " "@ + kind + "\n"@),
{
    let b = metrics::metric_block(name, help, kind, labels, value);
    lemma_block_has(name, help, kind, labels, value);
    lemma_nested(s, b, "\n"@ + name + labels + " "@ + value + "\n"@);
    lemma_nested(s, b, "# TYPE "@ + name + " "@ + kind + "\n"@);
}

/// The parts of a text one behind the other.
pub open spec fn total(parts: Seq<Seq<char>>) -> Seq<char>
    decreases parts.len(),
{
    if parts.len() == 0 {
        Seq::empty()
    } else {
        total(parts.drop_last()) + parts.last()
    }
}

/// One part more.
proof fn lemma_total_push(parts: Seq<Seq<char>>, part: Seq<char>)
    ensures
        total(parts.push(part)) == total(parts) + part,
        parts.len() == 0 ==> total(parts.push(part)) == part,
{
    assert(parts.push(part).drop_last() =~= parts);
    if parts.len() == 0 {
        assert(total(parts) + part =~= part);
    }
}

/// A text has each of its parts.
proof fn lemma_part(parts: Seq<Seq<char>>, i: int)
    requires
        0 <= i < parts.len(),
    ensures
        has(total(parts), parts[i]),
    decreases parts.len(),
{
    let most = parts.drop_last();
    let none = Seq::<char>::empty();
    if i < parts.len() - 1 {
        lemma_part(most, i);
        assert(total(parts) =~= none + total(most) + parts.last());
        lemma_middle(none, total(most), parts.last());
        lemma_nested(total(parts), total(most), parts[i]);
    } else {
        assert(total(parts) =~= total(most) + parts[i] + none);
        lemma_middle(total(most), parts[i], none);
    }
}

/// Every counter of the register is exposed under its own name, as a counter.
#[verifier::spinoff_prover]
#[verifier::rlimit(60)]
pub proof fn law_counters_stand_under_their_names(m: KeeperMetrics, labels: Seq<char>)
    ensures
        counts(metrics::prometheus_text(m, labels), "keeper_ticks_total"@, labels, m.ticks_total as nat),
        counts(metrics::prometheus_text(m, labels), "keeper_actions_submitted_total"@, labels, m.actions_submitted_total as nat),
        counts(metrics::prometheus_text(m, labels), "keeper_actions_failed_total"@, labels, m.actions_failed_total as nat),
        counts(metrics::prometheus_text(m, labels), "keeper_actions_skipped_total"@, labels, m.actions_skipped_total as nat),
        counts(metrics::prometheus_text(m, labels), "keeper_init_hints_recorded_total"@, labels, m.init_hints_recorded_total as nat),
        counts(metrics::prometheus_text(m, labels), "keeper_snapshot_errors_total"@, labels, m.snapshot_errors_total as nat),
{
    let p = Seq::<Seq<char>>::empty();
    let b0 = metrics::metric_block(
        "keeper_ticks_total"@,
        "Total ticks the bot has completed."@,
        "counter"@,
        labels,
        text::decimal(m.ticks_total as nat),
    );
    let b1 = metrics::metric_block(
        "keeper_actions_submitted_total"@,
        "Cumulative actions whose tx submission was acknowledged."@,
        "counter"@,
        labels,
        text::decimal(m.actions_submitted_total as nat),
    );
    let b2 = metrics::metric_block(
        "keeper_actions_failed_total"@,
        "Cumulative actions whose tx submission failed."@,
        "counter"@,
        labels,
        text::decimal(m.actions_failed_total as nat),
    );
    let b3 = metrics::metric_block(
        "keeper_actions_skipped_total"@,
        "Cumulative actions skipped by the executor (e.g. unknown PDAs)."@,
        "counter"@,
        labels,
        text::decimal(m.actions_skipped_total as nat),
    );
    let b4 = metrics::metric_block(
        "keeper_init_hints_recorded_total"@,
        "Cumulative init hints surfaced by the predictor."@,
        "counter"@,
        labels,
        text::decimal(m.init_hints_recorded_total as nat),
    );
    let b5 = metrics::metric_block(
        "keeper_snapshot_errors_total"@,
        "Cumulative snapshot fetch errors (any kind)."@,
        "counter"@,
        labels,
        text::decimal(m.snapshot_errors_total as nat),
    );
    lemma_total_push(p, b0);
    let p0 = p.push(b0);
    lemma_total_push(p0, b1);
    let p1 = p0.push(b1);
    lemma_total_push(p1, b2);
    let p2 = p1.push(b2);
    lemma_total_push(p2, b3);
    let p3 = p2.push(b3);
    lemma_total_push(p3, b4);
    let p4 = p3.push(b4);
    lemma_total_push(p4, b5);
    let p5 = p4.push(b5);
    let own = metrics::prometheus_counters(m, labels);
    assert(own == total(p5));
    let whole = metrics::prometheus_text(m, labels);
    let none = Seq::<char>::empty();
    let others = metrics::prometheus_gauges(m, labels);
    assert(whole =~= none + own + others);
    lemma_middle(none, own, others);
    lemma_part(p5, 0);
    lemma_nested(whole, own, b0);
    lemma_block_in(
        whole,
        "keeper_ticks_total"@,
        "Total ticks the bot has completed."@,
        "counter"@,
        labels,
        text::decimal(m.ticks_total as nat),
    );
    lemma_part(p5, 1);
    lemma_nested(whole, own, b1);
    lemma_block_in(
        whole,
        "keeper_actions_submitted_total"@,
        "Cumulative actions whose tx submission was acknowledged."@,
        "counter"@,
        labels,
        text::decimal(m.actions_submitted_total as nat),
    );
    lemma_part(p5, 2);
    lemma_nested(whole, own, b2);
    lemma_block_in(
        whole,
        "keeper_actions_failed_total"@,
        "Cumulative actions whose tx submission failed."@,
        "counter"@,
        labels,
        text::decimal(m.actions_failed_total as nat),
    );
    lemma_part(p5, 3);
    lemma_nested(whole, own, b3);
    lemma_block_in(
        whole,
        "keeper_actions_skipped_total"@,
        "Cumulative actions skipped by the executor (e.g. unknown PDAs)."@,
        "counter"@,
        labels,
        text::decimal(m.actions_skipped_total as nat),
    );
    lemma_part(p5, 4);
    lemma_nested(whole, own, b4);
    lemma_block_in(
        whole,
        "keeper_init_hints_recorded_total"@,
        "Cumulative init hints surfaced by the predictor."@,
        "counter"@,
        labels,
        text::decimal(m.init_hints_recorded_total as nat),
    );
    lemma_part(p5, 5);
    lemma_nested(whole, own, b5);
    lemma_block_in(
        whole,
        "keeper_snapshot_errors_total"@,
        "Cumulative snapshot fetch errors (any kind)."@,
        "counter"@,
        labels,
        text::decimal(m.snapshot_errors_total as nat),
    );
}

/// Every gauge of the register is exposed under its own name, as a gauge.
#[verifier::spinoff_prover]
#[verifier::rlimit(60)]
pub proof fn law_gauges_stand_under_their_names(m: KeeperMetrics, labels: Seq<char>)
    ensures
        gauges(
            metrics::prometheus_text(m, labels),
            "keeper_last_tick_duration_milliseconds"@,
            labels,
            text::decimal(m.last_tick_duration_ms as nat),
        ),
        gauges(
            metrics::prometheus_text(m, labels),
            "keeper_last_applied_vol"@,
            labels,
            metrics::vol_text(m.last_applied_vol_milli),
        ),
        gauges(
            metrics::prometheus_text(m, labels),
            "keeper_vol_samples"@,
            labels,
            text::decimal(m.vol_samples as nat),
        ),
        gauges(
            metrics::prometheus_text(m, labels),
            "keeper_last_init_hints"@,
            labels,
            text::decimal(m.last_init_hints as nat),
        ),
        gauges(
            metrics::prometheus_text(m, labels),
            "keeper_last_actions_planned"@,
            labels,
            text::decimal(m.last_actions_planned as nat),
        ),
        gauges(
            metrics::prometheus_text(m, labels),
            "keeper_up_since_unix_seconds"@,
            labels,
            text::decimal(m.up_since_unix_secs as nat),
        ),
        gauges(
            metrics::prometheus_text(m, labels),
            "keeper_leader_status"@,
            labels,
            text::decimal(m.leader_status as nat),
        ),
        gauges(
            metrics::prometheus_text(m, labels),
            "keeper_wallet_balance_lamports"@,
            labels,
            text::decimal(m.wallet_balance_lamports as nat),
        ),
{
    let p = Seq::<Seq<char>>::empty();
    let b0 = metrics::metric_block(
        "keeper_last_tick_duration_milliseconds"@,
        "Wall-clock duration of the most recent tick, in milliseconds."@,
        "gauge"@,
        labels,
        text::decimal(m.last_tick_duration_ms as nat),
    );
    let b1 = metrics::metric_block(
        "keeper_last_applied_vol"@,
        "σ̂ applied to the predictor on the last tick. NaN means warming up."@,
        "gauge"@,
        labels,
        metrics::vol_text(m.last_applied_vol_milli),
    );
    let b2 = metrics::metric_block(
        "keeper_vol_samples"@,
        "Number of price samples currently in the vol estimator window."@,
        "gauge"@,
        labels,
        text::decimal(m.vol_samples as nat),
    );
    let b3 = metrics::metric_block(
        "keeper_last_init_hints"@,
        "Init hints surfaced by the predictor on the last tick."@,
        "gauge"@,
        labels,
        text::decimal(m.last_init_hints as nat),
    );
    let b4 = metrics::metric_block(
        "keeper_last_actions_planned"@,
        "Actions emitted by the scheduler on the last tick."@,
        "gauge"@,
        labels,
        text::decimal(m.last_actions_planned as nat),
    );
    let b5 = metrics::metric_block(
        "keeper_up_since_unix_seconds"@,
        "Unix timestamp at which the bot last booted."@,
        "gauge"@,
        labels,
        text::decimal(m.up_since_unix_secs as nat),
    );
    let b6 = metrics::metric_block(
        "keeper_leader_status"@,
        "0=unknown, 1=leader, 2=standby."@,
        "gauge"@,
        labels,
        text::decimal(m.leader_status as nat),
    );
    let b7 = metrics::metric_block(
        "keeper_wallet_balance_lamports"@,
        "Most recently observed payer wallet balance, in lamports."@,
        "gauge"@,
        labels,
        text::decimal(m.wallet_balance_lamports as nat),
    );
    lemma_total_push(p, b0);
    let p0 = p.push(b0);
    lemma_total_push(p0, b1);
    let p1 = p0.push(b1);
    lemma_total_push(p1, b2);
    let p2 = p1.push(b2);
    lemma_total_push(p2, b3);
    let p3 = p2.push(b3);
    lemma_total_push(p3, b4);
    let p4 = p3.push(b4);
    lemma_total_push(p4, b5);
    let p5 = p4.push(b5);
    lemma_total_push(p5, b6);
    let p6 = p5.push(b6);
    lemma_total_push(p6, b7);
    let p7 = p6.push(b7);
    let own = metrics::prometheus_gauges(m, labels);
    assert(own == total(p7));
    let whole = metrics::prometheus_text(m, labels);
    let none = Seq::<char>::empty();
    let others = metrics::prometheus_counters(m, labels);
    assert(whole =~= others + own + none);
    lemma_middle(others, own, none);
    lemma_part(p7, 0);
    lemma_nested(whole, own, b0);
    lemma_block_in(
        whole,
        "keeper_last_tick_duration_milliseconds"@,
        "Wall-clock duration of the most recent tick, in milliseconds."@,
        "gauge"@,
        labels,
        text::decimal(m.last_tick_duration_ms as nat),
    );
    lemma_part(p7, 1);
    lemma_nested(whole, own, b1);
    lemma_block_in(
        whole,
        "keeper_last_applied_vol"@,
        "σ̂ applied to the predictor on the last tick. NaN means warming up."@,
        "gauge"@,
        labels,
        metrics::vol_text(m.last_applied_vol_milli),
    );
    lemma_part(p7, 2);
    lemma_nested(whole, own, b2);
    lemma_block_in(
        whole,
        "keeper_vol_samples"@,
        "Number of price samples currently in the vol estimator window."@,
        "gauge"@,
        labels,
        text::decimal(m.vol_samples as nat),
    );
    lemma_part(p7, 3);
    lemma_nested(whole, own, b3);
    lemma_block_in(
        whole,
        "keeper_last_init_hints"@,
        "Init hints surfaced by the predictor on the last tick."@,
        "gauge"@,
        labels,
        text::decimal(m.last_init_hints as nat),
    );
    lemma_part(p7, 4);
    lemma_nested(whole, own, b4);
    lemma_block_in(
        whole,
        "keeper_last_actions_planned"@,
        "Actions emitted by the scheduler on the last tick."@,
        "gauge"@,
        labels,
        text::decimal(m.last_actions_planned as nat),
    );
    lemma_part(p7, 5);
    lemma_nested(whole, own, b5);
    lemma_block_in(
        whole,
        "keeper_up_since_unix_seconds"@,
        "Unix timestamp at which the bot last booted."@,
        "gauge"@,
        labels,
        text::decimal(m.up_since_unix_secs as nat),
    );
    lemma_part(p7, 6);
    lemma_nested(whole, own, b6);
    lemma_block_in(
        whole,
        "keeper_leader_status"@,
        "0=unknown, 1=leader, 2=standby."@,
        "gauge"@,
        labels,
        text::decimal(m.leader_status as nat),
    );
    lemma_part(p7, 7);
    lemma_nested(whole, own, b7);
    lemma_block_in(
        whole,
        "keeper_wallet_balance_lamports"@,
        "Most recently observed payer wallet balance, in lamports."@,
        "gauge"@,
        labels,
        text::decimal(m.wallet_balance_lamports as nat),
    );
}

/// The JSON object has this member.
pub open spec fn member(s: Seq<char>, key: Seq<char>, value: Seq<char>) -> bool {
    has(s, "\""@ + key + "\":"@ + value)
}

/// How the volatility stands in a JSON object.
pub open spec fn json_vol(milli: i64) -> Seq<char> {
    if milli == -1 {
        "null"@
    } else {
        text::decimal_int(milli as int)
    }
}

/// How the status stands in a JSON object.
pub open spec fn json_status(code: u8) -> Seq<char> {
    if code == 1 {
        "\""@ + "leader"@ + "\""@
    } else if code == 2 {
        "\""@ + "standby"@ + "\""@
    } else {
        "\""@ + "unknown"@ + "\""@
    }
}

/// Every figure stands in the JSON object under its own key.
#[verifier::spinoff_prover]
#[verifier::rlimit(60)]
pub proof fn law_json_members_stand_under_their_keys(m: KeeperMetrics)
    ensures
        member(metrics::json_text(m), "ticksTotal"@, text::decimal(m.ticks_total as nat)),
        member(metrics::json_text(m), "actionsSubmittedTotal"@, text::decimal(m.actions_submitted_total as nat)),
        member(metrics::json_text(m), "actionsFailedTotal"@, text::decimal(m.actions_failed_total as nat)),
        member(metrics::json_text(m), "actionsSkippedTotal"@, text::decimal(m.actions_skipped_total as nat)),
        member(metrics::json_text(m), "initHintsRecordedTotal"@, text::decimal(m.init_hints_recorded_total as nat)),
        member(metrics::json_text(m), "snapshotErrorsTotal"@, text::decimal(m.snapshot_errors_total as nat)),
        member(metrics::json_text(m), "lastTickDurationMs"@, text::decimal(m.last_tick_duration_ms as nat)),
        member(metrics::json_text(m), "volSamples"@, text::decimal(m.vol_samples as nat)),
        member(metrics::json_text(m), "lastInitHints"@, text::decimal(m.last_init_hints as nat)),
        member(metrics::json_text(m), "lastActionsPlanned"@, text::decimal(m.last_actions_planned as nat)),
        member(metrics::json_text(m), "upSinceUnixSecs"@, text::decimal(m.up_since_unix_secs as nat)),
        member(metrics::json_text(m), "walletBalanceLamports"@, text::decimal(m.wallet_balance_lamports as nat)),
        member(metrics::json_text(m), "appliedVolMilli"@, json_vol(m.last_applied_vol_milli)),
        member(metrics::json_text(m), "leaderStatus"@, json_status(m.leader_status)),
{
    let p = Seq::<Seq<char>>::empty();
    let comma = ","@;
    let f0 = metrics::json_field("ticksTotal"@, text::decimal(m.ticks_total as nat));
    let f1 = metrics::json_field("actionsSubmittedTotal"@, text::decimal(m.actions_submitted_total as nat));
    let f2 = metrics::json_field("actionsFailedTotal"@, text::decimal(m.actions_failed_total as nat));
    let f3 = metrics::json_field("actionsSkippedTotal"@, text::decimal(m.actions_skipped_total as nat));
    let f4 = metrics::json_field("initHintsRecordedTotal"@, text::decimal(m.init_hints_recorded_total as nat));
    let f5 = metrics::json_field("snapshotErrorsTotal"@, text::decimal(m.snapshot_errors_total as nat));
    let f6 = metrics::json_field("lastTickDurationMs"@, text::decimal(m.last_tick_duration_ms as nat));
    let f7 = metrics::json_field("volSamples"@, text::decimal(m.vol_samples as nat));
    let f8 = metrics::json_field("lastInitHints"@, text::decimal(m.last_init_hints as nat));
    let f9 = metrics::json_field("lastActionsPlanned"@, text::decimal(m.last_actions_planned as nat));
    let f10 = metrics::json_field("upSinceUnixSecs"@, text::decimal(m.up_since_unix_secs as nat));
    let f11 = metrics::json_field("walletBalanceLamports"@, text::decimal(m.wallet_balance_lamports as nat));
    let f12 = metrics::json_field("appliedVolMilli"@, json_vol(m.last_applied_vol_milli));
    let f13 = metrics::json_field("leaderStatus"@, json_status(m.leader_status));
    lemma_total_push(p, "{"@);
    let p0 = p.push("{"@);
    lemma_total_push(p0, f0);
    let p1 = p0.push(f0);
    lemma_total_push(p1, comma);
    let p2 = p1.push(comma);
    lemma_total_push(p2, f1);
    let p3 = p2.push(f1);
    lemma_total_push(p3, comma);
    let p4 = p3.push(comma);
    lemma_total_push(p4, f2);
    let p5 = p4.push(f2);
    lemma_total_push(p5, comma);
    let p6 = p5.push(comma);
    lemma_total_push(p6, f3);
    let p7 = p6.push(f3);
    lemma_total_push(p7, comma);
    let p8 = p7.push(comma);
    lemma_total_push(p8, f4);
    let p9 = p8.push(f4);
    lemma_total_push(p9, comma);
    let p10 = p9.push(comma);
    lemma_total_push(p10, f5);
    let p11 = p10.push(f5);
    lemma_total_push(p11, comma);
    let p12 = p11.push(comma);
    lemma_total_push(p12, f6);
    let p13 = p12.push(f6);
    lemma_total_push(p13, comma);
    let p14 = p13.push(comma);
    lemma_total_push(p14, f7);
    let p15 = p14.push(f7);
    lemma_total_push(p15, comma);
    let p16 = p15.push(comma);
    lemma_total_push(p16, f8);
    let p17 = p16.push(f8);
    lemma_total_push(p17, comma);
    let p18 = p17.push(comma);
    lemma_total_push(p18, f9);
    let p19 = p18.push(f9);
    lemma_total_push(p19, comma);
    let p20 = p19.push(comma);
    lemma_total_push(p20, f10);
    let p21 = p20.push(f10);
    lemma_total_push(p21, comma);
    let p22 = p21.push(comma);
    lemma_total_push(p22, f11);
    let p23 = p22.push(f11);
    lemma_total_push(p23, comma);
    let p24 = p23.push(comma);
    lemma_total_push(p24, f12);
    let p25 = p24.push(f12);
    lemma_total_push(p25, comma);
    let p26 = p25.push(comma);
    lemma_total_push(p26, f13);
    let p27 = p26.push(f13);
    lemma_total_push(p27, "}"@);
    let p28 = p27.push("}"@);
    let whole = metrics::json_text(m);
    assert(whole == total(p28));
    lemma_part(p28, 1);
    lemma_part(p28, 3);
    lemma_part(p28, 5);
    lemma_part(p28, 7);
    lemma_part(p28, 9);
    lemma_part(p28, 11);
    lemma_part(p28, 13);
    lemma_part(p28, 15);
    lemma_part(p28, 17);
    lemma_part(p28, 19);
    lemma_part(p28, 21);
    lemma_part(p28, 23);
    lemma_part(p28, 25);
    lemma_part(p28, 27);
}

/// How many answers are of one kind.
pub open spec fn number_of(
    answers: Seq<(KeeperAction, ActionDispatchResult)>,
    kind: spec_fn(ActionDispatchResult) -> bool,
) -> nat {
    answers.filter(|a: (KeeperAction, ActionDispatchResult)| kind(a.1)).len()
}

/// The answers that were submitted.
pub open spec fn submitted(answers: Seq<(KeeperAction, ActionDispatchResult)>) -> nat {
    number_of(answers, |r: ActionDispatchResult| r is Submitted)
}

/// The answers that failed.
pub open spec fn failed(answers: Seq<(KeeperAction, ActionDispatchResult)>) -> nat {
    number_of(answers, |r: ActionDispatchResult| r is Failed)
}

/// The answers that were skipped.
pub open spec fn skipped(answers: Seq<(KeeperAction, ActionDispatchResult)>) -> nat {
    number_of(answers, |r: ActionDispatchResult| r is Skipped)
}

/// Answers are counted by what became of them: those submitted first, then
/// those that failed, then those skipped.
pub proof fn law_answers_are_counted_by_kind(answers: Seq<(KeeperAction, ActionDispatchResult)>)
    ensures
        cycle::answer_counts(answers) == (submitted(answers), failed(answers), skipped(answers)),
    decreases answers.len(),
{
    reveal(Seq::filter);
    if answers.len() > 0 {
        law_answers_are_counted_by_kind(answers.drop_last());
    }
}

/// A tick that went through adds one to the ticks, its answers to the totals
/// of their kinds and its hints to the total of hints; the figures of the last
/// tick are its own; errors, samples, status, balance and start stay.
pub proof fn law_tick_adds_up(m: KeeperMetrics, report: TickReport, duration_ms: u64)
    requires
        m.ticks_total < u64::MAX,
        m.init_hints_recorded_total + report.init_hints_added <= u64::MAX,
        m.actions_submitted_total + report.dispatched@.len() <= u64::MAX,
        m.actions_failed_total + report.dispatched@.len() <= u64::MAX,
        m.actions_skipped_total + report.dispatched@.len() <= u64::MAX,
    ensures
        ({
            let n = metrics::after_tick(m, report, duration_ms);
            &&& n.ticks_total == m.ticks_total + 1
            &&& n.actions_submitted_total == m.actions_submitted_total + submitted(
                report.dispatched@,
            )
            &&& n.actions_failed_total == m.actions_failed_total + failed(report.dispatched@)
            &&& n.actions_skipped_total == m.actions_skipped_total + skipped(report.dispatched@)
            &&& n.init_hints_recorded_total == m.init_hints_recorded_total
                + report.init_hints_added
            &&& n.last_init_hints == report.init_hints_added
            &&& n.last_actions_planned == report.actions_planned
            &&& n.last_tick_duration_ms == duration_ms
            &&& report.applied_vol_milli is None ==> n.last_applied_vol_milli == -1
            &&& report.applied_vol_milli matches Some(milli) ==> n.last_applied_vol_milli == milli
            &&& n.snapshot_errors_total == m.snapshot_errors_total
            &&& n.vol_samples == m.vol_samples
            &&& n.up_since_unix_secs == m.up_since_unix_secs
            &&& n.leader_status == m.leader_status
            &&& n.wallet_balance_lamports == m.wallet_balance_lamports
        }),
{
    law_answers_are_counted_by_kind(report.dispatched@);
    cycle::law_answers_add_up(report.dispatched@);
}

/// An error adds one to the errors and changes nothing else.
pub proof fn law_error_adds_one(m: KeeperMetrics)
    requires
        m.snapshot_errors_total < u64::MAX,
    ensures
        ({
            let n = metrics::after_snapshot_error(m);
            &&& n.snapshot_errors_total == m.snapshot_errors_total + 1
            &&& (KeeperMetrics { snapshot_errors_total: m.snapshot_errors_total, ..n }) == m
        }),
{
}

/// Counters go round at their end: they never stop.
pub proof fn law_counters_go_round(counter: u64, amount: u64)
    ensures
        ({
            let n = metrics::counted(counter, amount as nat);
            n == counter + amount || n == counter + amount - 0x1_0000_0000_0000_0000
        }),
{
}

/// Merging the figures of two passes adds them figure by figure.
pub proof fn law_merging_adds_figure_by_figure(a: KeeperLoopMetrics, b: KeeperLoopMetrics)
    requires
        cycle::mergeable(a, b),
    ensures
        ({
            let c = cycle::merged(a, b);
            &&& c.price_samples_recorded == a.price_samples_recorded + b.price_samples_recorded
            &&& c.init_hints_recorded == a.init_hints_recorded + b.init_hints_recorded
            &&& c.actions_planned == a.actions_planned + b.actions_planned
            &&& c.actions_submitted == a.actions_submitted + b.actions_submitted
            &&& c.actions_failed == a.actions_failed + b.actions_failed
            &&& c.actions_skipped == a.actions_skipped + b.actions_skipped
            &&& c.vol_estimator_applied == (a.vol_estimator_applied || b.vol_estimator_applied)
        }),
{
}

/// The status of a keeper by its number and its name.
pub proof fn law_status_numbers_and_names()
    ensures
        LeaderStatus::Unknown.code() == 0 && LeaderStatus::Leader.code() == 1
            && LeaderStatus::Standby.code() == 2,
        LeaderStatus::of_code(1) is Leader && LeaderStatus::of_code(2) is Standby,
        forall|v: u8|
            v != 1 && v != 2 ==> #[trigger] LeaderStatus::of_code(v) is Unknown,
        LeaderStatus::Leader.name() == "leader"@,
        LeaderStatus::Standby.name() == "standby"@,
        LeaderStatus::Unknown.name() == "unknown"@,
{
}

} // verus!
