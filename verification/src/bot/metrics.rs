//! Counters and gauges of the daemon, and their renderings.
//!
//! Counters wrap round; the volatility is kept in thousandths.
use vstd::prelude::*;

use crate::bot::gauge;
use crate::bot::gauge::shown_thousandths;
use crate::bot::TickReport;
use crate::planner::cycle;
use crate::planner::cycle::count_answers;
use crate::text;

verus! {

/// Stands for a volatility that is not known yet.
pub const APPLIED_VOL_NOT_WARM: i64 = -1;

/// Whether this keeper leads.
#[derive(Debug, Clone, Copy, PartialEq, Eq, Structural)]
pub enum LeaderStatus {
    /// Not known yet.
    Unknown,
    /// This keeper leads and may submit.
    Leader,
    /// Another keeper leads.
    Standby,
}

impl LeaderStatus {
    /// The number of the status.
    pub open spec fn code(self) -> u8 {
        match self {
            LeaderStatus::Unknown => 0,
            LeaderStatus::Leader => 1,
            LeaderStatus::Standby => 2,
        }
    }

    /// The status with a number.
    pub open spec fn of_code(v: u8) -> LeaderStatus {
        if v == 1 {
            LeaderStatus::Leader
        } else if v == 2 {
            LeaderStatus::Standby
        } else {
            LeaderStatus::Unknown
        }
    }

    /// The name of the status.
    pub open spec fn name(self) -> Seq<char> {
        match self {
            LeaderStatus::Leader => "leader"@,
            LeaderStatus::Standby => "standby"@,
            LeaderStatus::Unknown => "unknown"@,
        }
    }

    /// The number of the status.
    pub fn to_u8(self) -> (r: u8)
        ensures
            r == self.code(),
    {
        match self {
            LeaderStatus::Unknown => 0,
            LeaderStatus::Leader => 1,
            LeaderStatus::Standby => 2,
        }
    }

    /// The status with a number.
    pub fn from_u8(v: u8) -> (r: Self)
        ensures
            r == LeaderStatus::of_code(v),
    {
        if v == 1 {
            LeaderStatus::Leader
        } else if v == 2 {
            LeaderStatus::Standby
        } else {
            LeaderStatus::Unknown
        }
    }
}

/// The counters and gauges of one daemon.
#[derive(Debug, Clone, Copy, PartialEq, Eq, Structural)]
pub struct KeeperMetrics {
    /// Ticks completed.
    pub ticks_total: u64,
    /// Tasks that were accepted.
    pub actions_submitted_total: u64,
    /// Tasks that failed.
    pub actions_failed_total: u64,
    /// Tasks that were declined.
    pub actions_skipped_total: u64,
    /// Init hints that the model gave.
    pub init_hints_recorded_total: u64,
    /// Refreshes that failed.
    pub snapshot_errors_total: u64,
    /// Duration of the last tick in milliseconds.
    pub last_tick_duration_ms: u64,
    /// Volatility that the model was tuned to on the last tick, in
    /// thousandths, or [`APPLIED_VOL_NOT_WARM`].
    pub last_applied_vol_milli: i64,
    /// Price samples in the window.
    pub vol_samples: u64,
    /// Init hints of the last tick.
    pub last_init_hints: u64,
    /// Tasks planned on the last tick.
    pub last_actions_planned: u64,
    /// When the daemon booted, in Unix seconds; zero before.
    pub up_since_unix_secs: u64,
    /// Number of the [`LeaderStatus`].
    pub leader_status: u8,
    /// Balance of the payer in lamports.
    pub wallet_balance_lamports: u64,
}

/// Nothing has been counted.
pub open spec fn zero_metrics() -> KeeperMetrics {
    KeeperMetrics {
        ticks_total: 0,
        actions_submitted_total: 0,
        actions_failed_total: 0,
        actions_skipped_total: 0,
        init_hints_recorded_total: 0,
        snapshot_errors_total: 0,
        last_tick_duration_ms: 0,
        last_applied_vol_milli: 0,
        vol_samples: 0,
        last_init_hints: 0,
        last_actions_planned: 0,
        up_since_unix_secs: 0,
        leader_status: 0,
        wallet_balance_lamports: 0,
    }
}

/// The sum of a counter and an amount; it wraps round.
pub open spec fn counted(counter: u64, amount: nat) -> u64 {
    ((counter + amount) % 0x1_0000_0000_0000_0000) as u64
}

/// The counters after a tick.
pub open spec fn after_tick(m: KeeperMetrics, report: TickReport, duration_ms: u64) -> KeeperMetrics {
    let (submitted, failed, skipped) = cycle::answer_counts(report.dispatched@);
    KeeperMetrics {
        ticks_total: counted(m.ticks_total, 1),
        last_tick_duration_ms: duration_ms,
        last_init_hints: report.init_hints_added as u64,
        last_actions_planned: report.actions_planned as u64,
        init_hints_recorded_total: counted(
            m.init_hints_recorded_total,
            report.init_hints_added as nat,
        ),
        actions_submitted_total: counted(m.actions_submitted_total, submitted),
        actions_failed_total: counted(m.actions_failed_total, failed),
        actions_skipped_total: counted(m.actions_skipped_total, skipped),
        last_applied_vol_milli: match report.applied_vol_milli {
            Some(milli) => milli,
            None => APPLIED_VOL_NOT_WARM,
        },
        ..m
    }
}

/// The counters after a refresh that failed.
pub open spec fn after_snapshot_error(m: KeeperMetrics) -> KeeperMetrics {
    KeeperMetrics { snapshot_errors_total: counted(m.snapshot_errors_total, 1), ..m }
}

/// A value of a metric with the lines that describe it.
pub open spec fn metric_block(
    name: Seq<char>,
    help: Seq<char>,
    kind: Seq<char>,
    labels: Seq<char>,
    value: Seq<char>,
) -> Seq<char> {
    "# HELP "@ + name + " "@ + help + "\n"@ + "# TYPE "@ + name + " "@ + kind + "\n"@ + name
        + labels + " "@ + value + "\n"@
}

/// A number of thousandths as a decimal fraction without zeros at its end.
pub open spec fn milli_text(size: nat) -> Seq<char> {
    text::decimal(size / 1000) + fraction_text(size % 1000)
}

/// The fraction of a number with so many thousandths.
pub open spec fn fraction_text(rest: nat) -> Seq<char> {
    if rest == 0 {
        Seq::empty()
    } else if rest % 100 == 0 {
        "."@ + text::decimal(rest / 100)
    } else if rest % 10 == 0 {
        "."@ + text::decimal(rest / 100) + text::decimal(rest / 10 % 10)
    } else {
        "."@ + text::decimal(rest / 100) + text::decimal(rest / 10 % 10) + text::decimal(rest % 10)
    }
}

/// A number of thousandths, with its sign, as a gauge shows it.
pub open spec fn gauge_text(milli: int) -> Seq<char> {
    if milli < 0 {
        "-"@ + milli_text(gauge::shown((-milli) as nat))
    } else {
        milli_text(gauge::shown(milli as nat))
    }
}

/// The volatility as the gauge shows it.
pub open spec fn vol_text(milli: i64) -> Seq<char> {
    if milli == APPLIED_VOL_NOT_WARM {
        "NaN"@
    } else {
        gauge_text(milli as int)
    }
}

/// The value of a label with quotes and backslashes escaped, and without line feeds.
pub open spec fn escaped(value: Seq<char>) -> Seq<char>
    decreases value.len(),
{
    if value.len() == 0 {
        Seq::empty()
    } else {
        let before = escaped(value.drop_last());
        let c = value.last();
        if c == '\\' {
            before + "\\\\"@
        } else if c == '"' {
            before + "\\\""@
        } else if c == '\n' {
            before
        } else {
            before.push(c)
        }
    }
}

/// A label.
pub open spec fn label_text(label: (&str, &str)) -> Seq<char> {
    label.0@ + "=\""@ + escaped(label.1@) + "\""@
}

/// Labels, separated by commas.
pub open spec fn label_list(labels: Seq<(&str, &str)>) -> Seq<char>
    decreases labels.len(),
{
    if labels.len() == 0 {
        Seq::empty()
    } else if labels.len() == 1 {
        label_text(labels[0])
    } else {
        label_list(labels.drop_last()) + ","@ + label_text(labels.last())
    }
}

/// The labels of a metric; nothing where there are none.
pub open spec fn label_block(labels: Seq<(&str, &str)>) -> Seq<char> {
    if labels.len() == 0 {
        Seq::empty()
    } else {
        "{"@ + label_list(labels) + "}"@
    }
}

/// The counters as Prometheus reads them.
pub open spec fn prometheus_counters(m: KeeperMetrics, labels: Seq<char>) -> Seq<char> {
    metric_block(
        "keeper_ticks_total"@,
        "Total ticks the bot has completed."@,
        "counter"@,
        labels,
        text::decimal(m.ticks_total as nat),
    ) + metric_block(
        "keeper_actions_submitted_total"@,
        "Cumulative actions whose tx submission was acknowledged."@,
        "counter"@,
        labels,
        text::decimal(m.actions_submitted_total as nat),
    ) + metric_block(
        "keeper_actions_failed_total"@,
        "Cumulative actions whose tx submission failed."@,
        "counter"@,
        labels,
        text::decimal(m.actions_failed_total as nat),
    ) + metric_block(
        "keeper_actions_skipped_total"@,
        "Cumulative actions skipped by the executor (e.g. unknown PDAs)."@,
        "counter"@,
        labels,
        text::decimal(m.actions_skipped_total as nat),
    ) + metric_block(
        "keeper_init_hints_recorded_total"@,
        "Cumulative init hints surfaced by the predictor."@,
        "counter"@,
        labels,
        text::decimal(m.init_hints_recorded_total as nat),
    ) + metric_block(
        "keeper_snapshot_errors_total"@,
        "Cumulative snapshot fetch errors (any kind)."@,
        "counter"@,
        labels,
        text::decimal(m.snapshot_errors_total as nat),
    )
}

/// The gauges as Prometheus reads them.
pub open spec fn prometheus_gauges(m: KeeperMetrics, labels: Seq<char>) -> Seq<char> {
    metric_block(
        "keeper_last_tick_duration_milliseconds"@,
        "Wall-clock duration of the most recent tick, in milliseconds."@,
        "gauge"@,
        labels,
        text::decimal(m.last_tick_duration_ms as nat),
    ) + metric_block(
        "keeper_last_applied_vol"@,
        "σ̂ applied to the predictor on the last tick. NaN means warming up."@,
        "gauge"@,
        labels,
        vol_text(m.last_applied_vol_milli),
    ) + metric_block(
        "keeper_vol_samples"@,
        "Number of price samples currently in the vol estimator window."@,
        "gauge"@,
        labels,
        text::decimal(m.vol_samples as nat),
    ) + metric_block(
        "keeper_last_init_hints"@,
        "Init hints surfaced by the predictor on the last tick."@,
        "gauge"@,
        labels,
        text::decimal(m.last_init_hints as nat),
    ) + metric_block(
        "keeper_last_actions_planned"@,
        "Actions emitted by the scheduler on the last tick."@,
        "gauge"@,
        labels,
        text::decimal(m.last_actions_planned as nat),
    ) + metric_block(
        "keeper_up_since_unix_seconds"@,
        "Unix timestamp at which the bot last booted."@,
        "gauge"@,
        labels,
        text::decimal(m.up_since_unix_secs as nat),
    ) + metric_block(
        "keeper_leader_status"@,
        "0=unknown, 1=leader, 2=standby."@,
        "gauge"@,
        labels,
        text::decimal(m.leader_status as nat),
    ) + metric_block(
        "keeper_wallet_balance_lamports"@,
        "Most recently observed payer wallet balance, in lamports."@,
        "gauge"@,
        labels,
        text::decimal(m.wallet_balance_lamports as nat),
    )
}

/// The register as Prometheus reads it.
pub open spec fn prometheus_text(m: KeeperMetrics, labels: Seq<char>) -> Seq<char> {
    prometheus_counters(m, labels) + prometheus_gauges(m, labels)
}

/// A field of a JSON object.
pub open spec fn json_field(key: Seq<char>, value: Seq<char>) -> Seq<char> {
    "\""@ + key + "\":"@ + value
}

/// The register as a JSON object.
pub open spec fn json_text(m: KeeperMetrics) -> Seq<char> {
    "{"@ + json_field("ticksTotal"@, text::decimal(m.ticks_total as nat)) + ","@ + json_field(
        "actionsSubmittedTotal"@,
        text::decimal(m.actions_submitted_total as nat),
    ) + ","@ + json_field(
        "actionsFailedTotal"@,
        text::decimal(m.actions_failed_total as nat),
    ) + ","@ + json_field(
        "actionsSkippedTotal"@,
        text::decimal(m.actions_skipped_total as nat),
    ) + ","@ + json_field(
        "initHintsRecordedTotal"@,
        text::decimal(m.init_hints_recorded_total as nat),
    ) + ","@ + json_field(
        "snapshotErrorsTotal"@,
        text::decimal(m.snapshot_errors_total as nat),
    ) + ","@ + json_field(
        "lastTickDurationMs"@,
        text::decimal(m.last_tick_duration_ms as nat),
    ) + ","@ + json_field("volSamples"@, text::decimal(m.vol_samples as nat)) + ","@ + json_field(
        "lastInitHints"@,
        text::decimal(m.last_init_hints as nat),
    ) + ","@ + json_field(
        "lastActionsPlanned"@,
        text::decimal(m.last_actions_planned as nat),
    ) + ","@ + json_field(
        "upSinceUnixSecs"@,
        text::decimal(m.up_since_unix_secs as nat),
    ) + ","@ + json_field(
        "walletBalanceLamports"@,
        text::decimal(m.wallet_balance_lamports as nat),
    ) + ","@ + json_field(
        "appliedVolMilli"@,
        if m.last_applied_vol_milli == APPLIED_VOL_NOT_WARM {
            "null"@
        } else {
            text::decimal_int(m.last_applied_vol_milli as int)
        },
    ) + ","@ + json_field(
        "leaderStatus"@,
        "\""@ + LeaderStatus::of_code(m.leader_status).name() + "\""@,
    ) + "}"@
}

/// Adds to a counter, wrapping round.
fn add_to(counter: u64, amount: u64) -> (r: u64)
    ensures
        r == counted(counter, amount as nat),
{
    counter.wrapping_add(amount)
}

/// Appends a number of thousandths as a gauge shows it.
fn push_milli(out: &mut String, milli: i64)
    ensures
        final(out)@ == old(out)@ + gauge_text(milli as int),
{
    let size: u128;
    if milli < 0 {
        out.append("-");
        size = shown_thousandths((-(milli as i128)) as u64);
    } else {
        size = shown_thousandths(milli as u64);
    }
    let ghost signed = out@;
    text::push_decimal(out, size / 1000);
    let rest: u128 = size % 1000;
    if rest != 0 {
        out.append(".");
        text::push_decimal(out, rest / 100);
        if rest % 100 != 0 {
            text::push_decimal(out, rest / 10 % 10);
            if rest % 10 != 0 {
                text::push_decimal(out, rest % 10);
            }
        }
    }
    proof {
        let n = size as int;
        assert(n / 1000 == (size / 1000) as int);
        assert(out@ =~= signed + text::decimal((size / 1000) as nat) + fraction_text(rest as nat));
        assert(out@ =~= old(out)@ + gauge_text(milli as int));
    }
}

/// Appends the value of a label, escaped.
fn push_escaped(out: &mut String, value: &str)
    ensures
        final(out)@ == old(out)@ + escaped(value@),
{
    let chars: Vec<char> = text::chars_of(value);
    let mut i: usize = 0;
    proof {
        assert(chars@.take(0) =~= Seq::<char>::empty());
        assert(old(out)@ + escaped(chars@.take(0)) =~= old(out)@);
    }
    while i < chars.len()
        invariant
            i <= chars.len(),
            out@ == old(out)@ + escaped(chars@.take(i as int)),
        decreases chars.len() - i,
    {
        let c: char = chars[i];
        let ghost before = out@;
        if c == '\\' {
            out.append("\\\\");
        } else if c == '"' {
            out.append("\\\"");
        } else if c != '\n' {
            out.push(c);
        }
        i = i + 1;
        proof {
            assert(chars@.take(i as int).drop_last() =~= chars@.take(i - 1));
            assert(chars@.take(i as int).last() == c);
            assert(out@ =~= old(out)@ + escaped(chars@.take(i as int)));
        }
    }
    proof {
        assert(chars@.take(chars@.len() as int) =~= chars@);
    }
}

/// Renders the labels of a metric.
pub fn format_label_block(labels: &[(&str, &str)]) -> (r: String)
    ensures
        r@ == label_block(labels@),
{
    if labels.len() == 0 {
        let none = String::new();
        proof {
            assert(none@ =~= Seq::<char>::empty());
        }
        return none;
    }
    let mut out = String::from_str("{");
    let mut i: usize = 0;
    proof {
        assert(labels@.take(0) =~= Seq::<(&str, &str)>::empty());
        assert(out@ =~= "{"@ + label_list(labels@.take(0)));
    }
    while i < labels.len()
        invariant
            i <= labels.len(),
            out@ == "{"@ + label_list(labels@.take(i as int)),
        decreases labels.len() - i,
    {
        if i > 0 {
            out.append(",");
        }
        let label: (&str, &str) = labels[i];
        out.append(label.0);
        out.append("=\"");
        push_escaped(&mut out, label.1);
        out.append("\"");
        i = i + 1;
        proof {
            let taken = labels@.take(i as int);
            assert(taken.drop_last() =~= labels@.take(i - 1));
            assert(taken.last() == label);
            assert(taken[0] == labels@[0]);
            assert(out@ =~= "{"@ + label_list(taken));
        }
    }
    out.append("}");
    proof {
        assert(labels@.take(labels@.len() as int) =~= labels@);
    }
    out
}

/// Appends a value of a metric with the lines that describe it.
fn write_metric(out: &mut String, name: &str, help: &str, kind: &str, labels: &str, value: &str)
    ensures
        final(out)@ == old(out)@ + metric_block(name@, help@, kind@, labels@, value@),
{
    out.append("# HELP ");
    out.append(name);
    out.append(" ");
    out.append(help);
    out.append("\n");
    out.append("# TYPE ");
    out.append(name);
    out.append(" ");
    out.append(kind);
    out.append("\n");
    out.append(name);
    out.append(labels);
    out.append(" ");
    out.append(value);
    out.append("\n");
    proof {
        assert(out@ =~= old(out)@ + metric_block(name@, help@, kind@, labels@, value@));
    }
}

/// Appends a metric with a whole number.
fn write_number(out: &mut String, name: &str, help: &str, kind: &str, labels: &str, value: u64)
    ensures
        final(out)@ == old(out)@ + metric_block(
            name@,
            help@,
            kind@,
            labels@,
            text::decimal(value as nat),
        ),
{
    let mut number = String::new();
    text::push_decimal(&mut number, value as u128);
    proof {
        assert(number@ =~= text::decimal(value as nat));
    }
    write_metric(out, name, help, kind, labels, number.as_str());
}

/// Appends a field of a JSON object.
fn push_json_text(out: &mut String, key: &str, value: &str)
    ensures
        final(out)@ == old(out)@ + json_field(key@, value@),
{
    out.append("\"");
    out.append(key);
    out.append("\":");
    out.append(value);
    proof {
        assert(out@ =~= old(out)@ + json_field(key@, value@));
    }
}

/// Appends a field of a JSON object that is a whole number.
fn push_json_number(out: &mut String, key: &str, value: u64)
    ensures
        final(out)@ == old(out)@ + json_field(key@, text::decimal(value as nat)),
{
    out.append("\"");
    out.append(key);
    out.append("\":");
    text::push_decimal(out, value as u128);
    proof {
        assert(out@ =~= old(out)@ + json_field(key@, text::decimal(value as nat)));
    }
}

impl Default for KeeperMetrics {
    fn default() -> (r: Self)
        ensures
            r == zero_metrics(),
    {
        KeeperMetrics {
            ticks_total: 0,
            actions_submitted_total: 0,
            actions_failed_total: 0,
            actions_skipped_total: 0,
            init_hints_recorded_total: 0,
            snapshot_errors_total: 0,
            last_tick_duration_ms: 0,
            last_applied_vol_milli: 0,
            vol_samples: 0,
            last_init_hints: 0,
            last_actions_planned: 0,
            up_since_unix_secs: 0,
            leader_status: 0,
            wallet_balance_lamports: 0,
        }
    }
}

impl KeeperMetrics {
    /// A register in which nothing has been counted.
    pub fn new() -> (r: Self)
        ensures
            r == zero_metrics(),
    {
        KeeperMetrics::default()
    }

    /// Records when the daemon booted.
    pub fn observe_boot(&mut self, unix_secs: u64)
        ensures
            *final(self) == (KeeperMetrics { up_since_unix_secs: unix_secs, ..*old(self) }),
    {
        self.up_since_unix_secs = unix_secs;
    }

    /// Sets the leader status.
    pub fn set_leader_status(&mut self, s: LeaderStatus)
        ensures
            *final(self) == (KeeperMetrics { leader_status: s.code(), ..*old(self) }),
    {
        self.leader_status = s.to_u8();
    }

    /// The leader status.
    pub fn leader_status(&self) -> (r: LeaderStatus)
        ensures
            r == LeaderStatus::of_code(self.leader_status),
    {
        LeaderStatus::from_u8(self.leader_status)
    }

    /// Sets the balance of the payer.
    pub fn set_wallet_balance_lamports(&mut self, lamports: u64)
        ensures
            *final(self) == (KeeperMetrics { wallet_balance_lamports: lamports, ..*old(self) }),
    {
        self.wallet_balance_lamports = lamports;
    }

    /// Counts a refresh that failed.
    pub fn observe_snapshot_error(&mut self)
        ensures
            *final(self) == after_snapshot_error(*old(self)),
    {
        self.snapshot_errors_total = add_to(self.snapshot_errors_total, 1);
    }

    /// Counts a tick.
    pub fn observe_tick(&mut self, report: &TickReport, duration_ms: u64)
        ensures
            *final(self) == after_tick(*old(self), *report, duration_ms),
    {
        self.ticks_total = add_to(self.ticks_total, 1);
        self.last_tick_duration_ms = duration_ms;
        self.last_init_hints = report.init_hints_added as u64;
        self.last_actions_planned = report.actions_planned as u64;
        self.init_hints_recorded_total = add_to(
            self.init_hints_recorded_total,
            report.init_hints_added as u64,
        );
        let (submitted, failed, skipped): (usize, usize, usize) = count_answers(
            &report.dispatched,
        );
        self.actions_submitted_total = add_to(self.actions_submitted_total, submitted as u64);
        self.actions_failed_total = add_to(self.actions_failed_total, failed as u64);
        self.actions_skipped_total = add_to(self.actions_skipped_total, skipped as u64);
        self.last_applied_vol_milli = match report.applied_vol_milli {
            Some(milli) => milli,
            None => APPLIED_VOL_NOT_WARM,
        };
    }

    /// Sets the number of price samples.
    pub fn set_vol_samples(&mut self, n: u64)
        ensures
            *final(self) == (KeeperMetrics { vol_samples: n, ..*old(self) }),
    {
        self.vol_samples = n;
    }

    /// Renders the register for Prometheus.
    pub fn render_prometheus(&self) -> (r: String)
        ensures
            r@ == prometheus_text(*self, Seq::empty()),
    {
        self.render_prometheus_with_labels(&[])
    }

    /// Renders the register for Prometheus, every value with the labels.
    pub fn render_prometheus_with_labels(&self, labels: &[(&str, &str)]) -> (r: String)
        ensures
            r@ == prometheus_text(*self, label_block(labels@)),
    {
        let block: String = format_label_block(labels);
        let mut out = String::new();
        proof {
            assert(out@ =~= Seq::<char>::empty());
        }
        self.write_counters(&mut out, block.as_str());
        self.write_gauges(&mut out, block.as_str());
        proof {
            assert(out@ =~= prometheus_text(*self, block@));
        }
        out
    }

    /// Appends the counters.
    fn write_counters(&self, out: &mut String, labels: &str)
        ensures
            final(out)@ == old(out)@ + prometheus_counters(*self, labels@),
    {
        write_number(
            out,
            "keeper_ticks_total",
            "Total ticks the bot has completed.",
            "counter",
            labels,
            self.ticks_total,
        );
        write_number(
            out,
            "keeper_actions_submitted_total",
            "Cumulative actions whose tx submission was acknowledged.",
            "counter",
            labels,
            self.actions_submitted_total,
        );
        write_number(
            out,
            "keeper_actions_failed_total",
            "Cumulative actions whose tx submission failed.",
            "counter",
            labels,
            self.actions_failed_total,
        );
        write_number(
            out,
            "keeper_actions_skipped_total",
            "Cumulative actions skipped by the executor (e.g. unknown PDAs).",
            "counter",
            labels,
            self.actions_skipped_total,
        );
        write_number(
            out,
            "keeper_init_hints_recorded_total",
            "Cumulative init hints surfaced by the predictor.",
            "counter",
            labels,
            self.init_hints_recorded_total,
        );
        write_number(
            out,
            "keeper_snapshot_errors_total",
            "Cumulative snapshot fetch errors (any kind).",
            "counter",
            labels,
            self.snapshot_errors_total,
        );
        proof {
            assert(out@ =~= old(out)@ + prometheus_counters(*self, labels@));
        }
    }

    /// Appends the gauges.
    fn write_gauges(&self, out: &mut String, labels: &str)
        ensures
            final(out)@ == old(out)@ + prometheus_gauges(*self, labels@),
    {
        write_number(
            out,
            "keeper_last_tick_duration_milliseconds",
            "Wall-clock duration of the most recent tick, in milliseconds.",
            "gauge",
            labels,
            self.last_tick_duration_ms,
        );
        let mut vol = String::new();
        if self.last_applied_vol_milli == APPLIED_VOL_NOT_WARM {
            vol.append("NaN");
        } else {
            push_milli(&mut vol, self.last_applied_vol_milli);
        }
        proof {
            assert(vol@ =~= vol_text(self.last_applied_vol_milli));
        }
        write_metric(
            out,
            "keeper_last_applied_vol",
            "σ̂ applied to the predictor on the last tick. NaN means warming up.",
            "gauge",
            labels,
            vol.as_str(),
        );
        write_number(
            out,
            "keeper_vol_samples",
            "Number of price samples currently in the vol estimator window.",
            "gauge",
            labels,
            self.vol_samples,
        );
        write_number(
            out,
            "keeper_last_init_hints",
            "Init hints surfaced by the predictor on the last tick.",
            "gauge",
            labels,
            self.last_init_hints,
        );
        write_number(
            out,
            "keeper_last_actions_planned",
            "Actions emitted by the scheduler on the last tick.",
            "gauge",
            labels,
            self.last_actions_planned,
        );
        write_number(
            out,
            "keeper_up_since_unix_seconds",
            "Unix timestamp at which the bot last booted.",
            "gauge",
            labels,
            self.up_since_unix_secs,
        );
        write_number(
            out,
            "keeper_leader_status",
            "0=unknown, 1=leader, 2=standby.",
            "gauge",
            labels,
            self.leader_status as u64,
        );
        write_number(
            out,
            "keeper_wallet_balance_lamports",
            "Most recently observed payer wallet balance, in lamports.",
            "gauge",
            labels,
            self.wallet_balance_lamports,
        );
        proof {
            assert(out@ =~= old(out)@ + prometheus_gauges(*self, labels@));
        }
    }

    /// Renders the register as a JSON object.
    pub fn render_json_snapshot(&self) -> (r: String)
        ensures
            r@ == json_text(*self),
    {
        let mut out = String::from_str("{");
        push_json_number(&mut out, "ticksTotal", self.ticks_total);
        out.append(",");
        push_json_number(&mut out, "actionsSubmittedTotal", self.actions_submitted_total);
        out.append(",");
        push_json_number(&mut out, "actionsFailedTotal", self.actions_failed_total);
        out.append(",");
        push_json_number(&mut out, "actionsSkippedTotal", self.actions_skipped_total);
        out.append(",");
        push_json_number(&mut out, "initHintsRecordedTotal", self.init_hints_recorded_total);
        out.append(",");
        push_json_number(&mut out, "snapshotErrorsTotal", self.snapshot_errors_total);
        out.append(",");
        push_json_number(&mut out, "lastTickDurationMs", self.last_tick_duration_ms);
        out.append(",");
        push_json_number(&mut out, "volSamples", self.vol_samples);
        out.append(",");
        push_json_number(&mut out, "lastInitHints", self.last_init_hints);
        out.append(",");
        push_json_number(&mut out, "lastActionsPlanned", self.last_actions_planned);
        out.append(",");
        push_json_number(&mut out, "upSinceUnixSecs", self.up_since_unix_secs);
        out.append(",");
        push_json_number(&mut out, "walletBalanceLamports", self.wallet_balance_lamports);
        out.append(",");
        let mut vol = String::new();
        if self.last_applied_vol_milli == APPLIED_VOL_NOT_WARM {
            vol.append("null");
            proof {
                assert(vol@ =~= "null"@);
            }
        } else {
            text::push_decimal_int(&mut vol, self.last_applied_vol_milli);
            proof {
                assert(vol@ =~= text::decimal_int(self.last_applied_vol_milli as int));
            }
        }
        push_json_text(&mut out, "appliedVolMilli", vol.as_str());
        out.append(",");
        let mut status = String::from_str("\"");
        match self.leader_status() {
            LeaderStatus::Leader => status.append("leader"),
            LeaderStatus::Standby => status.append("standby"),
            LeaderStatus::Unknown => status.append("unknown"),
        }
        status.append("\"");
        push_json_text(&mut out, "leaderStatus", status.as_str());
        out.append("}");
        out
    }
}

/// A status is read back off its number.
pub proof fn law_status_round_trip(s: LeaderStatus)
    ensures
        LeaderStatus::of_code(s.code()) == s,
{
}

/// The value of a label never breaks its line.
pub proof fn law_labels_stay_on_their_line(value: Seq<char>)
    ensures
        !escaped(value).contains('\n'),
    decreases value.len(),
{
    reveal_strlit("\\\\");
    reveal_strlit("\\\"");
    if value.len() > 0 {
        law_labels_stay_on_their_line(value.drop_last());
        let before = escaped(value.drop_last());
        if escaped(value).contains('\n') {
            let i = choose|i: int| 0 <= i < escaped(value).len() && escaped(value)[i] == '\n';
            if i < before.len() {
                assert(before[i] == '\n');
            }
        }
    }
}

/// A tick's tasks are counted once each.
pub proof fn law_tick_counts_every_task(m: KeeperMetrics, report: TickReport, duration_ms: u64)
    requires
        m.actions_submitted_total + report.dispatched@.len() <= u64::MAX,
        m.actions_failed_total + report.dispatched@.len() <= u64::MAX,
        m.actions_skipped_total + report.dispatched@.len() <= u64::MAX,
    ensures
        ({
            let n = after_tick(m, report, duration_ms);
            (n.actions_submitted_total - m.actions_submitted_total) + (n.actions_failed_total
                - m.actions_failed_total) + (n.actions_skipped_total - m.actions_skipped_total)
                == report.dispatched@.len()
        }),
{
    cycle::law_answers_add_up(report.dispatched@);
}

} // verus!
