//! The lines of the Prometheus text.
use vstd::prelude::*;

use crate::bot::gauge;
use crate::bot::metrics;
use crate::bot::metrics::KeeperMetrics;
use crate::text;

verus! {

/// The text stays on one line.
pub open spec fn one_line(s: Seq<char>) -> bool {
    forall|i: int| 0 <= i < s.len() ==> #[trigger] s[i] != '\n'
}

/// The text is there, and holds no space, no brace and no line feed.
pub open spec fn plain(s: Seq<char>) -> bool {
    &&& s.len() > 0
    &&& forall|i: int|
        0 <= i < s.len() ==> #[trigger] s[i] != ' ' && s[i] != '{' && s[i] != '\n' && s[i] != '#'
}

/// A sample: a name, a space and a value.
pub open spec fn sample(line: Seq<char>, name: Seq<char>, value: Seq<char>) -> bool {
    line == name + " "@ + value && plain(name) && plain(value)
}

/// A line that describes a metric, or a sample without labels.
pub open spec fn proper(line: Seq<char>) -> bool {
    &&& one_line(line)
    &&& (line.len() > 0 && line[0] == '#') || exists|name: Seq<char>, value: Seq<char>| #[trigger]
        sample(line, name, value)
}

/// Every line is a description or a sample without labels.
pub open spec fn all_proper(lines: Seq<Seq<char>>) -> bool {
    forall|i: int| 0 <= i < lines.len() ==> proper(#[trigger] lines[i])
}

/// The text of lines, each with a line feed behind it.
pub open spec fn joined(lines: Seq<Seq<char>>) -> Seq<char>
    decreases lines.len(),
{
    if lines.len() == 0 {
        Seq::empty()
    } else {
        joined(lines.drop_last()) + lines.last() + "\n"@
    }
}

/// The text of two lists of lines is that of the one behind that of the other.
proof fn lemma_join(a: Seq<Seq<char>>, b: Seq<Seq<char>>)
    ensures
        joined(a + b) == joined(a) + joined(b),
        all_proper(a) && all_proper(b) ==> all_proper(a + b),
    decreases b.len(),
{
    if b.len() == 0 {
        assert(a + b =~= a);
        assert(joined(a) + joined(b) =~= joined(a));
    } else {
        lemma_join(a, b.drop_last());
        assert((a + b).drop_last() =~= a + b.drop_last());
        assert((a + b).last() == b.last());
        assert(joined(a + b) =~= joined(a) + joined(b));
    }
}

/// The lines of a metric.
spec fn block_lines(
    name: Seq<char>,
    help: Seq<char>,
    kind: Seq<char>,
    value: Seq<char>,
) -> Seq<Seq<char>> {
    Seq::<Seq<char>>::empty().push("# HELP "@ + name + " "@ + help).push(
        "# TYPE "@ + name + " "@ + kind,
    ).push(name + " "@ + value)
}

/// A metric without labels is two lines that describe it and a sample.
proof fn lemma_block(name: Seq<char>, help: Seq<char>, kind: Seq<char>, value: Seq<char>)
    requires
        plain(name),
        plain(value),
        one_line(help),
        one_line(kind),
    ensures
        metrics::metric_block(name, help, kind, Seq::empty(), value) == joined(
            block_lines(name, help, kind, value),
        ),
        all_proper(block_lines(name, help, kind, value)),
{
    reveal_strlit("# HELP ");
    reveal_strlit("# TYPE ");
    reveal_strlit(" ");
    reveal_strlit("\n");
    let none = Seq::<Seq<char>>::empty();
    let a = "# HELP "@ + name + " "@ + help;
    let b = "# TYPE "@ + name + " "@ + kind;
    let c = name + " "@ + value;
    let lines = block_lines(name, help, kind, value);
    assert(none.push(a).drop_last() =~= none);
    assert(none.push(a).push(b).drop_last() =~= none.push(a));
    assert(lines.drop_last() =~= none.push(a).push(b));
    assert(joined(none) =~= Seq::<char>::empty());
    assert(joined(none.push(a)) =~= a + "\n"@);
    assert(joined(none.push(a).push(b)) =~= a + "\n"@ + b + "\n"@);
    assert(joined(lines) =~= metrics::metric_block(name, help, kind, Seq::empty(), value));
    assert(one_line(a)) by {
        assert forall|i: int| 0 <= i < a.len() implies #[trigger] a[i] != '\n' by {
            lemma_described("# HELP "@, name, help, i);
        }
    }
    assert(one_line(b)) by {
        assert forall|i: int| 0 <= i < b.len() implies #[trigger] b[i] != '\n' by {
            lemma_described("# TYPE "@, name, kind, i);
        }
    }
    assert(one_line(c)) by {
        assert forall|i: int| 0 <= i < c.len() implies #[trigger] c[i] != '\n' by {
            if i < name.len() {
                assert(c[i] == name[i]);
            } else if i > name.len() {
                assert(c[i] == value[i - name.len() - 1]);
            }
        }
    }
    assert(a[0] == '#' && b[0] == '#');
    assert(sample(c, name, value));
    assert(lines[0] == a && lines[1] == b && lines[2] == c);
}

/// A line that describes a metric stays on one line.
proof fn lemma_described(mark: Seq<char>, name: Seq<char>, rest: Seq<char>, i: int)
    requires
        one_line(mark),
        plain(name),
        one_line(rest),
        0 <= i < (mark + name + " "@ + rest).len(),
    ensures
        (mark + name + " "@ + rest)[i] != '\n',
{
    reveal_strlit(" ");
    let line = mark + name + " "@ + rest;
    let n = mark.len() as int;
    let k = n + name.len();
    if i < n {
        assert(line[i] == mark[i]);
    } else if i < k {
        assert(line[i] == name[i - n]);
    } else if i == k {
        assert(line[i] == ' ');
    } else {
        assert(line[i] == rest[i - k - 1]);
    }
}

/// A name without spaces, and its description on one line.
#[verifier::opaque]
spec fn described(name: Seq<char>, help: Seq<char>) -> bool {
    plain(name) && one_line(help)
}

/// Lines with those of a metric behind them.
proof fn lemma_with_block(
    lines: Seq<Seq<char>>,
    name: Seq<char>,
    help: Seq<char>,
    kind: Seq<char>,
    value: Seq<char>,
) -> (all: Seq<Seq<char>>)
    requires
        all_proper(lines),
        described(name, help),
        one_line(kind),
        plain(value),
    ensures
        all_proper(all),
        joined(all) == joined(lines) + metrics::metric_block(
            name,
            help,
            kind,
            Seq::empty(),
            value,
        ),
{
    reveal(described);
    lemma_block(name, help, kind, value);
    lemma_join(lines, block_lines(name, help, kind, value));
    lines + block_lines(name, help, kind, value)
}

/// A number is plain.
proof fn lemma_decimal_is_plain(n: nat)
    ensures
        plain(text::decimal(n)),
    decreases n,
{
    if n >= 10 {
        lemma_decimal_is_plain(n / 10);
    }
}

/// A volatility is plain.
proof fn lemma_vol_is_plain(milli: i64)
    ensures
        plain(metrics::vol_text(milli)),
{
    reveal_strlit("NaN");
    reveal_strlit("-");
    reveal_strlit(".");
    let size = gauge::shown((if milli < 0 {
        -(milli as int)
    } else {
        milli as int
    }) as nat);
    let rest = size % 1000;
    lemma_decimal_is_plain(size / 1000);
    lemma_decimal_is_plain(rest / 100);
    lemma_decimal_is_plain(rest / 10 % 10);
    lemma_decimal_is_plain(rest % 10);
}

/// The lines of the counters.
proof fn lemma_counter_lines(m: KeeperMetrics) -> (lines: Seq<Seq<char>>)
    ensures
        metrics::prometheus_counters(m, Seq::empty()) == joined(lines),
        all_proper(lines),
{
    let kind = "counter"@;
    assert(one_line(kind)) by {
        reveal_strlit("counter");
    }
    let name = "keeper_ticks_total"@;
    let help = "Total ticks the bot has completed."@;
    assert(described(name, help)) by {
        reveal(described);
        reveal_strlit("keeper_ticks_total");
        reveal_strlit("Total ticks the bot has completed.");
    }
    lemma_decimal_is_plain(m.ticks_total as nat);
    let value = text::decimal(m.ticks_total as nat);
    let l0 = lemma_with_block(Seq::empty(), name, help, kind, value);
    let name = "keeper_actions_submitted_total"@;
    let help = "Cumulative actions whose tx submission was acknowledged."@;
    assert(described(name, help)) by {
        reveal(described);
        reveal_strlit("keeper_actions_submitted_total");
        reveal_strlit("Cumulative actions whose tx submission was acknowledged.");
    }
    lemma_decimal_is_plain(m.actions_submitted_total as nat);
    let value = text::decimal(m.actions_submitted_total as nat);
    let l1 = lemma_with_block(l0, name, help, kind, value);
    let name = "keeper_actions_failed_total"@;
    let help = "Cumulative actions whose tx submission failed."@;
    assert(described(name, help)) by {
        reveal(described);
        reveal_strlit("keeper_actions_failed_total");
        reveal_strlit("Cumulative actions whose tx submission failed.");
    }
    lemma_decimal_is_plain(m.actions_failed_total as nat);
    let value = text::decimal(m.actions_failed_total as nat);
    let l2 = lemma_with_block(l1, name, help, kind, value);
    let name = "keeper_actions_skipped_total"@;
    let help = "Cumulative actions skipped by the executor (e.g. unknown PDAs)."@;
    assert(described(name, help)) by {
        reveal(described);
        reveal_strlit("keeper_actions_skipped_total");
        reveal_strlit("Cumulative actions skipped by the executor (e.g. unknown PDAs).");
    }
    lemma_decimal_is_plain(m.actions_skipped_total as nat);
    let value = text::decimal(m.actions_skipped_total as nat);
    let l3 = lemma_with_block(l2, name, help, kind, value);
    let name = "keeper_init_hints_recorded_total"@;
    let help = "Cumulative init hints surfaced by the predictor."@;
    assert(described(name, help)) by {
        reveal(described);
        reveal_strlit("keeper_init_hints_recorded_total");
        reveal_strlit("Cumulative init hints surfaced by the predictor.");
    }
    lemma_decimal_is_plain(m.init_hints_recorded_total as nat);
    let value = text::decimal(m.init_hints_recorded_total as nat);
    let l4 = lemma_with_block(l3, name, help, kind, value);
    let name = "keeper_snapshot_errors_total"@;
    let help = "Cumulative snapshot fetch errors (any kind)."@;
    assert(described(name, help)) by {
        reveal(described);
        reveal_strlit("keeper_snapshot_errors_total");
        reveal_strlit("Cumulative snapshot fetch errors (any kind).");
    }
    lemma_decimal_is_plain(m.snapshot_errors_total as nat);
    let value = text::decimal(m.snapshot_errors_total as nat);
    let l5 = lemma_with_block(l4, name, help, kind, value);
    l5
}

/// The lines of the gauges.
#[verifier::rlimit(40)]
#[verifier::spinoff_prover]
proof fn lemma_gauge_lines(m: KeeperMetrics) -> (lines: Seq<Seq<char>>)
    ensures
        metrics::prometheus_gauges(m, Seq::empty()) == joined(lines),
        all_proper(lines),
{
    let kind = "gauge"@;
    assert(one_line(kind)) by {
        reveal_strlit("gauge");
    }
    let name = "keeper_last_tick_duration_milliseconds"@;
    let help = "Wall-clock duration of the most recent tick, in milliseconds."@;
    assert(described(name, help)) by {
        reveal(described);
        reveal_strlit("keeper_last_tick_duration_milliseconds");
        reveal_strlit("Wall-clock duration of the most recent tick, in milliseconds.");
    }
    lemma_decimal_is_plain(m.last_tick_duration_ms as nat);
    let value = text::decimal(m.last_tick_duration_ms as nat);
    let l0 = lemma_with_block(Seq::empty(), name, help, kind, value);
    let name = "keeper_last_applied_vol"@;
    let help = "σ̂ applied to the predictor on the last tick. NaN means warming up."@;
    assert(described(name, help)) by {
        reveal(described);
        reveal_strlit("keeper_last_applied_vol");
        reveal_strlit("σ̂ applied to the predictor on the last tick. NaN means warming up.");
    }
    lemma_vol_is_plain(m.last_applied_vol_milli);
    let value = metrics::vol_text(m.last_applied_vol_milli);
    let l1 = lemma_with_block(l0, name, help, kind, value);
    let name = "keeper_vol_samples"@;
    let help = "Number of price samples currently in the vol estimator window."@;
    assert(described(name, help)) by {
        reveal(described);
        reveal_strlit("keeper_vol_samples");
        reveal_strlit("Number of price samples currently in the vol estimator window.");
    }
    lemma_decimal_is_plain(m.vol_samples as nat);
    let value = text::decimal(m.vol_samples as nat);
    let l2 = lemma_with_block(l1, name, help, kind, value);
    let name = "keeper_last_init_hints"@;
    let help = "Init hints surfaced by the predictor on the last tick."@;
    assert(described(name, help)) by {
        reveal(described);
        reveal_strlit("keeper_last_init_hints");
        reveal_strlit("Init hints surfaced by the predictor on the last tick.");
    }
    lemma_decimal_is_plain(m.last_init_hints as nat);
    let value = text::decimal(m.last_init_hints as nat);
    let l3 = lemma_with_block(l2, name, help, kind, value);
    let name = "keeper_last_actions_planned"@;
    let help = "Actions emitted by the scheduler on the last tick."@;
    assert(described(name, help)) by {
        reveal(described);
        reveal_strlit("keeper_last_actions_planned");
        reveal_strlit("Actions emitted by the scheduler on the last tick.");
    }
    lemma_decimal_is_plain(m.last_actions_planned as nat);
    let value = text::decimal(m.last_actions_planned as nat);
    let l4 = lemma_with_block(l3, name, help, kind, value);
    let name = "keeper_up_since_unix_seconds"@;
    let help = "Unix timestamp at which the bot last booted."@;
    assert(described(name, help)) by {
        reveal(described);
        reveal_strlit("keeper_up_since_unix_seconds");
        reveal_strlit("Unix timestamp at which the bot last booted.");
    }
    lemma_decimal_is_plain(m.up_since_unix_secs as nat);
    let value = text::decimal(m.up_since_unix_secs as nat);
    let l5 = lemma_with_block(l4, name, help, kind, value);
    let name = "keeper_leader_status"@;
    let help = "0=unknown, 1=leader, 2=standby."@;
    assert(described(name, help)) by {
        reveal(described);
        reveal_strlit("keeper_leader_status");
        reveal_strlit("0=unknown, 1=leader, 2=standby.");
    }
    lemma_decimal_is_plain(m.leader_status as nat);
    let value = text::decimal(m.leader_status as nat);
    let l6 = lemma_with_block(l5, name, help, kind, value);
    let name = "keeper_wallet_balance_lamports"@;
    let help = "Most recently observed payer wallet balance, in lamports."@;
    assert(described(name, help)) by {
        reveal(described);
        reveal_strlit("keeper_wallet_balance_lamports");
        reveal_strlit("Most recently observed payer wallet balance, in lamports.");
    }
    lemma_decimal_is_plain(m.wallet_balance_lamports as nat);
    let value = text::decimal(m.wallet_balance_lamports as nat);
    let l7 = lemma_with_block(l6, name, help, kind, value);
    l7
}

/// The text without labels is what an empty list of labels gives, and is made
/// of lines, each of which describes a metric or is a sample: a name, a space
/// and a value, and no brace.
pub proof fn law_samples_are_a_name_and_a_value(m: KeeperMetrics)
    ensures
        metrics::prometheus_text(m, metrics::label_block(Seq::<(&str, &str)>::empty()))
            == metrics::prometheus_text(m, Seq::empty()),
        exists|lines: Seq<Seq<char>>| #[trigger]
            joined(lines) == metrics::prometheus_text(m, Seq::empty()) && all_proper(lines),
{
    let a = lemma_counter_lines(m);
    let b = lemma_gauge_lines(m);
    lemma_join(a, b);
    assert(joined(a + b) == metrics::prometheus_text(m, Seq::empty()));
}

} // verus!
