//! What holds of a daemon at its outset, and of what it shows and sends.
use vstd::prelude::*;

use crate::bot;
use crate::bot::cli;
use crate::bot::leader;
use crate::bot::metrics;
use crate::bot::multi;
use crate::bot::multi::{MarketSlot, SlotGate};
use crate::bot::run;
use crate::decoder::leader_lock::{HeartbeatOutcome, KeeperLeaderLock};
use crate::decoder::Pubkey32;
use crate::planner::cycle;
use crate::planner::cycle::{ActionDispatchResult, ActionExecutor};
use crate::planner::KeeperAction;
use crate::rpc::fetcher::AccountFetcher;
use crate::rpc::leader_tx::KeeperLeaderTxBuilder;
use crate::rpc::market_registry::MarketEntry;
use crate::rpc::snapshot::ChainSnapshot;
use crate::rpc::tx;
use crate::rpc::tx::{DispatchedModel, MockTxBuilder, RpcExecutor};
use crate::text;

verus! {

/// A fresh register shows zero everywhere.
pub proof fn law_fresh_register_shows_nothing()
    ensures
        ({
            let m = metrics::zero_metrics();
            &&& m.ticks_total == 0
            &&& m.actions_submitted_total == 0
            &&& m.actions_failed_total == 0
            &&& m.actions_skipped_total == 0
            &&& m.init_hints_recorded_total == 0
            &&& m.snapshot_errors_total == 0
            &&& m.last_tick_duration_ms == 0
            &&& m.last_applied_vol_milli == 0
            &&& m.vol_samples == 0
            &&& m.last_init_hints == 0
            &&& m.last_actions_planned == 0
            &&& m.up_since_unix_secs == 0
            &&& m.leader_status == 0
            &&& m.wallet_balance_lamports == 0
        }),
{
}

/// A market is served under its own symbol, program, account and lock, with
/// the lock read every 20 ticks, a heartbeat every 5, and the lock released on
/// the way out; the first copy of the lock has no leader, and the slot has
/// seen nothing.
pub proof fn law_markets_are_served_from_the_outset(
    slot: MarketSlot,
    entry: MarketEntry,
    keeper: Pubkey32,
)
    requires
        cli::serves(slot, entry, keeper),
    ensures
        slot.label@ == entry.symbol@,
        slot.ctx.program_id == entry.program_id,
        slot.ctx.market == entry.market_pda,
        slot.rpc_cfg.lock_pda == entry.lock_pda,
        slot.rpc_cfg.reconcile_every == Some(20u64),
        slot.rpc_cfg.heartbeat_every == Some(5u64),
        slot.rpc_cfg.release_on_shutdown,
        slot.policy.signer == keeper,
        !slot.policy.mirror.has_leader,
        slot.policy.mirror.last_heartbeat_slot == 0,
        slot.policy.mirror.takeover_threshold_slots == 75,
        slot.state.ticks == 0,
        slot.state.last_reconcile_tick is None,
        slot.state.last_heartbeat_tick is None,
        !slot.state.was_leader_last_tick,
        slot.state.finished is None,
        slot.bot.prices().window().len() == 0,
        slot.bot.planner().hints().len() == 0,
        slot.bot.settings().run_predictor,
{
}

/// What a copy of the lock learns from a heartbeat: from one that was
/// refused because another leads, who that is; from one that was behind, the
/// slot recorded, where that is later; from any other nothing.
pub proof fn law_copies_learn_from_refusals(lock: KeeperLeaderLock, outcome: HeartbeatOutcome)
    ensures
        ({
            let after = leader::corrected(lock, outcome);
            &&& after.takeover_threshold_slots == lock.takeover_threshold_slots
            &&& outcome matches HeartbeatOutcome::RejectedHeldByOther { current_leader, .. } ==> {
                &&& after.has_leader
                &&& after.current_leader == current_leader
                &&& after.last_heartbeat_slot == lock.last_heartbeat_slot
            }
            &&& outcome matches HeartbeatOutcome::RejectedClockSkew { recorded_slot, .. } ==> {
                &&& after.has_leader == lock.has_leader
                &&& after.current_leader == lock.current_leader
                &&& after.last_heartbeat_slot >= recorded_slot
                &&& after.last_heartbeat_slot >= lock.last_heartbeat_slot
                &&& after.last_heartbeat_slot == recorded_slot || after.last_heartbeat_slot
                    == lock.last_heartbeat_slot
            }
            &&& outcome is AcquiredFresh || outcome is AcquiredFromStale || outcome is Refreshed
                ==> after == lock
        }),
{
}

/// Milliseconds that fit are kept, and others become the most that fits.
pub proof fn law_milliseconds_are_cut_down(ms: u128)
    ensures
        ms <= u64::MAX ==> run::clamped(ms) == ms,
        ms > u64::MAX ==> run::clamped(ms) == u64::MAX,
{
}

/// A gated refresh refuses markets of another version and paused ones.
pub proof fn law_gated_refreshes_refuse()
    ensures
        run::gate_config().enforce_schema_version,
        run::gate_config().bail_when_paused,
{
}

/// The thousandths that up to three places behind a point stand for.
pub open spec fn thousandths_in(places: Seq<char>) -> int {
    if places.len() == 0 {
        0
    } else if places.len() == 1 {
        100 * text::number_in(places)
    } else if places.len() == 2 {
        10 * text::number_in(places)
    } else {
        text::number_in(places)
    }
}

/// Every character is a digit.
pub open spec fn all_digits(s: Seq<char>) -> bool {
    forall|i: int| 0 <= i < s.len() ==> '0' <= #[trigger] s[i] && s[i] <= '9'
}

/// A digit on its own.
proof fn lemma_one_digit(d: nat)
    requires
        d < 10,
    ensures
        text::decimal(d).len() == 1,
        text::number_in(text::decimal(d)) == d,
        all_digits(text::decimal(d)),
        d > 0 ==> text::decimal(d)[0] != '0',
{
    text::law_decimal_reads_as_its_number(d);
}

/// The number of digits behind digits.
proof fn lemma_digit_behind(s: Seq<char>, d: nat)
    requires
        d < 10,
        all_digits(s),
    ensures
        text::number_in(s + text::decimal(d)) == 10 * text::number_in(s) + d,
        all_digits(s + text::decimal(d)),
        (s + text::decimal(d)).len() == s.len() + 1,
        (s + text::decimal(d)).last() == text::decimal(d)[0],
{
    lemma_one_digit(d);
    let one = text::decimal(d);
    assert(one.drop_last() =~= Seq::<char>::empty());
    assert(text::number_in(Seq::<char>::empty()) == 0);
    let all = s + one;
    assert(all.drop_last() =~= s);
    assert(all.last() == one[0]);
    assert(one.last() == one[0]);
    assert forall|i: int| 0 <= i < all.len() implies '0' <= #[trigger] all[i] && all[i] <= '9' by {
        if i < s.len() {
            assert(all[i] == s[i]);
        } else {
            assert(all[i] == one[0]);
        }
    }
}

/// Thousandths are written as a decimal that reads as them: the whole part,
/// and where there is a fraction, a point and one to three places, of which
/// the last is no zero.
pub proof fn law_thousandths_read_back(n: nat) -> (r: (Seq<char>, Seq<char>))
    ensures
        all_digits(r.0),
        all_digits(r.1),
        r.0.len() > 0,
        r.1.len() <= 3,
        1000 * text::number_in(r.0) + thousandths_in(r.1) == n,
        r.1.len() == 0 ==> metrics::milli_text(n) == r.0,
        r.1.len() > 0 ==> metrics::milli_text(n) == r.0 + "."@ + r.1 && r.1.last() != '0',
        n % 1000 == 0 <==> r.1.len() == 0,
{
    let whole = text::decimal(n / 1000);
    let rest = n % 1000;
    text::law_decimal_reads_as_its_number(n / 1000);
    let a = rest / 100;
    let b = rest / 10 % 10;
    let c = rest % 10;
    assert(rest == 100 * a + 10 * b + c);
    let none = Seq::<char>::empty();
    assert(text::number_in(none) == 0);
    lemma_one_digit(a);
    lemma_one_digit(b);
    lemma_one_digit(c);
    let one = text::decimal(a);
    lemma_digit_behind(one, b);
    let two = one + text::decimal(b);
    lemma_digit_behind(two, c);
    let three = two + text::decimal(c);
    let point = "."@;
    if rest == 0 {
        assert(metrics::milli_text(n) =~= whole);
        (whole, none)
    } else if rest % 100 == 0 {
        assert(metrics::milli_text(n) =~= whole + point + one);
        assert(one.last() == one[0]);
        (whole, one)
    } else if rest % 10 == 0 {
        assert(b > 0);
        assert(metrics::milli_text(n) =~= whole + point + two);
        (whole, two)
    } else {
        assert(metrics::milli_text(n) =~= whole + point + three);
        (whole, three)
    }
}

/// The volatility is shown as no number until there are samples enough, and
/// then as thousandths, behind a minus sign where it is negative.
pub proof fn law_volatility_is_shown_in_thousandths(milli: i64)
    ensures
        milli == -1 ==> metrics::vol_text(milli) == "NaN"@,
        0 <= milli < 8_796_093_022_208_000 ==> metrics::vol_text(milli) == metrics::milli_text(
            milli as nat,
        ),
        -8_796_093_022_208_000 < milli < -1 ==> metrics::vol_text(milli) == "-"@
            + metrics::milli_text((-milli) as nat),
{
}

/// Labels stand in order, a comma between any two, each its name and, in
/// quotes, its value.
pub proof fn law_labels_stand_in_order(labels: Seq<(&str, &str)>, label: (&str, &str))
    ensures
        metrics::label_list(labels.push(label)) == if labels.len() == 0 {
            label.0@ + "=\""@ + metrics::escaped(label.1@) + "\""@
        } else {
            metrics::label_list(labels) + ","@ + (label.0@ + "=\""@ + metrics::escaped(label.1@)
                + "\""@)
        },
        metrics::label_block(labels.push(label)) == "{"@ + metrics::label_list(labels.push(label))
            + "}"@,
        labels.len() == 0 ==> metrics::label_block(labels) == Seq::<char>::empty(),
{
    assert(labels.push(label).drop_last() =~= labels);
    assert(labels.push(label).last() == label);
}

/// Opening a tick keeps which market a slot is about. The slot has finished
/// afterwards if and only if opening it ended its loop.
pub proof fn law_opening_keeps_the_market<F: AccountFetcher, L: KeeperLeaderTxBuilder>(
    fetcher: &F,
    keeper: Pubkey32,
    before: MarketSlot,
    builder: L,
    after: MarketSlot,
    builder_after: L,
    r: SlotGate,
)
    requires
        before.state.finished is None,
        multi::slot_opened(fetcher, keeper, before, builder, after, builder_after, r),
    ensures
        after.label == before.label,
        after.ctx == before.ctx,
        after.rpc_cfg == before.rpc_cfg,
        after.bot == before.bot,
        r is Finished <==> after.state.finished is Some,
        r matches SlotGate::Lead { snap, .. } ==> bot::refreshed(
            fetcher,
            before.ctx,
            run::gate_config(),
            Ok(snap),
        ),
{
    let (refresh, g) = choose|refresh: Result<ChainSnapshot, bot::BotError>, g: run::TickGate|
        #[trigger]
        multi::slot_opened_by(
            fetcher,
            keeper,
            before,
            builder,
            after,
            builder_after,
            refresh,
            g,
        ) && r == multi::slot_gate(g);
    assert(bot::refreshed(fetcher, before.ctx, run::gate_config(), refresh));
}

/// The instructions of the tasks that can be built, in order.
pub open spec fn instructions_of(c: tx::BuildContext, plan: Seq<KeeperAction>) -> Seq<
    DispatchedModel,
>
    decreases plan.len(),
{
    if plan.len() == 0 {
        Seq::empty()
    } else {
        match tx::built(c, plan.last()) {
            Ok(instruction) => instructions_of(c, plan.drop_last()).push(instruction),
            Err(_) => instructions_of(c, plan.drop_last()),
        }
    }
}

/// Carrying a plan out sends the instruction of every task that can be built,
/// each once and in the order of the plan, and nothing else. Such a task is
/// answered as the builder answers, and any other has failed.
pub proof fn law_plan_is_sent_task_by_task(
    before: RpcExecutor<MockTxBuilder>,
    plan: Seq<KeeperAction>,
    answers: Seq<(KeeperAction, ActionDispatchResult)>,
    after: RpcExecutor<MockTxBuilder>,
)
    requires
        cycle::carried_out(before, plan, answers, after),
        before.builder.override_result is None,
    ensures
        tx::dispatched_models(after.builder.submitted@) == tx::dispatched_models(
            before.builder.submitted@,
        ) + instructions_of(before.context(), plan),
        after.context() == before.context(),
        forall|i: int|
            0 <= i < answers.len() ==> ((#[trigger] answers[i]).1 is Submitted <==> tx::built(
                before.context(),
                answers[i].0,
            ) is Ok) && (answers[i].1 is Failed <==> tx::built(before.context(), answers[i].0)
                is Err),
{
    let states = choose|states: Seq<RpcExecutor<MockTxBuilder>>| #[trigger]
        cycle::answered_in_turn(states, answers) && states[0] == before && states.last() == after;
    lemma_sent(plan, answers, states, plan.len());
    assert(plan.take(plan.len() as int) =~= plan);
    assert forall|i: int| 0 <= i < answers.len() implies ((#[trigger] answers[i]).1
        is Submitted <==> tx::built(before.context(), answers[i].0) is Ok) && (answers[i].1
        is Failed <==> tx::built(before.context(), answers[i].0) is Err) by {
        lemma_sent(plan, answers, states, i as nat);
        assert(RpcExecutor::may_answer(states[i], answers[i].0, states[i + 1], answers[i].1));
    }
}

/// What has been sent after so many tasks.
proof fn lemma_sent(
    plan: Seq<KeeperAction>,
    answers: Seq<(KeeperAction, ActionDispatchResult)>,
    states: Seq<RpcExecutor<MockTxBuilder>>,
    n: nat,
)
    requires
        cycle::answered_in_turn(states, answers),
        answers.len() == plan.len(),
        forall|i: int| 0 <= i < plan.len() ==> (#[trigger] answers[i]).0 == plan[i],
        states[0].builder.override_result is None,
        n <= plan.len(),
    ensures
        tx::dispatched_models(states[n as int].builder.submitted@) == tx::dispatched_models(
            states[0].builder.submitted@,
        ) + instructions_of(states[0].context(), plan.take(n as int)),
        states[n as int].context() == states[0].context(),
        states[n as int].builder.override_result is None,
    decreases n,
{
    let start = tx::dispatched_models(states[0].builder.submitted@);
    let c = states[0].context();
    if n == 0 {
        assert(plan.take(0) =~= Seq::<KeeperAction>::empty());
        assert(start + instructions_of(c, plan.take(0)) =~= start);
    } else {
        lemma_sent(plan, answers, states, (n - 1) as nat);
        assert(answers[n - 1].0 == plan[n - 1]);
        assert(RpcExecutor::may_answer(
            states[n - 1],
            answers[n - 1].0,
            states[(n - 1) + 1],
            answers[n - 1].1,
        ));
        let taken = plan.take(n as int);
        assert(taken.drop_last() =~= plan.take(n - 1));
        assert(taken.last() == plan[n - 1]);
        let sent = instructions_of(c, plan.take(n - 1));
        if let Ok(instruction) = tx::built(c, plan[n - 1]) {
            assert((start + sent).push(instruction) =~= start + sent.push(instruction));
        }
    }
}

} // verus!
