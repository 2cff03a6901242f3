//! What holds of several markets under one daemon, in terms of the slots and
//! of what is reported of them.
use vstd::prelude::*;
use vstd::std_specs::convert::FromSpec;

use crate::bot::metrics;
use crate::bot::multi;
use crate::bot::multi::{MarketSlot, MultiMarketRunConfig, PerMarketOutcome};
use crate::bot::run::{LoopOutcome, LoopTerminationReason, RunLoopConfig};
use crate::bot::{BotError, TickReport};
use crate::rpc::market_registry::MarketEntry;

verus! {

/// A tick that went through adds one to the ticks of its slot and leaves the
/// rest of its memory alone; its register shows the samples of the daemon.
pub proof fn law_completed_tick_is_counted(slot: MarketSlot, report: TickReport, ms: u64)
    requires
        slot.state.ticks < u64::MAX,
        slot.bot.prices().window().len() <= u64::MAX,
    ensures
        ({
            let (m, state) = multi::slot_after_tick(slot, Ok::<TickReport, BotError>(report), ms);
            &&& state.ticks == slot.state.ticks + 1
            &&& state.finished == slot.state.finished
            &&& state.last_reconcile_tick == slot.state.last_reconcile_tick
            &&& state.last_heartbeat_tick == slot.state.last_heartbeat_tick
            &&& state.was_leader_last_tick == slot.state.was_leader_last_tick
            &&& m.vol_samples == slot.bot.prices().window().len()
            &&& m.last_tick_duration_ms == ms
            &&& m.snapshot_errors_total == slot.metrics.snapshot_errors_total
            &&& slot.metrics.ticks_total < u64::MAX ==> m.ticks_total == slot.metrics.ticks_total
                + 1
        }),
{
}

/// A tick that failed ends the loop of its slot with its error, at the ticks
/// completed so far, and adds one to the errors alone.
pub proof fn law_failed_tick_ends_its_slot(slot: MarketSlot, e: BotError, ms: u64)
    requires
        slot.metrics.snapshot_errors_total < u64::MAX,
    ensures
        ({
            let (m, state) = multi::slot_after_tick(slot, Err::<TickReport, BotError>(e), ms);
            &&& state.finished matches Some(outcome) && outcome.reason
                is PermanentError && outcome.ticks == slot.state.ticks && outcome.error == Some(e)
            &&& state.ticks == slot.state.ticks
            &&& state.last_reconcile_tick == slot.state.last_reconcile_tick
            &&& state.last_heartbeat_tick == slot.state.last_heartbeat_tick
            &&& state.was_leader_last_tick == slot.state.was_leader_last_tick
            &&& m.snapshot_errors_total == slot.metrics.snapshot_errors_total + 1
            &&& m.ticks_total == slot.metrics.ticks_total
            &&& m.vol_samples == slot.metrics.vol_samples
        }),
{
}

/// Ending every loop keeps the slots in their places. One that ran has ended
/// for the reason, at the ticks it completed and without an error; one that
/// had finished keeps its outcome.
pub proof fn law_ending_tells_why(
    before: Seq<MarketSlot>,
    reason: LoopTerminationReason,
    after: Seq<MarketSlot>,
    i: int,
)
    requires
        multi::all_ended(before, reason, after),
        0 <= i < before.len(),
    ensures
        after.len() == before.len(),
        multi::none_running(after),
        before[i].state.finished is Some ==> after[i] == before[i],
        before[i].state.finished is None ==> (after[i].state.finished matches Some(outcome)
            && outcome.reason == reason && outcome.ticks == before[i].state.ticks && outcome.error
            is None),
        after[i].label@ == before[i].label@,
        after[i].state.ticks == before[i].state.ticks,
        after[i].metrics == before[i].metrics,
        after[i].policy == before[i].policy,
        after[i].bot == before[i].bot,
{
    assert(after[i] == multi::ended(before[i], reason));
    assert forall|j: int| 0 <= j < after.len() implies (#[trigger] after[j]).state.finished
        is Some by {
        assert(after[j] == multi::ended(before[j], reason));
    }
}

/// The overall reason: an error where any market had one; the limit only
/// where every market reached it; the signal otherwise, and where there is
/// no market.
pub proof fn law_overall_reason_by_markets(slots: Seq<MarketSlot>)
    ensures
        multi::worst_reason(slots) is PermanentError <==> (exists|i: int|
            0 <= i < slots.len() && ((#[trigger] slots[i]).state.finished matches Some(o)
                && o.reason is PermanentError)),
        multi::worst_reason(slots) is TickLimitReached <==> slots.len() > 0 && (forall|i: int|
            0 <= i < slots.len() ==> ((#[trigger] slots[i]).state.finished matches Some(o)
                && o.reason is TickLimitReached)),
    decreases slots.len(),
{
    if slots.len() == 1 {
        assert(slots[0].state.finished == slots[0].state.finished);
    } else if slots.len() > 1 {
        let most = slots.drop_last();
        let last = slots.last();
        let n = slots.len() - 1;
        law_overall_reason_by_markets(most);
        assert(slots[n] == last);
        assert(forall|i: int| 0 <= i < n ==> #[trigger] slots[i] == most[i]);
        assert(forall|i: int| 0 <= i < n ==> #[trigger] most[i] == slots[i]);
    }
}

/// What is told of a market: its label and how its loop ended.
pub proof fn law_outcomes_tell_how_loops_ended(
    outcome: PerMarketOutcome,
    slot: MarketSlot,
    ended: LoopOutcome,
)
    requires
        multi::tells(outcome, slot),
        slot.state.finished == Some(ended),
    ensures
        outcome.label@ == slot.label@,
        outcome.ticks == ended.ticks,
        outcome.reason == ended.reason,
        outcome.error == ended.error,
{
}

/// A slot that is used again has forgotten how its loop ended, and nothing
/// else.
pub proof fn law_reopened_slots_forget_only_the_end(slot: MarketSlot)
    ensures
        ({
            let again = multi::reopened(slot);
            &&& again.state.finished is None
            &&& again.state.ticks == slot.state.ticks
            &&& again.state.last_reconcile_tick == slot.state.last_reconcile_tick
            &&& again.state.last_heartbeat_tick == slot.state.last_heartbeat_tick
            &&& again.state.was_leader_last_tick == slot.state.was_leader_last_tick
            &&& again.label == slot.label
            &&& again.ctx == slot.ctx
            &&& again.rpc_cfg == slot.rpc_cfg
            &&& again.bot == slot.bot
            &&& again.metrics == slot.metrics
            &&& again.policy == slot.policy
        }),
{
}

/// A registry that was built holds the slots that were made, in order, and
/// no label twice.
pub proof fn law_built_registry_holds_the_slots_made(
    entries: Seq<MarketEntry>,
    made: Seq<Result<MarketSlot, String>>,
)
    requires
        multi::slots_of(entries, made) is Ok,
    ensures
        multi::slots_of(entries, made)->Ok_0.len() == made.len(),
        forall|i: int|
            0 <= i < made.len() ==> #[trigger] made[i] == Ok::<MarketSlot, String>(
                multi::slots_of(entries, made)->Ok_0[i],
            ),
        forall|i: int, j: int|
            #![trigger multi::slots_of(entries, made)->Ok_0[i], multi::slots_of(entries, made)->Ok_0[j]]
            0 <= i < j < made.len() ==> multi::slots_of(entries, made)->Ok_0[i].label@
                != multi::slots_of(entries, made)->Ok_0[j].label@,
    decreases made.len(),
{
    multi::law_built_registry_has_distinct_labels(entries, made);
    if made.len() > 0 {
        let most = made.drop_last();
        law_built_registry_holds_the_slots_made(entries, most);
        let slots = multi::slots_of(entries, made)->Ok_0;
        let before = multi::slots_of(entries, most)->Ok_0;
        assert(slots == before.push(made.last()->Ok_0));
        assert forall|i: int| 0 <= i < made.len() implies #[trigger] made[i] == Ok::<
            MarketSlot,
            String,
        >(slots[i]) by {
            if i < most.len() {
                assert(most[i] == made[i]);
            }
        }
    }
}

/// Slots that were all made, each under a label of its own, make a registry.
pub proof fn law_sound_slots_make_a_registry(
    entries: Seq<MarketEntry>,
    made: Seq<Result<MarketSlot, String>>,
)
    requires
        forall|i: int| 0 <= i < made.len() ==> #[trigger] made[i] is Ok,
        forall|i: int, j: int|
            #![trigger made[i], made[j]]
            0 <= i < j < made.len() ==> made[i]->Ok_0.label@ != made[j]->Ok_0.label@,
    ensures
        multi::slots_of(entries, made) is Ok,
    decreases made.len(),
{
    if made.len() > 0 {
        let most = made.drop_last();
        let n = made.len() - 1;
        assert(made[n] == made.last());
        assert(forall|i: int| 0 <= i < n ==> #[trigger] most[i] == made[i]);
        law_sound_slots_make_a_registry(entries, most);
        law_built_registry_holds_the_slots_made(entries, most);
        let before = multi::slots_of(entries, most)->Ok_0;
        let label = made[n]->Ok_0.label@;
        if multi::has_label(before, label) {
            let i = choose|i: int| 0 <= i < before.len() && (#[trigger] before[i]).label@ == label;
            assert(most[i] == Ok::<MarketSlot, String>(before[i]));
            assert(made[i] == most[i]);
        }
    }
}

/// The first slot that cannot be made is reported under its market's symbol
/// with the reason, whatever comes behind it.
pub proof fn law_first_unmade_slot_is_reported(
    entries: Seq<MarketEntry>,
    made: Seq<Result<MarketSlot, String>>,
    more: Seq<Result<MarketSlot, String>>,
    reason: String,
)
    requires
        multi::slots_of(entries, made) is Ok,
    ensures
        multi::slots_of(
            entries,
            made.push(Err::<MarketSlot, String>(reason)) + more,
        ) == Err::<Seq<MarketSlot>, Seq<char>>(
            "build slot for market `"@ + entries[made.len() as int].symbol@ + "` failed: "@
                + reason@,
        ),
    decreases more.len(),
{
    let failed = made.push(Err::<MarketSlot, String>(reason));
    if more.len() == 0 {
        assert(failed + more =~= failed);
        assert(failed.drop_last() =~= made);
    } else {
        law_first_unmade_slot_is_reported(entries, made, more.drop_last(), reason);
        assert((failed + more).drop_last() =~= failed + more.drop_last());
    }
}

/// The first slot whose label is taken is reported under its market's symbol
/// with the label, whatever comes behind it.
pub proof fn law_first_taken_label_is_reported(
    entries: Seq<MarketEntry>,
    made: Seq<Result<MarketSlot, String>>,
    more: Seq<Result<MarketSlot, String>>,
    slot: MarketSlot,
    k: int,
)
    requires
        multi::slots_of(entries, made) is Ok,
        0 <= k < made.len(),
        made[k] is Ok && made[k]->Ok_0.label@ == slot.label@,
    ensures
        multi::slots_of(
            entries,
            made.push(Ok::<MarketSlot, String>(slot)) + more,
        ) == Err::<Seq<MarketSlot>, Seq<char>>(
            "registry add failed for `"@ + entries[made.len() as int].symbol@ + "`: "@ + (
            "duplicate market label '"@ + slot.label@ + "'"@),
        ),
    decreases more.len(),
{
    let failed = made.push(Ok::<MarketSlot, String>(slot));
    if more.len() == 0 {
        assert(failed + more =~= failed);
        assert(failed.drop_last() =~= made);
        law_built_registry_holds_the_slots_made(entries, made);
        let before = multi::slots_of(entries, made)->Ok_0;
        assert(made[k] == Ok::<MarketSlot, String>(before[k]));
        assert(multi::has_label(before, slot.label@));
    } else {
        law_first_taken_label_is_reported(entries, made, more.drop_last(), slot, k);
        assert((failed + more).drop_last() =~= failed + more.drop_last());
    }
}

/// Texts are joined in any grouping.
proof fn lemma_joined(x: Seq<char>, y: Seq<char>, z: Seq<char>)
    ensures
        x + (y + z) == x + y + z,
        Seq::<char>::empty() + x == x,
        x + Seq::<char>::empty() == x,
{
    assert(x + (y + z) =~= x + y + z);
    assert(Seq::<char>::empty() + x =~= x);
    assert(x + Seq::<char>::empty() =~= x);
}

/// The registers are rendered one behind the other.
pub proof fn law_registers_are_rendered_in_turn(a: Seq<MarketSlot>, b: Seq<MarketSlot>)
    ensures
        multi::all_prometheus(a + b) == multi::all_prometheus(a) + multi::all_prometheus(b),
        a.len() == 0 ==> multi::all_prometheus(a) == Seq::<char>::empty(),
    decreases b.len(),
{
    let x = multi::all_prometheus(a);
    if b.len() == 0 {
        assert(a + b =~= a);
        lemma_joined(x, x, x);
    } else {
        law_registers_are_rendered_in_turn(a, b.drop_last());
        assert((a + b).drop_last() =~= a + b.drop_last());
        assert((a + b).last() == b.last());
        lemma_joined(x, multi::all_prometheus(b.drop_last()), multi::slot_text(b.last()));
    }
}

/// The text of a market's label.
proof fn lemma_market_label(label: Seq<char>)
    ensures
        multi::market_label(label) == "{market=\""@ + metrics::escaped(label) + "\"}"@,
{
    let v = metrics::escaped(label);
    reveal_strlit("{");
    reveal_strlit("market");
    reveal_strlit("=\"");
    reveal_strlit("\"");
    reveal_strlit("}");
    reveal_strlit("{market=\"");
    reveal_strlit("\"}");
    assert("{"@ + ("market"@ + "=\""@ + v + "\""@) + "}"@ =~= "{market=\""@ + v + "\"}"@);
}

/// The register of one market is rendered under its label.
pub proof fn law_register_stands_under_its_label(slots: Seq<MarketSlot>)
    requires
        slots.len() == 1,
    ensures
        multi::all_prometheus(slots) == metrics::prometheus_text(
            slots[0].metrics,
            "{market=\""@ + metrics::escaped(slots[0].label@) + "\"}"@,
        ),
{
    let none = Seq::<MarketSlot>::empty();
    assert(slots.drop_last() =~= none);
    assert(multi::all_prometheus(none) == Seq::<char>::empty());
    assert(slots.last() == slots[0]);
    lemma_market_label(slots[0].label@);
    let alone = multi::slot_text(slots[0]);
    lemma_joined(alone, alone, alone);
    assert(alone == metrics::prometheus_text(
        slots[0].metrics,
        multi::market_label(slots[0].label@),
    )) by {
        reveal(multi::slot_text);
    }
}

/// The JSON objects of the registers stand in order with a comma between
/// any two.
pub proof fn law_json_objects_stand_in_order(a: Seq<MarketSlot>, b: Seq<MarketSlot>)
    requires
        a.len() > 0,
        b.len() > 0,
    ensures
        multi::json_items(a + b) == multi::json_items(a) + ","@ + multi::json_items(b),
    decreases b.len(),
{
    if b.len() == 1 {
        assert((a + b).drop_last() =~= a);
        assert((a + b).last() == b[0]);
    } else {
        law_json_objects_stand_in_order(a, b.drop_last());
        assert((a + b).drop_last() =~= a + b.drop_last());
        assert((a + b).last() == b.last());
        let x = multi::json_items(a) + ","@;
        let y = multi::json_items(b.drop_last());
        let z = multi::slot_json(b.last());
        lemma_joined(x, y, ","@);
        lemma_joined(x, y + ","@, z);
    }
}

/// The JSON object of one market has the market and its metrics as members.
pub proof fn law_json_object_names_its_market(slots: Seq<MarketSlot>)
    requires
        slots.len() == 1,
    ensures
        multi::json_items(slots) == "{\"market\":\""@ + multi::json_label(slots[0].label@)
            + "\",\"metrics\":"@ + metrics::json_text(slots[0].metrics) + "}"@,
{
    reveal(multi::slot_json);
}

/// A label without quotes, backslashes and control characters stands in JSON
/// as it is; of any other, those characters are left out and the rest stays in
/// order.
pub proof fn law_json_labels_by_characters(label: Seq<char>, c: char)
    ensures
        c == '"' || c == '\\' || c == '\n' || c == '\t' || c == '\r' ==> multi::json_label(
            label.push(c),
        ) == multi::json_label(label),
        ' ' <= c <= '~' && c != '"' && c != '\\' ==> multi::json_label(label.push(c))
            == multi::json_label(label).push(c),
        multi::json_label(Seq::<char>::empty()) == Seq::<char>::empty(),
{
    assert(label.push(c).drop_last() =~= label);
    assert(label.push(c).last() == c);
}

/// The value of a label for Prometheus, by characters: a backslash is put
/// before a quote and before a backslash, a line feed is left out, and any
/// other character stands as it is.
pub proof fn law_label_values_by_characters(value: Seq<char>, c: char)
    ensures
        c == '"' || c == '\\' ==> metrics::escaped(value.push(c)) == metrics::escaped(value).push(
            '\\',
        ).push(c),
        c == '\n' ==> metrics::escaped(value.push(c)) == metrics::escaped(value),
        c != '"' && c != '\\' && c != '\n' ==> metrics::escaped(value.push(c)) == metrics::escaped(
            value,
        ).push(c),
        metrics::escaped(Seq::<char>::empty()) == Seq::<char>::empty(),
{
    assert(value.push(c).drop_last() =~= value);
    assert(value.push(c).last() == c);
    reveal_strlit("\\\\");
    reveal_strlit("\\\"");
    let before = metrics::escaped(value);
    if c == '\\' {
        assert(before + "\\\\"@ =~= before.push('\\').push('\\'));
    } else if c == '"' {
        assert(before + "\\\""@ =~= before.push('\\').push('"'));
    }
}

/// Settings of a loop over one market carry over to several: ticks become
/// passes.
pub proof fn law_settings_carry_over(c: RunLoopConfig)
    ensures
        ({
            let r = <MultiMarketRunConfig as FromSpec<RunLoopConfig>>::from_spec(c);
            &&& r.tick_interval_ms == c.tick_interval_ms
            &&& r.max_passes == c.max_ticks
            &&& r.transient_error_backoff_ms == c.transient_error_backoff_ms
        }),
{
}

} // verus!
