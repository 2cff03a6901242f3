//! What holds of a tick of the daemon as a whole, and of a pass around it.
use vstd::prelude::*;

use crate::bot;
use crate::bot::metrics::KeeperMetrics;
use crate::bot::multi::MarketSlot;
use crate::bot::run;
use crate::bot::run::LoopStep;
use crate::bot::steps;
use crate::bot::steps::SlotStep;
use crate::bot::{BotError, KeeperBot, TickReport};
use crate::decoder::accounts::OnchainSubPool;
use crate::decoder::Pubkey32;
use crate::planner::cycle;
use crate::planner::rounds;
use crate::planner::scheduler;
use crate::planner::scheduler::InitHint;
use crate::planner::volatility;
use crate::planner::volatility::{
    PriceSample, RealizedVolatilityEstimator, RealizedVolatilityEstimatorConfig, RotatePrediction,
};
use crate::planner::window;
use crate::planner::{KeeperAction, KeeperChainView};
use crate::rpc::fetcher::AccountFetcher;
use crate::rpc::leader_tx::KeeperLeaderTxBuilder;
use crate::rpc::snapshot::{ChainSnapshot, MarketContext, SnapshotError, SubPoolEntry};
use crate::rpc::tx;
use crate::rpc::tx::{RpcExecutor, TxBuilder};

verus! {

/// The best known slot is the slot of some sub-pool, and no sub-pool was
/// synchronised later; there is one as soon as there is a sub-pool.
pub proof fn law_best_slot_is_the_latest(
    pools: Map<u32, OnchainSubPool>,
    r: Option<u64>,
    id: u32,
)
    requires
        bot::is_best_slot(pools, r),
    ensures
        pools.contains_key(id) ==> r is Some && pools[id].last_sync_slot <= r->0,
        r is Some ==> exists|i: u32| #[trigger]
            pools.contains_key(i) && pools[i].last_sync_slot == r->0,
{
}

/// The sample is the price of a listed sub-pool that is known, at the slot
/// where it was last synchronised.
pub open spec fn is_price_of(
    sample: PriceSample,
    entries: Seq<SubPoolEntry>,
    pools: Map<u32, OnchainSubPool>,
) -> bool {
    exists|i: int|
        {
            &&& 0 <= i < entries.len()
            &&& pools.contains_key((#[trigger] entries[i]).sub_pool_id)
            &&& sample.price == pools[entries[i].sub_pool_id].last_price
            &&& sample.slot == pools[entries[i].sub_pool_id].last_sync_slot
        }
}

/// Every sample in the window was there before, or is the price of a listed
/// sub-pool.
pub proof fn law_samples_come_from_sub_pools(
    config: RealizedVolatilityEstimatorConfig,
    window: Seq<PriceSample>,
    entries: Seq<SubPoolEntry>,
    pools: Map<u32, OnchainSubPool>,
    s: PriceSample,
)
    requires
        bot::window_after_pools(config, window, entries, pools).contains(s),
    ensures
        window.contains(s) || is_price_of(s, entries, pools),
    decreases entries.len(),
{
    if entries.len() > 0 {
        let most = entries.drop_last();
        let n = entries.len() - 1;
        let before = bot::window_after_pools(config, window, most, pools);
        let id = entries[n].sub_pool_id;
        let new = PriceSample { price: pools[id].last_price, slot: pools[id].last_sync_slot };
        if pools.contains_key(id) && volatility::admissible(before, new) && !before.contains(s) {
            let grown = before.push(new);
            let oldest = volatility::cutoff(new.slot, config.max_age_slots);
            let young = |p: PriceSample| p.slot >= oldest;
            let kept = grown.filter(young);
            let w = bot::window_after_pools(config, window, entries, pools);
            let i = choose|i: int| 0 <= i < w.len() && w[i] == s;
            assert(kept.contains(s)) by {
                let k = if kept.len() > config.max_samples {
                    kept.len() - config.max_samples + i
                } else {
                    i
                };
                assert(kept[k] == s);
            }
            grown.lemma_filter_contains_rev(young, s);
            assert(s == new) by {
                let k = choose|k: int| 0 <= k < grown.len() && grown[k] == s;
                if k < before.len() {
                    assert(before[k] == s);
                }
            }
            assert(pools.contains_key(entries[n].sub_pool_id));
        } else {
            assert(before.contains(s));
            law_samples_come_from_sub_pools(config, window, most, pools, s);
            if is_price_of(s, most, pools) {
                let i = choose|i: int|
                    {
                        &&& 0 <= i < most.len()
                        &&& pools.contains_key((#[trigger] most[i]).sub_pool_id)
                        &&& s.price == pools[most[i].sub_pool_id].last_price
                        &&& s.slot == pools[most[i].sub_pool_id].last_sync_slot
                    };
                assert(most[i] == entries[i]);
            }
        }
    }
}

/// The prices of sub-pools are taken in one after the other, in the order of
/// the list: the price of one that is known as the next observation, and
/// nothing of one that is not.
pub proof fn law_prices_are_taken_in_turn(
    config: RealizedVolatilityEstimatorConfig,
    window: Seq<PriceSample>,
    entries: Seq<SubPoolEntry>,
    entry: SubPoolEntry,
    pools: Map<u32, OnchainSubPool>,
)
    ensures
        ({
            let before = bot::window_after_pools(config, window, entries, pools);
            let after = bot::window_after_pools(config, window, entries.push(entry), pools);
            let id = entry.sub_pool_id;
            if pools.contains_key(id) {
                after == volatility::window_after(
                    config,
                    before,
                    PriceSample { price: pools[id].last_price, slot: pools[id].last_sync_slot },
                )
            } else {
                after == before
            }
        }),
        bot::window_after_pools(config, window, Seq::<SubPoolEntry>::empty(), pools) == window,
{
    assert(entries.push(entry).drop_last() =~= entries);
    assert(entries.push(entry).last() == entry);
}

/// A tick whose refresh failed has changed nothing, and its error is that of
/// the refresh.
pub proof fn law_failed_refresh_changes_nothing<
    F: AccountFetcher,
    B: TxBuilder,
    M: Fn(&RealizedVolatilityEstimator, &ChainSnapshot) -> (Option<i64>, Vec<RotatePrediction>),
>(
    before: KeeperBot,
    fetcher: &F,
    ctx: MarketContext,
    keeper: Pubkey32,
    clock_sysvar: Pubkey32,
    system_program: Pubkey32,
    builder: B,
    model: M,
    after: KeeperBot,
    e: SnapshotError,
)
    requires
        bot::ticked(
            before,
            fetcher,
            ctx,
            keeper,
            clock_sysvar,
            system_program,
            builder,
            model,
            after,
            Err::<(TickReport, B), BotError>(BotError::Snapshot(e)),
        ),
    ensures
        after == before,
        bot::refreshed(
            fetcher,
            ctx,
            before.settings().snapshot,
            Err::<ChainSnapshot, BotError>(BotError::Snapshot(e)),
        ),
{
}

/// What an executor works with is what the tick was given: program and market
/// of the market, the keeper and the two programs, and the snapshot.
pub proof fn law_executor_works_with_what_it_was_given(
    snap: ChainSnapshot,
    ctx: MarketContext,
    keeper: Pubkey32,
    clock_sysvar: Pubkey32,
    system_program: Pubkey32,
)
    ensures
        ({
            let c = bot::executor_context(snap, ctx, keeper, clock_sysvar, system_program);
            &&& c.program_id == ctx.program_id
            &&& c.market == ctx.market
            &&& c.keeper == keeper
            &&& c.clock_sysvar == clock_sysvar
            &&& c.system_program == system_program
            &&& c.snapshot == snap@
            &&& c.sub_pool_pubkeys == tx::inferred_pools(snap@)
        }),
{
}

/// What is reported of a tick: as many tasks planned as were answered, the
/// hints that the model gave where they are wanted, and the volatility that
/// it was tuned to. Hints whose task was answered are gone; with the
/// predictor off no hint is new.
pub proof fn law_report_of_a_tick<B: TxBuilder>(
    before: KeeperBot,
    snap: ChainSnapshot,
    context: tx::BuildContext,
    builder: B,
    applied_vol_milli: Option<i64>,
    predictions: Seq<RotatePrediction>,
    after: KeeperBot,
    report: TickReport,
    left: B,
)
    requires
        bot::carried_out(
            before,
            snap,
            context,
            builder,
            applied_vol_milli,
            predictions,
            after,
            Ok::<(TickReport, B), BotError>((report, left)),
        ),
    ensures
        report.actions_planned == report.dispatched@.len(),
        report.applied_vol_milli == applied_vol_milli,
        !before.settings().run_predictor ==> report.init_hints_added == 0,
        before.settings().run_predictor ==> report.init_hints_added == predictions.len(),
        after.settings() == before.settings(),
        after.prices() == before.prices(),
        after.planner().settings() == before.planner().settings(),
        !before.settings().run_predictor ==> forall|h: InitHint| #[trigger]
            after.planner().hints().contains(h) ==> before.planner().hints().contains(h),
        forall|h: InitHint, i: int|
            #![trigger after.planner().hints().contains(h), report.dispatched@[i]]
            0 <= i < report.dispatched@.len() && after.planner().hints().contains(h)
                ==> report.dispatched@[i].0 != h.action(),
{
    let hints = bot::hints_at_hand(before.settings(), before.planner().hints(), predictions);
    let plan = cycle::tasks_answered(report.dispatched@);
    assert forall|h: InitHint| #[trigger] after.planner().hints().contains(h) implies
        hints.contains(h) && !plan.contains(h.action()) by {
        rounds::law_hints_wait_for_their_task(hints, plan, h);
    }
    assert forall|h: InitHint, i: int|
        #![trigger after.planner().hints().contains(h), report.dispatched@[i]]
        0 <= i < report.dispatched@.len() && after.planner().hints().contains(h) implies
        report.dispatched@[i].0 != h.action() by {
        assert(plan[i] == report.dispatched@[i].0);
    }
}

/// A tick that the planner ends still remembers what the model predicted,
/// and nothing else has changed.
pub proof fn law_refused_plan_keeps_the_hints<B: TxBuilder>(
    before: KeeperBot,
    snap: ChainSnapshot,
    context: tx::BuildContext,
    builder: B,
    applied_vol_milli: Option<i64>,
    predictions: Seq<RotatePrediction>,
    after: KeeperBot,
    e: BotError,
    h: InitHint,
)
    requires
        scheduler::distinct_buckets(before.planner().hints()),
        bot::carried_out(
            before,
            snap,
            context,
            builder,
            applied_vol_milli,
            predictions,
            after,
            Err::<(TickReport, B), BotError>(e),
        ),
    ensures
        e is Scheduler,
        after.settings() == before.settings(),
        after.prices() == before.prices(),
        before.settings().run_predictor ==> forall|i: int|
            0 <= i < predictions.len() ==> rounds::is_hinted(
                after.planner().hints(),
                #[trigger] predictions[i],
            ),
        !before.settings().run_predictor || !rounds::is_predicted(predictions, h) ==> (
        after.planner().hints().contains(h) <==> before.planner().hints().contains(h)),
{
    rounds::law_predictions_become_hints(before.planner().hints(), predictions);
}

/// The time that a tick took is what the clock went on by; where it went
/// back, none.
pub proof fn law_time_of_a_tick(start: u64, end: u64)
    ensures
        end >= start ==> start + steps::span(start, end) == end,
        end < start ==> steps::span(start, end) == 0,
{
}

/// How a pass shows: one that goes on counts a tick, in the register as in
/// the loop, and the samples of the daemon; one that does not counts an error
/// and no tick. An error that may pass has the pass tried again with it, and
/// any other ends the loop with it.
pub proof fn law_pass_shows_in_the_register(
    m: KeeperMetrics,
    vol_samples: u64,
    ticks: u64,
    outcome: Result<TickReport, BotError>,
    ms: u64,
)
    requires
        ticks < u64::MAX,
        m.ticks_total < u64::MAX,
        m.snapshot_errors_total < u64::MAX,
    ensures
        ({
            let (n, t, step) = steps::settled(m, vol_samples, ticks, outcome, ms);
            &&& outcome is Ok ==> {
                &&& step is Continue
                &&& t == ticks + 1
                &&& n.ticks_total == m.ticks_total + 1
                &&& n.vol_samples == vol_samples
                &&& n.last_tick_duration_ms == ms
                &&& n.snapshot_errors_total == m.snapshot_errors_total
            }
            &&& outcome matches Err(e) ==> {
                &&& t == ticks
                &&& n.ticks_total == m.ticks_total
                &&& n.snapshot_errors_total == m.snapshot_errors_total + 1
                &&& n.vol_samples == m.vol_samples
                &&& (step == LoopStep::Retry(e) || (step matches LoopStep::Stop(o) && o.reason
                    is PermanentError && o.ticks == ticks && o.error == Some(e)))
                &&& e is Scheduler ==> step is Stop
            }
        }),
{
}

/// A walk leaves off only behind a market that backs off, and says so: every
/// market before that has had its turn, and none behind it.
pub proof fn law_walk_leaves_off_behind_a_backoff<
    F: AccountFetcher,
    B: TxBuilder,
    M: Fn(&RealizedVolatilityEstimator, &ChainSnapshot) -> (Option<i64>, Vec<RotatePrediction>),
    K: Fn() -> B,
    C: Fn() -> u64,
    L: KeeperLeaderTxBuilder,
>(
    before: Seq<MarketSlot>,
    from: int,
    fetcher: &F,
    factory: K,
    keeper: Pubkey32,
    clock_sysvar: Pubkey32,
    system_program: Pubkey32,
    model: M,
    clock: C,
    after: Seq<MarketSlot>,
    states: Seq<L>,
    turns: Seq<Option<SlotStep>>,
    r: Option<usize>,
)
    requires
        0 <= from <= before.len(),
        steps::walked_in_turn(
            before,
            from,
            fetcher,
            factory,
            keeper,
            clock_sysvar,
            system_program,
            model,
            clock,
            after,
            states,
            turns,
        ),
        steps::stops(before.len() as int, from, turns, r),
    ensures
        after.len() == before.len(),
        r matches Some(next) ==> {
            &&& from < next <= before.len()
            &&& turns.len() == next - from
            &&& turns[next - from - 1] == Some(SlotStep::Backoff)
            &&& forall|i: int| next <= i < before.len() ==> #[trigger] after[i] == before[i]
        },
        r is None ==> turns.len() == before.len() - from,
        forall|i: int|
            0 <= i < turns.len() && #[trigger] turns[i] == Some(SlotStep::Backoff) ==> (r
                matches Some(next) && next == from + i + 1),
        forall|i: int|
            0 <= i < turns.len() ==> (#[trigger] turns[i] is None <==> before[from
                + i].state.finished is Some),
        forall|i: int| 0 <= i < from ==> #[trigger] after[i] == before[i],
{
}

/// Of finitely many sub-pools one was synchronised last.
proof fn lemma_best_slot_exists(pools: Map<u32, OnchainSubPool>) -> (r: Option<u64>)
    requires
        pools.dom().finite(),
    ensures
        bot::is_best_slot(pools, r),
    decreases pools.dom().len(),
{
    if pools.dom().len() == 0 {
        assert(pools.dom() =~= Set::<u32>::empty());
        assert forall|id: u32| !#[trigger] pools.contains_key(id) by {
            assert(!pools.dom().contains(id));
        }
        None
    } else {
        let k = pools.dom().choose();
        assert(pools.contains_key(k));
        let rest = pools.remove(k);
        let best = lemma_best_slot_exists(rest);
        let slot = pools[k].last_sync_slot;
        assert forall|id: u32| #[trigger] pools.contains_key(id) implies id == k
            || rest.contains_key(id) && rest[id] == pools[id] by {}
        let r = match best {
            Some(b) => if b >= slot {
                b
            } else {
                slot
            },
            None => slot,
        };
        if let Some(b) = best {
            let j = choose|id: u32| #[trigger]
                rest.contains_key(id) && rest[id].last_sync_slot == b;
            assert(pools.contains_key(j) && pools[j].last_sync_slot == b);
        }
        assert forall|id: u32| #[trigger] pools.contains_key(id) implies pools[id].last_sync_slot
            <= r by {
            if id != k {
                assert(rest.contains_key(id));
            }
        }
        assert(exists|id: u32| #[trigger]
            pools.contains_key(id) && pools[id].last_sync_slot == r);
        Some(r)
    }
}

/// The slot that a snapshot is taken to be at: no sub-pool was synchronised
/// later, and one was at that slot; zero without sub-pools.
pub proof fn law_snapshot_is_at_its_latest_slot(snap: ChainSnapshot, id: u32)
    requires
        snap@.sub_pools.dom().finite(),
    ensures
        snap@.sub_pools.contains_key(id) ==> snap@.sub_pools[id].last_sync_slot <= run::slot_of(
            snap,
        ),
        run::slot_of(snap) == 0 || exists|i: u32| #[trigger]
            snap@.sub_pools.contains_key(i) && snap@.sub_pools[i].last_sync_slot == run::slot_of(
                snap,
            ),
{
    let pools = snap@.sub_pools;
    let r = lemma_best_slot_exists(pools);
    assert(bot::is_best_slot(pools, bot::best_slot(pools)));
}

/// With the predictor on and no limit, the bucket of every prediction of this
/// very tick that the snapshot does not show is created in it, by the builder
/// and with the context that the tick was given.
pub proof fn law_predictions_are_acted_on_at_once<B: TxBuilder>(
    before: KeeperBot,
    snap: ChainSnapshot,
    context: tx::BuildContext,
    builder: B,
    applied_vol_milli: Option<i64>,
    predictions: Seq<RotatePrediction>,
    after: KeeperBot,
    report: TickReport,
    left: B,
    n: int,
)
    requires
        before.settings().run_predictor,
        scheduler::distinct_buckets(before.planner().hints()),
        before.planner().settings().max_actions_per_plan == 0,
        0 <= n < predictions.len(),
        rounds::is_missing(&snap, predictions[n]),
        bot::carried_out(
            before,
            snap,
            context,
            builder,
            applied_vol_milli,
            predictions,
            after,
            Ok::<(TickReport, B), BotError>((report, left)),
        ),
    ensures
        rounds::is_created(report.dispatched@, predictions[n]),
        exists|x: RpcExecutor<B>, y: RpcExecutor<B>, plan: Seq<KeeperAction>|
            {
                &&& #[trigger] cycle::carried_out(x, plan, report.dispatched@, y)
                &&& x.context() == context
                &&& x.builder == builder
                &&& y.builder == left
            },
{
    let config = before.planner().settings();
    let hints = scheduler::recorded_all(before.planner().hints(), predictions);
    rounds::law_predictions_become_hints(before.planner().hints(), predictions);
    let tasks = scheduler::tasks_of_sub_pools(&snap, config, snap.ids())->Ok_0;
    let all = tasks + scheduler::init_tasks(&snap, hints);
    let (x, y) = choose|x: RpcExecutor<B>, y: RpcExecutor<B>|
        {
            &&& #[trigger] cycle::planned_and_carried_out(
                all,
                config.max_actions_per_plan,
                x,
                report.dispatched@,
                y,
            )
            &&& x.context() == context
            &&& x.builder == builder
            &&& y.builder == left
        };
    rounds::lemma_hinted_is_created(
        &snap,
        config,
        hints,
        predictions[n],
        x,
        report.dispatched@,
        y,
    );
    let plan = choose|plan: Seq<KeeperAction>| #[trigger]
        scheduler::is_plan(all, config.max_actions_per_plan, plan) && cycle::carried_out(
            x,
            plan,
            report.dispatched@,
            y,
        );
    assert(cycle::carried_out(x, plan, report.dispatched@, y));
}

/// A daemon that takes the prices of a snapshot in changes nothing but its
/// window: with one sub-pool listed, a price newer than the last becomes the
/// end of the window; with none the window stays.
pub proof fn law_daemon_takes_the_prices_in(
    before: KeeperBot,
    snap: ChainSnapshot,
    ctx: MarketContext,
    after: KeeperBot,
)
    requires
        before.prices().wf(),
        bot::observed(before, snap, ctx, after),
    ensures
        after.settings() == before.settings(),
        after.planner() == before.planner(),
        after.prices().settings() == before.prices().settings(),
        ctx.sub_pools@.len() == 0 ==> after.prices().window() == before.prices().window(),
        ctx.sub_pools@.len() == 1 && snap@.sub_pools.contains_key(ctx.sub_pools@[0].sub_pool_id)
            ==> {
            let pool = snap@.sub_pools[ctx.sub_pools@[0].sub_pool_id];
            pool.last_price > 0 && before.prices().settings().max_samples > 0 && (
            before.prices().window().len() > 0 ==> before.prices().window().last().slot
                < pool.last_sync_slot) ==> after.prices().window().len() > 0
                && after.prices().window().last().price == pool.last_price
                && after.prices().window().last().slot == pool.last_sync_slot
        },
        forall|s: PriceSample| #[trigger]
            after.prices().window().contains(s) ==> before.prices().window().contains(s)
                || is_price_of(s, ctx.sub_pools@, snap@.sub_pools),
{
    let config = before.prices().settings();
    let w = before.prices().window();
    let entries = ctx.sub_pools@;
    let pools = snap@.sub_pools;
    assert forall|s: PriceSample| #[trigger] after.prices().window().contains(s) implies w.contains(
        s,
    ) || is_price_of(s, entries, pools) by {
        law_samples_come_from_sub_pools(config, w, entries, pools, s);
    }
    if entries.len() == 1 {
        let none = Seq::<SubPoolEntry>::empty();
        assert(entries =~= none.push(entries[0]));
        law_prices_are_taken_in_turn(config, w, none, entries[0], pools);
        let id = entries[0].sub_pool_id;
        if pools.contains_key(id) {
            let s = PriceSample { price: pools[id].last_price, slot: pools[id].last_sync_slot };
            if s.price > 0 && (w.len() > 0 ==> w.last().slot < s.slot) {
                window::law_window_keeps_the_newest(config, w, s);
            }
        }
    }
}

} // verus!
