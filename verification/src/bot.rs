//! The keeper as a daemon.
//!
//! A tick refreshes a snapshot, takes the prices in, asks the risk model,
//! records what it predicts, plans, and carries the plan out. The model works
//! in floating point and is the caller's.
use vstd::prelude::*;

use crate::decoder::accounts::OnchainSubPool;
use crate::decoder::Pubkey32;
use crate::ids::ids_of;
use crate::planner::cycle;
use crate::planner::cycle::{execute_plan, ActionDispatchResult};
use crate::planner::scheduler;
use crate::planner::scheduler::{InitHint, Scheduler};
use crate::planner::volatility;
use crate::planner::volatility::{
    PriceSample, RealizedVolatilityEstimator, RealizedVolatilityEstimatorConfig, RotatePrediction,
};
use crate::planner::{KeeperAction, KeeperChainView, KeeperError, SubPoolHealth};
use crate::rpc::fetcher::AccountFetcher;
use crate::rpc::snapshot;
use crate::rpc::snapshot::{
    ChainSnapshot, MarketContext, SnapshotConfig, SnapshotError, SubPoolEntry,
};
use crate::rpc::tx;
use crate::rpc::tx::{RpcExecutor, TxBuilder};

pub mod cadence;
pub mod cli;
pub mod exposition;
pub mod figures;
pub mod fleet;
pub mod gauge;
pub mod leader;
pub mod metrics;
pub mod multi;
pub mod outset;
pub mod requests;
pub mod routine;
pub mod run;
pub mod serve;
pub mod steps;

verus! {

/// Errors of a tick.
#[derive(Debug, Clone, PartialEq, Eq)]
pub enum BotError {
    /// The snapshot could not be refreshed.
    Snapshot(SnapshotError),
    /// The planner found the chain in a state that it must not be in.
    Scheduler(KeeperError),
}

impl BotError {
    /// The text of the error.
    pub open spec fn text(self) -> Seq<char> {
        match self {
            BotError::Snapshot(e) => e.text(),
            BotError::Scheduler(e) => e.text(),
        }
    }

    /// Renders the error.
    pub fn to_string(&self) -> (r: String)
        ensures
            r@ == self.text(),
    {
        match self {
            BotError::Snapshot(e) => e.to_string(),
            BotError::Scheduler(e) => e.to_string(),
        }
    }
}

/// Settings of [`KeeperBot`].
#[derive(Debug, Clone, Copy)]
pub struct BotConfig {
    /// Settings of the refresh.
    pub snapshot: SnapshotConfig,
    /// Whether the model's predictions are recorded.
    pub run_predictor: bool,
}

impl Default for BotConfig {
    fn default() -> (r: Self)
        ensures
            r.snapshot.enforce_schema_version,
            r.snapshot.bail_when_paused,
            r.run_predictor,
    {
        BotConfig { snapshot: SnapshotConfig::default(), run_predictor: true }
    }
}

/// What a tick came to.
#[derive(Debug, Clone)]
pub struct TickReport {
    /// Tasks planned.
    pub actions_planned: usize,
    /// The tasks and what became of them, in order.
    pub dispatched: Vec<(KeeperAction, ActionDispatchResult)>,
    /// The volatility that the model was tuned to, in thousandths, where
    /// there were samples enough.
    pub applied_vol_milli: Option<i64>,
    /// Init hints that the model gave.
    pub init_hints_added: usize,
}

/// A keeper daemon: what it remembers from tick to tick.
#[derive(Debug)]
pub struct KeeperBot {
    config: BotConfig,
    scheduler: Scheduler,
    vol: RealizedVolatilityEstimator,
}

/// The price window after the prices of a list of sub-pools, as far as the
/// snapshot knows them.
pub open spec fn window_after_pools(
    config: RealizedVolatilityEstimatorConfig,
    window: Seq<PriceSample>,
    entries: Seq<SubPoolEntry>,
    pools: Map<u32, OnchainSubPool>,
) -> Seq<PriceSample>
    decreases entries.len(),
{
    if entries.len() == 0 {
        window
    } else {
        let before = window_after_pools(config, window, entries.drop_last(), pools);
        let id = entries.last().sub_pool_id;
        if pools.contains_key(id) {
            volatility::window_after(
                config,
                before,
                (PriceSample { price: pools[id].last_price, slot: pools[id].last_sync_slot }),
            )
        } else {
            before
        }
    }
}

/// The hints at hand when a tick plans.
pub open spec fn hints_at_hand(
    config: BotConfig,
    hints: Seq<InitHint>,
    predictions: Seq<RotatePrediction>,
) -> Seq<InitHint> {
    if config.run_predictor {
        scheduler::recorded_all(hints, predictions)
    } else {
        hints
    }
}

/// What an executor of a market reads.
pub open spec fn executor_context(
    snap: ChainSnapshot,
    ctx: MarketContext,
    keeper: Pubkey32,
    clock_sysvar: Pubkey32,
    system_program: Pubkey32,
) -> tx::BuildContext {
    tx::BuildContext {
        program_id: ctx.program_id,
        market: ctx.market,
        sub_pool_pubkeys: tx::inferred_pools(snap@),
        keeper,
        clock_sysvar,
        system_program,
        snapshot: snap@,
    }
}

/// The plan for `tasks` was carried out by an executor with this context,
/// whose builder was `builder` before and is `left` after.
pub open spec fn dispatched_by<B: TxBuilder>(
    context: tx::BuildContext,
    tasks: Seq<KeeperAction>,
    cap: usize,
    builder: B,
    answers: Seq<(KeeperAction, ActionDispatchResult)>,
    left: B,
) -> bool {
    exists|before: RpcExecutor<B>, after: RpcExecutor<B>|
        {
            &&& #[trigger] cycle::planned_and_carried_out(tasks, cap, before, answers, after)
            &&& before.context() == context
            &&& before.builder == builder
            &&& after.builder == left
        }
}

/// `after` is the daemon once it has taken in the prices of a snapshot.
pub open spec fn observed(
    before: KeeperBot,
    snap: ChainSnapshot,
    ctx: MarketContext,
    after: KeeperBot,
) -> bool {
    &&& after.settings() == before.settings()
    &&& after.planner() == before.planner()
    &&& after.prices().settings() == before.prices().settings()
    &&& after.prices().window() == window_after_pools(
        before.prices().settings(),
        before.prices().window(),
        ctx.sub_pools@,
        snap@.sub_pools,
    )
}

/// `after` is the daemon, and `r` the outcome, once the plan over a snapshot
/// has been carried out with what the model said.
pub open spec fn carried_out<B: TxBuilder>(
    before: KeeperBot,
    snap: ChainSnapshot,
    context: tx::BuildContext,
    builder: B,
    applied_vol_milli: Option<i64>,
    predictions: Seq<RotatePrediction>,
    after: KeeperBot,
    r: Result<(TickReport, B), BotError>,
) -> bool {
    let config = before.planner().settings();
    let hints = hints_at_hand(before.settings(), before.planner().hints(), predictions);
    &&& after.settings() == before.settings()
    &&& after.prices() == before.prices()
    &&& after.planner().settings() == config
    &&& match scheduler::tasks_of_sub_pools(&snap, config, snap.ids()) {
        Err(e) => {
            &&& r == Err::<(TickReport, B), BotError>(BotError::Scheduler(e))
            &&& after.planner().hints() == hints
        },
        Ok(tasks) => {
            &&& r matches Ok((report, left)) && {
                &&& after.planner().hints() == scheduler::hints_left(
                    hints,
                    cycle::tasks_answered(report.dispatched@),
                )
                &&& report.actions_planned == report.dispatched@.len()
                &&& report.applied_vol_milli == applied_vol_milli
                &&& report.init_hints_added == if before.settings().run_predictor {
                    predictions.len()
                } else {
                    0
                }
                &&& dispatched_by(
                    context,
                    tasks + scheduler::init_tasks(&snap, hints),
                    config.max_actions_per_plan,
                    builder,
                    report.dispatched@,
                    left,
                )
            }
        },
    }
}

/// The model may answer a daemon that has taken in the prices of a snapshot.
pub open spec fn answers<
    M: Fn(&RealizedVolatilityEstimator, &ChainSnapshot) -> (Option<i64>, Vec<RotatePrediction>),
>(
    model: M,
    bot: KeeperBot,
    snap: ChainSnapshot,
    answer: (Option<i64>, Vec<RotatePrediction>),
) -> bool {
    model.ensures((&bot.prices(), &snap), answer)
}

/// What a tick over a snapshot may come to: the prices are taken in, the
/// model is asked about them, and the plan is carried out with its answer.
pub open spec fn ticked_over<
    B: TxBuilder,
    M: Fn(&RealizedVolatilityEstimator, &ChainSnapshot) -> (Option<i64>, Vec<RotatePrediction>),
>(
    before: KeeperBot,
    snap: ChainSnapshot,
    ctx: MarketContext,
    context: tx::BuildContext,
    builder: B,
    model: M,
    after: KeeperBot,
    r: Result<(TickReport, B), BotError>,
) -> bool {
    exists|mid: KeeperBot, answer: (Option<i64>, Vec<RotatePrediction>)|
        {
            &&& #[trigger] answers(model, mid, snap, answer)
            &&& observed(before, snap, ctx, mid)
            &&& carried_out(mid, snap, context, builder, answer.0, answer.1@, after, r)
        }
}

/// What a tick may come to: a refresh that fails ends it and changes
/// nothing, and over one that succeeds the daemon ticks.
pub open spec fn ticked<
    F: AccountFetcher,
    B: TxBuilder,
    M: Fn(&RealizedVolatilityEstimator, &ChainSnapshot) -> (Option<i64>, Vec<RotatePrediction>),
>(
    before: KeeperBot,
    fetcher: &F,
    ctx: MarketContext,
    keeper: Pubkey32,
    clock_sysvar: Pubkey32,
    system_program: Pubkey32,
    builder: B,
    model: M,
    after: KeeperBot,
    r: Result<(TickReport, B), BotError>,
) -> bool {
    exists|refresh: Result<ChainSnapshot, BotError>| #[trigger]
        refreshed(fetcher, ctx, before.settings().snapshot, refresh) && match refresh {
            Err(e) => r == Err::<(TickReport, B), BotError>(e) && after == before,
            Ok(snap) => ticked_over(
                before,
                snap,
                ctx,
                executor_context(snap, ctx, keeper, clock_sysvar, system_program),
                builder,
                model,
                after,
                r,
            ),
        }
}

impl KeeperBot {
    /// The settings.
    pub closed spec fn settings(&self) -> BotConfig {
        self.config
    }

    /// The scheduler.
    pub closed spec fn planner(&self) -> Scheduler {
        self.scheduler
    }

    /// The price window.
    pub closed spec fn prices(&self) -> RealizedVolatilityEstimator {
        self.vol
    }

    /// The scheduler and the price window are in order.
    pub open spec fn wf(&self) -> bool {
        self.planner().wf() && self.prices().wf()
    }

    /// A daemon that has seen nothing.
    pub fn new(config: BotConfig) -> (r: Self)
        ensures
            r.wf(),
            r.settings() == config,
            r.planner().hints() == Seq::<InitHint>::empty(),
            r.planner().settings().min_pending_for_pre_sync == 1,
            r.planner().settings().max_actions_per_plan == 0,
            r.planner().settings().close_dead_buckets,
            r.prices().window() == Seq::<PriceSample>::empty(),
            r.prices().settings().max_samples == 256,
            r.prices().settings().max_age_slots == 54_000,
            r.prices().settings().min_samples == 16,
    {
        KeeperBot {
            config,
            scheduler: Scheduler::default(),
            vol: RealizedVolatilityEstimator::default(),
        }
    }

    /// The settings.
    pub fn config(&self) -> (r: &BotConfig)
        ensures
            *r == self.settings(),
    {
        &self.config
    }

    /// The scheduler.
    pub fn scheduler(&self) -> (r: &Scheduler)
        ensures
            *r == self.planner(),
    {
        &self.scheduler
    }

    /// The price window.
    pub fn vol(&self) -> (r: &RealizedVolatilityEstimator)
        ensures
            *r == self.prices(),
    {
        &self.vol
    }

    /// Refreshes a snapshot under the daemon's settings.
    pub fn refresh<F: AccountFetcher>(&self, fetcher: &F, ctx: &MarketContext) -> (r: Result<
        ChainSnapshot,
        BotError,
    >)
        ensures
            refreshed(fetcher, *ctx, self.settings().snapshot, r),
    {
        refresh_snapshot(fetcher, ctx, self.config.snapshot)
    }

    /// Takes in the price of every sub-pool that the snapshot knows.
    pub fn observe(&mut self, snap: &ChainSnapshot, ctx: &MarketContext)
        requires
            old(self).wf(),
        ensures
            final(self).wf(),
            observed(*old(self), *snap, *ctx, *final(self)),
    {
        let ghost entries = ctx.sub_pools@;
        let mut i: usize = 0;
        proof {
            assert(entries.take(0) =~= Seq::<SubPoolEntry>::empty());
        }
        while i < ctx.sub_pools.len()
            invariant
                i <= ctx.sub_pools.len(),
                entries == ctx.sub_pools@,
                self.wf(),
                self.settings() == old(self).settings(),
                self.planner() == old(self).planner(),
                self.prices().settings() == old(self).prices().settings(),
                self.prices().window() == window_after_pools(
                    old(self).prices().settings(),
                    old(self).prices().window(),
                    entries.take(i as int),
                    snap@.sub_pools,
                ),
            decreases ctx.sub_pools.len() - i,
        {
            let id: u32 = ctx.sub_pools[i].sub_pool_id;
            if let Some(sp) = snap.sub_pools.get(&id) {
                self.vol.record(PriceSample { price: sp.last_price, slot: sp.last_sync_slot });
            }
            i = i + 1;
            proof {
                assert(entries.take(i as int).drop_last() =~= entries.take(i - 1));
                assert(entries.take(i as int).last() == entries[i - 1]);
            }
        }
        proof {
            assert(entries.take(entries.len() as int) =~= entries);
        }
    }

    /// Records what the model predicts, plans over the snapshot, and carries
    /// the plan out through the builder, which is handed back.
    ///
    /// An error of the planner ends the tick before any task is carried out;
    /// the predictions stay recorded. What becomes of a task is reported and
    /// never ends the tick.
    pub fn carry_out<B: TxBuilder>(
        &mut self,
        snap: &ChainSnapshot,
        ctx: &MarketContext,
        builder: B,
        keeper_pubkey: Pubkey32,
        clock_sysvar: Pubkey32,
        system_program: Pubkey32,
        applied_vol_milli: Option<i64>,
        predictions: &Vec<RotatePrediction>,
    ) -> (r: Result<(TickReport, B), BotError>)
        requires
            old(self).wf(),
        ensures
            final(self).wf(),
            carried_out(
                *old(self),
                *snap,
                executor_context(*snap, *ctx, keeper_pubkey, clock_sysvar, system_program),
                builder,
                applied_vol_milli,
                predictions@,
                *final(self),
                r,
            ),
    {
        let mut init_hints_added: usize = 0;
        if self.config.run_predictor {
            self.scheduler.record_predictions(predictions);
            init_hints_added = predictions.len();
        }
        let ghost hints = self.scheduler.hints();
        let ghost config = self.scheduler.settings();
        let plan: Vec<KeeperAction> = match self.scheduler.plan(snap) {
            Ok(plan) => plan,
            Err(e) => {
                return Err(BotError::Scheduler(e));
            },
        };
        let mut executor: RpcExecutor<B> = RpcExecutor::new(
            ctx.program_id,
            ctx.market,
            keeper_pubkey,
            clock_sysvar,
            system_program,
            snap,
            builder,
        );
        let ghost before = executor;
        let dispatched: Vec<(KeeperAction, ActionDispatchResult)> = execute_plan(
            &plan,
            &mut executor,
        );
        proof {
            assert(cycle::tasks_answered(dispatched@) =~= plan@);
            let tasks = scheduler::tasks_of_sub_pools(snap, config, snap.ids())->Ok_0;
            assert(cycle::planned_and_carried_out(
                tasks + scheduler::init_tasks(snap, hints),
                config.max_actions_per_plan,
                before,
                dispatched@,
                executor,
            ));
        }
        let report = TickReport {
            actions_planned: plan.len(),
            dispatched,
            applied_vol_milli,
            init_hints_added,
        };
        Ok((report, executor.builder))
    }

    /// A tick over a snapshot: takes the prices in, asks the model, and
    /// carries the plan out. The model is shown the price window and the
    /// snapshot; it answers with the volatility that it was tuned to, in
    /// thousandths, and its predictions.
    pub fn tick_with_snap<
        B: TxBuilder,
        M: Fn(&RealizedVolatilityEstimator, &ChainSnapshot) -> (Option<i64>, Vec<RotatePrediction>),
    >(
        &mut self,
        snap: &ChainSnapshot,
        ctx: &MarketContext,
        builder: B,
        keeper_pubkey: Pubkey32,
        clock_sysvar: Pubkey32,
        system_program: Pubkey32,
        model: &M,
    ) -> (r: Result<(TickReport, B), BotError>)
        requires
            old(self).wf(),
            forall|w: &RealizedVolatilityEstimator, s: &ChainSnapshot| model.requires((w, s)),
        ensures
            final(self).wf(),
            ticked_over(
                *old(self),
                *snap,
                *ctx,
                executor_context(*snap, *ctx, keeper_pubkey, clock_sysvar, system_program),
                builder,
                *model,
                *final(self),
                r,
            ),
    {
        self.observe(snap, ctx);
        let ghost mid = *self;
        let (applied, predictions): (Option<i64>, Vec<RotatePrediction>) = model(&self.vol, snap);
        proof {
            assert(answers(*model, mid, *snap, (applied, predictions)));
        }
        self.carry_out(
            snap,
            ctx,
            builder,
            keeper_pubkey,
            clock_sysvar,
            system_program,
            applied,
            &predictions,
        )
    }

    /// A tick: refreshes a snapshot under the daemon's settings, and ticks over it.
    pub fn tick<
        F: AccountFetcher,
        B: TxBuilder,
        M: Fn(&RealizedVolatilityEstimator, &ChainSnapshot) -> (Option<i64>, Vec<RotatePrediction>),
    >(
        &mut self,
        fetcher: &F,
        ctx: &MarketContext,
        builder: B,
        keeper_pubkey: Pubkey32,
        clock_sysvar: Pubkey32,
        system_program: Pubkey32,
        model: &M,
    ) -> (r: Result<(TickReport, B), BotError>)
        requires
            old(self).wf(),
            forall|w: &RealizedVolatilityEstimator, s: &ChainSnapshot| model.requires((w, s)),
        ensures
            final(self).wf(),
            ticked(
                *old(self),
                fetcher,
                *ctx,
                keeper_pubkey,
                clock_sysvar,
                system_program,
                builder,
                *model,
                *final(self),
                r,
            ),
    {
        let refresh = self.refresh(fetcher, ctx);
        let ghost seen = refresh;
        proof {
            assert(refreshed(fetcher, *ctx, old(self).settings().snapshot, seen));
        }
        match refresh {
            Err(e) => Err(e),
            Ok(snap) => self.tick_with_snap(
                &snap,
                ctx,
                builder,
                keeper_pubkey,
                clock_sysvar,
                system_program,
                model,
            ),
        }
    }
}

/// `r` is what a refresh may come to.
pub open spec fn refreshed<F: AccountFetcher>(
    fetcher: &F,
    ctx: MarketContext,
    cfg: SnapshotConfig,
    r: Result<ChainSnapshot, BotError>,
) -> bool {
    exists|
        market: Result<Option<Seq<u8>>, crate::rpc::fetcher::RpcError>,
        pools: Seq<snapshot::PoolAnswers>,
    |
        {
            &&& #[trigger] snapshot::refresh_answered(fetcher, ctx, cfg, market, pools)
            &&& match snapshot::after_refresh(ctx, cfg, market, pools).1 {
                None => r matches Ok(snap) && snap@ == snapshot::after_refresh(
                    ctx,
                    cfg,
                    market,
                    pools,
                ).0,
                Some(fault) => r matches Err(BotError::Snapshot(e)) && snapshot::reports(
                    ctx,
                    e,
                    fault,
                ),
            }
        }
}

/// Refreshes a snapshot.
pub fn refresh_snapshot<F: AccountFetcher>(
    fetcher: &F,
    ctx: &MarketContext,
    cfg: SnapshotConfig,
) -> (r: Result<ChainSnapshot, BotError>)
    ensures
        refreshed(fetcher, *ctx, cfg, r),
{
    let mut snap = ChainSnapshot::new();
    match snap.refresh(fetcher, ctx, cfg) {
        Ok(_) => Ok(snap),
        Err(e) => Err(BotError::Snapshot(e)),
    }
}

/// The best known slot of the cluster: the latest at which a sub-pool was
/// synchronised; none without sub-pools.
pub open spec fn is_best_slot(pools: Map<u32, OnchainSubPool>, r: Option<u64>) -> bool {
    match r {
        Some(slot) => {
            &&& exists|id: u32| #[trigger]
                pools.contains_key(id) && pools[id].last_sync_slot == slot
            &&& forall|id: u32| #[trigger]
                pools.contains_key(id) ==> pools[id].last_sync_slot <= slot
        },
        None => forall|id: u32| !#[trigger] pools.contains_key(id),
    }
}

/// The best known slot of the cluster.
pub open spec fn best_slot(pools: Map<u32, OnchainSubPool>) -> Option<u64> {
    choose|r: Option<u64>| is_best_slot(pools, r)
}

/// There is one best known slot.
proof fn lemma_best_slot(pools: Map<u32, OnchainSubPool>, r: Option<u64>)
    requires
        is_best_slot(pools, r),
    ensures
        best_slot(pools) == r,
{
    let other = best_slot(pools);
    assert(is_best_slot(pools, other));
    if let Some(a) = r {
        let i = choose|id: u32| #[trigger]
            pools.contains_key(id) && pools[id].last_sync_slot == a;
        if let Some(b) = other {
            let j = choose|id: u32| #[trigger]
                pools.contains_key(id) && pools[id].last_sync_slot == b;
            assert(pools[i].last_sync_slot <= b);
            assert(pools[j].last_sync_slot <= a);
        } else {
            assert(!pools.contains_key(i));
        }
    } else if let Some(b) = other {
        let j = choose|id: u32| #[trigger]
            pools.contains_key(id) && pools[id].last_sync_slot == b;
        assert(!pools.contains_key(j));
    }
}

/// Finds the best known slot of the cluster.
pub fn snapshot_best_slot(snap: &ChainSnapshot) -> (r: Option<u64>)
    ensures
        r == best_slot(snap@.sub_pools),
        is_best_slot(snap@.sub_pools, r),
{
    let ids: Vec<u32> = ids_of(&snap.sub_pools);
    let ghost pools = snap@.sub_pools;
    let mut best: Option<u64> = None;
    let mut i: usize = 0;
    while i < ids.len()
        invariant
            i <= ids@.len(),
            pools == snap.sub_pools@,
            forall|id: u32| #[trigger] ids@.contains(id) <==> pools.contains_key(id),
            match best {
                Some(slot) => {
                    &&& exists|id: u32| #[trigger]
                        pools.contains_key(id) && pools[id].last_sync_slot == slot
                    &&& forall|k: int|
                        0 <= k < i ==> pools[#[trigger] ids@[k]].last_sync_slot <= slot
                },
                None => i == 0,
            },
        decreases ids@.len() - i,
    {
        let id: u32 = ids[i];
        proof {
            assert(ids@.contains(id));
        }
        if let Some(sp) = snap.sub_pools.get(&id) {
            let slot: u64 = sp.last_sync_slot;
            match best {
                Some(b) => {
                    if slot > b {
                        best = Some(slot);
                    }
                },
                None => {
                    best = Some(slot);
                },
            }
        }
        i = i + 1;
    }
    proof {
        assert forall|id: u32| #[trigger] pools.contains_key(id) implies best is Some
            && pools[id].last_sync_slot <= best->0 by {
            assert(ids@.contains(id));
            let k = choose|k: int| 0 <= k < ids@.len() && ids@[k] == id;
            assert(pools[ids@[k]].last_sync_slot <= best->0);
        }
        assert(is_best_slot(pools, best));
        lemma_best_slot(pools, best);
    }
    best
}

/// The health of a sub-pool, from its fields.
pub fn health_from_sub_pool(
    sub_pool_id: u32,
    last_price: u64,
    long_pool_equity: u128,
    short_pool_equity: u128,
    long_active_notional: u128,
    short_active_notional: u128,
    long_active_generation: u64,
    short_active_generation: u64,
) -> (r: SubPoolHealth)
    ensures
        r == (SubPoolHealth {
            sub_pool_id,
            last_price,
            long_anchor_price: last_price,
            short_anchor_price: last_price,
            long_pool_equity,
            short_pool_equity,
            long_active_notional,
            short_active_notional,
            long_active_generation,
            short_active_generation,
        }),
{
    SubPoolHealth {
        sub_pool_id,
        last_price,
        long_anchor_price: last_price,
        short_anchor_price: last_price,
        long_pool_equity,
        short_pool_equity,
        long_active_notional,
        short_active_notional,
        long_active_generation,
        short_active_generation,
    }
}

} // verus!
