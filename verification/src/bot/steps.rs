//! One pass of each loop of the daemon. A loop goes through such passes until
//! it is to stop, and sleeps in between; that, and the signal, are the
//! caller's.
//!
//! A pass is given the risk model, a maker of builders and a clock that shows
//! milliseconds.
use vstd::prelude::*;

use crate::bot;
use crate::bot::leader::{HostMirrorLeaderPolicy, LeaderPolicy};
use crate::bot::metrics;
use crate::bot::metrics::KeeperMetrics;
use crate::bot::multi;
use crate::bot::multi::{
    close_slot_tick, open_slot_tick, MarketRegistry, MarketSlot, SlotGate,
};
use crate::bot::run;
use crate::bot::run::{
    is_transient, loop_exit, open_gated_tick, open_reconciled_tick, settle_tick, try_graceful_release,
    LeaderRpcReconcileConfig, LoopOutcome, LoopStep, LoopTerminationReason, MarketSlotState,
    TickGate,
};
use crate::bot::{refresh_snapshot, BotError, KeeperBot, TickReport};
use crate::decoder::Pubkey32;
use crate::planner::volatility::{RealizedVolatilityEstimator, RotatePrediction};
use crate::rpc::fetcher::AccountFetcher;
use crate::rpc::leader_tx::KeeperLeaderTxBuilder;
use crate::rpc::snapshot::{ChainSnapshot, MarketContext};
use crate::rpc::tx::TxBuilder;

verus! {

/// The time between two looks at the clock; none where it went back.
pub open spec fn span(start: u64, end: u64) -> u64 {
    if end >= start {
        (end - start) as u64
    } else {
        0
    }
}

/// The clock may measure `ms` milliseconds.
pub open spec fn timed<C: Fn() -> u64>(clock: C, ms: u64) -> bool {
    exists|start: u64, end: u64|
        #![trigger clock.ensures((), start), clock.ensures((), end)]
        clock.ensures((), start) && clock.ensures((), end) && ms == span(start, end)
}

/// The maker may make this builder.
pub open spec fn made<B: TxBuilder, K: Fn() -> B>(factory: K, builder: B) -> bool {
    factory.ensures((), builder)
}

/// The outcome of a tick without the builder.
pub open spec fn report_of<B: TxBuilder>(outcome: Result<(TickReport, B), BotError>) -> Result<
    TickReport,
    BotError,
> {
    match outcome {
        Ok((report, _)) => Ok(report),
        Err(e) => Err(e),
    }
}

/// Forgets the builder of a tick.
fn drop_builder<B: TxBuilder>(outcome: Result<(TickReport, B), BotError>) -> (r: Result<
    TickReport,
    BotError,
>)
    ensures
        r == report_of(outcome),
{
    match outcome {
        Ok((report, _)) => Ok(report),
        Err(e) => Err(e),
    }
}

/// Register, tick count and decision once a tick has been counted.
pub open spec fn settled(
    m: KeeperMetrics,
    vol_samples: u64,
    ticks: u64,
    outcome: Result<TickReport, BotError>,
    ms: u64,
) -> (KeeperMetrics, u64, LoopStep) {
    match outcome {
        Ok(report) => (
            KeeperMetrics { vol_samples, ..metrics::after_tick(m, report, ms) },
            (ticks + 1) as u64,
            LoopStep::Continue,
        ),
        Err(e) => (
            metrics::after_snapshot_error(m),
            ticks,
            run::step_after_error(ticks, e),
        ),
    }
}

/// Price samples of a daemon.
pub open spec fn samples(bot: KeeperBot) -> u64 {
    bot.prices().window().len() as u64
}

/// What a pass of the plain loop may come to.
pub open spec fn factory_step<
    F: AccountFetcher,
    B: TxBuilder,
    M: Fn(&RealizedVolatilityEstimator, &ChainSnapshot) -> (Option<i64>, Vec<RotatePrediction>),
    K: Fn() -> B,
    C: Fn() -> u64,
>(
    before: KeeperBot,
    fetcher: &F,
    ctx: MarketContext,
    factory: K,
    keeper: Pubkey32,
    clock_sysvar: Pubkey32,
    system_program: Pubkey32,
    model: M,
    clock: C,
    m: KeeperMetrics,
    ticks: u64,
    after: KeeperBot,
    m_after: KeeperMetrics,
    ticks_after: u64,
    r: LoopStep,
) -> bool {
    exists|builder: B, outcome: Result<(TickReport, B), BotError>, ms: u64|
        {
            &&& #[trigger] made(factory, builder)
            &&& #[trigger] timed(clock, ms)
            &&& #[trigger] bot::ticked(
                before,
                fetcher,
                ctx,
                keeper,
                clock_sysvar,
                system_program,
                builder,
                model,
                after,
                outcome,
            )
            &&& (m_after, ticks_after, r) == settled(
                m,
                samples(after),
                ticks,
                report_of(outcome),
                ms,
            )
        }
}

/// A pass of the plain loop: a tick with a fresh builder, which is counted.
pub fn step_with_factory<
    F: AccountFetcher,
    B: TxBuilder,
    M: Fn(&RealizedVolatilityEstimator, &ChainSnapshot) -> (Option<i64>, Vec<RotatePrediction>),
    K: Fn() -> B,
    C: Fn() -> u64,
>(
    keeper_bot: &mut KeeperBot,
    fetcher: &F,
    ctx: &MarketContext,
    factory: &K,
    keeper_pk: Pubkey32,
    clock_sysvar: Pubkey32,
    system_program: Pubkey32,
    model: &M,
    clock: &C,
    m: &mut KeeperMetrics,
    ticks: &mut u64,
) -> (r: LoopStep)
    requires
        old(keeper_bot).wf(),
        *old(ticks) < u64::MAX,
        forall|w: &RealizedVolatilityEstimator, s: &ChainSnapshot| model.requires((w, s)),
        factory.requires(()),
        clock.requires(()),
    ensures
        final(keeper_bot).wf(),
        factory_step(
            *old(keeper_bot),
            fetcher,
            *ctx,
            *factory,
            keeper_pk,
            clock_sysvar,
            system_program,
            *model,
            *clock,
            *old(m),
            *old(ticks),
            *final(keeper_bot),
            *final(m),
            *final(ticks),
            r,
        ),
{
    let builder: B = factory();
    let ghost fresh = builder;
    let start: u64 = clock();
    let outcome = keeper_bot.tick(
        fetcher,
        ctx,
        builder,
        keeper_pk,
        clock_sysvar,
        system_program,
        model,
    );
    let end: u64 = clock();
    let ms: u64 = end.saturating_sub(start);
    let ghost whole = outcome;
    proof {
        assert(made(*factory, fresh));
        assert(clock.ensures((), start) && clock.ensures((), end));
        assert(timed(*clock, ms));
    }
    let vol_samples: u64 = keeper_bot.vol().sample_count() as u64;
    let r: LoopStep = settle_tick(m, vol_samples, ticks, drop_builder(outcome), ms);
    proof {
        assert(bot::ticked(
            *old(keeper_bot),
            fetcher,
            *ctx,
            keeper_pk,
            clock_sysvar,
            system_program,
            fresh,
            *model,
            *keeper_bot,
            whole,
        ));
    }
    r
}

/// A loop that ended with an error.
pub open spec fn permanent(ticks: u64, e: BotError) -> LoopOutcome {
    LoopOutcome { reason: LoopTerminationReason::PermanentError, ticks, error: Some(e) }
}

/// How the loop with one builder goes on.
#[derive(Debug, Clone)]
pub enum BuilderStep<B> {
    /// With the next tick, and the builder as the last one left it.
    Ticked(B),
    /// With another try, after a pause, and the same builder.
    Retry {
        /// The builder, which has not been used.
        builder: B,
        /// What went wrong.
        error: BotError,
    },
    /// Not at all.
    Stop(LoopOutcome),
}

/// What a pass of the loop with one builder may come to. A refresh that fails
/// and may be tried again is counted and hands the builder back; any other
/// error ends the loop.
pub open spec fn builder_step<
    F: AccountFetcher,
    B: TxBuilder,
    M: Fn(&RealizedVolatilityEstimator, &ChainSnapshot) -> (Option<i64>, Vec<RotatePrediction>),
    C: Fn() -> u64,
>(
    before: KeeperBot,
    fetcher: &F,
    ctx: MarketContext,
    builder: B,
    keeper: Pubkey32,
    clock_sysvar: Pubkey32,
    system_program: Pubkey32,
    model: M,
    clock: C,
    m: KeeperMetrics,
    ticks: u64,
    after: KeeperBot,
    m_after: KeeperMetrics,
    ticks_after: u64,
    r: BuilderStep<B>,
) -> bool {
    exists|refresh: Result<ChainSnapshot, BotError>| #[trigger]
        bot::refreshed(fetcher, ctx, before.settings().snapshot, refresh) && match refresh {
            Err(e) => {
                &&& r == if run::transient(e) {
                    BuilderStep::Retry { builder, error: e }
                } else {
                    BuilderStep::Stop(permanent(ticks, e))
                }
                &&& m_after == metrics::after_snapshot_error(m)
                &&& ticks_after == ticks
                &&& after == before
            },
            Ok(snap) => exists|outcome: Result<(TickReport, B), BotError>, ms: u64|
                {
                    &&& #[trigger] timed(clock, ms)
                    &&& #[trigger] bot::ticked_over(
                        before,
                        snap,
                        ctx,
                        bot::executor_context(snap, ctx, keeper, clock_sysvar, system_program),
                        builder,
                        model,
                        after,
                        outcome,
                    )
                    &&& match outcome {
                        Ok((report, left)) => {
                            &&& r == BuilderStep::Ticked(left)
                            &&& m_after == (KeeperMetrics {
                                vol_samples: samples(after),
                                ..metrics::after_tick(m, report, ms)
                            })
                            &&& ticks_after == ticks + 1
                        },
                        Err(e) => {
                            &&& r == BuilderStep::<B>::Stop(permanent(ticks, e))
                            &&& m_after == metrics::after_snapshot_error(m)
                            &&& ticks_after == ticks
                        },
                    }
                },
        }
}

/// A pass of the loop with one builder, which is handed back unless the loop
/// ends.
pub fn step_with_builder<
    F: AccountFetcher,
    B: TxBuilder,
    M: Fn(&RealizedVolatilityEstimator, &ChainSnapshot) -> (Option<i64>, Vec<RotatePrediction>),
    C: Fn() -> u64,
>(
    keeper_bot: &mut KeeperBot,
    fetcher: &F,
    ctx: &MarketContext,
    builder: B,
    keeper_pk: Pubkey32,
    clock_sysvar: Pubkey32,
    system_program: Pubkey32,
    model: &M,
    clock: &C,
    m: &mut KeeperMetrics,
    ticks: &mut u64,
) -> (r: BuilderStep<B>)
    requires
        old(keeper_bot).wf(),
        *old(ticks) < u64::MAX,
        forall|w: &RealizedVolatilityEstimator, s: &ChainSnapshot| model.requires((w, s)),
        clock.requires(()),
    ensures
        final(keeper_bot).wf(),
        builder_step(
            *old(keeper_bot),
            fetcher,
            *ctx,
            builder,
            keeper_pk,
            clock_sysvar,
            system_program,
            *model,
            *clock,
            *old(m),
            *old(ticks),
            *final(keeper_bot),
            *final(m),
            *final(ticks),
            r,
        ),
{
    let start: u64 = clock();
    let cfg = keeper_bot.config().snapshot;
    let refresh: Result<ChainSnapshot, BotError> = refresh_snapshot(fetcher, ctx, cfg);
    proof {
        assert(bot::refreshed(fetcher, *ctx, old(keeper_bot).settings().snapshot, refresh));
    }
    let snap: ChainSnapshot = match refresh {
        Ok(snap) => snap,
        Err(e) => {
            m.observe_snapshot_error();
            if is_transient(&e) {
                return BuilderStep::Retry { builder, error: e };
            }
            return BuilderStep::Stop(
                LoopOutcome {
                    reason: LoopTerminationReason::PermanentError,
                    ticks: *ticks,
                    error: Some(e),
                },
            );
        },
    };
    let outcome = keeper_bot.tick_with_snap(
        &snap,
        ctx,
        builder,
        keeper_pk,
        clock_sysvar,
        system_program,
        model,
    );
    let end: u64 = clock();
    let ms: u64 = end.saturating_sub(start);
    let ghost whole = outcome;
    proof {
        assert(clock.ensures((), start) && clock.ensures((), end));
        assert(timed(*clock, ms));
        assert(bot::ticked_over(
            *old(keeper_bot),
            snap,
            *ctx,
            bot::executor_context(snap, *ctx, keeper_pk, clock_sysvar, system_program),
            builder,
            *model,
            *keeper_bot,
            whole,
        ));
    }
    match outcome {
        Ok((report, left)) => {
            let vol_samples: u64 = keeper_bot.vol().sample_count() as u64;
            settle_tick(m, vol_samples, ticks, Ok(report), ms);
            BuilderStep::Ticked(left)
        },
        Err(e) => {
            m.observe_snapshot_error();
            BuilderStep::Stop(
                LoopOutcome {
                    reason: LoopTerminationReason::PermanentError,
                    ticks: *ticks,
                    error: Some(e),
                },
            )
        },
    }
}

/// What going through with a tick that was opened may come to.
pub open spec fn entered<
    B: TxBuilder,
    M: Fn(&RealizedVolatilityEstimator, &ChainSnapshot) -> (Option<i64>, Vec<RotatePrediction>),
    K: Fn() -> B,
    C: Fn() -> u64,
>(
    gate: TickGate,
    before: KeeperBot,
    ctx: MarketContext,
    factory: K,
    keeper: Pubkey32,
    clock_sysvar: Pubkey32,
    system_program: Pubkey32,
    model: M,
    clock: C,
    m: KeeperMetrics,
    ticks: u64,
    after: KeeperBot,
    m_after: KeeperMetrics,
    ticks_after: u64,
    r: LoopStep,
) -> bool {
    match gate {
        TickGate::Lead { snap, .. } => exists|
            builder: B,
            outcome: Result<(TickReport, B), BotError>,
            ms: u64,
        |
            {
                &&& #[trigger] made(factory, builder)
                &&& #[trigger] timed(clock, ms)
                &&& #[trigger] bot::ticked_over(
                    before,
                    snap,
                    ctx,
                    bot::executor_context(snap, ctx, keeper, clock_sysvar, system_program),
                    builder,
                    model,
                    after,
                    outcome,
                )
                &&& (m_after, ticks_after, r) == settled(
                    m,
                    samples(after),
                    ticks,
                    report_of(outcome),
                    ms,
                )
            },
        _ => {
            &&& after == before
            &&& m_after == m
            &&& ticks_after == ticks
            &&& r == match gate {
                TickGate::Stop(outcome) => LoopStep::Stop(outcome),
                TickGate::Retry(e) => LoopStep::Retry(e),
                _ => LoopStep::Continue,
            }
        },
    }
}

/// Goes through with a tick that was opened.
fn enter<
    B: TxBuilder,
    M: Fn(&RealizedVolatilityEstimator, &ChainSnapshot) -> (Option<i64>, Vec<RotatePrediction>),
    K: Fn() -> B,
    C: Fn() -> u64,
>(
    gate: TickGate,
    keeper_bot: &mut KeeperBot,
    ctx: &MarketContext,
    factory: &K,
    keeper_pk: Pubkey32,
    clock_sysvar: Pubkey32,
    system_program: Pubkey32,
    model: &M,
    clock: &C,
    m: &mut KeeperMetrics,
    ticks: &mut u64,
) -> (r: LoopStep)
    requires
        old(keeper_bot).wf(),
        gate is Lead ==> *old(ticks) < u64::MAX,
        forall|w: &RealizedVolatilityEstimator, s: &ChainSnapshot| model.requires((w, s)),
        factory.requires(()),
        clock.requires(()),
    ensures
        final(keeper_bot).wf(),
        entered(
            gate,
            *old(keeper_bot),
            *ctx,
            *factory,
            keeper_pk,
            clock_sysvar,
            system_program,
            *model,
            *clock,
            *old(m),
            *old(ticks),
            *final(keeper_bot),
            *final(m),
            *final(ticks),
            r,
        ),
{
    match gate {
        TickGate::Stop(outcome) => LoopStep::Stop(outcome),
        TickGate::Retry(e) => LoopStep::Retry(e),
        TickGate::Standby => LoopStep::Continue,
        TickGate::Lead { snap, .. } => {
            let builder: B = factory();
            let ghost fresh = builder;
            let start: u64 = clock();
            let outcome = keeper_bot.tick_with_snap(
                &snap,
                ctx,
                builder,
                keeper_pk,
                clock_sysvar,
                system_program,
                model,
            );
            let end: u64 = clock();
            let ms: u64 = end.saturating_sub(start);
            let ghost whole = outcome;
            proof {
                assert(made(*factory, fresh));
                assert(clock.ensures((), start) && clock.ensures((), end));
                assert(timed(*clock, ms));
            }
            let vol_samples: u64 = keeper_bot.vol().sample_count() as u64;
            let r: LoopStep = settle_tick(m, vol_samples, ticks, drop_builder(outcome), ms);
            proof {
                assert(bot::ticked_over(
                    *old(keeper_bot),
                    snap,
                    *ctx,
                    bot::executor_context(snap, *ctx, keeper_pk, clock_sysvar, system_program),
                    fresh,
                    *model,
                    *keeper_bot,
                    whole,
                ));
            }
            r
        },
    }
}

/// What opening a tick under a policy may come to.
pub open spec fn gate_opened<F: AccountFetcher, P: LeaderPolicy>(
    fetcher: &F,
    ctx: MarketContext,
    policy: P,
    m: KeeperMetrics,
    ticks: u64,
    policy_after: P,
    m_after: KeeperMetrics,
    ticks_after: u64,
    gate: TickGate,
) -> bool {
    exists|refresh: Result<ChainSnapshot, BotError>| #[trigger]
        bot::refreshed(fetcher, ctx, run::gate_config(), refresh) && match refresh {
            Err(e) => {
                &&& gate == run::gate_after_error(ticks, e)
                &&& m_after == metrics::after_snapshot_error(m)
                &&& ticks_after == ticks
                &&& policy_after == policy
            },
            Ok(snap) => run::gated(
                snap,
                policy,
                policy_after,
                m,
                m_after,
                ticks,
                ticks_after,
                gate,
            ),
        }
}

/// A pass of the loop under a policy: a tick is opened, and gone through
/// with where the policy lets it.
pub fn step_with_leader<
    F: AccountFetcher,
    B: TxBuilder,
    M: Fn(&RealizedVolatilityEstimator, &ChainSnapshot) -> (Option<i64>, Vec<RotatePrediction>),
    K: Fn() -> B,
    C: Fn() -> u64,
    P: LeaderPolicy,
>(
    keeper_bot: &mut KeeperBot,
    fetcher: &F,
    ctx: &MarketContext,
    factory: &K,
    keeper_pk: Pubkey32,
    clock_sysvar: Pubkey32,
    system_program: Pubkey32,
    model: &M,
    clock: &C,
    m: &mut KeeperMetrics,
    ticks: &mut u64,
    policy: &mut P,
) -> (r: LoopStep)
    requires
        old(keeper_bot).wf(),
        *old(ticks) < u64::MAX,
        forall|w: &RealizedVolatilityEstimator, s: &ChainSnapshot| model.requires((w, s)),
        factory.requires(()),
        clock.requires(()),
    ensures
        final(keeper_bot).wf(),
        exists|mid: KeeperMetrics, mid_ticks: u64, gate: TickGate|
            {
                &&& #[trigger] gate_opened(
                    fetcher,
                    *ctx,
                    *old(policy),
                    *old(m),
                    *old(ticks),
                    *final(policy),
                    mid,
                    mid_ticks,
                    gate,
                )
                &&& entered(
                    gate,
                    *old(keeper_bot),
                    *ctx,
                    *factory,
                    keeper_pk,
                    clock_sysvar,
                    system_program,
                    *model,
                    *clock,
                    mid,
                    mid_ticks,
                    *final(keeper_bot),
                    *final(m),
                    *final(ticks),
                    r,
                )
            },
{
    let gate: TickGate = open_gated_tick(fetcher, ctx, policy, m, ticks);
    let ghost opened = gate;
    let ghost mid = *m;
    let ghost mid_ticks = *ticks;
    proof {
        assert(gate_opened(
            fetcher,
            *ctx,
            *old(policy),
            *old(m),
            *old(ticks),
            *policy,
            mid,
            mid_ticks,
            opened,
        ));
        lemma_lead_keeps_ticks(
            fetcher,
            *ctx,
            *old(policy),
            *old(m),
            *old(ticks),
            *policy,
            mid,
            mid_ticks,
            opened,
        );
    }
    enter(
        gate,
        keeper_bot,
        ctx,
        factory,
        keeper_pk,
        clock_sysvar,
        system_program,
        model,
        clock,
        m,
        ticks,
    )
}

/// A tick that goes ahead has not been counted yet.
proof fn lemma_lead_keeps_ticks<F: AccountFetcher, P: LeaderPolicy>(
    fetcher: &F,
    ctx: MarketContext,
    policy: P,
    m: KeeperMetrics,
    ticks: u64,
    policy_after: P,
    m_after: KeeperMetrics,
    ticks_after: u64,
    gate: TickGate,
)
    requires
        gate_opened(fetcher, ctx, policy, m, ticks, policy_after, m_after, ticks_after, gate),
    ensures
        gate is Lead ==> ticks_after == ticks,
{
}

/// What opening a tick under the on-chain lock may come to.
pub open spec fn lock_opened<F: AccountFetcher, L: KeeperLeaderTxBuilder>(
    fetcher: &F,
    ctx: MarketContext,
    cfg: LeaderRpcReconcileConfig,
    keeper: Pubkey32,
    policy: HostMirrorLeaderPolicy,
    state: MarketSlotState,
    m: KeeperMetrics,
    builder: L,
    policy_after: HostMirrorLeaderPolicy,
    state_after: MarketSlotState,
    m_after: KeeperMetrics,
    builder_after: L,
    gate: TickGate,
) -> bool {
    exists|refresh: Result<ChainSnapshot, BotError>| #[trigger]
        bot::refreshed(fetcher, ctx, run::gate_config(), refresh) && run::opened(
            fetcher,
            cfg,
            ctx,
            keeper,
            refresh,
            policy,
            state,
            m,
            builder,
            policy_after,
            state_after,
            m_after,
            builder_after,
            gate,
        )
}

/// A pass of the loop under the on-chain lock: a tick is opened, with what
/// is due about the lock, and gone through with where this keeper leads.
pub fn step_with_leader_and_rpc_reconcile<
    F: AccountFetcher,
    B: TxBuilder,
    M: Fn(&RealizedVolatilityEstimator, &ChainSnapshot) -> (Option<i64>, Vec<RotatePrediction>),
    K: Fn() -> B,
    C: Fn() -> u64,
    L: KeeperLeaderTxBuilder,
>(
    keeper_bot: &mut KeeperBot,
    fetcher: &F,
    ctx: &MarketContext,
    factory: &K,
    keeper_pk: Pubkey32,
    clock_sysvar: Pubkey32,
    system_program: Pubkey32,
    model: &M,
    clock: &C,
    m: &mut KeeperMetrics,
    state: &mut MarketSlotState,
    policy: &mut HostMirrorLeaderPolicy,
    rpc_cfg: &LeaderRpcReconcileConfig,
    leader_builder: &mut L,
) -> (r: LoopStep)
    requires
        old(keeper_bot).wf(),
        old(state).ticks < u64::MAX,
        forall|w: &RealizedVolatilityEstimator, s: &ChainSnapshot| model.requires((w, s)),
        factory.requires(()),
        clock.requires(()),
    ensures
        final(keeper_bot).wf(),
        exists|mid: KeeperMetrics, mid_state: MarketSlotState, gate: TickGate|
            {
                &&& #[trigger] lock_opened(
                    fetcher,
                    *ctx,
                    *rpc_cfg,
                    keeper_pk,
                    *old(policy),
                    *old(state),
                    *old(m),
                    *old(leader_builder),
                    *final(policy),
                    mid_state,
                    mid,
                    *final(leader_builder),
                    gate,
                )
                &&& *final(state) == (MarketSlotState { ticks: final(state).ticks, ..mid_state })
                &&& entered(
                    gate,
                    *old(keeper_bot),
                    *ctx,
                    *factory,
                    keeper_pk,
                    clock_sysvar,
                    system_program,
                    *model,
                    *clock,
                    mid,
                    mid_state.ticks,
                    *final(keeper_bot),
                    *final(m),
                    final(state).ticks,
                    r,
                )
            },
{
    let gate: TickGate = open_reconciled_tick(
        fetcher,
        ctx,
        rpc_cfg,
        policy,
        m,
        state,
        keeper_pk,
        leader_builder,
    );
    let ghost opened = gate;
    let ghost mid = *m;
    let ghost mid_state = *state;
    proof {
        assert(lock_opened(
            fetcher,
            *ctx,
            *rpc_cfg,
            keeper_pk,
            *old(policy),
            *old(state),
            *old(m),
            *old(leader_builder),
            *policy,
            mid_state,
            mid,
            *leader_builder,
            opened,
        ));
        lemma_led_tick_is_not_counted(
            fetcher,
            *ctx,
            *rpc_cfg,
            keeper_pk,
            *old(policy),
            *old(state),
            *old(m),
            *old(leader_builder),
            *policy,
            mid_state,
            mid,
            *leader_builder,
            opened,
        );
    }
    let mut ticks: u64 = state.ticks;
    let r: LoopStep = enter(
        gate,
        keeper_bot,
        ctx,
        factory,
        keeper_pk,
        clock_sysvar,
        system_program,
        model,
        clock,
        m,
        &mut ticks,
    );
    state.ticks = ticks;
    r
}

/// A tick that this keeper leads has not been counted yet.
proof fn lemma_led_tick_is_not_counted<F: AccountFetcher, L: KeeperLeaderTxBuilder>(
    fetcher: &F,
    ctx: MarketContext,
    cfg: LeaderRpcReconcileConfig,
    keeper: Pubkey32,
    policy: HostMirrorLeaderPolicy,
    state: MarketSlotState,
    m: KeeperMetrics,
    builder: L,
    policy_after: HostMirrorLeaderPolicy,
    state_after: MarketSlotState,
    m_after: KeeperMetrics,
    builder_after: L,
    gate: TickGate,
)
    requires
        lock_opened(
            fetcher,
            ctx,
            cfg,
            keeper,
            policy,
            state,
            m,
            builder,
            policy_after,
            state_after,
            m_after,
            builder_after,
            gate,
        ),
    ensures
        gate is Lead ==> state_after.ticks == state.ticks,
{
}

/// A pass under the on-chain lock that went ahead, and after which the loop
/// goes on, is a pass on which the keeper led: over passes in a row it sends
/// its heartbeats in their time.
pub proof fn law_completed_pass_is_led<
    F: AccountFetcher,
    B: TxBuilder,
    M: Fn(&RealizedVolatilityEstimator, &ChainSnapshot) -> (Option<i64>, Vec<RotatePrediction>),
    K: Fn() -> B,
    C: Fn() -> u64,
    L: KeeperLeaderTxBuilder,
>(
    fetcher: &F,
    ctx: MarketContext,
    cfg: LeaderRpcReconcileConfig,
    keeper: Pubkey32,
    clock_sysvar: Pubkey32,
    system_program: Pubkey32,
    factory: K,
    model: M,
    clock: C,
    policy: HostMirrorLeaderPolicy,
    s: MarketSlotState,
    m: KeeperMetrics,
    builder: L,
    policy_after: HostMirrorLeaderPolicy,
    mid_state: MarketSlotState,
    mid: KeeperMetrics,
    builder_after: L,
    gate: TickGate,
    before: KeeperBot,
    after: KeeperBot,
    m_after: KeeperMetrics,
    s_after: MarketSlotState,
)
    requires
        s.ticks < u64::MAX,
        lock_opened(
            fetcher,
            ctx,
            cfg,
            keeper,
            policy,
            s,
            m,
            builder,
            policy_after,
            mid_state,
            mid,
            builder_after,
            gate,
        ),
        gate is Lead,
        s_after == (MarketSlotState { ticks: s_after.ticks, ..mid_state }),
        entered(
            gate,
            before,
            ctx,
            factory,
            keeper,
            clock_sysvar,
            system_program,
            model,
            clock,
            mid,
            mid_state.ticks,
            after,
            m_after,
            s_after.ticks,
            LoopStep::Continue,
        ),
    ensures
        run::led_pass(cfg, ctx, keeper, gate->slot, s, builder, s_after, builder_after),
{
    lemma_led_tick_is_not_counted(
        fetcher,
        ctx,
        cfg,
        keeper,
        policy,
        s,
        m,
        builder,
        policy_after,
        mid_state,
        mid,
        builder_after,
        gate,
    );
    let refresh = choose|refresh: Result<ChainSnapshot, BotError>| #[trigger]
        bot::refreshed(fetcher, ctx, run::gate_config(), refresh) && run::opened(
            fetcher,
            cfg,
            ctx,
            keeper,
            refresh,
            policy,
            s,
            m,
            builder,
            policy_after,
            mid_state,
            mid,
            builder_after,
            gate,
        );
    let (p, t) = choose|p: HostMirrorLeaderPolicy, t: MarketSlotState| #[trigger]
        run::reconciled(fetcher, cfg, policy, s, p, t) && run::led(
            cfg,
            ctx,
            keeper,
            refresh->Ok_0,
            p,
            t,
            m,
            builder,
            policy_after,
            mid_state,
            mid,
            builder_after,
            gate,
        );
    assert(t == (MarketSlotState { last_reconcile_tick: t.last_reconcile_tick, ..s }));
    assert(run::heartbeat_wanted(cfg, t) == run::heartbeat_wanted(cfg, s));
}

/// Whether the loop under the on-chain lock is to stop before its next tick.
/// On the signal the lock is released, where this keeper led; whether that
/// succeeds does not matter.
pub fn exit_with_release<L: KeeperLeaderTxBuilder>(
    shutdown: bool,
    max_ticks: Option<u64>,
    state: &MarketSlotState,
    rpc_cfg: &LeaderRpcReconcileConfig,
    ctx: &MarketContext,
    keeper_pk: Pubkey32,
    leader_builder: &mut L,
) -> (r: Option<LoopOutcome>)
    ensures
        match run::exit_reason(shutdown, max_ticks, state.ticks) {
            Some(reason) => r == Some(LoopOutcome { reason, ticks: state.ticks, error: None }),
            None => r is None,
        },
        if shutdown {
            exists|answer: Result<Option<String>, String>| #[trigger]
                run::released(
                    *rpc_cfg,
                    *old(leader_builder),
                    *final(leader_builder),
                    ctx.program_id,
                    ctx.market,
                    keeper_pk,
                    state.was_leader_last_tick,
                    answer,
                )
        } else {
            *final(leader_builder) == *old(leader_builder)
        },
{
    if shutdown {
        let answer = try_graceful_release(
            rpc_cfg,
            leader_builder,
            ctx.program_id,
            ctx.market,
            keeper_pk,
            state.was_leader_last_tick,
        );
        proof {
            assert(run::released(
                *rpc_cfg,
                *old(leader_builder),
                *leader_builder,
                ctx.program_id,
                ctx.market,
                keeper_pk,
                state.was_leader_last_tick,
                answer,
            ));
        }
    }
    loop_exit(shutdown, max_ticks, state.ticks)
}

/// What became of the tick of a slot.
#[derive(Debug, Clone, Copy, PartialEq, Eq, Structural)]
pub enum SlotStep {
    /// The slot has finished.
    Finished,
    /// The slot is tried again on the next pass, after a pause.
    Backoff,
    /// Another keeper leads.
    Standby,
    /// The tick is over.
    Ticked,
}

/// What became of the tick of a slot, as its gate says.
pub open spec fn slot_step(gate: SlotGate) -> SlotStep {
    match gate {
        SlotGate::Finished => SlotStep::Finished,
        SlotGate::Backoff => SlotStep::Backoff,
        SlotGate::Standby => SlotStep::Standby,
        SlotGate::Lead { .. } => SlotStep::Ticked,
    }
}

/// The slot went from `mid` to `after` while its tick was gone through with.
pub open spec fn slot_led<
    B: TxBuilder,
    M: Fn(&RealizedVolatilityEstimator, &ChainSnapshot) -> (Option<i64>, Vec<RotatePrediction>),
    K: Fn() -> B,
    C: Fn() -> u64,
>(
    snap: ChainSnapshot,
    mid: MarketSlot,
    factory: K,
    keeper: Pubkey32,
    clock_sysvar: Pubkey32,
    system_program: Pubkey32,
    model: M,
    clock: C,
    after: MarketSlot,
) -> bool {
    &&& after.label == mid.label
    &&& after.ctx == mid.ctx
    &&& after.rpc_cfg == mid.rpc_cfg
    &&& after.policy == mid.policy
    &&& exists|builder: B, outcome: Result<(TickReport, B), BotError>, ms: u64|
        {
            &&& #[trigger] made(factory, builder)
            &&& #[trigger] timed(clock, ms)
            &&& #[trigger] bot::ticked_over(
                mid.bot,
                snap,
                mid.ctx,
                bot::executor_context(snap, mid.ctx, keeper, clock_sysvar, system_program),
                builder,
                model,
                after.bot,
                outcome,
            )
            &&& (after.metrics, after.state) == multi::slot_after_tick(
                MarketSlot { bot: after.bot, ..mid },
                report_of(outcome),
                ms,
            )
        }
}

/// What the tick of a slot may come to.
pub open spec fn slot_ticked<
    F: AccountFetcher,
    B: TxBuilder,
    M: Fn(&RealizedVolatilityEstimator, &ChainSnapshot) -> (Option<i64>, Vec<RotatePrediction>),
    K: Fn() -> B,
    C: Fn() -> u64,
    L: KeeperLeaderTxBuilder,
>(
    before: MarketSlot,
    fetcher: &F,
    factory: K,
    keeper: Pubkey32,
    clock_sysvar: Pubkey32,
    system_program: Pubkey32,
    model: M,
    clock: C,
    builder: L,
    after: MarketSlot,
    builder_after: L,
    r: SlotStep,
) -> bool {
    exists|mid: MarketSlot, gate: SlotGate|
        {
            &&& #[trigger] multi::slot_opened(
                fetcher,
                keeper,
                before,
                builder,
                mid,
                builder_after,
                gate,
            )
            &&& r == slot_step(gate)
            &&& match gate {
                SlotGate::Lead { snap, .. } => slot_led(
                    snap,
                    mid,
                    factory,
                    keeper,
                    clock_sysvar,
                    system_program,
                    model,
                    clock,
                    after,
                ),
                _ => after == mid,
            }
        }
}

/// Ticks one slot: its tick is opened, with what is due about its lock, and
/// gone through with where this keeper leads. An error finishes the slot,
/// unless it may pass.
pub fn tick_one_slot<
    F: AccountFetcher,
    B: TxBuilder,
    M: Fn(&RealizedVolatilityEstimator, &ChainSnapshot) -> (Option<i64>, Vec<RotatePrediction>),
    K: Fn() -> B,
    C: Fn() -> u64,
    L: KeeperLeaderTxBuilder,
>(
    slot: &mut MarketSlot,
    fetcher: &F,
    factory: &K,
    keeper_pk: Pubkey32,
    clock_sysvar: Pubkey32,
    system_program: Pubkey32,
    model: &M,
    clock: &C,
    leader_builder: &mut L,
) -> (r: SlotStep)
    requires
        old(slot).bot.wf(),
        old(slot).state.ticks < u64::MAX,
        forall|w: &RealizedVolatilityEstimator, s: &ChainSnapshot| model.requires((w, s)),
        factory.requires(()),
        clock.requires(()),
    ensures
        final(slot).bot.wf(),
        slot_ticked(
            *old(slot),
            fetcher,
            *factory,
            keeper_pk,
            clock_sysvar,
            system_program,
            *model,
            *clock,
            *old(leader_builder),
            *final(slot),
            *final(leader_builder),
            r,
        ),
{
    let gate: SlotGate = open_slot_tick(slot, fetcher, keeper_pk, leader_builder);
    let ghost opened = gate;
    let ghost mid = *slot;
    proof {
        assert(multi::slot_opened(
            fetcher,
            keeper_pk,
            *old(slot),
            *old(leader_builder),
            mid,
            *leader_builder,
            opened,
        ));
        lemma_led_slot_is_not_counted(
            fetcher,
            keeper_pk,
            *old(slot),
            *old(leader_builder),
            mid,
            *leader_builder,
            opened,
        );
    }
    match gate {
        SlotGate::Finished => SlotStep::Finished,
        SlotGate::Backoff => SlotStep::Backoff,
        SlotGate::Standby => SlotStep::Standby,
        SlotGate::Lead { snap, .. } => {
            let builder: B = factory();
            let ghost fresh = builder;
            let start: u64 = clock();
            let outcome = slot.bot.tick_with_snap(
                &snap,
                &slot.ctx,
                builder,
                keeper_pk,
                clock_sysvar,
                system_program,
                model,
            );
            let end: u64 = clock();
            let ms: u64 = end.saturating_sub(start);
            let ghost whole = outcome;
            let ghost ticked_bot = slot.bot;
            proof {
                assert(made(*factory, fresh));
                assert(clock.ensures((), start) && clock.ensures((), end));
                assert(timed(*clock, ms));
                assert(*slot == (MarketSlot { bot: ticked_bot, ..mid }));
            }
            close_slot_tick(slot, drop_builder(outcome), ms);
            proof {
                assert(bot::ticked_over(
                    mid.bot,
                    snap,
                    mid.ctx,
                    bot::executor_context(snap, mid.ctx, keeper_pk, clock_sysvar, system_program),
                    fresh,
                    *model,
                    slot.bot,
                    whole,
                ));
            }
            SlotStep::Ticked
        },
    }
}

/// Opening the tick of a slot counts it at most once, and not where it goes ahead.
proof fn lemma_led_slot_is_not_counted<F: AccountFetcher, L: KeeperLeaderTxBuilder>(
    fetcher: &F,
    keeper: Pubkey32,
    before: MarketSlot,
    builder: L,
    after: MarketSlot,
    builder_after: L,
    gate: SlotGate,
)
    requires
        multi::slot_opened(fetcher, keeper, before, builder, after, builder_after, gate),
        before.state.ticks < u64::MAX,
    ensures
        gate is Lead ==> after.state.ticks == before.state.ticks,
        before.state.ticks <= after.state.ticks <= before.state.ticks + 1,
{
    let (refresh, g) = choose|refresh: Result<ChainSnapshot, BotError>, g: TickGate| #[trigger]
        multi::slot_opened_by(fetcher, keeper, before, builder, after, builder_after, refresh, g)
            && gate == multi::slot_gate(g);
    if g is Lead {
        assert((MarketSlotState { finished: before.state.finished, ..after.state }).ticks
            == after.state.ticks);
    }
}

/// What a pass may do to one slot: nothing where its loop has ended, and a
/// tick otherwise.
pub open spec fn slot_walked<
    F: AccountFetcher,
    B: TxBuilder,
    M: Fn(&RealizedVolatilityEstimator, &ChainSnapshot) -> (Option<i64>, Vec<RotatePrediction>),
    K: Fn() -> B,
    C: Fn() -> u64,
    L: KeeperLeaderTxBuilder,
>(
    before: MarketSlot,
    fetcher: &F,
    factory: K,
    keeper: Pubkey32,
    clock_sysvar: Pubkey32,
    system_program: Pubkey32,
    model: M,
    clock: C,
    builder: L,
    after: MarketSlot,
    builder_after: L,
    step: Option<SlotStep>,
) -> bool {
    if before.state.finished is Some {
        after == before && builder_after == builder && step is None
    } else {
        step is Some && slot_ticked(
            before,
            fetcher,
            factory,
            keeper,
            clock_sysvar,
            system_program,
            model,
            clock,
            builder,
            after,
            builder_after,
            step->0,
        )
    }
}

/// The slots from `from` on were walked in turn, as many as there are
/// `steps`, each of which says what became of a slot; the builder went
/// through `states`. The other slots stay.
pub open spec fn walked_in_turn<
    F: AccountFetcher,
    B: TxBuilder,
    M: Fn(&RealizedVolatilityEstimator, &ChainSnapshot) -> (Option<i64>, Vec<RotatePrediction>),
    K: Fn() -> B,
    C: Fn() -> u64,
    L: KeeperLeaderTxBuilder,
>(
    before: Seq<MarketSlot>,
    from: int,
    fetcher: &F,
    factory: K,
    keeper: Pubkey32,
    clock_sysvar: Pubkey32,
    system_program: Pubkey32,
    model: M,
    clock: C,
    after: Seq<MarketSlot>,
    states: Seq<L>,
    steps: Seq<Option<SlotStep>>,
) -> bool {
    &&& after.len() == before.len()
    &&& from + steps.len() <= before.len()
    &&& states.len() == steps.len() + 1
    &&& forall|i: int|
        #![trigger steps[i]]
        0 <= i < steps.len() ==> slot_walked(
            before[from + i],
            fetcher,
            factory,
            keeper,
            clock_sysvar,
            system_program,
            model,
            clock,
            states[i],
            after[from + i],
            states[i + 1],
            steps[i],
        )
    &&& forall|j: int|
        #![trigger after[j]]
        0 <= j < from || from + steps.len() <= j < before.len() ==> after[j] == before[j]
}

/// Where a walk stops: behind the first slot that backs off, or at the end.
pub open spec fn stops(
    len: int,
    from: int,
    steps: Seq<Option<SlotStep>>,
    r: Option<usize>,
) -> bool {
    &&& forall|i: int|
        0 <= i < steps.len() - 1 ==> #[trigger] steps[i] != Some(SlotStep::Backoff)
    &&& match r {
        Some(next) => {
            &&& steps.len() > 0
            &&& steps.last() == Some(SlotStep::Backoff)
            &&& next == from + steps.len()
        },
        None => {
            &&& steps.len() > 0 ==> steps.last() != Some(SlotStep::Backoff)
            &&& from + steps.len() == len
        },
    }
}

/// Every daemon is well formed.
pub open spec fn sound(slots: Seq<MarketSlot>) -> bool {
    forall|i: int| 0 <= i < slots.len() ==> (#[trigger] slots[i]).bot.wf()
}

/// A tick of every market from `from` on can be counted.
pub open spec fn walkable(slots: Seq<MarketSlot>, from: int) -> bool {
    &&& sound(slots)
    &&& forall|i: int| from <= i < slots.len() ==> (#[trigger] slots[i]).state.ticks < u64::MAX
}

/// A pass over the markets from `from` on, in order; those whose loop has
/// ended are passed over.
///
/// Where the refresh of a market failed and is to be tried again, there is to
/// be a pause before the next market: the walk stops, and says where it is to
/// go on.
pub fn walk_markets<
    F: AccountFetcher,
    B: TxBuilder,
    M: Fn(&RealizedVolatilityEstimator, &ChainSnapshot) -> (Option<i64>, Vec<RotatePrediction>),
    K: Fn() -> B,
    C: Fn() -> u64,
    L: KeeperLeaderTxBuilder,
>(
    registry: &mut MarketRegistry,
    from: usize,
    fetcher: &F,
    factory: &K,
    keeper_pk: Pubkey32,
    clock_sysvar: Pubkey32,
    system_program: Pubkey32,
    model: &M,
    clock: &C,
    leader_builder: &mut L,
) -> (r: Option<usize>)
    requires
        from <= old(registry)@.len(),
        walkable(old(registry)@, from as int),
        forall|w: &RealizedVolatilityEstimator, s: &ChainSnapshot| model.requires((w, s)),
        factory.requires(()),
        clock.requires(()),
    ensures
        sound(final(registry)@),
        exists|states: Seq<L>, steps: Seq<Option<SlotStep>>|
            {
                &&& #[trigger] walked_in_turn(
                    old(registry)@,
                    from as int,
                    fetcher,
                    *factory,
                    keeper_pk,
                    clock_sysvar,
                    system_program,
                    *model,
                    *clock,
                    final(registry)@,
                    states,
                    steps,
                )
                &&& stops(old(registry)@.len() as int, from as int, steps, r)
                &&& states[0] == *old(leader_builder)
                &&& states.last() == *final(leader_builder)
            },
{
    let ghost before = registry@;
    let ghost mut states: Seq<L> = Seq::<L>::empty().push(*leader_builder);
    let ghost mut steps: Seq<Option<SlotStep>> = Seq::empty();
    let mut i: usize = from;
    while i < registry.len()
        invariant
            from <= i <= registry@.len(),
            registry@.len() == before.len(),
            before == old(registry)@,
            walkable(before, from as int),
            forall|w: &RealizedVolatilityEstimator, s: &ChainSnapshot| model.requires((w, s)),
            factory.requires(()),
            clock.requires(()),
            steps.len() == i - from,
            states[0] == *old(leader_builder),
            states.last() == *leader_builder,
            sound(registry@),
            forall|j: int| i <= j < before.len() ==> #[trigger] registry@[j] == before[j],
            walked_in_turn(
                before,
                from as int,
                fetcher,
                *factory,
                keeper_pk,
                clock_sysvar,
                system_program,
                *model,
                *clock,
                registry@,
                states,
                steps,
            ),
            forall|j: int|
                0 <= j < steps.len() ==> #[trigger] steps[j] != Some(SlotStep::Backoff),
        decreases before.len() - i,
    {
        let ghost list = registry@;
        let ghost earlier = states;
        let ghost done = steps;
        let ghost builder = *leader_builder;
        assert(list[i as int] == before[i as int]);
        let mut step: Option<SlotStep> = None;
        if registry.slots()[i].state.finished.is_none() {
            let slot: &mut MarketSlot = registry.slot_mut(i);
            let one: SlotStep = tick_one_slot(
                slot,
                fetcher,
                factory,
                keeper_pk,
                clock_sysvar,
                system_program,
                model,
                clock,
                leader_builder,
            );
            step = Some(one);
        }
        proof {
            states = earlier.push(*leader_builder);
            steps = done.push(step);
            lemma_walk_step(
                before,
                from as int,
                fetcher,
                *factory,
                keeper_pk,
                clock_sysvar,
                system_program,
                *model,
                *clock,
                list,
                earlier,
                done,
                registry@,
                *leader_builder,
                step,
            );
        }
        i = i + 1;
        if let Some(SlotStep::Backoff) = step {
            return Some(i);
        }
    }
    None
}

/// A walk of some slots and a walk of the next is a walk of both.
proof fn lemma_walk_step<
    F: AccountFetcher,
    B: TxBuilder,
    M: Fn(&RealizedVolatilityEstimator, &ChainSnapshot) -> (Option<i64>, Vec<RotatePrediction>),
    K: Fn() -> B,
    C: Fn() -> u64,
    L: KeeperLeaderTxBuilder,
>(
    before: Seq<MarketSlot>,
    from: int,
    fetcher: &F,
    factory: K,
    keeper: Pubkey32,
    clock_sysvar: Pubkey32,
    system_program: Pubkey32,
    model: M,
    clock: C,
    list: Seq<MarketSlot>,
    states: Seq<L>,
    steps: Seq<Option<SlotStep>>,
    after: Seq<MarketSlot>,
    builder_after: L,
    step: Option<SlotStep>,
)
    requires
        0 <= from,
        walked_in_turn(
            before,
            from,
            fetcher,
            factory,
            keeper,
            clock_sysvar,
            system_program,
            model,
            clock,
            list,
            states,
            steps,
        ),
        from + steps.len() < before.len(),
        after.len() == before.len(),
        forall|j: int|
            0 <= j < before.len() && j != from + steps.len() ==> #[trigger] after[j] == list[j],
        slot_walked(
            before[from + steps.len()],
            fetcher,
            factory,
            keeper,
            clock_sysvar,
            system_program,
            model,
            clock,
            states.last(),
            after[from + steps.len()],
            builder_after,
            step,
        ),
    ensures
        walked_in_turn(
            before,
            from,
            fetcher,
            factory,
            keeper,
            clock_sysvar,
            system_program,
            model,
            clock,
            after,
            states.push(builder_after),
            steps.push(step),
        ),
{
    let all_states = states.push(builder_after);
    let all = steps.push(step);
    assert forall|i: int|
        #![trigger all[i]]
        0 <= i < all.len() implies slot_walked(
        before[from + i],
        fetcher,
        factory,
        keeper,
        clock_sysvar,
        system_program,
        model,
        clock,
        all_states[i],
        after[from + i],
        all_states[i + 1],
        all[i],
    ) by {
        if i < steps.len() {
            assert(all[i] == steps[i]);
            assert(all_states[i] == states[i] && all_states[i + 1] == states[i + 1]);
            assert(after[from + i] == list[from + i]);
        } else {
            assert(all_states[i] == states.last());
        }
    }
    assert forall|j: int|
        #![trigger after[j]]
        0 <= j < from || from + all.len() <= j < before.len() implies after[j] == before[j] by {
        assert(after[j] == list[j]);
    }
}

/// A pass counts one tick where it goes on, and none where it is tried again
/// or ends the loop.
pub proof fn law_pass_counts_the_tick_it_completes<
    F: AccountFetcher,
    B: TxBuilder,
    M: Fn(&RealizedVolatilityEstimator, &ChainSnapshot) -> (Option<i64>, Vec<RotatePrediction>),
    K: Fn() -> B,
    C: Fn() -> u64,
>(
    before: KeeperBot,
    fetcher: &F,
    ctx: MarketContext,
    factory: K,
    keeper: Pubkey32,
    clock_sysvar: Pubkey32,
    system_program: Pubkey32,
    model: M,
    clock: C,
    m: KeeperMetrics,
    ticks: u64,
    after: KeeperBot,
    m_after: KeeperMetrics,
    ticks_after: u64,
    r: LoopStep,
)
    requires
        ticks < u64::MAX,
        factory_step(
            before,
            fetcher,
            ctx,
            factory,
            keeper,
            clock_sysvar,
            system_program,
            model,
            clock,
            m,
            ticks,
            after,
            m_after,
            ticks_after,
            r,
        ),
    ensures
        ticks_after == if r is Continue {
            ticks + 1
        } else {
            ticks as int
        },
        r matches LoopStep::Retry(e) ==> run::transient(e),
        r matches LoopStep::Stop(outcome) ==> outcome.ticks == ticks && outcome.error is Some
            && !run::transient(outcome.error->0),
{
}

/// A refresh that fails with an error of transport does not end the loop
/// with one builder: the builder is handed back, no tick is counted, and the
/// error is. The error that ends it never is one of transport, and a tick is
/// counted only where one went through.
pub proof fn law_builder_outlives_transport_errors<
    F: AccountFetcher,
    B: TxBuilder,
    M: Fn(&RealizedVolatilityEstimator, &ChainSnapshot) -> (Option<i64>, Vec<RotatePrediction>),
    C: Fn() -> u64,
>(
    before: KeeperBot,
    fetcher: &F,
    ctx: MarketContext,
    builder: B,
    keeper: Pubkey32,
    clock_sysvar: Pubkey32,
    system_program: Pubkey32,
    model: M,
    clock: C,
    m: KeeperMetrics,
    ticks: u64,
    after: KeeperBot,
    m_after: KeeperMetrics,
    ticks_after: u64,
    r: BuilderStep<B>,
)
    requires
        ticks < u64::MAX,
        builder_step(
            before,
            fetcher,
            ctx,
            builder,
            keeper,
            clock_sysvar,
            system_program,
            model,
            clock,
            m,
            ticks,
            after,
            m_after,
            ticks_after,
            r,
        ),
    ensures
        r matches BuilderStep::Retry { builder: kept, error } ==> {
            &&& kept == builder
            &&& run::transient(error)
            &&& after == before
            &&& m_after == metrics::after_snapshot_error(m)
            &&& ticks_after == ticks
        },
        r is Ticked ==> ticks_after == ticks + 1,
        r matches BuilderStep::Stop(outcome) ==> {
            &&& outcome.reason == LoopTerminationReason::PermanentError
            &&& outcome.error is Some
            &&& !run::transient(outcome.error->0)
            &&& outcome.ticks == ticks
            &&& ticks_after == ticks
        },
{
}

/// A pass over the markets keeps which they are, leaves those whose loop has
/// ended alone, and counts at most one tick of each.
pub proof fn law_walk_keeps_the_markets<
    F: AccountFetcher,
    B: TxBuilder,
    M: Fn(&RealizedVolatilityEstimator, &ChainSnapshot) -> (Option<i64>, Vec<RotatePrediction>),
    K: Fn() -> B,
    C: Fn() -> u64,
    L: KeeperLeaderTxBuilder,
>(
    before: Seq<MarketSlot>,
    from: int,
    fetcher: &F,
    factory: K,
    keeper: Pubkey32,
    clock_sysvar: Pubkey32,
    system_program: Pubkey32,
    model: M,
    clock: C,
    after: Seq<MarketSlot>,
    states: Seq<L>,
    steps: Seq<Option<SlotStep>>,
    i: int,
)
    requires
        0 <= from <= before.len(),
        walkable(before, from),
        walked_in_turn(
            before,
            from,
            fetcher,
            factory,
            keeper,
            clock_sysvar,
            system_program,
            model,
            clock,
            after,
            states,
            steps,
        ),
        0 <= i < before.len(),
    ensures
        after[i].label == before[i].label,
        after[i].ctx == before[i].ctx,
        after[i].rpc_cfg == before[i].rpc_cfg,
        before[i].state.finished is Some ==> after[i] == before[i],
        before[i].state.ticks <= after[i].state.ticks <= before[i].state.ticks + 1,
{
    let n = i - from;
    if 0 <= n < steps.len() {
        let step = steps[n];
        assert(slot_walked(
            before[from + n],
            fetcher,
            factory,
            keeper,
            clock_sysvar,
            system_program,
            model,
            clock,
            states[n],
            after[from + n],
            states[n + 1],
            step,
        ));
        if before[i].state.finished is None {
            let r = step->0;
            let (mid, gate) = choose|mid: MarketSlot, gate: SlotGate|
                {
                    &&& #[trigger] multi::slot_opened(
                        fetcher,
                        keeper,
                        before[i],
                        states[n],
                        mid,
                        states[n + 1],
                        gate,
                    )
                    &&& r == slot_step(gate)
                    &&& match gate {
                        SlotGate::Lead { snap, .. } => slot_led(
                            snap,
                            mid,
                            factory,
                            keeper,
                            clock_sysvar,
                            system_program,
                            model,
                            clock,
                            after[i],
                        ),
                        _ => after[i] == mid,
                    }
                };
            lemma_led_slot_is_not_counted(
                fetcher,
                keeper,
                before[i],
                states[n],
                mid,
                states[n + 1],
                gate,
            );
        }
    } else {
        assert(after[i] == before[i]);
    }
}

} // verus!
