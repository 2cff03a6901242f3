//! The daemon's loop, one decision at a time.
//!
//! Sleeping, clocks and signals are the caller's. Before each tick the
//! caller asks [`loop_exit`]; a leader-gated loop then asks
//! [`open_gated_tick`] or [`open_reconciled_tick`]; after the tick
//! [`settle_tick`] says how the loop goes on.
//!
//! An error of the node, or on the way to it, is transient: the loop goes
//! on. A paused market, another schema, a missing or unreadable account and
//! a planner's error are permanent: the loop stops.
use vstd::prelude::*;

use crate::bot;
use crate::bot::leader::{HostMirrorLeaderPolicy, LeaderPolicy};
use crate::bot::metrics;
use crate::bot::metrics::{KeeperMetrics, LeaderStatus};
use crate::bot::{refresh_snapshot, snapshot_best_slot, BotError, TickReport};
use crate::decoder::ix;
use crate::decoder::ix::{KeeperLeaderHeartbeatArgs, KeeperLeaderReleaseArgs};
use crate::decoder::leader_lock::{KeeperLeaderLock, ZERO_PUBKEY};
use crate::decoder::Pubkey32;
use crate::rpc::fetcher::{AccountFetcher, RpcError};
use crate::rpc::leader_tx;
use crate::rpc::leader_tx::{
    build_keeper_leader_heartbeat, build_keeper_leader_release, fetch_keeper_leader_lock,
    KeeperLeaderTxBuilder, LeaderInstructionModel, LeaderReconcileError,
};
use crate::rpc::snapshot::{ChainSnapshot, MarketContext, SnapshotConfig, SnapshotError};

verus! {

/// Settings of a loop.
#[derive(Debug, Clone, Copy, PartialEq, Eq, Structural)]
pub struct RunLoopConfig {
    /// Pause between ticks, in milliseconds.
    pub tick_interval_ms: u64,
    /// At most this many ticks.
    pub max_ticks: Option<u64>,
    /// Pause after a transient error, in milliseconds.
    pub transient_error_backoff_ms: u64,
}

impl Default for RunLoopConfig {
    fn default() -> (r: Self)
        ensures
            r.tick_interval_ms == 800,
            r.max_ticks is None,
            r.transient_error_backoff_ms == 200,
    {
        RunLoopConfig { tick_interval_ms: 800, max_ticks: None, transient_error_backoff_ms: 200 }
    }
}

/// Why a loop ended.
#[derive(Debug, Clone, Copy, PartialEq, Eq, Structural)]
pub enum LoopTerminationReason {
    /// The daemon was told to stop.
    ShutdownSignal,
    /// There were as many ticks as there may be.
    TickLimitReached,
    /// There was a permanent error.
    PermanentError,
}

/// How a loop ended.
#[derive(Debug, Clone, PartialEq, Eq)]
pub struct LoopOutcome {
    /// Why.
    pub reason: LoopTerminationReason,
    /// Ticks completed.
    pub ticks: u64,
    /// The permanent error, where there was one.
    pub error: Option<BotError>,
}

/// Why a loop ends before its next tick, if it does.
pub open spec fn exit_reason(shutdown: bool, max_ticks: Option<u64>, ticks: u64) -> Option<
    LoopTerminationReason,
> {
    if shutdown {
        Some(LoopTerminationReason::ShutdownSignal)
    } else if max_ticks matches Some(max) && ticks >= max {
        Some(LoopTerminationReason::TickLimitReached)
    } else {
        None
    }
}

/// Decides whether a loop ends before its next tick. The signal comes first.
pub fn loop_exit(shutdown: bool, max_ticks: Option<u64>, ticks: u64) -> (r: Option<LoopOutcome>)
    ensures
        match exit_reason(shutdown, max_ticks, ticks) {
            Some(reason) => r == Some(LoopOutcome { reason, ticks, error: None }),
            None => r is None,
        },
{
    if shutdown {
        return Some(
            LoopOutcome { reason: LoopTerminationReason::ShutdownSignal, ticks, error: None },
        );
    }
    if let Some(max) = max_ticks {
        if ticks >= max {
            return Some(
                LoopOutcome { reason: LoopTerminationReason::TickLimitReached, ticks, error: None },
            );
        }
    }
    None
}

/// The error may go away by itself.
pub open spec fn transient(err: BotError) -> bool {
    err matches BotError::Snapshot(SnapshotError::Rpc(_))
}

/// Whether an error may go away by itself.
pub fn is_transient(err: &BotError) -> (r: bool)
    ensures
        r == transient(*err),
{
    match err {
        BotError::Snapshot(e) => match e {
            SnapshotError::MarketPaused
            | SnapshotError::SchemaVersionMismatch { .. }
            | SnapshotError::MarketNotFound(_)
            | SnapshotError::SubPoolNotFound { .. }
            | SnapshotError::Decode { .. } => false,
            SnapshotError::Rpc(_) => true,
        },
        BotError::Scheduler(_) => false,
    }
}

/// A number of milliseconds that fits.
pub open spec fn clamped(ms: u128) -> u64 {
    if ms > u64::MAX {
        u64::MAX
    } else {
        ms as u64
    }
}

/// Cuts a number of milliseconds down to what a gauge holds.
pub fn clamp_ms_pub(ms: u128) -> (r: u64)
    ensures
        r == clamped(ms),
{
    if ms > u64::MAX as u128 {
        u64::MAX
    } else {
        ms as u64
    }
}

/// How a loop goes on.
#[derive(Debug, Clone, PartialEq, Eq)]
pub enum LoopStep {
    /// With the next tick.
    Continue,
    /// With another try, after a pause.
    Retry(BotError),
    /// Not at all.
    Stop(LoopOutcome),
}

/// How a loop goes on after an error.
pub open spec fn step_after_error(ticks: u64, e: BotError) -> LoopStep {
    if transient(e) {
        LoopStep::Retry(e)
    } else {
        LoopStep::Stop(
            LoopOutcome {
                reason: LoopTerminationReason::PermanentError,
                ticks,
                error: Some(e),
            },
        )
    }
}

/// Counts an error and decides how the loop goes on.
pub fn settle_error(m: &mut KeeperMetrics, ticks: u64, e: BotError) -> (r: LoopStep)
    ensures
        *final(m) == metrics::after_snapshot_error(*old(m)),
        r == step_after_error(ticks, e),
{
    m.observe_snapshot_error();
    if is_transient(&e) {
        LoopStep::Retry(e)
    } else {
        LoopStep::Stop(
            LoopOutcome {
                reason: LoopTerminationReason::PermanentError,
                ticks,
                error: Some(e),
            },
        )
    }
}

/// Counts a tick and decides how the loop goes on.
pub fn settle_tick(
    m: &mut KeeperMetrics,
    vol_samples: u64,
    ticks: &mut u64,
    outcome: Result<TickReport, BotError>,
    duration_ms: u64,
) -> (r: LoopStep)
    requires
        *old(ticks) < u64::MAX,
    ensures
        match outcome {
            Ok(report) => {
                &&& r == LoopStep::Continue
                &&& *final(ticks) == *old(ticks) + 1
                &&& *final(m) == (KeeperMetrics {
                    vol_samples,
                    ..metrics::after_tick(*old(m), report, duration_ms)
                })
            },
            Err(e) => {
                &&& r == step_after_error(*old(ticks), e)
                &&& *final(ticks) == *old(ticks)
                &&& *final(m) == metrics::after_snapshot_error(*old(m))
            },
        },
{
    match outcome {
        Ok(report) => {
            m.observe_tick(&report, duration_ms);
            m.set_vol_samples(vol_samples);
            *ticks = *ticks + 1;
            LoopStep::Continue
        },
        Err(e) => settle_error(m, *ticks, e),
    }
}

/// Whether a gated tick goes ahead.
#[derive(Debug)]
pub enum TickGate {
    /// The loop ends.
    Stop(LoopOutcome),
    /// The loop tries again, after a pause.
    Retry(BotError),
    /// Another keeper leads; the tick is over.
    Standby,
    /// This keeper leads: the tick goes ahead over the snapshot.
    Lead {
        /// What was read.
        snap: ChainSnapshot,
        /// The best known slot.
        slot: u64,
    },
}

/// What becomes of a gated tick after an error.
pub open spec fn gate_after_error(ticks: u64, e: BotError) -> TickGate {
    match step_after_error(ticks, e) {
        LoopStep::Retry(e) => TickGate::Retry(e),
        LoopStep::Stop(outcome) => TickGate::Stop(outcome),
        LoopStep::Continue => TickGate::Standby,
    }
}

/// The settings of every gated refresh.
pub open spec fn gate_config() -> SnapshotConfig {
    SnapshotConfig { enforce_schema_version: true, bail_when_paused: true }
}

/// The slot that a snapshot is taken to be at.
pub open spec fn slot_of(snap: ChainSnapshot) -> u64 {
    match bot::best_slot(snap@.sub_pools) {
        Some(slot) => slot,
        None => 0,
    }
}

/// The best known slot; zero without sub-pools.
fn current_slot(snap: &ChainSnapshot) -> (r: u64)
    ensures
        r == slot_of(*snap),
{
    match snapshot_best_slot(snap) {
        Some(slot) => slot,
        None => 0,
    }
}

/// The register with a leader status.
pub open spec fn with_status(m: KeeperMetrics, leads: bool) -> KeeperMetrics {
    KeeperMetrics {
        leader_status: if leads {
            LeaderStatus::Leader.code()
        } else {
            LeaderStatus::Standby.code()
        },
        ..m
    }
}

/// Counts an error and decides what becomes of a gated tick.
fn gate_error(m: &mut KeeperMetrics, ticks: u64, e: BotError) -> (r: TickGate)
    ensures
        *final(m) == metrics::after_snapshot_error(*old(m)),
        r == gate_after_error(ticks, e),
{
    match settle_error(m, ticks, e) {
        LoopStep::Retry(e) => TickGate::Retry(e),
        LoopStep::Stop(outcome) => TickGate::Stop(outcome),
        LoopStep::Continue => TickGate::Standby,
    }
}

/// What a policy makes of a tick over a snapshot.
pub open spec fn gated<P: LeaderPolicy>(
    snap: ChainSnapshot,
    policy_before: P,
    policy_after: P,
    m: KeeperMetrics,
    m_after: KeeperMetrics,
    ticks: u64,
    ticks_after: u64,
    r: TickGate,
) -> bool {
    exists|leads: bool|
        {
            &&& #[trigger] P::may_decide(policy_before, slot_of(snap), policy_after, leads)
            &&& m_after == with_status(m, leads)
            &&& if leads {
                ticks_after == ticks && r == (TickGate::Lead { snap, slot: slot_of(snap) })
            } else {
                ticks_after == ticks + 1 && r == TickGate::Standby
            }
        }
}

/// Opens a tick under a policy: refreshes, and asks the policy. On standby
/// the tick counts as completed.
pub fn open_gated_tick<F: AccountFetcher, P: LeaderPolicy>(
    fetcher: &F,
    ctx: &MarketContext,
    policy: &mut P,
    m: &mut KeeperMetrics,
    ticks: &mut u64,
) -> (r: TickGate)
    requires
        *old(ticks) < u64::MAX,
    ensures
        exists|refresh: Result<ChainSnapshot, BotError>| #[trigger]
            bot::refreshed(fetcher, *ctx, gate_config(), refresh) && match refresh {
                Err(e) => {
                    &&& r == gate_after_error(*old(ticks), e)
                    &&& *final(m) == metrics::after_snapshot_error(*old(m))
                    &&& *final(ticks) == *old(ticks)
                    &&& *final(policy) == *old(policy)
                },
                Ok(snap) => gated(
                    snap,
                    *old(policy),
                    *final(policy),
                    *old(m),
                    *final(m),
                    *old(ticks),
                    *final(ticks),
                    r,
                ),
            },
{
    let refresh = refresh_snapshot(fetcher, ctx, SnapshotConfig::default());
    let ghost seen = refresh;
    proof {
        assert(bot::refreshed(fetcher, *ctx, gate_config(), seen));
    }
    match refresh {
        Err(e) => gate_error(m, *ticks, e),
        Ok(snap) => {
            let slot: u64 = current_slot(&snap);
            let leads: bool = policy.should_submit(slot);
            if leads {
                m.set_leader_status(LeaderStatus::Leader);
                TickGate::Lead { snap, slot }
            } else {
                m.set_leader_status(LeaderStatus::Standby);
                *ticks = *ticks + 1;
                TickGate::Standby
            }
        },
    }
}

/// How often the lock is read and heartbeats are sent, counted in ticks.
#[derive(Debug, Clone, Copy)]
pub struct LeaderRpcReconcileConfig {
    /// Read the lock every so many ticks; never without.
    pub reconcile_every: Option<u64>,
    /// Address of the lock.
    pub lock_pda: Pubkey32,
    /// Send a heartbeat every so many ticks while leading; never without.
    pub heartbeat_every: Option<u64>,
    /// Whether the lock is released when the daemon is told to stop.
    pub release_on_shutdown: bool,
}

impl Default for LeaderRpcReconcileConfig {
    fn default() -> (r: Self)
        ensures
            r.reconcile_every == Some(20u64),
            r.lock_pda == ZERO_PUBKEY,
            r.heartbeat_every == Some(5u64),
            r.release_on_shutdown,
    {
        LeaderRpcReconcileConfig {
            reconcile_every: Some(20),
            lock_pda: ZERO_PUBKEY,
            heartbeat_every: Some(5),
            release_on_shutdown: true,
        }
    }
}

/// The instruction that releases the lock.
pub open spec fn release_instruction(
    cfg: LeaderRpcReconcileConfig,
    program_id: Pubkey32,
    market: Pubkey32,
    keeper: Pubkey32,
) -> LeaderInstructionModel {
    LeaderInstructionModel {
        program_id,
        data: ix::instruction_bytes("keeper_leader_release"@, &KeeperLeaderReleaseArgs {  }),
        accounts: leader_tx::lock_accounts(market, cfg.lock_pda, keeper),
    }
}

/// A builder went from `before` to `after` while the lock was released, where
/// it was led by this keeper and is to be released.
pub open spec fn released<L: KeeperLeaderTxBuilder>(
    cfg: LeaderRpcReconcileConfig,
    before: L,
    after: L,
    program_id: Pubkey32,
    market: Pubkey32,
    keeper: Pubkey32,
    was_leader_last_tick: bool,
    r: Result<Option<String>, String>,
) -> bool {
    if cfg.release_on_shutdown && was_leader_last_tick {
        L::may_submit(before, release_instruction(cfg, program_id, market, keeper), after, r)
    } else {
        r == Ok::<Option<String>, String>(None) && after == before
    }
}

/// Releases the lock on the way out, where this keeper led on its last tick.
pub fn try_graceful_release<L: KeeperLeaderTxBuilder>(
    cfg: &LeaderRpcReconcileConfig,
    leader_builder: &mut L,
    program_id: Pubkey32,
    market: Pubkey32,
    keeper_pk: Pubkey32,
    was_leader_last_tick: bool,
) -> (r: Result<Option<String>, String>)
    ensures
        released(
            *cfg,
            *old(leader_builder),
            *final(leader_builder),
            program_id,
            market,
            keeper_pk,
            was_leader_last_tick,
            r,
        ),
{
    if !cfg.release_on_shutdown {
        return Ok(None);
    }
    if !was_leader_last_tick {
        return Ok(None);
    }
    let instruction = build_keeper_leader_release(program_id, market, cfg.lock_pda, keeper_pk);
    leader_builder.submit_leader_ix(instruction)
}

/// What a loop remembers of its ticks.
#[derive(Debug, Clone, PartialEq, Eq)]
pub struct MarketSlotState {
    /// Ticks completed.
    pub ticks: u64,
    /// The tick on which the lock was last read.
    pub last_reconcile_tick: Option<u64>,
    /// The tick on which a heartbeat was last sent.
    pub last_heartbeat_tick: Option<u64>,
    /// Whether this keeper led on the last tick.
    pub was_leader_last_tick: bool,
    /// How the loop ended, once it has.
    pub finished: Option<LoopOutcome>,
}

impl Default for MarketSlotState {
    fn default() -> (r: Self)
        ensures
            r == (MarketSlotState {
                ticks: 0,
                last_reconcile_tick: None,
                last_heartbeat_tick: None,
                was_leader_last_tick: false,
                finished: None,
            }),
    {
        MarketSlotState {
            ticks: 0,
            last_reconcile_tick: None,
            last_heartbeat_tick: None,
            was_leader_last_tick: false,
            finished: None,
        }
    }
}

/// Something that is done every so many ticks is due: it has not been done
/// yet, or so many ticks ago.
pub open spec fn is_due(every: u64, last: Option<u64>, ticks: u64) -> bool {
    match last {
        None => true,
        Some(prev) => (if ticks >= prev {
            ticks - prev
        } else {
            0
        }) >= every,
    }
}

/// Whether something that is done every so many ticks is due.
pub fn cadence_due(every: u64, last: Option<u64>, ticks: u64) -> (r: bool)
    ensures
        r == is_due(every, last, ticks),
{
    match last {
        None => true,
        Some(prev) => ticks.saturating_sub(prev) >= every,
    }
}

/// The copy of the lock after the lock has been read: an error leaves it as it was.
pub open spec fn mirror_after_read(
    policy: HostMirrorLeaderPolicy,
    read: Result<KeeperLeaderLock, LeaderReconcileError>,
) -> HostMirrorLeaderPolicy {
    match read {
        Ok(lock) => HostMirrorLeaderPolicy { mirror: lock, ..policy },
        Err(_) => policy,
    }
}

/// The state after the lock has been read. A lock that does not exist counts
/// as read; after any other error it is read again on the next tick.
pub open spec fn state_after_read(
    s: MarketSlotState,
    read: Result<KeeperLeaderLock, LeaderReconcileError>,
) -> MarketSlotState {
    match read {
        Ok(_) => MarketSlotState { last_reconcile_tick: Some(s.ticks), ..s },
        Err(LeaderReconcileError::NotFound(_)) => MarketSlotState {
            last_reconcile_tick: Some(s.ticks),
            ..s
        },
        Err(_) => s,
    }
}

/// Takes in what reading the lock gave.
pub fn accept_lock(
    policy: &mut HostMirrorLeaderPolicy,
    state: &mut MarketSlotState,
    read: Result<KeeperLeaderLock, LeaderReconcileError>,
)
    ensures
        *final(policy) == mirror_after_read(*old(policy), read),
        *final(state) == state_after_read(*old(state), read),
{
    match read {
        Ok(lock) => {
            policy.reconcile(lock);
            state.last_reconcile_tick = Some(state.ticks);
        },
        Err(LeaderReconcileError::NotFound(_)) => {
            state.last_reconcile_tick = Some(state.ticks);
        },
        Err(_) => {},
    }
}

/// Reading the lock is due.
pub open spec fn read_due(cfg: LeaderRpcReconcileConfig, s: MarketSlotState) -> bool {
    cfg.reconcile_every matches Some(every) && is_due(every, s.last_reconcile_tick, s.ticks)
}

/// Reading the lock at `lock_pda` may give `read`.
pub open spec fn lock_fetched<F: AccountFetcher>(
    fetcher: &F,
    lock_pda: Pubkey32,
    read: Result<KeeperLeaderLock, LeaderReconcileError>,
) -> bool {
    exists|answer: Result<Option<Seq<u8>>, RpcError>| #[trigger]
        fetcher.may_fetch(lock_pda, answer) && leader_tx::lock_read(lock_pda, answer, read)
}

/// Policy and state after the lock has been read, where that is due.
pub open spec fn reconciled<F: AccountFetcher>(
    fetcher: &F,
    cfg: LeaderRpcReconcileConfig,
    policy: HostMirrorLeaderPolicy,
    s: MarketSlotState,
    policy_after: HostMirrorLeaderPolicy,
    s_after: MarketSlotState,
) -> bool {
    if read_due(cfg, s) {
        exists|read: Result<KeeperLeaderLock, LeaderReconcileError>|
            {
                &&& #[trigger] lock_fetched(fetcher, cfg.lock_pda, read)
                &&& policy_after == mirror_after_read(policy, read)
                &&& s_after == state_after_read(s, read)
            }
    } else {
        policy_after == policy && s_after == s
    }
}

/// Reads the lock, where that is due.
pub fn reconcile_if_due<F: AccountFetcher>(
    fetcher: &F,
    cfg: &LeaderRpcReconcileConfig,
    policy: &mut HostMirrorLeaderPolicy,
    state: &mut MarketSlotState,
)
    ensures
        reconciled(fetcher, *cfg, *old(policy), *old(state), *final(policy), *final(state)),
{
    let due: bool = match cfg.reconcile_every {
        Some(every) => cadence_due(every, state.last_reconcile_tick, state.ticks),
        None => false,
    };
    if due {
        let read = fetch_keeper_leader_lock(fetcher, &cfg.lock_pda);
        proof {
            assert(lock_fetched(fetcher, cfg.lock_pda, read));
        }
        accept_lock(policy, state, read);
    }
}

/// A heartbeat is to be sent: on the first tick as leader, and every so many
/// ticks while leading.
pub open spec fn heartbeat_wanted(cfg: LeaderRpcReconcileConfig, s: MarketSlotState) -> bool {
    cfg.heartbeat_every matches Some(every) && (!s.was_leader_last_tick || is_due(
        every,
        s.last_heartbeat_tick,
        s.ticks,
    ))
}

/// The instruction that sends a heartbeat.
pub open spec fn heartbeat_instruction(
    cfg: LeaderRpcReconcileConfig,
    ctx: MarketContext,
    keeper: Pubkey32,
    slot: u64,
) -> LeaderInstructionModel {
    LeaderInstructionModel {
        program_id: ctx.program_id,
        data: ix::instruction_bytes(
            "keeper_leader_heartbeat"@,
            &KeeperLeaderHeartbeatArgs { observed_slot: slot },
        ),
        accounts: leader_tx::lock_accounts(ctx.market, cfg.lock_pda, keeper),
    }
}

/// The state after a heartbeat was sent. One that failed is sent again on
/// the next tick that it is due.
pub open spec fn state_after_heartbeat(s: MarketSlotState, sent: bool) -> MarketSlotState {
    if sent {
        MarketSlotState { last_heartbeat_tick: Some(s.ticks), ..s }
    } else {
        s
    }
}

/// State and builder after a heartbeat was sent, where one is to be.
pub open spec fn heartbeat_sent<L: KeeperLeaderTxBuilder>(
    cfg: LeaderRpcReconcileConfig,
    ctx: MarketContext,
    keeper: Pubkey32,
    slot: u64,
    s: MarketSlotState,
    builder: L,
    s_after: MarketSlotState,
    builder_after: L,
) -> bool {
    if heartbeat_wanted(cfg, s) {
        exists|answer: Result<Option<String>, String>|
            {
                &&& #[trigger] L::may_submit(
                    builder,
                    heartbeat_instruction(cfg, ctx, keeper, slot),
                    builder_after,
                    answer,
                )
                &&& s_after == state_after_heartbeat(s, answer is Ok)
            }
    } else {
        s_after == s && builder_after == builder
    }
}

/// Sends a heartbeat, where one is to be sent.
pub fn heartbeat_if_due<L: KeeperLeaderTxBuilder>(
    cfg: &LeaderRpcReconcileConfig,
    ctx: &MarketContext,
    keeper_pk: Pubkey32,
    slot: u64,
    state: &mut MarketSlotState,
    leader_builder: &mut L,
)
    ensures
        heartbeat_sent(
            *cfg,
            *ctx,
            keeper_pk,
            slot,
            *old(state),
            *old(leader_builder),
            *final(state),
            *final(leader_builder),
        ),
{
    let wanted: bool = match cfg.heartbeat_every {
        Some(every) => !state.was_leader_last_tick || cadence_due(
            every,
            state.last_heartbeat_tick,
            state.ticks,
        ),
        None => false,
    };
    if wanted {
        let instruction = build_keeper_leader_heartbeat(
            ctx.program_id,
            ctx.market,
            cfg.lock_pda,
            keeper_pk,
            KeeperLeaderHeartbeatArgs { observed_slot: slot },
        );
        let ghost model = instruction@;
        let answer: Result<Option<String>, String> = leader_builder.submit_leader_ix(instruction);
        proof {
            assert(model == heartbeat_instruction(*cfg, *ctx, keeper_pk, slot));
            assert(L::may_submit(*old(leader_builder), model, *leader_builder, answer));
        }
        if answer.is_ok() {
            state.last_heartbeat_tick = Some(state.ticks);
        }
        proof {
            assert(*state == state_after_heartbeat(*old(state), answer is Ok));
        }
    }
}

/// The state after a tick on standby.
pub open spec fn standby_state(s: MarketSlotState) -> MarketSlotState {
    MarketSlotState { was_leader_last_tick: false, ticks: (s.ticks + 1) as u64, ..s }
}

/// What the copy of the lock makes of a tick over a snapshot, and what is
/// done about the lock.
pub open spec fn led<L: KeeperLeaderTxBuilder>(
    cfg: LeaderRpcReconcileConfig,
    ctx: MarketContext,
    keeper: Pubkey32,
    snap: ChainSnapshot,
    policy: HostMirrorLeaderPolicy,
    s: MarketSlotState,
    m: KeeperMetrics,
    builder: L,
    policy_after: HostMirrorLeaderPolicy,
    s_after: MarketSlotState,
    m_after: KeeperMetrics,
    builder_after: L,
    r: TickGate,
) -> bool {
    let slot = slot_of(snap);
    let leads = policy.mirror.heartbeat_outcome(policy.signer, slot).leads();
    &&& policy_after == (HostMirrorLeaderPolicy {
        mirror: policy.mirror.after_heartbeat(policy.signer, slot),
        ..policy
    })
    &&& m_after == with_status(m, leads)
    &&& if leads {
        &&& r == (TickGate::Lead { snap, slot })
        &&& s_after.was_leader_last_tick
        &&& heartbeat_sent(
            cfg,
            ctx,
            keeper,
            slot,
            s,
            builder,
            (MarketSlotState { was_leader_last_tick: s.was_leader_last_tick, ..s_after }),
            builder_after,
        )
    } else {
        &&& r == TickGate::Standby
        &&& s_after == standby_state(s)
        &&& builder_after == builder
    }
}

/// What opening a tick may come to, once the refresh is known.
pub open spec fn opened<F: AccountFetcher, L: KeeperLeaderTxBuilder>(
    fetcher: &F,
    cfg: LeaderRpcReconcileConfig,
    ctx: MarketContext,
    keeper: Pubkey32,
    refresh: Result<ChainSnapshot, BotError>,
    policy: HostMirrorLeaderPolicy,
    s: MarketSlotState,
    m: KeeperMetrics,
    builder: L,
    policy_after: HostMirrorLeaderPolicy,
    s_after: MarketSlotState,
    m_after: KeeperMetrics,
    builder_after: L,
    r: TickGate,
) -> bool {
    match refresh {
        Err(e) => {
            &&& r == gate_after_error(s.ticks, e)
            &&& m_after == metrics::after_snapshot_error(m)
            &&& policy_after == policy
            &&& s_after == s
            &&& builder_after == builder
        },
        Ok(snap) => exists|p: HostMirrorLeaderPolicy, t: MarketSlotState| #[trigger]
            reconciled(fetcher, cfg, policy, s, p, t) && led(
                cfg,
                ctx,
                keeper,
                snap,
                p,
                t,
                m,
                builder,
                policy_after,
                s_after,
                m_after,
                builder_after,
                r,
            ),
    }
}

/// Opens a tick under the on-chain lock: refreshes, reads the lock where
/// that is due, asks the copy of the lock, and sends a heartbeat where one is
/// to be sent. What goes wrong with the lock never ends the loop. On standby
/// the tick counts as completed.
pub fn open_reconciled_tick<F: AccountFetcher, L: KeeperLeaderTxBuilder>(
    fetcher: &F,
    ctx: &MarketContext,
    cfg: &LeaderRpcReconcileConfig,
    policy: &mut HostMirrorLeaderPolicy,
    m: &mut KeeperMetrics,
    state: &mut MarketSlotState,
    keeper_pk: Pubkey32,
    leader_builder: &mut L,
) -> (r: TickGate)
    requires
        old(state).ticks < u64::MAX,
    ensures
        exists|refresh: Result<ChainSnapshot, BotError>| #[trigger]
            bot::refreshed(fetcher, *ctx, gate_config(), refresh) && opened(
                fetcher,
                *cfg,
                *ctx,
                keeper_pk,
                refresh,
                *old(policy),
                *old(state),
                *old(m),
                *old(leader_builder),
                *final(policy),
                *final(state),
                *final(m),
                *final(leader_builder),
                r,
            ),
{
    let refresh = refresh_snapshot(fetcher, ctx, SnapshotConfig::default());
    let ghost seen = refresh;
    proof {
        assert(bot::refreshed(fetcher, *ctx, gate_config(), seen));
    }
    match refresh {
        Err(e) => gate_error(m, state.ticks, e),
        Ok(snap) => {
            reconcile_if_due(fetcher, cfg, policy, state);
            let ghost p = *policy;
            let ghost t = *state;
            let slot: u64 = current_slot(&snap);
            let leads: bool = policy.should_submit(slot);
            if leads {
                m.set_leader_status(LeaderStatus::Leader);
                heartbeat_if_due(cfg, ctx, keeper_pk, slot, state, leader_builder);
                let ghost after = *state;
                state.was_leader_last_tick = true;
                proof {
                    assert((MarketSlotState {
                        was_leader_last_tick: t.was_leader_last_tick,
                        ..*state
                    }) == after);
                }
                let r = TickGate::Lead { snap, slot };
                proof {
                    assert(reconciled(fetcher, *cfg, *old(policy), *old(state), p, t));
                }
                r
            } else {
                m.set_leader_status(LeaderStatus::Standby);
                state.was_leader_last_tick = false;
                state.ticks = state.ticks + 1;
                proof {
                    assert(reconciled(fetcher, *cfg, *old(policy), *old(state), p, t));
                }
                TickGate::Standby
            }
        },
    }
}

/// Governance never looks like a blip: a paused market, another schema, a
/// missing account and a planner's error stop the loop on the spot.
pub proof fn law_governance_errors_stop_the_loop(ticks: u64, e: BotError)
    requires
        !(e matches BotError::Snapshot(SnapshotError::Rpc(_))),
    ensures
        step_after_error(ticks, e) == LoopStep::Stop(
            LoopOutcome {
                reason: LoopTerminationReason::PermanentError,
                ticks,
                error: Some(e),
            },
        ),
{
}

/// Nothing that goes wrong between the daemon and the node stops the loop.
pub proof fn law_transport_errors_never_stop_the_loop(ticks: u64, e: RpcError)
    ensures
        step_after_error(ticks, BotError::Snapshot(SnapshotError::Rpc(e))) == LoopStep::Retry(
            BotError::Snapshot(SnapshotError::Rpc(e)),
        ),
{
}

/// A keeper that did not lead on its last tick releases nothing.
pub proof fn law_standby_releases_nothing<L: KeeperLeaderTxBuilder>(
    cfg: LeaderRpcReconcileConfig,
    before: L,
    after: L,
    program_id: Pubkey32,
    market: Pubkey32,
    keeper: Pubkey32,
    r: Result<Option<String>, String>,
)
    requires
        released(cfg, before, after, program_id, market, keeper, false, r),
    ensures
        after == before,
        r == Ok::<Option<String>, String>(None),
{
}

/// On its first tick as leader a keeper that sends heartbeats sends one,
/// whenever it sent the last.
pub proof fn law_new_leader_sends_a_heartbeat(cfg: LeaderRpcReconcileConfig, s: MarketSlotState)
    requires
        cfg.heartbeat_every is Some,
        !s.was_leader_last_tick,
    ensures
        heartbeat_wanted(cfg, s),
{
}

/// A heartbeat that was sent is not due again before so many ticks.
pub proof fn law_heartbeats_keep_their_distance(
    cfg: LeaderRpcReconcileConfig,
    s: MarketSlotState,
    later: MarketSlotState,
)
    requires
        cfg.heartbeat_every matches Some(every) && later.ticks - s.ticks < every,
        s.ticks <= later.ticks,
        later.last_heartbeat_tick == state_after_heartbeat(s, true).last_heartbeat_tick,
        later.was_leader_last_tick,
    ensures
        !heartbeat_wanted(cfg, later),
{
}

/// On standby nothing is submitted, whatever the lock says.
pub proof fn law_standby_submits_nothing<L: KeeperLeaderTxBuilder>(
    cfg: LeaderRpcReconcileConfig,
    ctx: MarketContext,
    keeper: Pubkey32,
    snap: ChainSnapshot,
    policy: HostMirrorLeaderPolicy,
    s: MarketSlotState,
    m: KeeperMetrics,
    builder: L,
    policy_after: HostMirrorLeaderPolicy,
    s_after: MarketSlotState,
    m_after: KeeperMetrics,
    builder_after: L,
    r: TickGate,
)
    requires
        led(
            cfg,
            ctx,
            keeper,
            snap,
            policy,
            s,
            m,
            builder,
            policy_after,
            s_after,
            m_after,
            builder_after,
            r,
        ),
        r == TickGate::Standby,
    ensures
        builder_after == builder,
        !s_after.was_leader_last_tick,
        m_after.leader_status == LeaderStatus::Standby.code(),
{
}

/// A pass on which the keeper leads and which it completes: a heartbeat is
/// sent where one is to be, and the tick is counted.
pub open spec fn led_pass<L: KeeperLeaderTxBuilder>(
    cfg: LeaderRpcReconcileConfig,
    ctx: MarketContext,
    keeper: Pubkey32,
    slot: u64,
    s: MarketSlotState,
    builder: L,
    s_after: MarketSlotState,
    builder_after: L,
) -> bool {
    &&& s_after.ticks == s.ticks + 1
    &&& s_after.was_leader_last_tick
    &&& if heartbeat_wanted(cfg, s) {
        exists|answer: Result<Option<String>, String>|
            {
                &&& #[trigger] L::may_submit(
                    builder,
                    heartbeat_instruction(cfg, ctx, keeper, slot),
                    builder_after,
                    answer,
                )
                &&& s_after.last_heartbeat_tick == if answer is Ok {
                    Some(s.ticks)
                } else {
                    s.last_heartbeat_tick
                }
            }
    } else {
        s_after.last_heartbeat_tick == s.last_heartbeat_tick && builder_after == builder
    }
}

/// The keeper led on pass after pass, at these slots.
pub open spec fn led_passes<L: KeeperLeaderTxBuilder>(
    cfg: LeaderRpcReconcileConfig,
    ctx: MarketContext,
    keeper: Pubkey32,
    slots: Seq<u64>,
    states: Seq<MarketSlotState>,
    builders: Seq<L>,
) -> bool {
    &&& states.len() == slots.len() + 1
    &&& builders.len() == slots.len() + 1
    &&& forall|i: int|
        #![trigger slots[i]]
        0 <= i < slots.len() ==> led_pass(
            cfg,
            ctx,
            keeper,
            slots[i],
            states[i],
            builders[i],
            states[i + 1],
            builders[i + 1],
        )
}

/// The heartbeats of a keeper that leads at these slots: with the first pass,
/// and with every `every`th after it.
pub open spec fn heartbeats_of(
    cfg: LeaderRpcReconcileConfig,
    ctx: MarketContext,
    keeper: Pubkey32,
    every: int,
    slots: Seq<u64>,
) -> Seq<LeaderInstructionModel>
    decreases slots.len(),
{
    if slots.len() == 0 {
        Seq::empty()
    } else {
        let before = heartbeats_of(cfg, ctx, keeper, every, slots.drop_last());
        if (slots.len() - 1) % every == 0 {
            before.push(heartbeat_instruction(cfg, ctx, keeper, slots.last()))
        } else {
            before
        }
    }
}

/// A keeper that leads from its first pass on, and whose heartbeats are
/// accepted, sends one with its first pass and with every `every`th after it,
/// and nothing else, however many passes there are.
pub proof fn law_leader_beats_every_so_many_ticks(
    cfg: LeaderRpcReconcileConfig,
    ctx: MarketContext,
    keeper: Pubkey32,
    every: u64,
    slots: Seq<u64>,
    states: Seq<MarketSlotState>,
    builders: Seq<leader_tx::MockKeeperLeaderTxBuilder>,
)
    requires
        cfg.heartbeat_every == Some(every),
        every > 0,
        led_passes(cfg, ctx, keeper, slots, states, builders),
        states[0].ticks == 0,
        !states[0].was_leader_last_tick,
        builders[0].force_err is None,
    ensures
        leader_tx::instruction_models(builders.last().submitted@)
            == leader_tx::instruction_models(builders[0].submitted@) + heartbeats_of(
            cfg,
            ctx,
            keeper,
            every as int,
            slots,
        ),
{
    lemma_beats(cfg, ctx, keeper, every, slots, states, builders);
}

/// The heartbeats of a leader, with the tick of the last.
proof fn lemma_beats(
    cfg: LeaderRpcReconcileConfig,
    ctx: MarketContext,
    keeper: Pubkey32,
    every: u64,
    slots: Seq<u64>,
    states: Seq<MarketSlotState>,
    builders: Seq<leader_tx::MockKeeperLeaderTxBuilder>,
)
    requires
        cfg.heartbeat_every == Some(every),
        every > 0,
        led_passes(cfg, ctx, keeper, slots, states, builders),
        states[0].ticks == 0,
        !states[0].was_leader_last_tick,
        builders[0].force_err is None,
    ensures
        builders.last().force_err is None,
        states.last().ticks == slots.len(),
        slots.len() > 0 ==> {
            &&& states.last().was_leader_last_tick
            &&& states.last().last_heartbeat_tick matches Some(last) && {
                &&& last as int % every as int == 0
                &&& last < slots.len() <= last + every
            }
        },
        leader_tx::instruction_models(builders.last().submitted@)
            == leader_tx::instruction_models(builders[0].submitted@) + heartbeats_of(
            cfg,
            ctx,
            keeper,
            every as int,
            slots,
        ),
    decreases slots.len(),
{
    let start = leader_tx::instruction_models(builders[0].submitted@);
    if slots.len() == 0 {
        assert(start + Seq::<LeaderInstructionModel>::empty() =~= start);
    } else {
        let n = slots.len() - 1;
        let most = slots.drop_last();
        let before = states.drop_last();
        let earlier = builders.drop_last();
        assert forall|i: int|
            #![trigger most[i]]
            0 <= i < most.len() implies led_pass(
            cfg,
            ctx,
            keeper,
            most[i],
            before[i],
            earlier[i],
            before[i + 1],
            earlier[i + 1],
        ) by {
            assert(most[i] == slots[i]);
        }
        lemma_beats(cfg, ctx, keeper, every, most, before, earlier);
        assert(led_pass(
            cfg,
            ctx,
            keeper,
            slots[n],
            states[n],
            builders[n],
            states[n + 1],
            builders[n + 1],
        ));
        assert(before.last() == states[n] && earlier.last() == builders[n]);
        let s = states[n];
        let k = every as int;
        let beats = heartbeats_of(cfg, ctx, keeper, k, most);
        if n == 0 {
            assert(0int % k == 0) by (nonlinear_arith)
                requires
                    k > 0,
            ;
        } else {
            let last = s.last_heartbeat_tick->0 as int;
            assert(last % k == 0 && last < n <= last + k);
            lemma_next_multiple(last, n, k);
        }
        assert(heartbeat_wanted(cfg, s) <==> n % k == 0);
        if n % k == 0 {
            let ix = heartbeat_instruction(cfg, ctx, keeper, slots[n]);
            assert((start + beats).push(ix) =~= start + beats.push(ix));
        }
    }
}

/// After a multiple, the next multiple is the first.
proof fn lemma_next_multiple(last: int, n: int, k: int)
    requires
        k > 0,
        last >= 0,
        last % k == 0,
        last < n <= last + k,
    ensures
        n % k == 0 <==> n == last + k,
{
    let d = n - last;
    vstd::arithmetic::div_mod::lemma_fundamental_div_mod(last, k);
    let q = last / k;
    if d == k {
        assert(n == k * (q + 1)) by (nonlinear_arith)
            requires
                last == k * q,
                n == last + k,
        ;
        vstd::arithmetic::div_mod::lemma_fundamental_div_mod_converse(n, k, q + 1, 0);
    } else {
        assert(n == q * k + d) by (nonlinear_arith)
            requires
                last == k * q,
                n == last + d,
        ;
        vstd::arithmetic::div_mod::lemma_fundamental_div_mod_converse(n, k, q, d);
    }
}

} // verus!
