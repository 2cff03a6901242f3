//! What the daemon does about the lock, counted in ticks: how often it reads
//! it, how often it renews it, and what it does once another keeper leads.
use vstd::prelude::*;

use crate::bot::leader::{HostMirrorLeaderPolicy, LeaderPolicy};
use crate::bot::metrics::KeeperMetrics;
use crate::bot::run;
use crate::bot::run::{LeaderRpcReconcileConfig, LoopTerminationReason, MarketSlotState, TickGate};
use crate::bot::steps;
use crate::bot::BotError;
use crate::decoder;
use crate::decoder::ix;
use crate::decoder::layout;
use crate::decoder::layout::number;
use crate::decoder::leader_lock::KeeperLeaderLock;
use crate::decoder::lease;
use crate::decoder::Pubkey32;
use crate::rpc::fetcher::{AccountFetcher, RpcError};
use crate::rpc::leader_tx;
use crate::rpc::leader_tx::{KeeperLeaderTxBuilder, LeaderInstructionModel, LeaderReconcileError};
use crate::rpc::snapshot::{ChainSnapshot, MarketContext, SnapshotError};
use crate::wire::WireEncode;

verus! {

/// What became of policy and state once the lock account was read: a lock
/// becomes the copy, and the tick is noted; an account that is missing is
/// noted too; after any other error everything stays as it was.
pub open spec fn taken_in(
    read: Result<KeeperLeaderLock, LeaderReconcileError>,
    policy: HostMirrorLeaderPolicy,
    s: MarketSlotState,
    policy_after: HostMirrorLeaderPolicy,
    s_after: MarketSlotState,
) -> bool {
    &&& policy_after.signer == policy.signer
    &&& s_after.ticks == s.ticks
    &&& s_after.last_heartbeat_tick == s.last_heartbeat_tick
    &&& s_after.was_leader_last_tick == s.was_leader_last_tick
    &&& s_after.finished == s.finished
    &&& match read {
        Ok(lock) => policy_after.mirror == lock && s_after.last_reconcile_tick == Some(s.ticks),
        Err(LeaderReconcileError::NotFound(_)) => policy_after.mirror == policy.mirror
            && s_after.last_reconcile_tick == Some(s.ticks),
        Err(_) => policy_after.mirror == policy.mirror && s_after.last_reconcile_tick
            == s.last_reconcile_tick,
    }
}

/// With a cadence of `every` ticks, the lock account is fetched whenever
/// nothing was read yet, and whenever `every` ticks or more have passed since
/// it was last read; what was read is taken in.
pub proof fn law_lock_is_read_every_so_many_ticks<F: AccountFetcher>(
    fetcher: &F,
    cfg: LeaderRpcReconcileConfig,
    every: u64,
    policy: HostMirrorLeaderPolicy,
    s: MarketSlotState,
    policy_after: HostMirrorLeaderPolicy,
    s_after: MarketSlotState,
)
    requires
        cfg.reconcile_every == Some(every),
        s.last_reconcile_tick matches Some(prev) ==> s.ticks >= prev + every,
        run::reconciled(fetcher, cfg, policy, s, policy_after, s_after),
    ensures
        exists|
            answer: Result<Option<Seq<u8>>, RpcError>,
            read: Result<KeeperLeaderLock, LeaderReconcileError>,
        |
            {
                &&& #[trigger] fetcher.may_fetch(cfg.lock_pda, answer)
                &&& #[trigger] leader_tx::lock_read(cfg.lock_pda, answer, read)
                &&& taken_in(read, policy, s, policy_after, s_after)
            },
{
    let read = choose|read: Result<KeeperLeaderLock, LeaderReconcileError>|
        {
            &&& #[trigger] run::lock_fetched(fetcher, cfg.lock_pda, read)
            &&& policy_after == run::mirror_after_read(policy, read)
            &&& s_after == run::state_after_read(s, read)
        };
    assert(run::lock_fetched(fetcher, cfg.lock_pda, read));
    let answer = choose|answer: Result<Option<Seq<u8>>, RpcError>| #[trigger]
        fetcher.may_fetch(cfg.lock_pda, answer) && leader_tx::lock_read(
            cfg.lock_pda,
            answer,
            read,
        );
    assert(taken_in(read, policy, s, policy_after, s_after));
}

/// In between, and without a cadence, nothing is read and nothing changes.
pub proof fn law_lock_is_left_alone_in_between<F: AccountFetcher>(
    fetcher: &F,
    cfg: LeaderRpcReconcileConfig,
    policy: HostMirrorLeaderPolicy,
    s: MarketSlotState,
    policy_after: HostMirrorLeaderPolicy,
    s_after: MarketSlotState,
)
    requires
        cfg.reconcile_every matches Some(every) ==> (s.last_reconcile_tick matches Some(prev)
            && prev <= s.ticks && s.ticks < prev + every),
        run::reconciled(fetcher, cfg, policy, s, policy_after, s_after),
    ensures
        policy_after == policy,
        s_after == s,
{
}

/// The fetcher has the account of this lock, as the chain writes it.
pub open spec fn shows_lock<F: AccountFetcher>(
    fetcher: &F,
    lock_pda: Pubkey32,
    lock: KeeperLeaderLock,
) -> bool {
    forall|answer: Result<Option<Seq<u8>>, RpcError>| #[trigger]
        fetcher.may_fetch(lock_pda, answer) ==> exists|disc: [u8; 8]| #[trigger]
            leader_tx::is_lock_discriminator(disc) && answer == Ok::<Option<Seq<u8>>, RpcError>(
                Some(decoder::account_bytes(&lock, disc@)),
            )
}

/// What is read from a fetcher that has the account of a lock is that lock.
proof fn lemma_shown_lock_is_read<F: AccountFetcher>(
    fetcher: &F,
    lock_pda: Pubkey32,
    lock: KeeperLeaderLock,
    answer: Result<Option<Seq<u8>>, RpcError>,
    read: Result<KeeperLeaderLock, LeaderReconcileError>,
)
    requires
        shows_lock(fetcher, lock_pda, lock),
        fetcher.may_fetch(lock_pda, answer),
        leader_tx::lock_read(lock_pda, answer, read),
    ensures
        read == Ok::<KeeperLeaderLock, LeaderReconcileError>(lock),
{
    let disc = choose|disc: [u8; 8]| #[trigger]
        leader_tx::is_lock_discriminator(disc) && answer == Ok::<Option<Seq<u8>>, RpcError>(
            Some(decoder::account_bytes(&lock, disc@)),
        );
    leader_tx::law_written_lock_is_read(lock_pda, lock, disc, read);
}

/// Where a read is due and the chain has a lock, that lock is the copy
/// afterwards, whatever the copy was before, and the tick is noted.
pub proof fn law_due_read_copies_the_lock<F: AccountFetcher>(
    fetcher: &F,
    cfg: LeaderRpcReconcileConfig,
    every: u64,
    lock: KeeperLeaderLock,
    policy: HostMirrorLeaderPolicy,
    s: MarketSlotState,
    policy_after: HostMirrorLeaderPolicy,
    s_after: MarketSlotState,
)
    requires
        cfg.reconcile_every == Some(every),
        s.last_reconcile_tick matches Some(prev) ==> s.ticks >= prev + every,
        shows_lock(fetcher, cfg.lock_pda, lock),
        run::reconciled(fetcher, cfg, policy, s, policy_after, s_after),
    ensures
        policy_after.mirror == lock,
        policy_after.signer == policy.signer,
        s_after == (MarketSlotState { last_reconcile_tick: Some(s.ticks), ..s }),
{
    law_lock_is_read_every_so_many_ticks(fetcher, cfg, every, policy, s, policy_after, s_after);
    let (answer, read) = choose|
        answer: Result<Option<Seq<u8>>, RpcError>,
        read: Result<KeeperLeaderLock, LeaderReconcileError>,
    |
        {
            &&& #[trigger] fetcher.may_fetch(cfg.lock_pda, answer)
            &&& #[trigger] leader_tx::lock_read(cfg.lock_pda, answer, read)
            &&& taken_in(read, policy, s, policy_after, s_after)
        };
    lemma_shown_lock_is_read(fetcher, cfg.lock_pda, lock, answer, read);
}

/// Passes over consecutive ticks, each of which begins by reading the lock
/// where that is due.
pub open spec fn reading_passes<F: AccountFetcher>(
    fetchers: Seq<F>,
    cfg: LeaderRpcReconcileConfig,
    policies: Seq<HostMirrorLeaderPolicy>,
    states: Seq<MarketSlotState>,
    read_policies: Seq<HostMirrorLeaderPolicy>,
    read_states: Seq<MarketSlotState>,
) -> bool {
    &&& policies.len() == fetchers.len()
    &&& states.len() == fetchers.len()
    &&& read_policies.len() == fetchers.len()
    &&& read_states.len() == fetchers.len()
    &&& forall|i: int|
        #![trigger fetchers[i]]
        0 <= i < fetchers.len() ==> run::reconciled(
            &fetchers[i],
            cfg,
            policies[i],
            states[i],
            read_policies[i],
            read_states[i],
        )
    &&& forall|i: int|
        #![trigger states[i]]
        0 <= i && i + 1 < states.len() ==> states[i + 1].ticks == states[i].ticks + 1
            && states[i + 1].last_reconcile_tick == read_states[i].last_reconcile_tick
}

/// Over as many consecutive ticks as the cadence has, the copy is the chain's
/// lock at least once, where the chain has one on each of them.
pub proof fn law_copy_meets_the_chain<F: AccountFetcher>(
    fetchers: Seq<F>,
    locks: Seq<KeeperLeaderLock>,
    cfg: LeaderRpcReconcileConfig,
    every: u64,
    policies: Seq<HostMirrorLeaderPolicy>,
    states: Seq<MarketSlotState>,
    read_policies: Seq<HostMirrorLeaderPolicy>,
    read_states: Seq<MarketSlotState>,
)
    requires
        cfg.reconcile_every == Some(every),
        every > 0,
        fetchers.len() == every,
        locks.len() == every,
        reading_passes(fetchers, cfg, policies, states, read_policies, read_states),
        states[0].last_reconcile_tick matches Some(prev) ==> prev < states[0].ticks,
        forall|i: int|
            #![trigger fetchers[i]]
            0 <= i < every ==> shows_lock(&fetchers[i], cfg.lock_pda, locks[i]),
    ensures
        exists|i: int|
            0 <= i < every && #[trigger] read_policies[i].mirror == locks[i]
                && read_states[i].last_reconcile_tick == Some(states[i].ticks),
{
    let first = states[0].ticks as int;
    let at: int = match states[0].last_reconcile_tick {
        None => 0,
        Some(prev) => if prev + every <= first {
            0
        } else {
            prev + every - first
        },
    };
    assert(0 <= at < every);
    lemma_unread_until(fetchers, cfg, every, policies, states, read_policies, read_states, at);
    let f = fetchers[at];
    law_due_read_copies_the_lock(
        &fetchers[at],
        cfg,
        every,
        locks[at],
        policies[at],
        states[at],
        read_policies[at],
        read_states[at],
    );
}

/// Until a read is due the last one stays noted, while the ticks go on.
proof fn lemma_unread_until<F: AccountFetcher>(
    fetchers: Seq<F>,
    cfg: LeaderRpcReconcileConfig,
    every: u64,
    policies: Seq<HostMirrorLeaderPolicy>,
    states: Seq<MarketSlotState>,
    read_policies: Seq<HostMirrorLeaderPolicy>,
    read_states: Seq<MarketSlotState>,
    at: int,
)
    requires
        cfg.reconcile_every == Some(every),
        reading_passes(fetchers, cfg, policies, states, read_policies, read_states),
        0 <= at < fetchers.len(),
        at > 0 ==> (states[0].last_reconcile_tick matches Some(prev) && prev < states[0].ticks
            && states[0].ticks + at <= prev + every),
    ensures
        states[at].ticks == states[0].ticks + at,
        states[at].last_reconcile_tick == states[0].last_reconcile_tick,
    decreases at,
{
    if at > 0 {
        lemma_unread_until(
            fetchers,
            cfg,
            every,
            policies,
            states,
            read_policies,
            read_states,
            at - 1,
        );
        let f = fetchers[at - 1];
        let s = states[at - 1];
        law_lock_is_left_alone_in_between(
            &fetchers[at - 1],
            cfg,
            policies[at - 1],
            states[at - 1],
            read_policies[at - 1],
            read_states[at - 1],
        );
    }
}

/// A keeper that finds, on a tick on which it reads the lock, that another
/// keeper holds a lease that still runs at the best known slot, stands by:
/// nothing is submitted, the tick is counted and it is no longer leader.
pub proof fn law_reader_yields_to_the_leader<F: AccountFetcher, L: KeeperLeaderTxBuilder>(
    fetcher: &F,
    cfg: LeaderRpcReconcileConfig,
    ctx: MarketContext,
    keeper: Pubkey32,
    every: u64,
    lock: KeeperLeaderLock,
    snap: ChainSnapshot,
    policy: HostMirrorLeaderPolicy,
    s: MarketSlotState,
    m: KeeperMetrics,
    builder: L,
    policy_after: HostMirrorLeaderPolicy,
    s_after: MarketSlotState,
    m_after: KeeperMetrics,
    builder_after: L,
    r: TickGate,
)
    requires
        cfg.reconcile_every == Some(every),
        s.last_reconcile_tick matches Some(prev) ==> s.ticks >= prev + every,
        s.ticks < u64::MAX,
        shows_lock(fetcher, cfg.lock_pda, lock),
        lock.has_leader,
        lock.current_leader != policy.signer,
        run::slot_of(snap) <= lock.last_heartbeat_slot + lock.takeover_threshold_slots,
        run::opened(
            fetcher,
            cfg,
            ctx,
            keeper,
            Ok(snap),
            policy,
            s,
            m,
            builder,
            policy_after,
            s_after,
            m_after,
            builder_after,
            r,
        ),
    ensures
        r == TickGate::Standby,
        builder_after == builder,
        policy_after.mirror == lock,
        !s_after.was_leader_last_tick,
        s_after.ticks == s.ticks + 1,
        s_after.last_reconcile_tick == Some(s.ticks),
        s_after.last_heartbeat_tick == s.last_heartbeat_tick,
{
    let (p, t) = choose|p: HostMirrorLeaderPolicy, t: MarketSlotState| #[trigger]
        run::reconciled(fetcher, cfg, policy, s, p, t) && run::led(
            cfg,
            ctx,
            keeper,
            snap,
            p,
            t,
            m,
            builder,
            policy_after,
            s_after,
            m_after,
            builder_after,
            r,
        );
    law_due_read_copies_the_lock(fetcher, cfg, every, lock, policy, s, p, t);
    lease::law_lease_in_slots(lock, policy.signer, run::slot_of(snap));
}

/// A keeper goes ahead with a tick exactly where its copy of the lock, once
/// read where that is due, grants it the lease at the best known slot; the
/// copy then names it. Otherwise it stands by.
pub proof fn law_tick_goes_ahead_under_a_lease<F: AccountFetcher, L: KeeperLeaderTxBuilder>(
    fetcher: &F,
    cfg: LeaderRpcReconcileConfig,
    ctx: MarketContext,
    keeper: Pubkey32,
    snap: ChainSnapshot,
    policy: HostMirrorLeaderPolicy,
    s: MarketSlotState,
    m: KeeperMetrics,
    builder: L,
    policy_after: HostMirrorLeaderPolicy,
    s_after: MarketSlotState,
    m_after: KeeperMetrics,
    builder_after: L,
    r: TickGate,
)
    requires
        s.ticks < u64::MAX,
        run::opened(
            fetcher,
            cfg,
            ctx,
            keeper,
            Ok(snap),
            policy,
            s,
            m,
            builder,
            policy_after,
            s_after,
            m_after,
            builder_after,
            r,
        ),
    ensures
        policy_after.signer == policy.signer,
        match r {
            TickGate::Lead { snap: seen, slot } => {
                &&& seen == snap
                &&& slot == run::slot_of(snap)
                &&& policy_after.mirror.has_leader
                &&& policy_after.mirror.current_leader == policy.signer
                &&& policy_after.mirror.last_heartbeat_slot == slot
                &&& s_after.was_leader_last_tick
                &&& s_after.ticks == s.ticks
                &&& m_after.leader_status == 1
            },
            TickGate::Standby => {
                &&& builder_after == builder
                &&& !s_after.was_leader_last_tick
                &&& s_after.ticks == s.ticks + 1
                &&& m_after.leader_status == 2
                &&& policy_after.mirror.last_heartbeat_slot > run::slot_of(snap) || (
                policy_after.mirror.has_leader && policy_after.mirror.current_leader
                    != policy.signer && run::slot_of(snap)
                    <= policy_after.mirror.last_heartbeat_slot
                    + policy_after.mirror.takeover_threshold_slots)
            },
            _ => false,
        },
{
    let (p, t) = choose|p: HostMirrorLeaderPolicy, t: MarketSlotState| #[trigger]
        run::reconciled(fetcher, cfg, policy, s, p, t) && run::led(
            cfg,
            ctx,
            keeper,
            snap,
            p,
            t,
            m,
            builder,
            policy_after,
            s_after,
            m_after,
            builder_after,
            r,
        );
    lease::law_lease_in_slots(p.mirror, p.signer, run::slot_of(snap));
}

/// While leading, a heartbeat goes out on the first tick as leader, and then
/// whenever `every` ticks or more have passed since the last that was
/// accepted: it names the slot, goes to the program, and is noted only where
/// it was accepted.
pub proof fn law_heartbeat_goes_out_every_so_many_ticks<L: KeeperLeaderTxBuilder>(
    cfg: LeaderRpcReconcileConfig,
    ctx: MarketContext,
    keeper: Pubkey32,
    slot: u64,
    every: u64,
    s: MarketSlotState,
    builder: L,
    s_after: MarketSlotState,
    builder_after: L,
)
    requires
        cfg.heartbeat_every == Some(every),
        !s.was_leader_last_tick || (s.last_heartbeat_tick matches Some(prev) ==> s.ticks >= prev
            + every),
        run::heartbeat_sent(cfg, ctx, keeper, slot, s, builder, s_after, builder_after),
    ensures
        exists|beat: LeaderInstructionModel, answer: Result<Option<String>, String>|
            {
                &&& #[trigger] L::may_submit(builder, beat, builder_after, answer)
                &&& beat == run::heartbeat_instruction(cfg, ctx, keeper, slot)
                &&& s_after == (MarketSlotState {
                    last_heartbeat_tick: if answer is Ok {
                        Some(s.ticks)
                    } else {
                        s.last_heartbeat_tick
                    },
                    ..s
                })
            },
{
    let answer = choose|answer: Result<Option<String>, String>|
        {
            &&& #[trigger] L::may_submit(
                builder,
                run::heartbeat_instruction(cfg, ctx, keeper, slot),
                builder_after,
                answer,
            )
            &&& s_after == run::state_after_heartbeat(s, answer is Ok)
        };
    assert(L::may_submit(
        builder,
        run::heartbeat_instruction(cfg, ctx, keeper, slot),
        builder_after,
        answer,
    ));
}

/// In between, and without a cadence, no heartbeat goes out.
pub proof fn law_no_heartbeat_in_between<L: KeeperLeaderTxBuilder>(
    cfg: LeaderRpcReconcileConfig,
    ctx: MarketContext,
    keeper: Pubkey32,
    slot: u64,
    s: MarketSlotState,
    builder: L,
    s_after: MarketSlotState,
    builder_after: L,
)
    requires
        cfg.heartbeat_every is Some ==> s.was_leader_last_tick,
        cfg.heartbeat_every matches Some(every) ==> (s.last_heartbeat_tick matches Some(prev)
            && prev <= s.ticks && s.ticks < prev + every),
        run::heartbeat_sent(cfg, ctx, keeper, slot, s, builder, s_after, builder_after),
    ensures
        builder_after == builder,
        s_after == s,
{
}

/// The heartbeat goes to the program of the market, carries the slot behind
/// its discriminator, reads the market, writes the lock and is signed by the
/// keeper; so is the release, which carries nothing.
pub proof fn law_lock_instructions_in_full(
    cfg: LeaderRpcReconcileConfig,
    ctx: MarketContext,
    keeper: Pubkey32,
    slot: u64,
    beat_digest: [u8; 32],
    release_digest: [u8; 32],
)
    requires
        beat_digest@ == ix::sha256_digest(
            vstd::utf8::encode_utf8("global:"@) + vstd::utf8::encode_utf8(
                "keeper_leader_heartbeat"@,
            ),
        ),
        release_digest@ == ix::sha256_digest(
            vstd::utf8::encode_utf8("global:"@) + vstd::utf8::encode_utf8(
                "keeper_leader_release"@,
            ),
        ),
    ensures
        ({
            let beat = run::heartbeat_instruction(cfg, ctx, keeper, slot);
            let release = run::release_instruction(cfg, ctx.program_id, ctx.market, keeper);
            &&& beat.program_id == ctx.program_id
            &&& beat.data.len() == 16
            &&& beat.data.take(8) == beat_digest@.take(8)
            &&& number(beat.data, 8, 8) == slot
            &&& release.program_id == ctx.program_id
            &&& release.data == release_digest@.take(8)
            &&& release.accounts == beat.accounts
            &&& beat.accounts.len() == 3
            &&& beat.accounts[0].pubkey == ctx.market && !beat.accounts[0].is_signer
                && !beat.accounts[0].is_writable
            &&& beat.accounts[1].pubkey == cfg.lock_pda && !beat.accounts[1].is_signer
                && beat.accounts[1].is_writable
            &&& beat.accounts[2].pubkey == keeper && beat.accounts[2].is_signer
                && beat.accounts[2].is_writable
        }),
{
    let args = ix::KeeperLeaderHeartbeatArgs { observed_slot: slot };
    let none = ix::KeeperLeaderReleaseArgs {  };
    layout::law_lock_arguments_layout(
        args,
        ix::KeeperLeaderAcquireArgs { observed_slot: slot },
        none,
    );
    let beat = run::heartbeat_instruction(cfg, ctx, keeper, slot);
    let release = run::release_instruction(cfg, ctx.program_id, ctx.market, keeper);
    assert(beat.data.take(8) =~= beat_digest@.take(8));
    assert(release.data =~= release_digest@.take(8));
    assert(beat.data.subrange(8, 16) =~= args.wire());
    assert(args.wire().subrange(0, 8) =~= args.wire());
    layout::lemma_number(beat.data, 8, 8);
    layout::lemma_number(args.wire(), 0, 8);
}

/// The lock is given up on the way out exactly where that is asked for and
/// this keeper led on its last tick.
pub proof fn law_leader_releases_on_the_way_out<L: KeeperLeaderTxBuilder>(
    cfg: LeaderRpcReconcileConfig,
    before: L,
    after: L,
    program_id: Pubkey32,
    market: Pubkey32,
    keeper: Pubkey32,
    led: bool,
    r: Result<Option<String>, String>,
)
    requires
        run::released(cfg, before, after, program_id, market, keeper, led, r),
    ensures
        cfg.release_on_shutdown && led ==> exists|release: LeaderInstructionModel|
            {
                &&& #[trigger] L::may_submit(before, release, after, r)
                &&& release == run::release_instruction(cfg, program_id, market, keeper)
            },
        !cfg.release_on_shutdown || !led ==> after == before && r == Ok::<
            Option<String>,
            String,
        >(None),
{
    if cfg.release_on_shutdown && led {
        assert(L::may_submit(
            before,
            run::release_instruction(cfg, program_id, market, keeper),
            after,
            r,
        ));
    }
}

/// A loop runs on until it is told to stop, or has made as many ticks as it
/// may; the signal is the reason where both hold.
pub proof fn law_loop_ends_on_signal_or_limit(shutdown: bool, max_ticks: Option<u64>, ticks: u64)
    ensures
        shutdown ==> run::exit_reason(shutdown, max_ticks, ticks) == Some(
            LoopTerminationReason::ShutdownSignal,
        ),
        !shutdown && max_ticks is None ==> run::exit_reason(shutdown, max_ticks, ticks) is None,
        !shutdown ==> (max_ticks matches Some(max) ==> run::exit_reason(
            shutdown,
            max_ticks,
            ticks,
        ) == if ticks < max {
            None
        } else {
            Some(LoopTerminationReason::TickLimitReached)
        }),
{
}

/// The policy decides at the best known slot, and nothing is counted twice:
/// on standby the tick is over, otherwise it goes ahead over what was read.
pub proof fn law_gate_follows_the_policy<P: LeaderPolicy>(
    snap: ChainSnapshot,
    policy_before: P,
    policy_after: P,
    m: KeeperMetrics,
    m_after: KeeperMetrics,
    ticks: u64,
    ticks_after: u64,
    r: TickGate,
)
    requires
        run::gated(snap, policy_before, policy_after, m, m_after, ticks, ticks_after, r),
    ensures
        match r {
            TickGate::Lead { snap: seen, slot } => {
                &&& seen == snap
                &&& P::may_decide(policy_before, slot, policy_after, true)
                &&& ticks_after == ticks
                &&& m_after == (KeeperMetrics { leader_status: 1, ..m })
            },
            TickGate::Standby => {
                &&& P::may_decide(policy_before, run::slot_of(snap), policy_after, false)
                &&& ticks_after == ticks + 1
                &&& m_after == (KeeperMetrics { leader_status: 2, ..m })
            },
            _ => false,
        },
{
}

/// A tick whose refresh failed is not opened: the error is counted once, and
/// neither lock, copy nor memory is touched. An error of transport has it
/// tried again, and any other ends the loop at the ticks completed so far.
pub proof fn law_failed_refresh_opens_nothing<F: AccountFetcher, L: KeeperLeaderTxBuilder>(
    fetcher: &F,
    cfg: LeaderRpcReconcileConfig,
    ctx: MarketContext,
    keeper: Pubkey32,
    e: BotError,
    policy: HostMirrorLeaderPolicy,
    s: MarketSlotState,
    m: KeeperMetrics,
    builder: L,
    policy_after: HostMirrorLeaderPolicy,
    s_after: MarketSlotState,
    m_after: KeeperMetrics,
    builder_after: L,
    r: TickGate,
)
    requires
        m.snapshot_errors_total < u64::MAX,
        run::opened(
            fetcher,
            cfg,
            ctx,
            keeper,
            Err(e),
            policy,
            s,
            m,
            builder,
            policy_after,
            s_after,
            m_after,
            builder_after,
            r,
        ),
    ensures
        m_after.snapshot_errors_total == m.snapshot_errors_total + 1,
        m_after.ticks_total == m.ticks_total,
        m_after.leader_status == m.leader_status,
        policy_after == policy,
        s_after == s,
        builder_after == builder,
        match e {
            BotError::Snapshot(SnapshotError::Rpc(_)) => r == TickGate::Retry(e),
            _ => r matches TickGate::Stop(outcome) && outcome.reason is PermanentError
                && outcome.ticks == s.ticks && outcome.error == Some(e),
        },
{
}

/// The same of a tick under any policy: one that was refreshed asks the
/// policy, and one that was not counts the error and leaves the policy alone.
pub proof fn law_gated_refresh_counts_its_error<F: AccountFetcher, P: LeaderPolicy>(
    fetcher: &F,
    ctx: MarketContext,
    policy: P,
    m: KeeperMetrics,
    ticks: u64,
    policy_after: P,
    m_after: KeeperMetrics,
    ticks_after: u64,
    gate: TickGate,
)
    requires
        m.snapshot_errors_total < u64::MAX,
        steps::gate_opened(
            fetcher,
            ctx,
            policy,
            m,
            ticks,
            policy_after,
            m_after,
            ticks_after,
            gate,
        ),
    ensures
        gate is Retry || gate is Stop ==> m_after.snapshot_errors_total == m.snapshot_errors_total
            + 1 && m_after.leader_status == m.leader_status && policy_after == policy
            && ticks_after == ticks,
        gate is Lead || gate is Standby ==> m_after.snapshot_errors_total
            == m.snapshot_errors_total,
        gate is Lead ==> ticks_after == ticks && m_after.leader_status == 1,
        gate is Standby ==> ticks_after == ticks + 1 && m_after.leader_status == 2,
        gate matches TickGate::Stop(outcome) ==> outcome.ticks == ticks && outcome.reason
            is PermanentError && outcome.error is Some,
        gate matches TickGate::Retry(e) ==> (e matches BotError::Snapshot(SnapshotError::Rpc(_))),
{
}

} // verus!
