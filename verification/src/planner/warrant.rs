//! What a plan says about the view it was made for, bucket by bucket and
//! hint by hint.
use vstd::prelude::*;
use vstd::seq_lib::*;

use crate::order;
use crate::order::Sortable;
use crate::planner::scheduler;
use crate::planner::scheduler::{InitHint, SchedulerConfig};
use crate::planner::{
    BucketSnapshot, Direction, InitRationale, KeeperAction, KeeperChainView, KeeperError,
};

verus! {

/// `plan` is what the scheduler makes of a view, with these settings and hints.
pub open spec fn planned<V: KeeperChainView>(
    view: &V,
    config: SchedulerConfig,
    hints: Seq<InitHint>,
    plan: Seq<KeeperAction>,
) -> bool {
    scheduler::tasks_of_sub_pools(view, config, view.ids()) matches Ok(tasks)
        && scheduler::is_plan(
        tasks + scheduler::init_tasks(view, hints),
        config.max_actions_per_plan,
        plan,
    )
}

/// Every task of a plan was found in the view or comes from a hint.
proof fn lemma_planned_has_origin<V: KeeperChainView>(
    view: &V,
    config: SchedulerConfig,
    hints: Seq<InitHint>,
    plan: Seq<KeeperAction>,
    i: int,
)
    requires
        planned(view, config, hints, plan),
        0 <= i < plan.len(),
    ensures
        ({
            let tasks = scheduler::tasks_of_sub_pools(view, config, view.ids())->Ok_0;
            tasks.contains(plan[i]) || scheduler::init_tasks(view, hints).contains(plan[i])
        }),
{
    let tasks = scheduler::tasks_of_sub_pools(view, config, view.ids())->Ok_0;
    let inits = scheduler::init_tasks(view, hints);
    let all = tasks + inits;
    let s = choose|s: Seq<KeeperAction>| #[trigger]
        order::is_stable_sort(all, s) && plan == scheduler::capped(s, config.max_actions_per_plan);
    assert(s[i] == plan[i]);
    assert(s.contains(plan[i]));
    all.to_multiset_ensures();
    s.to_multiset_ensures();
    assert(all.to_multiset().count(plan[i]) == s.to_multiset().count(plan[i]));
    assert(all.contains(plan[i]));
    let k = choose|k: int| 0 <= k < all.len() && all[k] == plan[i];
    if k < tasks.len() {
        assert(tasks[k] == plan[i]);
    } else {
        assert(inits[k - tasks.len()] == plan[i]);
    }
}

/// Without a limit, everything that was found is planned.
proof fn lemma_found_is_planned<V: KeeperChainView>(
    view: &V,
    config: SchedulerConfig,
    hints: Seq<InitHint>,
    plan: Seq<KeeperAction>,
    a: KeeperAction,
)
    requires
        planned(view, config, hints, plan),
        config.max_actions_per_plan == 0,
        scheduler::tasks_of_sub_pools(view, config, view.ids())->Ok_0.contains(a)
            || scheduler::init_tasks(view, hints).contains(a),
    ensures
        plan.contains(a),
{
    let tasks = scheduler::tasks_of_sub_pools(view, config, view.ids())->Ok_0;
    let inits = scheduler::init_tasks(view, hints);
    let all = tasks + inits;
    if tasks.contains(a) {
        let k = choose|k: int| 0 <= k < tasks.len() && tasks[k] == a;
        assert(all[k] == a);
    } else {
        let k = choose|k: int| 0 <= k < inits.len() && inits[k] == a;
        assert(all[tasks.len() + k] == a);
    }
    all.to_multiset_ensures();
    plan.to_multiset_ensures();
    scheduler::law_plan_is_complete(all, 0, plan);
    assert(all.to_multiset().count(a) == plan.to_multiset().count(a));
}

/// A task that was found is a task of a bucket that has a ledger and is not ahead of it.
proof fn lemma_found_has_bucket<V: KeeperChainView>(
    view: &V,
    config: SchedulerConfig,
    a: KeeperAction,
) -> (r: (int, int))
    requires
        scheduler::tasks_of_sub_pools(view, config, view.ids()) is Ok,
        scheduler::tasks_of_sub_pools(view, config, view.ids())->Ok_0.contains(a),
    ensures
        0 <= r.0 < view.ids().len(),
        0 <= r.1 < view.buckets_of(view.ids()[r.0]).len(),
        scheduler::task_for(view, config, view.ids()[r.0], r.1) == Some(a),
        scheduler::bucket_error(
            view,
            view.ids()[r.0],
            view.buckets_of(view.ids()[r.0])[r.1],
        ) is None,
{
    let tasks = scheduler::tasks_of_sub_pools(view, config, view.ids())->Ok_0;
    let i = choose|i: int| 0 <= i < tasks.len() && tasks[i] == a;
    scheduler::law_every_task_has_a_bucket(view, config, view.ids(), i);
    let (n, k) = choose|n: int, k: int| #[trigger]
        scheduler::task_for(view, config, view.ids()[n], k) == Some(tasks[i]) && 0 <= n
            < view.ids().len() && 0 <= k < view.buckets_of(view.ids()[n]).len();
    lemma_pool_is_sound(view, config, view.ids(), n);
    scheduler::lemma_bucket_task_found(
        view,
        config,
        view.ids()[n],
        view.buckets_of(view.ids()[n]),
        k,
    );
    (n, k)
}

/// Where the tasks of sub-pools are found without an error, so are those of each.
proof fn lemma_pool_is_sound<V: KeeperChainView>(
    view: &V,
    config: SchedulerConfig,
    ids: Seq<u32>,
    n: int,
)
    requires
        scheduler::tasks_of_sub_pools(view, config, ids) is Ok,
        0 <= n < ids.len(),
    ensures
        scheduler::tasks_of_buckets(view, config, ids[n], view.buckets_of(ids[n])) is Ok,
    decreases ids.len(),
{
    if n < ids.len() - 1 {
        lemma_pool_is_sound(view, config, ids.drop_last(), n);
        assert(ids.drop_last()[n] == ids[n]);
    } else {
        assert(ids.last() == ids[n]);
    }
}

/// Tasks that come from hints create buckets.
proof fn lemma_init_task_has_hint<V: KeeperChainView>(
    view: &V,
    hints: Seq<InitHint>,
    a: KeeperAction,
) -> (k: int)
    requires
        scheduler::init_tasks(view, hints).contains(a),
    ensures
        0 <= k < hints.len(),
        a == hints[k].action(),
        !scheduler::shown(view, hints[k]),
{
    broadcast use vstd::seq_lib::group_filter_ensures;

    let inits = scheduler::init_tasks(view, hints);
    let due = |h: InitHint| !scheduler::shown(view, h);
    let i = choose|i: int| 0 <= i < inits.len() && inits[i] == a;
    let h = hints.filter(due)[i];
    hints.lemma_filter_pred(due, i);
    assert(hints.filter(due).contains(h));
    hints.lemma_filter_contains_rev(due, h);
    choose|k: int| 0 <= k < hints.len() && hints[k] == h
}

/// A bucket is closed only where a view shows it with nothing left: no
/// recovery shares, no notional, no funds to claim and no position; only once
/// every entry of its ledger has been applied to it; and only where closing
/// is asked for.
pub proof fn law_only_empty_buckets_are_closed<V: KeeperChainView>(
    view: &V,
    config: SchedulerConfig,
    hints: Seq<InitHint>,
    plan: Seq<KeeperAction>,
    sub_pool_id: u32,
    direction: Direction,
    tick: i64,
)
    requires
        planned(view, config, hints, plan),
        plan.contains(KeeperAction::CloseDormantBucket { sub_pool_id, direction, tick }),
    ensures
        config.close_dead_buckets,
        exists|n: int, k: int|
            #![trigger view.buckets_of(view.ids()[n])[k]]
            {
                let b = view.buckets_of(view.ids()[n])[k];
                &&& 0 <= n < view.ids().len()
                &&& 0 <= k < view.buckets_of(view.ids()[n]).len()
                &&& b.sub_pool_id == sub_pool_id
                &&& b.direction == direction
                &&& b.tick == tick
                &&& b.total_recovery_shares == 0
                &&& b.total_recovery_notional == 0
                &&& b.accrued_value == 0
                &&& b.position_count == 0
                &&& view.ledger_of(view.ids()[n], direction) matches Some(ledger)
                    && ledger.next_event_index == b.last_applied_index
            },
{
    let a = KeeperAction::CloseDormantBucket { sub_pool_id, direction, tick };
    let i = choose|i: int| 0 <= i < plan.len() && plan[i] == a;
    lemma_planned_has_origin(view, config, hints, plan, i);
    if scheduler::init_tasks(view, hints).contains(a) {
        let k = lemma_init_task_has_hint(view, hints, a);
        assert(false);
    }
    let (n, k) = lemma_found_has_bucket(view, config, a);
    let b = view.buckets_of(view.ids()[n])[k];
    assert(b.total_recovery_shares == 0 && b.accrued_value == 0);
}

/// A bucket is drained only where a view shows it behind its ledger: as many
/// entries are pending as the task says, and no fewer than draining asks for.
pub proof fn law_only_buckets_that_lag_are_drained<V: KeeperChainView>(
    view: &V,
    config: SchedulerConfig,
    hints: Seq<InitHint>,
    plan: Seq<KeeperAction>,
    sub_pool_id: u32,
    direction: Direction,
    tick: i64,
    pending: u64,
)
    requires
        planned(view, config, hints, plan),
        plan.contains(
            KeeperAction::PreSyncDormantBucket { sub_pool_id, direction, tick, pending },
        ),
    ensures
        pending > 0,
        pending >= config.min_pending_for_pre_sync,
        exists|n: int, k: int|
            #![trigger view.buckets_of(view.ids()[n])[k]]
            {
                let b = view.buckets_of(view.ids()[n])[k];
                &&& 0 <= n < view.ids().len()
                &&& 0 <= k < view.buckets_of(view.ids()[n]).len()
                &&& b.sub_pool_id == sub_pool_id
                &&& b.direction == direction
                &&& b.tick == tick
                &&& view.ledger_of(view.ids()[n], direction) matches Some(ledger)
                    && ledger.next_event_index == b.last_applied_index + pending
            },
{
    let a = KeeperAction::PreSyncDormantBucket { sub_pool_id, direction, tick, pending };
    let i = choose|i: int| 0 <= i < plan.len() && plan[i] == a;
    lemma_planned_has_origin(view, config, hints, plan, i);
    if scheduler::init_tasks(view, hints).contains(a) {
        let k = lemma_init_task_has_hint(view, hints, a);
        assert(false);
    }
    let (n, k) = lemma_found_has_bucket(view, config, a);
    let b = view.buckets_of(view.ids()[n])[k];
    assert(b.sub_pool_id == sub_pool_id);
}

/// A bucket is created only where a hint asks for it, for the reason the hint
/// gives, and where the view shows no such bucket.
pub proof fn law_only_missing_buckets_are_created<V: KeeperChainView>(
    view: &V,
    config: SchedulerConfig,
    hints: Seq<InitHint>,
    plan: Seq<KeeperAction>,
    sub_pool_id: u32,
    direction: Direction,
    tick: i64,
    rationale: InitRationale,
)
    requires
        planned(view, config, hints, plan),
        plan.contains(
            KeeperAction::InitDormantBucket { sub_pool_id, direction, tick, rationale },
        ),
    ensures
        hints.contains(InitHint { sub_pool_id, direction, tick, rationale }),
        forall|k: int|
            0 <= k < view.buckets_of(sub_pool_id).len() ==> (#[trigger] view.buckets_of(
                sub_pool_id,
            )[k]).direction != direction || view.buckets_of(sub_pool_id)[k].tick != tick,
{
    let a = KeeperAction::InitDormantBucket { sub_pool_id, direction, tick, rationale };
    let i = choose|i: int| 0 <= i < plan.len() && plan[i] == a;
    lemma_planned_has_origin(view, config, hints, plan, i);
    if scheduler::tasks_of_sub_pools(view, config, view.ids())->Ok_0.contains(a) {
        let (n, k) = lemma_found_has_bucket(view, config, a);
        assert(false);
    }
    let k = lemma_init_task_has_hint(view, hints, a);
    assert(hints[k] == (InitHint { sub_pool_id, direction, tick, rationale }));
    assert forall|j: int|
        0 <= j < view.buckets_of(sub_pool_id).len() implies (#[trigger] view.buckets_of(
        sub_pool_id,
    )[j]).direction != direction || view.buckets_of(sub_pool_id)[j].tick != tick by {
        assert(!scheduler::shown(view, hints[k]));
    }
}

/// Without a limit, a bucket behind its ledger by entries enough is drained,
/// and one with nothing left that has caught up is closed where that is asked
/// for.
pub proof fn law_every_bucket_gets_its_task<V: KeeperChainView>(
    view: &V,
    config: SchedulerConfig,
    hints: Seq<InitHint>,
    plan: Seq<KeeperAction>,
    n: int,
    k: int,
)
    requires
        planned(view, config, hints, plan),
        config.max_actions_per_plan == 0,
        0 <= n < view.ids().len(),
        0 <= k < view.buckets_of(view.ids()[n]).len(),
    ensures
        ({
            let b = view.buckets_of(view.ids()[n])[k];
            view.ledger_of(view.ids()[n], b.direction) matches Some(ledger) && {
                let pending = ledger.next_event_index - b.last_applied_index;
                &&& pending >= 0
                &&& pending > 0 && pending >= config.min_pending_for_pre_sync ==> plan.contains(
                    KeeperAction::PreSyncDormantBucket {
                        sub_pool_id: b.sub_pool_id,
                        direction: b.direction,
                        tick: b.tick,
                        pending: pending as u64,
                    },
                )
                &&& pending == 0 && config.close_dead_buckets && b.total_recovery_shares == 0
                    && b.total_recovery_notional == 0 && b.accrued_value == 0 && b.position_count
                    == 0 ==> plan.contains(
                    KeeperAction::CloseDormantBucket {
                        sub_pool_id: b.sub_pool_id,
                        direction: b.direction,
                        tick: b.tick,
                    },
                )
            }
        }),
{
    let b = view.buckets_of(view.ids()[n])[k];
    lemma_pool_is_sound(view, config, view.ids(), n);
    scheduler::lemma_bucket_task_found(
        view,
        config,
        view.ids()[n],
        view.buckets_of(view.ids()[n]),
        k,
    );
    scheduler::law_every_actionable_bucket_is_found(view, config, view.ids(), n, k);
    if let Some(a) = scheduler::task_for(view, config, view.ids()[n], k) {
        lemma_found_is_planned(view, config, hints, plan, a);
    }
}

/// Without a limit, a hint whose bucket the view does not show is planned.
pub proof fn law_every_missing_bucket_is_created<V: KeeperChainView>(
    view: &V,
    config: SchedulerConfig,
    hints: Seq<InitHint>,
    plan: Seq<KeeperAction>,
    i: int,
)
    requires
        planned(view, config, hints, plan),
        config.max_actions_per_plan == 0,
        0 <= i < hints.len(),
        forall|k: int|
            0 <= k < view.buckets_of(hints[i].sub_pool_id).len() ==> (#[trigger] view.buckets_of(
                hints[i].sub_pool_id,
            )[k]).direction != hints[i].direction || view.buckets_of(hints[i].sub_pool_id)[k].tick
                != hints[i].tick,
    ensures
        plan.contains(
            KeeperAction::InitDormantBucket {
                sub_pool_id: hints[i].sub_pool_id,
                direction: hints[i].direction,
                tick: hints[i].tick,
                rationale: hints[i].rationale,
            },
        ),
{
    broadcast use vstd::seq_lib::group_filter_ensures;

    let h = hints[i];
    let due = |h: InitHint| !scheduler::shown(view, h);
    assert(!scheduler::shown(view, h));
    assert(due(hints[i]));
    assert(hints.filter(due).contains(h));
    let j = choose|j: int| 0 <= j < hints.filter(due).len() && hints.filter(due)[j] == h;
    assert(scheduler::init_tasks(view, hints)[j] == h.action());
    assert(scheduler::init_tasks(view, hints).contains(h.action()));
    lemma_found_is_planned(view, config, hints, plan, h.action());
}

/// In a plan buckets are created first, then drained, then closed; of two
/// buckets that are drained, the one with more entries pending comes first.
pub proof fn law_plan_runs_from_creating_to_closing<V: KeeperChainView>(
    view: &V,
    config: SchedulerConfig,
    hints: Seq<InitHint>,
    plan: Seq<KeeperAction>,
    i: int,
    j: int,
)
    requires
        planned(view, config, hints, plan),
        0 <= i < j < plan.len(),
    ensures
        plan[j] is InitDormantBucket ==> plan[i] is InitDormantBucket,
        plan[i] is CloseDormantBucket ==> plan[j] is CloseDormantBucket,
        match (plan[i], plan[j]) {
            (
                KeeperAction::PreSyncDormantBucket { pending: p, .. },
                KeeperAction::PreSyncDormantBucket { pending: q, .. },
            ) => p >= q || p >= 0x8000_0000_0000_0000,
            _ => true,
        },
{
    let tasks = scheduler::tasks_of_sub_pools(view, config, view.ids())->Ok_0;
    scheduler::law_plan_is_ordered(
        tasks + scheduler::init_tasks(view, hints),
        config.max_actions_per_plan,
        plan,
        i,
        j,
    );
}

/// A limit cuts a plan off, at exactly so many tasks where there are more;
/// what it cuts off is no more urgent than what stays.
pub proof fn law_limit_cuts_off_the_least_urgent<V: KeeperChainView>(
    view: &V,
    config: SchedulerConfig,
    hints: Seq<InitHint>,
    plan: Seq<KeeperAction>,
    whole: Seq<KeeperAction>,
)
    requires
        config.max_actions_per_plan > 0,
        planned(view, config, hints, plan),
        planned(view, (SchedulerConfig { max_actions_per_plan: 0, ..config }), hints, whole),
    ensures
        plan.len() <= whole.len(),
        plan.len() == whole.len() || plan.len() == config.max_actions_per_plan,
        plan.len() <= config.max_actions_per_plan,
        forall|i: int| 0 <= i < plan.len() ==> #[trigger] plan[i] == whole[i],
{
    let open = SchedulerConfig { max_actions_per_plan: 0, ..config };
    lemma_limit_finds_the_same(view, config, open, view.ids());
    let all = scheduler::tasks_of_sub_pools(view, config, view.ids())->Ok_0
        + scheduler::init_tasks(view, hints);
    let s = choose|s: Seq<KeeperAction>| #[trigger]
        order::is_stable_sort(all, s) && plan == scheduler::capped(s, config.max_actions_per_plan);
    let t = choose|t: Seq<KeeperAction>| #[trigger]
        order::is_stable_sort(all, t) && whole == scheduler::capped(t, 0);
    order::law_stable_sort_is_unique(all, s, t);
}

/// What is found in a bucket does not depend on the limit.
proof fn lemma_limit_finds_the_same_in_buckets<V: KeeperChainView>(
    view: &V,
    a: SchedulerConfig,
    b: SchedulerConfig,
    id: u32,
    buckets: Seq<BucketSnapshot>,
)
    requires
        a.min_pending_for_pre_sync == b.min_pending_for_pre_sync,
        a.close_dead_buckets == b.close_dead_buckets,
    ensures
        scheduler::tasks_of_buckets(view, a, id, buckets) == scheduler::tasks_of_buckets(
            view,
            b,
            id,
            buckets,
        ),
    decreases buckets.len(),
{
    if buckets.len() > 0 {
        lemma_limit_finds_the_same_in_buckets(view, a, b, id, buckets.drop_last());
    }
}

/// What is found does not depend on the limit.
proof fn lemma_limit_finds_the_same<V: KeeperChainView>(
    view: &V,
    a: SchedulerConfig,
    b: SchedulerConfig,
    ids: Seq<u32>,
)
    requires
        a.min_pending_for_pre_sync == b.min_pending_for_pre_sync,
        a.close_dead_buckets == b.close_dead_buckets,
    ensures
        scheduler::tasks_of_sub_pools(view, a, ids) == scheduler::tasks_of_sub_pools(view, b, ids),
    decreases ids.len(),
{
    if ids.len() > 0 {
        lemma_limit_finds_the_same(view, a, b, ids.drop_last());
        lemma_limit_finds_the_same_in_buckets(
            view,
            a,
            b,
            ids.last(),
            view.buckets_of(ids.last()),
        );
    }
}

/// The view shows a bucket, among those of the sub-pool `id`, that has no
/// ledger or has applied more entries than its ledger has.
pub open spec fn contradicted<V: KeeperChainView>(view: &V, id: u32, b: BucketSnapshot) -> bool {
    match view.ledger_of(id, b.direction) {
        None => true,
        Some(ledger) => ledger.next_event_index < b.last_applied_index,
    }
}

/// An error among buckets names one of them: the first that is wrong.
proof fn lemma_bucket_error_named<V: KeeperChainView>(
    view: &V,
    config: SchedulerConfig,
    id: u32,
    buckets: Seq<BucketSnapshot>,
)
    ensures
        match scheduler::tasks_of_buckets(view, config, id, buckets) {
            Ok(_) => forall|k: int|
                0 <= k < buckets.len() ==> !contradicted(view, id, #[trigger] buckets[k]),
            Err(e) => exists|k: int|
                #![trigger buckets[k]]
                0 <= k < buckets.len() && error_of(view, id, buckets[k], e) && forall|j: int|
                    0 <= j < k ==> !contradicted(view, id, #[trigger] buckets[j]),
        },
    decreases buckets.len(),
{
    if buckets.len() > 0 {
        let most = buckets.drop_last();
        let n = buckets.len() - 1;
        lemma_bucket_error_named(view, config, id, most);
        assert(buckets[n] == buckets.last());
        match scheduler::tasks_of_buckets(view, config, id, most) {
            Err(e) => {
                let k = choose|k: int|
                    #![trigger most[k]]
                    0 <= k < most.len() && error_of(view, id, most[k], e) && forall|j: int|
                        0 <= j < k ==> !contradicted(view, id, #[trigger] most[j]);
                assert(buckets[k] == most[k]);
                assert forall|j: int| 0 <= j < k implies !contradicted(
                    view,
                    id,
                    #[trigger] buckets[j],
                ) by {
                    assert(most[j] == buckets[j]);
                }
            },
            Ok(_) => {
                assert forall|j: int| 0 <= j < n implies !contradicted(
                    view,
                    id,
                    #[trigger] buckets[j],
                ) by {
                    assert(most[j] == buckets[j]);
                }
                if let Some(e) = scheduler::bucket_error(view, id, buckets[n]) {
                    assert(error_of(view, id, buckets[n], e));
                }
            },
        }
    }
}

/// The error says what is wrong with the bucket, in the bucket's own terms.
pub open spec fn error_of<V: KeeperChainView>(
    view: &V,
    id: u32,
    b: BucketSnapshot,
    e: KeeperError,
) -> bool {
    match e {
        KeeperError::MissingLedger { sub_pool, direction } => {
            &&& view.ledger_of(id, b.direction) is None
            &&& sub_pool == b.sub_pool_id
            &&& direction == b.direction
        },
        KeeperError::BucketAheadOfLedger { sub_pool, direction, tick, applied, head } => {
            &&& view.ledger_of(id, b.direction) matches Some(ledger) && ledger.next_event_index
                == head
            &&& applied == b.last_applied_index
            &&& head < applied
            &&& sub_pool == b.sub_pool_id
            &&& direction == b.direction
            &&& tick == b.tick
        },
    }
}

/// No bucket that is shown before bucket `k` of sub-pool `n` is contradicted.
pub open spec fn sound_before<V: KeeperChainView>(view: &V, ids: Seq<u32>, n: int, k: int) -> bool {
    forall|m: int, l: int|
        #![trigger view.buckets_of(ids[m])[l]]
        0 <= m < ids.len() && 0 <= l < view.buckets_of(ids[m]).len() && (m < n || (m == n && l
            < k)) ==> !contradicted(view, ids[m], view.buckets_of(ids[m])[l])
}

/// A view is planned for exactly where it does not contradict itself: every
/// bucket that it shows has a ledger and is not ahead of it. The error is that
/// of the first bucket that is shown so.
pub proof fn law_contradictions_are_reported<V: KeeperChainView>(
    view: &V,
    config: SchedulerConfig,
    ids: Seq<u32>,
)
    ensures
        match scheduler::tasks_of_sub_pools(view, config, ids) {
            Ok(_) => forall|n: int, k: int|
                #![trigger view.buckets_of(ids[n])[k]]
                0 <= n < ids.len() && 0 <= k < view.buckets_of(ids[n]).len() ==> !contradicted(
                    view,
                    ids[n],
                    view.buckets_of(ids[n])[k],
                ),
            Err(e) => exists|n: int, k: int|
                #![trigger view.buckets_of(ids[n])[k]]
                0 <= n < ids.len() && 0 <= k < view.buckets_of(ids[n]).len() && error_of(
                    view,
                    ids[n],
                    view.buckets_of(ids[n])[k],
                    e,
                ) && sound_before(view, ids, n, k),
        },
    decreases ids.len(),
{
    if ids.len() > 0 {
        let most = ids.drop_last();
        let last = ids.len() - 1;
        law_contradictions_are_reported(view, config, most);
        let buckets = view.buckets_of(ids[last]);
        lemma_bucket_error_named(view, config, ids[last], buckets);
        match scheduler::tasks_of_sub_pools(view, config, most) {
            Err(e) => {
                let (n, k) = choose|n: int, k: int|
                    #![trigger view.buckets_of(most[n])[k]]
                    0 <= n < most.len() && 0 <= k < view.buckets_of(most[n]).len() && error_of(
                        view,
                        most[n],
                        view.buckets_of(most[n])[k],
                        e,
                    ) && sound_before(view, most, n, k);
                assert(most[n] == ids[n]);
                assert(sound_before(view, ids, n, k)) by {
                    assert forall|m: int, l: int|
                        #![trigger view.buckets_of(ids[m])[l]]
                        0 <= m < ids.len() && 0 <= l < view.buckets_of(ids[m]).len() && (m < n || (m
                            == n && l < k)) implies !contradicted(
                        view,
                        ids[m],
                        view.buckets_of(ids[m])[l],
                    ) by {
                        assert(most[m] == ids[m]);
                        let b = view.buckets_of(most[m])[l];
                    }
                }
                assert(error_of(view, ids[n], view.buckets_of(ids[n])[k], e));
            },
            Ok(_) => match scheduler::tasks_of_buckets(view, config, ids[last], buckets) {
                Err(e) => {
                    let k = choose|k: int|
                        #![trigger buckets[k]]
                        0 <= k < buckets.len() && error_of(view, ids[last], buckets[k], e)
                            && forall|j: int|
                            0 <= j < k ==> !contradicted(view, ids[last], #[trigger] buckets[j]);
                    assert(error_of(view, ids[last], view.buckets_of(ids[last])[k], e));
                    assert(sound_before(view, ids, last, k)) by {
                        assert forall|m: int, l: int|
                            #![trigger view.buckets_of(ids[m])[l]]
                            0 <= m < ids.len() && 0 <= l < view.buckets_of(ids[m]).len() && (m
                                < last || (m == last && l < k)) implies !contradicted(
                            view,
                            ids[m],
                            view.buckets_of(ids[m])[l],
                        ) by {
                            if m < last {
                                assert(most[m] == ids[m]);
                                let b = view.buckets_of(most[m])[l];
                            } else {
                                let b = buckets[l];
                            }
                        }
                    }
                },
                Ok(_) => {
                    assert forall|n: int, k: int|
                        #![trigger view.buckets_of(ids[n])[k]]
                        0 <= n < ids.len() && 0 <= k < view.buckets_of(
                            ids[n],
                        ).len() implies !contradicted(
                        view,
                        ids[n],
                        view.buckets_of(ids[n])[k],
                    ) by {
                        if n < last {
                            assert(most[n] == ids[n]);
                            let b = view.buckets_of(most[n])[k];
                        } else {
                            let b = buckets[k];
                        }
                    }
                },
            },
        }
    }
}

/// Recording a hint leaves every other bucket's hint alone, and leaves exactly
/// one for its own: the one recorded.
pub proof fn law_recording_touches_one_bucket(hints: Seq<InitHint>, hint: InitHint, other: InitHint)
    requires
        scheduler::distinct_buckets(hints),
    ensures
        other.sub_pool_id != hint.sub_pool_id || other.direction != hint.direction || other.tick
            != hint.tick ==> (scheduler::recorded(hints, hint).contains(other) <==> hints.contains(
            other,
        )),
        other.sub_pool_id == hint.sub_pool_id && other.direction == hint.direction && other.tick
            == hint.tick ==> (scheduler::recorded(hints, hint).contains(other) <==> other == hint),
    decreases hints.len(),
{
    let r = scheduler::recorded(hints, hint);
    if hints.len() == 0 {
        assert(r[0] == hint);
    } else {
        let t = hints.drop_first();
        assert forall|i: int, j: int|
            #![trigger t[i], t[j]]
            0 <= i < j < t.len() implies !t[i].same_bucket(t[j]) by {
            assert(!hints[i + 1].same_bucket(hints[j + 1]));
        }
        law_recording_touches_one_bucket(t, hint, other);
        let rest = if hints[0].same_bucket(hint) {
            t
        } else {
            scheduler::recorded(t, hint)
        };
        let first = if hints[0].same_bucket(hint) {
            hint
        } else {
            hints[0]
        };
        assert(r =~= seq![first] + rest);
        assert(r.contains(other) <==> other == first || rest.contains(other)) by {
            if r.contains(other) {
                let i = choose|i: int| 0 <= i < r.len() && r[i] == other;
                if i > 0 {
                    assert(rest[i - 1] == other);
                }
            }
            if rest.contains(other) {
                let i = choose|i: int| 0 <= i < rest.len() && rest[i] == other;
                assert(r[i + 1] == other);
            }
            assert(r[0] == first);
        }
        assert(hints.contains(other) <==> other == hints[0] || t.contains(other)) by {
            if hints.contains(other) {
                let i = choose|i: int| 0 <= i < hints.len() && hints[i] == other;
                if i > 0 {
                    assert(t[i - 1] == other);
                }
            }
            if t.contains(other) {
                let i = choose|i: int| 0 <= i < t.len() && t[i] == other;
                assert(hints[i + 1] == other);
            }
        }
        if hints[0].same_bucket(hint) && t.contains(other) {
            let i = choose|i: int| 0 <= i < t.len() && t[i] == other;
            assert(!hints[0].same_bucket(hints[i + 1]));
        }
    }
}

/// Recording keeps the hints where they stand; a new one comes last.
pub proof fn law_recording_keeps_the_order(hints: Seq<InitHint>, hint: InitHint)
    ensures
        ({
            let r = scheduler::recorded(hints, hint);
            &&& hints.len() <= r.len() <= hints.len() + 1
            &&& forall|i: int|
                0 <= i < hints.len() ==> (#[trigger] r[i] == hints[i] || r[i] == hint)
            &&& r.len() > hints.len() ==> r.last() == hint
        }),
    decreases hints.len(),
{
    if hints.len() > 0 && !hints[0].same_bucket(hint) {
        let t = hints.drop_first();
        law_recording_keeps_the_order(t, hint);
        let r = scheduler::recorded(hints, hint);
        let rt = scheduler::recorded(t, hint);
        assert(r =~= seq![hints[0]] + rt);
        assert forall|i: int| 0 <= i < hints.len() implies (#[trigger] r[i] == hints[i] || r[i]
            == hint) by {
            if i > 0 {
                assert(r[i] == rt[i - 1] && hints[i] == t[i - 1]);
            }
        }
        if rt.len() > t.len() {
            assert(r[r.len() - 1] == rt[rt.len() - 1]);
        }
    }
}

} // verus!
