//! What plans promise as a whole: every bucket that calls for a task has it
//! in the plan exactly once, and carrying plans out leaves nothing to do.
use vstd::prelude::*;
use vstd::seq_lib::*;

use crate::order;
use crate::planner::scheduler;
use crate::planner::scheduler::{InitHint, SchedulerConfig};
use crate::planner::{BucketSnapshot, Direction, KeeperAction, KeeperChainView, LedgerSnapshot};

verus! {

/// The bucket that a task is about.
pub open spec fn target(a: KeeperAction) -> (u32, Direction, i64) {
    match a {
        KeeperAction::PreSyncDormantBucket { sub_pool_id, direction, tick, .. } => (
            sub_pool_id,
            direction,
            tick,
        ),
        KeeperAction::CloseDormantBucket { sub_pool_id, direction, tick } => (
            sub_pool_id,
            direction,
            tick,
        ),
        KeeperAction::InitDormantBucket { sub_pool_id, direction, tick, .. } => (
            sub_pool_id,
            direction,
            tick,
        ),
    }
}

/// No two tasks are about one bucket.
pub open spec fn distinct_targets(tasks: Seq<KeeperAction>) -> bool {
    forall|i: int, j: int|
        #![trigger tasks[i], tasks[j]]
        0 <= i < j < tasks.len() ==> target(tasks[i]) != target(tasks[j])
}

/// The buckets belong to a sub-pool, and none is listed twice.
pub open spec fn buckets_listed_once(sub_pool_id: u32, buckets: Seq<BucketSnapshot>) -> bool {
    &&& forall|i: int|
        0 <= i < buckets.len() ==> (#[trigger] buckets[i]).sub_pool_id == sub_pool_id
    &&& forall|i: int, j: int|
        #![trigger buckets[i], buckets[j]]
        0 <= i < j < buckets.len() ==> buckets[i].direction != buckets[j].direction
            || buckets[i].tick != buckets[j].tick
}

/// A view lists each sub-pool and each of its buckets once.
pub open spec fn listed_once<V: KeeperChainView>(view: &V) -> bool {
    &&& view.ids().no_duplicates()
    &&& forall|n: int|
        0 <= n < view.ids().len() ==> buckets_listed_once(
            #[trigger] view.ids()[n],
            view.buckets_of(view.ids()[n]),
        )
}

/// The tasks for buckets that are listed once are about different buckets of their sub-pool.
proof fn lemma_bucket_targets<V: KeeperChainView>(
    view: &V,
    config: SchedulerConfig,
    id: u32,
    buckets: Seq<BucketSnapshot>,
)
    requires
        buckets_listed_once(id, buckets),
        scheduler::tasks_of_buckets(view, config, id, buckets) is Ok,
    ensures
        distinct_targets(scheduler::tasks_of_buckets(view, config, id, buckets)->Ok_0),
        forall|i: int|
            0 <= i < scheduler::tasks_of_buckets(view, config, id, buckets)->Ok_0.len()
                ==> exists|k: int|
                #![trigger buckets[k]]
                0 <= k < buckets.len() && target(
                    #[trigger] scheduler::tasks_of_buckets(view, config, id, buckets)->Ok_0[i],
                ) == (id, buckets[k].direction, buckets[k].tick),
    decreases buckets.len(),
{
    if buckets.len() > 0 {
        let before = buckets.drop_last();
        let last = buckets.last();
        assert forall|i: int| 0 <= i < before.len() implies (#[trigger] before[i]).sub_pool_id
            == id by {
            assert(before[i] == buckets[i]);
        }
        assert forall|i: int, j: int|
            #![trigger before[i], before[j]]
            0 <= i < j < before.len() implies before[i].direction != before[j].direction
            || before[i].tick != before[j].tick by {
            assert(before[i] == buckets[i] && before[j] == buckets[j]);
        }
        lemma_bucket_targets(view, config, id, before);
        let most = scheduler::tasks_of_buckets(view, config, id, before)->Ok_0;
        let all = scheduler::tasks_of_buckets(view, config, id, buckets)->Ok_0;
        let n = buckets.len() - 1;
        assert(buckets[n] == last && last.sub_pool_id == id);
        assert forall|i: int| 0 <= i < all.len() implies exists|k: int|
            #![trigger buckets[k]]
            0 <= k < buckets.len() && target(#[trigger] all[i]) == (
                id,
                buckets[k].direction,
                buckets[k].tick,
            ) by {
            if i < most.len() {
                let k = choose|k: int|
                    #![trigger before[k]]
                    0 <= k < before.len() && target(most[i]) == (
                        id,
                        before[k].direction,
                        before[k].tick,
                    );
                assert(buckets[k] == before[k]);
                assert(all[i] == most[i]);
            } else {
                assert(target(all[i]) == (id, buckets[n].direction, buckets[n].tick));
            }
        }
        assert forall|i: int, j: int|
            #![trigger all[i], all[j]]
            0 <= i < j < all.len() implies target(all[i]) != target(all[j]) by {
            assert(all[i] == most[i]);
            if j < most.len() {
                assert(all[j] == most[j]);
            } else {
                let k = choose|k: int|
                    #![trigger before[k]]
                    0 <= k < before.len() && target(most[i]) == (
                        id,
                        before[k].direction,
                        before[k].tick,
                    );
                assert(buckets[k] == before[k]);
            }
        }
    }
}

/// The sub-pools at the front of a list, with buckets that are listed once.
spec fn front_listed<V: KeeperChainView>(view: &V, ids: Seq<u32>) -> bool {
    &&& ids.no_duplicates()
    &&& forall|n: int|
        0 <= n < ids.len() ==> buckets_listed_once(#[trigger] ids[n], view.buckets_of(ids[n]))
}

/// The bucket stands in the view, under one of the sub-pools.
spec fn listed<V: KeeperChainView>(view: &V, ids: Seq<u32>, t: (u32, Direction, i64)) -> bool {
    exists|n: int, k: int|
        #![trigger ids[n], view.buckets_of(ids[n])[k]]
        0 <= n < ids.len() && 0 <= k < view.buckets_of(ids[n]).len() && t == (
            ids[n],
            view.buckets_of(ids[n])[k].direction,
            view.buckets_of(ids[n])[k].tick,
        )
}

/// The tasks for sub-pools that are listed once are about different buckets.
proof fn lemma_pool_targets<V: KeeperChainView>(view: &V, config: SchedulerConfig, ids: Seq<u32>)
    requires
        front_listed(view, ids),
        scheduler::tasks_of_sub_pools(view, config, ids) is Ok,
    ensures
        distinct_targets(scheduler::tasks_of_sub_pools(view, config, ids)->Ok_0),
        forall|i: int|
            0 <= i < scheduler::tasks_of_sub_pools(view, config, ids)->Ok_0.len() ==> listed(
                view,
                ids,
                target(#[trigger] scheduler::tasks_of_sub_pools(view, config, ids)->Ok_0[i]),
            ),
    decreases ids.len(),
{
    if ids.len() > 0 {
        let before = ids.drop_last();
        let id = ids.last();
        let m = ids.len() - 1;
        let buckets = view.buckets_of(id);
        assert(ids[m] == id);
        assert forall|n: int| 0 <= n < before.len() implies buckets_listed_once(
            #[trigger] before[n],
            view.buckets_of(before[n]),
        ) by {
            assert(before[n] == ids[n]);
        }
        lemma_pool_targets(view, config, before);
        lemma_bucket_targets(view, config, id, buckets);
        let most = scheduler::tasks_of_sub_pools(view, config, before)->Ok_0;
        let more = scheduler::tasks_of_buckets(view, config, id, buckets)->Ok_0;
        let all = scheduler::tasks_of_sub_pools(view, config, ids)->Ok_0;
        assert(all == most + more);
        assert forall|i: int| 0 <= i < all.len() implies listed(
            view,
            ids,
            target(#[trigger] all[i]),
        ) by {
            if i < most.len() {
                assert(all[i] == most[i]);
                assert(listed(view, before, target(most[i])));
                let (n, k) = choose|n: int, k: int|
                    #![trigger before[n], view.buckets_of(before[n])[k]]
                    0 <= n < before.len() && 0 <= k < view.buckets_of(before[n]).len() && target(
                        most[i],
                    ) == (
                        before[n],
                        view.buckets_of(before[n])[k].direction,
                        view.buckets_of(before[n])[k].tick,
                    );
                assert(ids[n] == before[n]);
                assert(view.buckets_of(ids[n])[k] == view.buckets_of(before[n])[k]);
            } else {
                assert(all[i] == more[i - most.len()]);
                let k = choose|k: int|
                    #![trigger buckets[k]]
                    0 <= k < buckets.len() && target(more[i - most.len()]) == (
                        id,
                        buckets[k].direction,
                        buckets[k].tick,
                    );
                assert(view.buckets_of(ids[m])[k] == buckets[k]);
            }
        }
        assert forall|i: int, j: int|
            #![trigger all[i], all[j]]
            0 <= i < j < all.len() implies target(all[i]) != target(all[j]) by {
            if j < most.len() {
                assert(all[i] == most[i] && all[j] == most[j]);
            } else if i < most.len() {
                assert(all[i] == most[i] && all[j] == more[j - most.len()]);
                assert(listed(view, before, target(most[i])));
                assert(target(most[i]).0 != id) by {
                    let n = choose|n: int| 0 <= n < before.len() && before[n] == target(most[i]).0;
                    assert(ids[n] == before[n]);
                }
            } else {
                assert(all[i] == more[i - most.len()] && all[j] == more[j - most.len()]);
            }
        }
    }
}

/// The tasks of creating buckets are about different buckets, none of which the view shows.
proof fn lemma_init_targets<V: KeeperChainView>(view: &V, hints: Seq<InitHint>)
    requires
        scheduler::distinct_buckets(hints),
    ensures
        distinct_targets(scheduler::init_tasks(view, hints)),
        forall|i: int|
            0 <= i < scheduler::init_tasks(view, hints).len() ==> {
                &&& scheduler::init_tasks(view, hints)[i]
                    == #[trigger] scheduler::due_hints(view, hints)[i].action()
                &&& !scheduler::shown(view, scheduler::due_hints(view, hints)[i])
            },
{
    broadcast use vstd::seq_lib::group_filter_ensures;

    let due = |h: InitHint| !scheduler::shown(view, h);
    scheduler::lemma_filter_distinct(hints, due);
    let list = scheduler::due_hints(view, hints);
    let tasks = scheduler::init_tasks(view, hints);
    assert forall|i: int, j: int|
        #![trigger tasks[i], tasks[j]]
        0 <= i < j < tasks.len() implies target(tasks[i]) != target(tasks[j]) by {
        assert(!list[i].same_bucket(list[j]));
    }
    assert forall|i: int| 0 <= i < tasks.len() implies {
        &&& tasks[i] == #[trigger] list[i].action()
        &&& !scheduler::shown(view, list[i])
    } by {
        hints.lemma_filter_pred(due, i);
    }
}

/// Every task that a scheduler finds, for buckets and for hints, is about a
/// bucket of its own.
pub proof fn law_tasks_have_distinct_targets<V: KeeperChainView>(
    view: &V,
    config: SchedulerConfig,
    hints: Seq<InitHint>,
)
    requires
        listed_once(view),
        scheduler::distinct_buckets(hints),
        scheduler::tasks_of_sub_pools(view, config, view.ids()) is Ok,
    ensures
        distinct_targets(
            scheduler::tasks_of_sub_pools(view, config, view.ids())->Ok_0 + scheduler::init_tasks(
                view,
                hints,
            ),
        ),
{
    let ids = view.ids();
    let tasks = scheduler::tasks_of_sub_pools(view, config, ids)->Ok_0;
    let inits = scheduler::init_tasks(view, hints);
    let due = scheduler::due_hints(view, hints);
    let all = tasks + inits;
    lemma_pool_targets(view, config, ids);
    lemma_init_targets(view, hints);
    assert forall|i: int, j: int|
        #![trigger all[i], all[j]]
        0 <= i < j < all.len() implies target(all[i]) != target(all[j]) by {
        if j < tasks.len() {
            assert(all[i] == tasks[i] && all[j] == tasks[j]);
        } else if i < tasks.len() {
            let d = j - tasks.len();
            assert(all[i] == tasks[i] && all[j] == inits[d]);
            assert(inits[d] == due[d].action());
            assert(listed(view, ids, target(tasks[i])));
            let (n, k) = choose|n: int, k: int|
                #![trigger ids[n], view.buckets_of(ids[n])[k]]
                0 <= n < ids.len() && 0 <= k < view.buckets_of(ids[n]).len() && target(tasks[i])
                    == (
                    ids[n],
                    view.buckets_of(ids[n])[k].direction,
                    view.buckets_of(ids[n])[k].tick,
                );
            if target(tasks[i]) == target(inits[d]) {
                assert(due[d].sub_pool_id == ids[n]);
                let b = view.buckets_of(due[d].sub_pool_id)[k];
                assert(b.direction == due[d].direction && b.tick == due[d].tick);
                assert(scheduler::shown(view, due[d]));
            }
        } else {
            assert(all[i] == inits[i - tasks.len()] && all[j] == inits[j - tasks.len()]);
        }
    }
}

/// Tasks about different buckets stay so in any order.
proof fn lemma_order_keeps_targets(tasks: Seq<KeeperAction>, s: Seq<KeeperAction>)
    requires
        distinct_targets(tasks),
        s.to_multiset() == tasks.to_multiset(),
    ensures
        distinct_targets(s),
{
    assert(tasks.no_duplicates()) by {
        assert forall|i: int, j: int|
            0 <= i < tasks.len() && 0 <= j < tasks.len() && i != j implies tasks[i] != tasks[j] by {
            if i < j {
                assert(target(tasks[i]) != target(tasks[j]));
            } else {
                assert(target(tasks[j]) != target(tasks[i]));
            }
        }
    }
    tasks.lemma_multiset_has_no_duplicates();
    s.lemma_multiset_has_no_duplicates_conv();
    assert forall|i: int, j: int|
        #![trigger s[i], s[j]]
        0 <= i < j < s.len() implies target(s[i]) != target(s[j]) by {
        broadcast use vstd::seq_lib::group_to_multiset_ensures;

        assert(s.to_multiset().contains(s[i]) && s.to_multiset().contains(s[j]));
        assert(tasks.contains(s[i]) && tasks.contains(s[j]));
        let a = choose|a: int| 0 <= a < tasks.len() && tasks[a] == s[i];
        let b = choose|b: int| 0 <= b < tasks.len() && tasks[b] == s[j];
        assert(s[i] != s[j]);
        if a < b {
            assert(target(tasks[a]) != target(tasks[b]));
        } else {
            assert(target(tasks[b]) != target(tasks[a]));
        }
    }
}

/// A plan is complete: no bucket stands in it twice, and without a limit
/// every bucket that calls for a task, and every hint whose bucket is not
/// there yet, has its task in it.
pub proof fn law_plan_surfaces_everything_once<V: KeeperChainView>(
    view: &V,
    config: SchedulerConfig,
    hints: Seq<InitHint>,
    plan: Seq<KeeperAction>,
)
    requires
        listed_once(view),
        scheduler::distinct_buckets(hints),
        scheduler::tasks_of_sub_pools(view, config, view.ids()) is Ok,
        scheduler::is_plan(
            scheduler::tasks_of_sub_pools(view, config, view.ids())->Ok_0 + scheduler::init_tasks(
                view,
                hints,
            ),
            config.max_actions_per_plan,
            plan,
        ),
    ensures
        distinct_targets(plan),
        config.max_actions_per_plan == 0 ==> forall|n: int, k: int|
            0 <= n < view.ids().len() && 0 <= k < view.buckets_of(view.ids()[n]).len() ==> (
            #[trigger] scheduler::task_for(view, config, view.ids()[n], k) matches Some(a)
                ==> plan.contains(a)),
        config.max_actions_per_plan == 0 ==> forall|i: int|
            0 <= i < hints.len() && !scheduler::shown(view, hints[i]) ==> plan.contains(
                #[trigger] hints[i].action(),
            ),
{
    let tasks = scheduler::tasks_of_sub_pools(view, config, view.ids())->Ok_0;
    let inits = scheduler::init_tasks(view, hints);
    let all = tasks + inits;
    let s = choose|s: Seq<KeeperAction>| #[trigger]
        order::is_stable_sort(all, s) && plan == scheduler::capped(s, config.max_actions_per_plan);
    law_tasks_have_distinct_targets(view, config, hints);
    lemma_order_keeps_targets(all, s);
    assert forall|i: int, j: int|
        #![trigger plan[i], plan[j]]
        0 <= i < j < plan.len() implies target(plan[i]) != target(plan[j]) by {
        assert(plan[i] == s[i] && plan[j] == s[j]);
    }
    if config.max_actions_per_plan == 0 {
        assert forall|n: int, k: int|
            0 <= n < view.ids().len() && 0 <= k < view.buckets_of(view.ids()[n]).len() implies (
        #[trigger] scheduler::task_for(view, config, view.ids()[n], k) matches Some(a)
            ==> plan.contains(a)) by {
            if let Some(a) = scheduler::task_for(view, config, view.ids()[n], k) {
                scheduler::law_every_actionable_bucket_is_found(view, config, view.ids(), n, k);
                let i = choose|i: int| 0 <= i < tasks.len() && tasks[i] == a;
                assert(all[i] == a);
                lemma_contained(all, s, i);
            }
        }
        assert forall|i: int|
            0 <= i < hints.len() && !scheduler::shown(view, hints[i]) implies plan.contains(
            #[trigger] hints[i].action(),
        ) by {
            let due = |h: InitHint| !scheduler::shown(view, h);
            broadcast use vstd::seq_lib::group_filter_ensures;

            assert(due(hints[i]));
            hints.lemma_filter_contains(due, i);
            let list = scheduler::due_hints(view, hints);
            let d = choose|d: int| 0 <= d < list.len() && list[d] == hints[i];
            assert(inits[d] == list[d].action());
            assert(all[tasks.len() + d] == hints[i].action());
            lemma_contained(all, s, tasks.len() + d);
        }
    }
}

/// What stands in a list stands in it in any order.
proof fn lemma_contained(all: Seq<KeeperAction>, s: Seq<KeeperAction>, i: int)
    requires
        s.to_multiset() == all.to_multiset(),
        0 <= i < all.len(),
    ensures
        s.contains(all[i]),
{
    broadcast use vstd::seq_lib::group_to_multiset_ensures;

    assert(all.to_multiset().contains(all[i]));
}

/// A bucket once its task has been carried out: drained up to the head of
/// its ledger, or closed.
pub open spec fn after_task(
    config: SchedulerConfig,
    ledger: LedgerSnapshot,
    b: BucketSnapshot,
) -> Option<BucketSnapshot> {
    match scheduler::bucket_action(config, ledger, b) {
        Some(KeeperAction::PreSyncDormantBucket { .. }) => Some(
            BucketSnapshot { last_applied_index: ledger.next_event_index, ..b },
        ),
        Some(KeeperAction::CloseDormantBucket { .. }) => None,
        _ => Some(b),
    }
}

/// Once its task has been carried out, a bucket is never drained again; one
/// that still holds something calls for nothing more.
pub proof fn law_task_is_done_at_once(
    config: SchedulerConfig,
    ledger: LedgerSnapshot,
    b: BucketSnapshot,
)
    requires
        b.last_applied_index <= ledger.next_event_index,
    ensures
        after_task(config, ledger, b) matches Some(c) ==> {
            &&& c.last_applied_index <= ledger.next_event_index
            &&& match scheduler::bucket_action(config, ledger, c) {
                None => true,
                Some(a) => a is CloseDormantBucket && c.dead() && c.last_applied_index
                    == ledger.next_event_index,
            }
        },
        !b.dead() ==> after_task(config, ledger, b) is Some,
{
}

/// The buckets of a sub-pool once their tasks have been carried out.
pub open spec fn buckets_after<V: KeeperChainView>(
    view: &V,
    config: SchedulerConfig,
    id: u32,
    buckets: Seq<BucketSnapshot>,
) -> Seq<BucketSnapshot>
    decreases buckets.len(),
{
    if buckets.len() == 0 {
        Seq::empty()
    } else {
        let before = buckets_after(view, config, id, buckets.drop_last());
        match after_task(
            config,
            view.ledger_of(id, buckets.last().direction)->Some_0,
            buckets.last(),
        ) {
            Some(b) => before.push(b),
            None => before,
        }
    }
}

/// `after` shows the chain of `before` once the tasks of all buckets have
/// been carried out, and nothing else has happened.
pub open spec fn carried_out<V: KeeperChainView>(
    before: &V,
    config: SchedulerConfig,
    after: &V,
) -> bool {
    &&& after.ids() == before.ids()
    &&& forall|id: u32, d: Direction| #[trigger]
        after.ledger_of(id, d) == before.ledger_of(id, d)
    &&& forall|id: u32| #[trigger]
        after.buckets_of(id) == buckets_after(before, config, id, before.buckets_of(id))
}

/// The bucket is in order, and calls for no task but that of closing it.
spec fn calms<V: KeeperChainView>(view: &V, config: SchedulerConfig, id: u32, b: BucketSnapshot) -> bool {
    &&& scheduler::bucket_error(view, id, b) is None
    &&& scheduler::bucket_action(config, view.ledger_of(id, b.direction)->Some_0, b) matches Some(
        a,
    ) ==> a is CloseDormantBucket
}

/// The bucket is in order, and calls for no task.
spec fn quiet<V: KeeperChainView>(view: &V, config: SchedulerConfig, id: u32, b: BucketSnapshot) -> bool {
    &&& scheduler::bucket_error(view, id, b) is None
    &&& scheduler::bucket_action(config, view.ledger_of(id, b.direction)->Some_0, b) is None
}

/// Buckets in order calm once their tasks have been carried out, and calm
/// ones fall quiet.
proof fn lemma_buckets_settle<V: KeeperChainView>(
    view: &V,
    config: SchedulerConfig,
    id: u32,
    buckets: Seq<BucketSnapshot>,
)
    requires
        forall|k: int|
            0 <= k < buckets.len() ==> scheduler::bucket_error(
                view,
                id,
                #[trigger] buckets[k],
            ) is None,
    ensures
        forall|k: int|
            0 <= k < buckets_after(view, config, id, buckets).len() ==> calms(
                view,
                config,
                id,
                #[trigger] buckets_after(view, config, id, buckets)[k],
            ),
        (forall|k: int|
            0 <= k < buckets.len() ==> calms(view, config, id, #[trigger] buckets[k])) ==> (forall|
            k: int,
        |
            0 <= k < buckets_after(view, config, id, buckets).len() ==> quiet(
                view,
                config,
                id,
                #[trigger] buckets_after(view, config, id, buckets)[k],
            )),
    decreases buckets.len(),
{
    if buckets.len() > 0 {
        let before = buckets.drop_last();
        let last = buckets.last();
        let n = buckets.len() - 1;
        assert(buckets[n] == last);
        assert forall|k: int| 0 <= k < before.len() implies scheduler::bucket_error(
            view,
            id,
            #[trigger] before[k],
        ) is None by {
            assert(before[k] == buckets[k]);
        }
        lemma_buckets_settle(view, config, id, before);
        let ledger = view.ledger_of(id, last.direction)->Some_0;
        law_task_is_done_at_once(config, ledger, last);
        let most = buckets_after(view, config, id, before);
        let all = buckets_after(view, config, id, buckets);
        assert forall|k: int| 0 <= k < all.len() implies calms(
            view,
            config,
            id,
            #[trigger] all[k],
        ) by {
            if k < most.len() {
                assert(all[k] == most[k]);
                assert(calms(view, config, id, most[k]));
            } else {
                assert(after_task(config, ledger, last) == Some(all[k]));
                assert(all[k].direction == last.direction);
            }
        }
        if forall|k: int| 0 <= k < buckets.len() ==> calms(view, config, id, #[trigger] buckets[k]) {
            assert forall|k: int| 0 <= k < before.len() implies calms(
                view,
                config,
                id,
                #[trigger] before[k],
            ) by {
                assert(before[k] == buckets[k]);
            }
            assert(calms(view, config, id, buckets[n]));
            assert forall|k: int| 0 <= k < all.len() implies quiet(
                view,
                config,
                id,
                #[trigger] all[k],
            ) by {
                if k < most.len() {
                    assert(all[k] == most[k]);
                    assert(quiet(view, config, id, most[k]));
                } else {
                    assert(after_task(config, ledger, last) == Some(all[k]));
                }
            }
        }
    }
}

/// Quiet buckets have no tasks.
proof fn lemma_quiet_buckets<V: KeeperChainView>(
    view: &V,
    config: SchedulerConfig,
    id: u32,
    buckets: Seq<BucketSnapshot>,
)
    requires
        forall|k: int|
            0 <= k < buckets.len() ==> quiet(view, config, id, #[trigger] buckets[k]),
    ensures
        scheduler::tasks_of_buckets(view, config, id, buckets) == Ok::<
            Seq<KeeperAction>,
            crate::planner::KeeperError,
        >(Seq::empty()),
    decreases buckets.len(),
{
    if buckets.len() > 0 {
        let before = buckets.drop_last();
        let n = buckets.len() - 1;
        assert(quiet(view, config, id, buckets[n]));
        assert forall|k: int| 0 <= k < before.len() implies quiet(
            view,
            config,
            id,
            #[trigger] before[k],
        ) by {
            assert(before[k] == buckets[k]);
        }
        lemma_quiet_buckets(view, config, id, before);
    }
}

/// Where there are tasks, the buckets of every sub-pool are in order.
proof fn lemma_all_in_order<V: KeeperChainView>(
    view: &V,
    config: SchedulerConfig,
    ids: Seq<u32>,
    n: int,
)
    requires
        scheduler::tasks_of_sub_pools(view, config, ids) is Ok,
        0 <= n < ids.len(),
    ensures
        scheduler::tasks_of_buckets(view, config, ids[n], view.buckets_of(ids[n])) is Ok,
    decreases ids.len(),
{
    if n < ids.len() - 1 {
        lemma_all_in_order(view, config, ids.drop_last(), n);
        assert(ids.drop_last()[n] == ids[n]);
    }
}

/// Quiet sub-pools have no tasks.
proof fn lemma_quiet_pools<V: KeeperChainView>(view: &V, config: SchedulerConfig, ids: Seq<u32>)
    requires
        forall|n: int|
            0 <= n < ids.len() ==> scheduler::tasks_of_buckets(
                view,
                config,
                #[trigger] ids[n],
                view.buckets_of(ids[n]),
            ) == Ok::<Seq<KeeperAction>, crate::planner::KeeperError>(Seq::empty()),
    ensures
        scheduler::tasks_of_sub_pools(view, config, ids) == Ok::<
            Seq<KeeperAction>,
            crate::planner::KeeperError,
        >(Seq::empty()),
    decreases ids.len(),
{
    if ids.len() > 0 {
        let before = ids.drop_last();
        let n = ids.len() - 1;
        assert(ids[n] == ids.last());
        assert forall|k: int| 0 <= k < before.len() implies scheduler::tasks_of_buckets(
            view,
            config,
            #[trigger] before[k],
            view.buckets_of(before[k]),
        ) == Ok::<Seq<KeeperAction>, crate::planner::KeeperError>(Seq::empty()) by {
            assert(before[k] == ids[k]);
        }
        lemma_quiet_pools(view, config, before);
        assert(Seq::<KeeperAction>::empty() + Seq::<KeeperAction>::empty() =~= Seq::<
            KeeperAction,
        >::empty());
    }
}

/// Carrying plans out drains the queue: after the tasks of a view, and then
/// those that are left, there is nothing more to do.
pub proof fn law_carrying_plans_out_drains_the_queue<V: KeeperChainView>(
    config: SchedulerConfig,
    first: &V,
    second: &V,
    third: &V,
)
    requires
        scheduler::tasks_of_sub_pools(first, config, first.ids()) is Ok,
        carried_out(first, config, second),
        carried_out(second, config, third),
    ensures
        scheduler::tasks_of_sub_pools(third, config, third.ids()) == Ok::<
            Seq<KeeperAction>,
            crate::planner::KeeperError,
        >(Seq::empty()),
{
    let ids = first.ids();
    assert forall|n: int| 0 <= n < ids.len() implies scheduler::tasks_of_buckets(
        third,
        config,
        #[trigger] ids[n],
        third.buckets_of(ids[n]),
    ) == Ok::<Seq<KeeperAction>, crate::planner::KeeperError>(Seq::empty()) by {
        let id = ids[n];
        let a = first.buckets_of(id);
        let b = second.buckets_of(id);
        let c = third.buckets_of(id);
        assert(second.ledger_of(id, Direction::Long) == first.ledger_of(id, Direction::Long));
        assert(second.ledger_of(id, Direction::Short) == first.ledger_of(id, Direction::Short));
        assert(third.ledger_of(id, Direction::Long) == second.ledger_of(id, Direction::Long));
        assert(third.ledger_of(id, Direction::Short) == second.ledger_of(id, Direction::Short));
        lemma_all_in_order(first, config, ids, n);
        assert forall|k: int| 0 <= k < a.len() implies scheduler::bucket_error(
            first,
            id,
            #[trigger] a[k],
        ) is None by {
            scheduler::lemma_bucket_task_found(first, config, id, a, k);
        }
        lemma_buckets_settle(first, config, id, a);
        assert forall|k: int| 0 <= k < b.len() implies calms(
            second,
            config,
            id,
            #[trigger] b[k],
        ) by {
            assert(calms(first, config, id, buckets_after(first, config, id, a)[k]));
        }
        lemma_buckets_settle(second, config, id, b);
        assert forall|k: int| 0 <= k < c.len() implies quiet(
            third,
            config,
            id,
            #[trigger] c[k],
        ) by {
            assert(quiet(second, config, id, buckets_after(second, config, id, b)[k]));
        }
        lemma_quiet_buckets(third, config, id, c);
    }
    lemma_quiet_pools(third, config, ids);
}

} // verus!
