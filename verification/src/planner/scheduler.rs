//! The scheduler: from a chain view to a list of tasks.
use vstd::prelude::*;
use vstd::seq_lib::*;

use crate::order;
use crate::order::Sortable;
use crate::planner::volatility::RotatePrediction;
use crate::planner::{
    BucketSnapshot, Direction, InitRationale, KeeperAction, KeeperChainView, KeeperError,
    LedgerSnapshot,
};

verus! {

/// Settings of [`Scheduler::plan`].
#[derive(Debug, Clone, Copy, PartialEq, Eq, Structural)]
pub struct SchedulerConfig {
    /// Skip draining where fewer entries than this are pending.
    pub min_pending_for_pre_sync: u64,
    /// At most this many tasks in one plan; zero for no limit.
    pub max_actions_per_plan: usize,
    /// Whether dead buckets are closed.
    pub close_dead_buckets: bool,
}

impl Default for SchedulerConfig {
    fn default() -> (r: Self)
        ensures
            r.min_pending_for_pre_sync == 1,
            r.max_actions_per_plan == 0,
            r.close_dead_buckets,
    {
        SchedulerConfig {
            min_pending_for_pre_sync: 1,
            max_actions_per_plan: 0,
            close_dead_buckets: true,
        }
    }
}

/// A bucket that the keeper was told to create.
#[derive(Debug, Clone, Copy, PartialEq, Eq, Structural)]
pub struct InitHint {
    /// Sub pool id.
    pub sub_pool_id: u32,
    /// Direction.
    pub direction: Direction,
    /// Bucket tick.
    pub tick: i64,
    /// Rationale.
    pub rationale: InitRationale,
}

impl InitHint {
    /// The hint is for the given bucket.
    pub open spec fn is_for(self, sub_pool_id: u32, direction: Direction, tick: i64) -> bool {
        self.sub_pool_id == sub_pool_id && self.direction == direction && self.tick == tick
    }

    /// The two hints are for one bucket.
    pub open spec fn same_bucket(self, other: InitHint) -> bool {
        self.is_for(other.sub_pool_id, other.direction, other.tick)
    }

    /// The task of creating the bucket.
    pub open spec fn action(self) -> KeeperAction {
        KeeperAction::InitDormantBucket {
            sub_pool_id: self.sub_pool_id,
            direction: self.direction,
            tick: self.tick,
            rationale: self.rationale,
        }
    }
}

/// No bucket has two hints.
pub open spec fn distinct_buckets(hints: Seq<InitHint>) -> bool {
    forall|i: int, j: int|
        #![trigger hints[i], hints[j]]
        0 <= i < j < hints.len() ==> !hints[i].same_bucket(hints[j])
}

/// The hints after recording one more: it replaces the hint for its bucket
/// where there is one, and comes last where there is none.
pub open spec fn recorded(hints: Seq<InitHint>, hint: InitHint) -> Seq<InitHint>
    decreases hints.len(),
{
    if hints.len() == 0 {
        seq![hint]
    } else if hints[0].same_bucket(hint) {
        seq![hint] + hints.drop_first()
    } else {
        seq![hints[0]] + recorded(hints.drop_first(), hint)
    }
}

/// The hints after recording those of a list of predictions.
pub open spec fn recorded_all(
    hints: Seq<InitHint>,
    predictions: Seq<RotatePrediction>,
) -> Seq<InitHint>
    decreases predictions.len(),
{
    if predictions.len() == 0 {
        hints
    } else {
        recorded(recorded_all(hints, predictions.drop_last()), predictions.last().hint())
    }
}

/// The view shows the bucket that the hint asks for.
pub open spec fn shown<V: KeeperChainView>(view: &V, hint: InitHint) -> bool {
    exists|i: int|
        #![trigger view.buckets_of(hint.sub_pool_id)[i]]
        0 <= i < view.buckets_of(hint.sub_pool_id).len() && {
            let b = view.buckets_of(hint.sub_pool_id)[i];
            b.direction == hint.direction && b.tick == hint.tick
        }
}

/// What is wrong with a bucket of a sub-pool, if anything.
pub open spec fn bucket_error<V: KeeperChainView>(
    view: &V,
    sub_pool_id: u32,
    b: BucketSnapshot,
) -> Option<KeeperError> {
    match view.ledger_of(sub_pool_id, b.direction) {
        None => Some(
            KeeperError::MissingLedger { sub_pool: b.sub_pool_id, direction: b.direction },
        ),
        Some(ledger) => if b.last_applied_index > ledger.next_event_index {
            Some(
                KeeperError::BucketAheadOfLedger {
                    sub_pool: b.sub_pool_id,
                    direction: b.direction,
                    tick: b.tick,
                    applied: b.last_applied_index,
                    head: ledger.next_event_index,
                },
            )
        } else {
            None
        },
    }
}

/// The task for a bucket that is not ahead of its ledger: drain it while
/// enough entries are pending, else close it if it is dead and has caught up.
pub open spec fn bucket_action(
    config: SchedulerConfig,
    ledger: LedgerSnapshot,
    b: BucketSnapshot,
) -> Option<KeeperAction> {
    let pending = ledger.next_event_index - b.last_applied_index;
    if pending > 0 && pending >= config.min_pending_for_pre_sync {
        Some(
            KeeperAction::PreSyncDormantBucket {
                sub_pool_id: b.sub_pool_id,
                direction: b.direction,
                tick: b.tick,
                pending: pending as u64,
            },
        )
    } else if config.close_dead_buckets && b.dead() && pending == 0 {
        Some(
            KeeperAction::CloseDormantBucket {
                sub_pool_id: b.sub_pool_id,
                direction: b.direction,
                tick: b.tick,
            },
        )
    } else {
        None
    }
}

/// A list with an optional last value.
pub open spec fn with_option(s: Seq<KeeperAction>, a: Option<KeeperAction>) -> Seq<KeeperAction> {
    match a {
        Some(x) => s.push(x),
        None => s,
    }
}

/// The tasks for a list of buckets, or the first error among them.
pub open spec fn tasks_of_buckets<V: KeeperChainView>(
    view: &V,
    config: SchedulerConfig,
    sub_pool_id: u32,
    buckets: Seq<BucketSnapshot>,
) -> Result<Seq<KeeperAction>, KeeperError>
    decreases buckets.len(),
{
    if buckets.len() == 0 {
        Ok(Seq::empty())
    } else {
        match tasks_of_buckets(view, config, sub_pool_id, buckets.drop_last()) {
            Err(e) => Err(e),
            Ok(tasks) => match bucket_error(view, sub_pool_id, buckets.last()) {
                Some(e) => Err(e),
                None => Ok(
                    with_option(
                        tasks,
                        bucket_action(
                            config,
                            view.ledger_of(sub_pool_id, buckets.last().direction)->Some_0,
                            buckets.last(),
                        ),
                    ),
                ),
            },
        }
    }
}

/// The tasks for a list of sub-pools, or the first error among their buckets.
pub open spec fn tasks_of_sub_pools<V: KeeperChainView>(
    view: &V,
    config: SchedulerConfig,
    ids: Seq<u32>,
) -> Result<Seq<KeeperAction>, KeeperError>
    decreases ids.len(),
{
    if ids.len() == 0 {
        Ok(Seq::empty())
    } else {
        match tasks_of_sub_pools(view, config, ids.drop_last()) {
            Err(e) => Err(e),
            Ok(tasks) => match tasks_of_buckets(
                view,
                config,
                ids.last(),
                view.buckets_of(ids.last()),
            ) {
                Err(e) => Err(e),
                Ok(more) => Ok(tasks + more),
            },
        }
    }
}

/// The hints whose buckets the view does not show.
pub open spec fn due_hints<V: KeeperChainView>(view: &V, hints: Seq<InitHint>) -> Seq<InitHint> {
    hints.filter(|h: InitHint| !shown(view, h))
}

/// The tasks of creating the buckets that are hinted at and not shown.
pub open spec fn init_tasks<V: KeeperChainView>(view: &V, hints: Seq<InitHint>) -> Seq<
    KeeperAction,
> {
    due_hints(view, hints).map_values(|h: InitHint| h.action())
}

/// The hints whose buckets the view shows.
pub open spec fn kept_hints<V: KeeperChainView>(view: &V, hints: Seq<InitHint>) -> Seq<InitHint> {
    hints.filter(|h: InitHint| shown(view, h))
}

/// The hints that are left once a plan has been handed out: those whose task
/// is not in it.
pub open spec fn hints_left(hints: Seq<InitHint>, plan: Seq<KeeperAction>) -> Seq<InitHint> {
    hints.filter(|h: InitHint| !plan.contains(h.action()))
}

/// The first `cap` tasks, or all where `cap` is zero.
pub open spec fn capped(tasks: Seq<KeeperAction>, cap: usize) -> Seq<KeeperAction> {
    if cap > 0 && tasks.len() > cap {
        tasks.take(cap as int)
    } else {
        tasks
    }
}

/// `plan` is the list of all tasks by urgency, tasks of equal urgency in
/// the order of their discovery, cut off at `cap`.
pub open spec fn is_plan(tasks: Seq<KeeperAction>, cap: usize, plan: Seq<KeeperAction>) -> bool {
    exists|s: Seq<KeeperAction>| #[trigger]
        order::is_stable_sort(tasks, s) && plan == capped(s, cap)
}

impl Sortable for KeeperAction {
    open spec fn before_eq(&self, other: &Self) -> bool {
        self.urgency() >= other.urgency()
    }

    fn comes_before_eq(&self, other: &Self) -> (r: bool) {
        self.priority() >= other.priority()
    }

    proof fn lemma_total(&self, other: &Self) {
    }

    proof fn lemma_transitive(&self, middle: &Self, last: &Self) {
    }
}

/// Turns chain views into plans. It remembers the buckets that it was told
/// to create until they have been planned.
#[derive(Debug)]
pub struct Scheduler {
    config: SchedulerConfig,
    init_hints: Vec<InitHint>,
}

impl Clone for Scheduler {
    fn clone(&self) -> (r: Self)
        ensures
            r.settings() == self.settings(),
            r.hints() == self.hints(),
    {
        let init_hints: Vec<InitHint> = self.init_hints.clone();
        proof {
            assert(init_hints@ =~= self.init_hints@);
        }
        Scheduler { config: self.config, init_hints }
    }
}

impl Default for Scheduler {
    fn default() -> (r: Self)
        ensures
            r.wf(),
            r.hints() == Seq::<InitHint>::empty(),
            r.settings().min_pending_for_pre_sync == 1,
            r.settings().max_actions_per_plan == 0,
            r.settings().close_dead_buckets,
    {
        Scheduler::new(SchedulerConfig::default())
    }
}

impl Scheduler {
    /// The settings.
    pub closed spec fn settings(&self) -> SchedulerConfig {
        self.config
    }

    /// The hints that wait to be planned.
    pub closed spec fn hints(&self) -> Seq<InitHint> {
        self.init_hints@
    }

    /// No bucket has two hints.
    pub open spec fn wf(&self) -> bool {
        distinct_buckets(self.hints())
    }

    /// A scheduler without hints.
    pub fn new(config: SchedulerConfig) -> (r: Self)
        ensures
            r.wf(),
            r.settings() == config,
            r.hints() == Seq::<InitHint>::empty(),
    {
        Scheduler { config, init_hints: Vec::new() }
    }

    /// Replaces the settings.
    pub fn set_config(&mut self, config: SchedulerConfig)
        requires
            old(self).wf(),
        ensures
            final(self).wf(),
            final(self).settings() == config,
            final(self).hints() == old(self).hints(),
    {
        self.config = config;
    }

    /// The settings.
    pub fn config(&self) -> (r: &SchedulerConfig)
        ensures
            *r == self.settings(),
    {
        &self.config
    }

    /// The position of the hint for a bucket.
    fn find_hint(&self, sub_pool_id: u32, direction: Direction, tick: i64) -> (r: Option<usize>)
        ensures
            match r {
                Some(i) => {
                    &&& i < self.init_hints@.len()
                    &&& self.init_hints@[i as int].is_for(sub_pool_id, direction, tick)
                    &&& forall|j: int|
                        0 <= j < i ==> !self.init_hints@[j].is_for(sub_pool_id, direction, tick)
                },
                None => forall|j: int|
                    0 <= j < self.init_hints@.len() ==> !self.init_hints@[j].is_for(
                        sub_pool_id,
                        direction,
                        tick,
                    ),
            },
    {
        let mut i: usize = 0;
        while i < self.init_hints.len()
            invariant
                i <= self.init_hints@.len(),
                forall|j: int|
                    0 <= j < i ==> !self.init_hints@[j].is_for(sub_pool_id, direction, tick),
            decreases self.init_hints@.len() - i,
        {
            let h = self.init_hints[i];
            if h.sub_pool_id == sub_pool_id && h.direction == direction && h.tick == tick {
                return Some(i);
            }
            i = i + 1;
        }
        None
    }

    /// Records that a bucket is to be created. A second hint for the same
    /// bucket replaces the first.
    pub fn record_init_hint(
        &mut self,
        sub_pool_id: u32,
        direction: Direction,
        tick: i64,
        rationale: InitRationale,
    )
        requires
            old(self).wf(),
        ensures
            final(self).wf(),
            final(self).settings() == old(self).settings(),
            final(self).hints() == recorded(
                old(self).hints(),
                (InitHint { sub_pool_id, direction, tick, rationale }),
            ),
    {
        let hint = InitHint { sub_pool_id, direction, tick, rationale };
        let ghost before = self.init_hints@;
        match self.find_hint(sub_pool_id, direction, tick) {
            Some(i) => {
                self.init_hints[i] = hint;
                proof {
                    lemma_recorded_update(before, hint, i as int);
                }
            },
            None => {
                self.init_hints.push(hint);
                proof {
                    lemma_recorded_push(before, hint);
                }
            },
        }
        proof {
            lemma_recorded_distinct(before, hint);
        }
    }

    /// Records the bucket of every prediction.
    pub fn record_predictions(&mut self, predictions: &Vec<RotatePrediction>)
        requires
            old(self).wf(),
        ensures
            final(self).wf(),
            final(self).settings() == old(self).settings(),
            final(self).hints() == recorded_all(old(self).hints(), predictions@),
    {
        let mut i: usize = 0;
        proof {
            assert(predictions@.take(0) =~= Seq::<RotatePrediction>::empty());
        }
        while i < predictions.len()
            invariant
                i <= predictions@.len(),
                self.wf(),
                self.settings() == old(self).settings(),
                self.hints() == recorded_all(old(self).hints(), predictions@.take(i as int)),
            decreases predictions@.len() - i,
        {
            let p = predictions[i];
            self.record_init_hint(
                p.sub_pool_id,
                p.direction,
                p.zero_tick,
                InitRationale::RotateRiskHorizon,
            );
            i = i + 1;
            proof {
                assert(predictions@.take(i as int).drop_last() =~= predictions@.take(i - 1));
                assert(predictions@.take(i as int).last() == p);
            }
        }
        proof {
            assert(predictions@.take(predictions@.len() as int) =~= predictions@);
        }
    }

    /// Forgets the hint for a bucket.
    pub fn cancel_init_hint(&mut self, sub_pool_id: u32, direction: Direction, tick: i64)
        requires
            old(self).wf(),
        ensures
            final(self).wf(),
            final(self).settings() == old(self).settings(),
            final(self).hints() == old(self).hints().filter(
                |h: InitHint| !h.is_for(sub_pool_id, direction, tick),
            ),
    {
        let ghost before = self.init_hints@;
        let ghost pred = |h: InitHint| !h.is_for(sub_pool_id, direction, tick);
        match self.find_hint(sub_pool_id, direction, tick) {
            Some(i) => {
                let _ = self.init_hints.remove(i);
                proof {
                    assert forall|j: int| i < j < before.len() implies pred(before[j]) by {
                        assert(!before[i as int].same_bucket(before[j]));
                    }
                    lemma_filter_all_but(before, pred, i as int);
                    assert(self.init_hints@ =~= before.remove(i as int));
                }
            },
            None => {
                proof {
                    lemma_filter_all(before, pred);
                }
            },
        }
        proof {
            lemma_filter_distinct(before, pred);
        }
    }

    /// Number of hints that wait to be planned.
    pub fn pending_init_hint_count(&self) -> (r: usize)
        ensures
            r == self.hints().len(),
    {
        self.init_hints.len()
    }

    /// Appends the tasks for the buckets of one sub-pool.
    fn plan_sub_pool<V: KeeperChainView>(
        &self,
        view: &V,
        sub_pool_id: u32,
        actions: &mut Vec<KeeperAction>,
    ) -> (r: Result<(), KeeperError>)
        ensures
            match tasks_of_buckets(
                view,
                self.settings(),
                sub_pool_id,
                view.buckets_of(sub_pool_id),
            ) {
                Ok(tasks) => r is Ok && final(actions)@ == old(actions)@ + tasks,
                Err(e) => r == Err::<(), KeeperError>(e),
            },
    {
        let long: Option<LedgerSnapshot> = view.ledger(sub_pool_id, Direction::Long);
        let short: Option<LedgerSnapshot> = view.ledger(sub_pool_id, Direction::Short);
        let buckets: Vec<BucketSnapshot> = view.buckets(sub_pool_id);
        let mut i: usize = 0;
        proof {
            assert(buckets@.take(0) =~= Seq::<BucketSnapshot>::empty());
            assert(actions@ =~= old(actions)@ + Seq::<KeeperAction>::empty());
        }
        while i < buckets.len()
            invariant
                i <= buckets@.len(),
                buckets@ == view.buckets_of(sub_pool_id),
                long == view.ledger_of(sub_pool_id, Direction::Long),
                short == view.ledger_of(sub_pool_id, Direction::Short),
                tasks_of_buckets(
                    view,
                    self.config,
                    sub_pool_id,
                    buckets@.take(i as int),
                ) matches Ok(tasks) && actions@ == old(actions)@ + tasks,
            decreases buckets@.len() - i,
        {
            let b: BucketSnapshot = buckets[i];
            let ghost so_far = buckets@.take(i as int);
            let ghost tasks = tasks_of_buckets(view, self.config, sub_pool_id, so_far)->Ok_0;
            i = i + 1;
            proof {
                let next = buckets@.take(i as int);
                assert(next.drop_last() =~= so_far);
                assert(next.last() == b);
            }
            let found: Option<LedgerSnapshot> = match b.direction {
                Direction::Long => long,
                Direction::Short => short,
            };
            let ledger: LedgerSnapshot = match found {
                Some(l) => l,
                None => {
                    proof {
                        lemma_first_error_stays(
                            view,
                            self.config,
                            sub_pool_id,
                            buckets@,
                            i as int,
                        );
                    }
                    return Err(
                        KeeperError::MissingLedger {
                            sub_pool: b.sub_pool_id,
                            direction: b.direction,
                        },
                    );
                },
            };
            if b.last_applied_index > ledger.next_event_index {
                proof {
                    lemma_first_error_stays(view, self.config, sub_pool_id, buckets@, i as int);
                }
                return Err(
                    KeeperError::BucketAheadOfLedger {
                        sub_pool: b.sub_pool_id,
                        direction: b.direction,
                        tick: b.tick,
                        applied: b.last_applied_index,
                        head: ledger.next_event_index,
                    },
                );
            }
            let pending: u64 = ledger.next_event_index - b.last_applied_index;
            if pending >= self.config.min_pending_for_pre_sync && pending > 0 {
                actions.push(
                    KeeperAction::PreSyncDormantBucket {
                        sub_pool_id: b.sub_pool_id,
                        direction: b.direction,
                        tick: b.tick,
                        pending,
                    },
                );
            } else if self.config.close_dead_buckets && b.is_dead() && b.last_applied_index
                >= ledger.next_event_index {
                actions.push(
                    KeeperAction::CloseDormantBucket {
                        sub_pool_id: b.sub_pool_id,
                        direction: b.direction,
                        tick: b.tick,
                    },
                );
            }
            proof {
                let more = tasks_of_buckets(
                    view,
                    self.config,
                    sub_pool_id,
                    buckets@.take(i as int),
                )->Ok_0;
                assert(actions@ =~= old(actions)@ + more);
            }
        }
        proof {
            assert(buckets@.take(buckets@.len() as int) =~= buckets@);
        }
        Ok(())
    }

    /// Whether the view shows the bucket that a hint asks for.
    fn is_shown<V: KeeperChainView>(view: &V, hint: &InitHint) -> (r: bool)
        ensures
            r == shown(view, *hint),
    {
        let buckets: Vec<BucketSnapshot> = view.buckets(hint.sub_pool_id);
        let mut i: usize = 0;
        while i < buckets.len()
            invariant
                i <= buckets@.len(),
                buckets@ == view.buckets_of(hint.sub_pool_id),
                forall|j: int|
                    0 <= j < i ==> !(#[trigger] buckets@[j].direction == hint.direction
                        && buckets@[j].tick == hint.tick),
            decreases buckets@.len() - i,
        {
            let b: BucketSnapshot = buckets[i];
            if b.direction == hint.direction && b.tick == hint.tick {
                proof {
                    assert(view.buckets_of(hint.sub_pool_id)[i as int] == b);
                }
                return true;
            }
            i = i + 1;
        }
        false
    }

    /// Whether the task of a hint is in a plan.
    fn is_planned(plan: &Vec<KeeperAction>, hint: &InitHint) -> (r: bool)
        ensures
            r == plan@.contains(hint.action()),
    {
        let task = KeeperAction::InitDormantBucket {
            sub_pool_id: hint.sub_pool_id,
            direction: hint.direction,
            tick: hint.tick,
            rationale: hint.rationale,
        };
        let mut i: usize = 0;
        while i < plan.len()
            invariant
                i <= plan@.len(),
                task == hint.action(),
                forall|j: int| 0 <= j < i ==> #[trigger] plan@[j] != task,
            decreases plan@.len() - i,
        {
            if plan[i] == task {
                proof {
                    assert(plan@[i as int] == hint.action());
                }
                return true;
            }
            i = i + 1;
        }
        false
    }

    /// Forgets the hints whose task is in a plan.
    fn forget_planned(&mut self, plan: &Vec<KeeperAction>)
        requires
            old(self).wf(),
        ensures
            final(self).wf(),
            final(self).settings() == old(self).settings(),
            final(self).hints() == hints_left(old(self).hints(), plan@),
    {
        let ghost hints = self.init_hints@;
        let ghost left = |h: InitHint| !plan@.contains(h.action());
        let mut kept: Vec<InitHint> = Vec::new();
        let mut k: usize = 0;
        proof {
            reveal(Seq::filter);
            assert(hints.take(0) =~= Seq::<InitHint>::empty());
        }
        while k < self.init_hints.len()
            invariant
                k <= hints.len(),
                hints == self.init_hints@,
                *self == *old(self),
                left == (|h: InitHint| !plan@.contains(h.action())),
                kept@ == hints.take(k as int).filter(left),
            decreases hints.len() - k,
        {
            let h: InitHint = self.init_hints[k];
            proof {
                lemma_filter_step(hints, left, k as int);
            }
            if !Self::is_planned(plan, &h) {
                kept.push(h);
            }
            k = k + 1;
        }
        proof {
            assert(hints.take(hints.len() as int) =~= hints);
            lemma_filter_distinct(hints, left);
        }
        self.init_hints = kept;
    }

    /// Plans the tasks that the view calls for, most urgent first; among
    /// tasks of equal urgency the order of discovery stays.
    ///
    /// A hint whose bucket the view does not show becomes a task. Once its
    /// task is in the plan the hint is forgotten; the caller records it again
    /// if the task fails. A hint whose task the limit cuts off stays recorded,
    /// and so does one whose bucket is already there, which yields no task. A
    /// view that contradicts itself is an error, and changes nothing.
    pub fn plan<V: KeeperChainView>(&mut self, view: &V) -> (r: Result<
        Vec<KeeperAction>,
        KeeperError,
    >)
        requires
            old(self).wf(),
        ensures
            final(self).wf(),
            final(self).settings() == old(self).settings(),
            match tasks_of_sub_pools(view, old(self).settings(), view.ids()) {
                Err(e) => {
                    &&& r == Err::<Vec<KeeperAction>, KeeperError>(e)
                    &&& final(self).hints() == old(self).hints()
                },
                Ok(tasks) => {
                    &&& r matches Ok(plan) && {
                        &&& is_plan(
                            tasks + init_tasks(view, old(self).hints()),
                            old(self).settings().max_actions_per_plan,
                            plan@,
                        )
                        &&& final(self).hints() == hints_left(old(self).hints(), plan@)
                    }
                },
            },
    {
        let mut actions: Vec<KeeperAction> = Vec::new();
        let ids: Vec<u32> = view.sub_pool_ids();
        let mut i: usize = 0;
        proof {
            assert(ids@.take(0) =~= Seq::<u32>::empty());
        }
        while i < ids.len()
            invariant
                i <= ids@.len(),
                ids@ == view.ids(),
                *self == *old(self),
                self.wf(),
                tasks_of_sub_pools(view, self.settings(), ids@.take(i as int)) == Ok::<
                    Seq<KeeperAction>,
                    KeeperError,
                >(actions@),
            decreases ids@.len() - i,
        {
            let sub_pool_id: u32 = ids[i];
            i = i + 1;
            proof {
                let next = ids@.take(i as int);
                assert(next.drop_last() =~= ids@.take(i - 1));
                assert(next.last() == sub_pool_id);
            }
            match self.plan_sub_pool(view, sub_pool_id, &mut actions) {
                Ok(_) => {},
                Err(e) => {
                    proof {
                        lemma_first_sub_pool_error_stays(view, self.settings(), ids@, i as int);
                    }
                    return Err(e);
                },
            }
        }
        proof {
            assert(ids@.take(ids@.len() as int) =~= ids@);
        }
        let ghost tasks = actions@;
        let ghost hints = self.init_hints@;
        let ghost due = |h: InitHint| !shown(view, h);
        let mut k: usize = 0;
        proof {
            reveal(Seq::filter);
            assert(hints.take(0) =~= Seq::<InitHint>::empty());
            assert(actions@ =~= tasks + hints.take(0).filter(due).map_values(
                |h: InitHint| h.action(),
            ));
        }
        while k < self.init_hints.len()
            invariant
                k <= hints.len(),
                hints == self.init_hints@,
                *self == *old(self),
                due == (|h: InitHint| !shown(view, h)),
                actions@ == tasks + hints.take(k as int).filter(due).map_values(
                    |h: InitHint| h.action(),
                ),
            decreases hints.len() - k,
        {
            let h: InitHint = self.init_hints[k];
            proof {
                lemma_filter_step(hints, due, k as int);
            }
            let ghost emitted = hints.take(k as int).filter(due);
            if !Self::is_shown(view, &h) {
                actions.push(
                    KeeperAction::InitDormantBucket {
                        sub_pool_id: h.sub_pool_id,
                        direction: h.direction,
                        tick: h.tick,
                        rationale: h.rationale,
                    },
                );
                proof {
                    assert(emitted.push(h).map_values(|x: InitHint| x.action())
                        =~= emitted.map_values(|x: InitHint| x.action()).push(h.action()));
                    assert(actions@ =~= tasks + emitted.push(h).map_values(
                        |x: InitHint| x.action(),
                    ));
                }
            }
            k = k + 1;
        }
        proof {
            assert(hints.take(hints.len() as int) =~= hints);
        }
        let mut plan: Vec<KeeperAction> = order::stable_sort(actions);
        let ghost all_sorted = plan@;
        let cap: usize = self.config.max_actions_per_plan;
        if cap > 0 && plan.len() > cap {
            plan.truncate(cap);
        }
        proof {
            assert(plan@ =~= capped(all_sorted, cap));
        }
        self.forget_planned(&plan);
        Ok(plan)
    }
}

/// An error among the first buckets is the error of them all.
proof fn lemma_first_error_stays<V: KeeperChainView>(
    view: &V,
    config: SchedulerConfig,
    sub_pool_id: u32,
    buckets: Seq<BucketSnapshot>,
    n: int,
)
    requires
        0 <= n <= buckets.len(),
        tasks_of_buckets(view, config, sub_pool_id, buckets.take(n)) is Err,
    ensures
        tasks_of_buckets(view, config, sub_pool_id, buckets) == tasks_of_buckets(
            view,
            config,
            sub_pool_id,
            buckets.take(n),
        ),
    decreases buckets.len(),
{
    if n < buckets.len() {
        assert(buckets.drop_last().take(n) =~= buckets.take(n));
        lemma_first_error_stays(view, config, sub_pool_id, buckets.drop_last(), n);
    } else {
        assert(buckets.take(n) =~= buckets);
    }
}

/// An error among the first sub-pools is the error of them all.
proof fn lemma_first_sub_pool_error_stays<V: KeeperChainView>(
    view: &V,
    config: SchedulerConfig,
    ids: Seq<u32>,
    n: int,
)
    requires
        0 <= n <= ids.len(),
        tasks_of_sub_pools(view, config, ids.take(n)) is Err,
    ensures
        tasks_of_sub_pools(view, config, ids) == tasks_of_sub_pools(view, config, ids.take(n)),
    decreases ids.len(),
{
    if n < ids.len() {
        assert(ids.drop_last().take(n) =~= ids.take(n));
        lemma_first_sub_pool_error_stays(view, config, ids.drop_last(), n);
    } else {
        assert(ids.take(n) =~= ids);
    }
}

/// Filtering one value more.
pub proof fn lemma_filter_step<A>(s: Seq<A>, pred: spec_fn(A) -> bool, n: int)
    requires
        0 <= n < s.len(),
    ensures
        s.take(n + 1).filter(pred) == if pred(s[n]) {
            s.take(n).filter(pred).push(s[n])
        } else {
            s.take(n).filter(pred)
        },
{
    reveal(Seq::filter);
    assert(s.take(n + 1).drop_last() =~= s.take(n));
}

/// Filtering values that all pass changes nothing.
pub proof fn lemma_filter_all<A>(s: Seq<A>, pred: spec_fn(A) -> bool)
    requires
        forall|i: int| 0 <= i < s.len() ==> pred(#[trigger] s[i]),
    ensures
        s.filter(pred) == s,
    decreases s.len(),
{
    reveal(Seq::filter);
    if s.len() > 0 {
        lemma_filter_all(s.drop_last(), pred);
        assert(pred(s[s.len() - 1]));
        assert(s =~= s.drop_last().push(s.last()));
    } else {
        assert(s.filter(pred) =~= s);
    }
}

/// Filtering values of which one does not pass removes it.
pub proof fn lemma_filter_all_but<A>(s: Seq<A>, pred: spec_fn(A) -> bool, n: int)
    requires
        0 <= n < s.len(),
        !pred(s[n]),
        forall|i: int| 0 <= i < s.len() && i != n ==> pred(#[trigger] s[i]),
    ensures
        s.filter(pred) == s.remove(n),
    decreases s.len(),
{
    reveal(Seq::filter);
    let t = s.drop_last();
    if n == s.len() - 1 {
        lemma_filter_all(t, pred);
        assert(s.remove(n) =~= t);
    } else {
        assert(pred(s[s.len() - 1]));
        lemma_filter_all_but(t, pred, n);
        assert(s.remove(n) =~= t.remove(n).push(s.last()));
    }
}

/// A filtered list of hints has no bucket twice either.
pub proof fn lemma_filter_distinct(s: Seq<InitHint>, pred: spec_fn(InitHint) -> bool)
    requires
        distinct_buckets(s),
    ensures
        distinct_buckets(s.filter(pred)),
        forall|i: int|
            0 <= i < s.filter(pred).len() ==> s.contains(#[trigger] s.filter(pred)[i]),
    decreases s.len(),
{
    reveal(Seq::filter);
    if s.len() > 0 {
        let t = s.drop_last();
        assert forall|i: int, j: int|
            #![trigger t[i], t[j]]
            0 <= i < j < t.len() implies !t[i].same_bucket(t[j]) by {
            assert(!s[i].same_bucket(s[j]));
        }
        lemma_filter_distinct(t, pred);
        let f = t.filter(pred);
        assert forall|i: int| 0 <= i < f.len() implies s.contains(#[trigger] f[i]) by {
            let k = choose|k: int| 0 <= k < t.len() && t[k] == f[i];
            assert(t.contains(f[i]));
            assert(s[k] == f[i]);
        }
        if pred(s.last()) {
            let g = f.push(s.last());
            assert(s[s.len() - 1] == s.last());
            assert forall|i: int, j: int|
                #![trigger g[i], g[j]]
                0 <= i < j < g.len() implies !g[i].same_bucket(g[j]) by {
                if j < f.len() {
                    assert(!f[i].same_bucket(f[j]));
                } else {
                    assert(t.contains(f[i]));
                    let k = choose|k: int| 0 <= k < t.len() && t[k] == f[i];
                    assert(!s[k].same_bucket(s[s.len() - 1]));
                }
            }
        }
    }
}

/// Recording a hint for a bucket that has one replaces it.
proof fn lemma_recorded_update(hints: Seq<InitHint>, hint: InitHint, n: int)
    requires
        0 <= n < hints.len(),
        hints[n].same_bucket(hint),
        forall|j: int| 0 <= j < n ==> !hints[j].same_bucket(hint),
    ensures
        recorded(hints, hint) == hints.update(n, hint),
    decreases hints.len(),
{
    if n == 0 {
        assert(recorded(hints, hint) =~= hints.update(0, hint));
    } else {
        assert(!hints[0].same_bucket(hint));
        let t = hints.drop_first();
        assert forall|j: int| 0 <= j < n - 1 implies !t[j].same_bucket(hint) by {
            assert(!hints[j + 1].same_bucket(hint));
        }
        lemma_recorded_update(t, hint, n - 1);
        assert(recorded(hints, hint) =~= hints.update(n, hint));
    }
}

/// Recording a hint for a bucket that has none appends it.
proof fn lemma_recorded_push(hints: Seq<InitHint>, hint: InitHint)
    requires
        forall|j: int| 0 <= j < hints.len() ==> !hints[j].same_bucket(hint),
    ensures
        recorded(hints, hint) == hints.push(hint),
    decreases hints.len(),
{
    if hints.len() > 0 {
        assert(!hints[0].same_bucket(hint));
        let t = hints.drop_first();
        assert forall|j: int| 0 <= j < t.len() implies !t[j].same_bucket(hint) by {
            assert(!hints[j + 1].same_bucket(hint));
        }
        lemma_recorded_push(t, hint);
    }
    assert(recorded(hints, hint) =~= hints.push(hint));
}

/// Recording keeps the hints for distinct buckets.
pub proof fn lemma_recorded_distinct(hints: Seq<InitHint>, hint: InitHint)
    requires
        distinct_buckets(hints),
    ensures
        distinct_buckets(recorded(hints, hint)),
        forall|i: int|
            0 <= i < recorded(hints, hint).len() ==> (#[trigger] recorded(hints, hint)[i]) == hint
                || hints.contains(recorded(hints, hint)[i]),
    decreases hints.len(),
{
    if exists|n: int| 0 <= n < hints.len() && hints[n].same_bucket(hint) {
        let n = choose|n: int| 0 <= n < hints.len() && hints[n].same_bucket(hint);
        assert forall|j: int| 0 <= j < n implies !hints[j].same_bucket(hint) by {
            assert(!hints[j].same_bucket(hints[n]));
        }
        lemma_recorded_update(hints, hint, n);
        let r = recorded(hints, hint);
        assert forall|i: int| 0 <= i < r.len() implies (#[trigger] r[i]) == hint
            || hints.contains(r[i]) by {
            if i != n {
                assert(r[i] == hints[i]);
            }
        }
        assert forall|i: int, j: int|
            #![trigger r[i], r[j]]
            0 <= i < j < r.len() implies !r[i].same_bucket(r[j]) by {
            assert(!hints[i].same_bucket(hints[j]));
        }
    } else {
        lemma_recorded_push(hints, hint);
        let r = recorded(hints, hint);
        assert forall|i: int| 0 <= i < r.len() implies (#[trigger] r[i]) == hint
            || hints.contains(r[i]) by {
            if i < hints.len() {
                assert(r[i] == hints[i]);
            }
        }
        assert forall|i: int, j: int|
            #![trigger r[i], r[j]]
            0 <= i < j < r.len() implies !r[i].same_bucket(r[j]) by {
            if j < hints.len() {
                assert(!hints[i].same_bucket(hints[j]));
            } else {
                assert(!hints[i].same_bucket(hint));
            }
        }
    }
}

/// Every task for a bucket is among the tasks of its list.
pub proof fn lemma_bucket_task_found<V: KeeperChainView>(
    view: &V,
    config: SchedulerConfig,
    sub_pool_id: u32,
    buckets: Seq<BucketSnapshot>,
    k: int,
)
    requires
        0 <= k < buckets.len(),
        tasks_of_buckets(view, config, sub_pool_id, buckets) is Ok,
    ensures
        bucket_error(view, sub_pool_id, buckets[k]) is None,
        bucket_action(
            config,
            view.ledger_of(sub_pool_id, buckets[k].direction)->Some_0,
            buckets[k],
        ) matches Some(a) ==> tasks_of_buckets(
            view,
            config,
            sub_pool_id,
            buckets,
        )->Ok_0.contains(a),
    decreases buckets.len(),
{
    let all = tasks_of_buckets(view, config, sub_pool_id, buckets)->Ok_0;
    let most = tasks_of_buckets(view, config, sub_pool_id, buckets.drop_last())->Ok_0;
    if k < buckets.len() - 1 {
        lemma_bucket_task_found(view, config, sub_pool_id, buckets.drop_last(), k);
        if let Some(a) = bucket_action(
            config,
            view.ledger_of(sub_pool_id, buckets[k].direction)->Some_0,
            buckets[k],
        ) {
            let i = choose|i: int| 0 <= i < most.len() && most[i] == a;
            assert(all[i] == a);
        }
    } else {
        if let Some(a) = bucket_action(
            config,
            view.ledger_of(sub_pool_id, buckets[k].direction)->Some_0,
            buckets[k],
        ) {
            assert(all[all.len() - 1] == a);
        }
    }
}

/// Every task of a list of buckets is the task of one of them.
proof fn lemma_bucket_task_has_origin<V: KeeperChainView>(
    view: &V,
    config: SchedulerConfig,
    sub_pool_id: u32,
    buckets: Seq<BucketSnapshot>,
    i: int,
)
    requires
        tasks_of_buckets(view, config, sub_pool_id, buckets) is Ok,
        0 <= i < tasks_of_buckets(view, config, sub_pool_id, buckets)->Ok_0.len(),
    ensures
        exists|k: int|
            #![trigger buckets[k]]
            0 <= k < buckets.len() && bucket_action(
                config,
                view.ledger_of(sub_pool_id, buckets[k].direction)->Some_0,
                buckets[k],
            ) == Some(tasks_of_buckets(view, config, sub_pool_id, buckets)->Ok_0[i]),
    decreases buckets.len(),
{
    let all = tasks_of_buckets(view, config, sub_pool_id, buckets)->Ok_0;
    let most = tasks_of_buckets(view, config, sub_pool_id, buckets.drop_last())->Ok_0;
    if i < most.len() {
        lemma_bucket_task_has_origin(view, config, sub_pool_id, buckets.drop_last(), i);
        let k = choose|k: int|
            #![trigger buckets.drop_last()[k]]
            0 <= k < buckets.drop_last().len() && bucket_action(
                config,
                view.ledger_of(sub_pool_id, buckets.drop_last()[k].direction)->Some_0,
                buckets.drop_last()[k],
            ) == Some(most[i]);
        assert(buckets[k] == buckets.drop_last()[k]);
    } else {
        assert(buckets[buckets.len() - 1] == buckets.last());
    }
}

/// The task, if any, for bucket `k` of a sub-pool.
pub open spec fn task_for<V: KeeperChainView>(
    view: &V,
    config: SchedulerConfig,
    sub_pool_id: u32,
    k: int,
) -> Option<KeeperAction> {
    let b = view.buckets_of(sub_pool_id)[k];
    bucket_action(config, view.ledger_of(sub_pool_id, b.direction)->Some_0, b)
}

/// The scheduler overlooks nothing: where a view has no contradictions,
/// every bucket that calls for a task has it among the tasks found.
pub proof fn law_every_actionable_bucket_is_found<V: KeeperChainView>(
    view: &V,
    config: SchedulerConfig,
    ids: Seq<u32>,
    n: int,
    k: int,
)
    requires
        tasks_of_sub_pools(view, config, ids) is Ok,
        0 <= n < ids.len(),
        0 <= k < view.buckets_of(ids[n]).len(),
    ensures
        task_for(view, config, ids[n], k) matches Some(a) ==> tasks_of_sub_pools(
            view,
            config,
            ids,
        )->Ok_0.contains(a),
    decreases ids.len(),
{
    let all = tasks_of_sub_pools(view, config, ids)->Ok_0;
    let most = tasks_of_sub_pools(view, config, ids.drop_last())->Ok_0;
    let last = tasks_of_buckets(view, config, ids.last(), view.buckets_of(ids.last()))->Ok_0;
    if let Some(a) = task_for(view, config, ids[n], k) {
        if n < ids.len() - 1 {
            law_every_actionable_bucket_is_found(view, config, ids.drop_last(), n, k);
            let i = choose|i: int| 0 <= i < most.len() && most[i] == a;
            assert(all[i] == a);
        } else {
            lemma_bucket_task_found(view, config, ids.last(), view.buckets_of(ids.last()), k);
            let i = choose|i: int| 0 <= i < last.len() && last[i] == a;
            assert(all[most.len() + i] == a);
        }
    }
}

/// The scheduler invents nothing: every task found is the task of a bucket
/// that the view shows.
pub proof fn law_every_task_has_a_bucket<V: KeeperChainView>(
    view: &V,
    config: SchedulerConfig,
    ids: Seq<u32>,
    i: int,
)
    requires
        tasks_of_sub_pools(view, config, ids) is Ok,
        0 <= i < tasks_of_sub_pools(view, config, ids)->Ok_0.len(),
    ensures
        exists|n: int, k: int| #[trigger]
            task_for(view, config, ids[n], k) == Some(
                tasks_of_sub_pools(view, config, ids)->Ok_0[i],
            ) && 0 <= n < ids.len() && 0 <= k < view.buckets_of(ids[n]).len(),
    decreases ids.len(),
{
    let all = tasks_of_sub_pools(view, config, ids)->Ok_0;
    let most = tasks_of_sub_pools(view, config, ids.drop_last())->Ok_0;
    let buckets = view.buckets_of(ids.last());
    if i < most.len() {
        law_every_task_has_a_bucket(view, config, ids.drop_last(), i);
        let (n, k) = choose|n: int, k: int| #[trigger]
            task_for(view, config, ids.drop_last()[n], k) == Some(most[i]) && 0 <= n
                < ids.drop_last().len() && 0 <= k < view.buckets_of(ids.drop_last()[n]).len();
        assert(ids[n] == ids.drop_last()[n]);
        assert(task_for(view, config, ids[n], k) == Some(all[i]));
    } else {
        lemma_bucket_task_has_origin(view, config, ids.last(), buckets, i - most.len());
        let k = choose|k: int|
            #![trigger buckets[k]]
            0 <= k < buckets.len() && bucket_action(
                config,
                view.ledger_of(ids.last(), buckets[k].direction)->Some_0,
                buckets[k],
            ) == Some(all[i]);
        let n = ids.len() - 1;
        assert(ids[n] == ids.last());
        assert(task_for(view, config, ids[n], k) == Some(all[i]));
    }
}

/// A bucket is drained only while entries are pending, and closed only when
/// it is dead and has caught up: a keeper never pokes a bucket with nothing
/// to apply, and never closes one that still holds something.
pub proof fn law_tasks_are_warranted(
    config: SchedulerConfig,
    ledger: LedgerSnapshot,
    b: BucketSnapshot,
)
    requires
        b.last_applied_index <= ledger.next_event_index,
    ensures
        match bucket_action(config, ledger, b) {
            Some(KeeperAction::PreSyncDormantBucket { pending, .. }) => {
                &&& pending > 0
                &&& pending >= config.min_pending_for_pre_sync
                &&& b.last_applied_index + pending == ledger.next_event_index
            },
            Some(KeeperAction::CloseDormantBucket { .. }) => {
                &&& b.dead()
                &&& b.last_applied_index == ledger.next_event_index
                &&& config.close_dead_buckets
            },
            Some(KeeperAction::InitDormantBucket { .. }) => false,
            None => true,
        },
{
}

/// A bucket that has caught up with its ledger is not drained, and left
/// alone as long as it holds something.
pub proof fn law_drained_bucket_is_quiet(
    config: SchedulerConfig,
    ledger: LedgerSnapshot,
    b: BucketSnapshot,
)
    requires
        b.last_applied_index == ledger.next_event_index,
    ensures
        !(bucket_action(config, ledger, b) matches Some(
            KeeperAction::PreSyncDormantBucket { .. },
        )),
        !b.dead() ==> bucket_action(config, ledger, b) is None,
{
}

/// A plan stands in order of urgency.
pub proof fn law_plan_is_ordered(
    tasks: Seq<KeeperAction>,
    cap: usize,
    plan: Seq<KeeperAction>,
    i: int,
    j: int,
)
    requires
        is_plan(tasks, cap, plan),
        0 <= i < j < plan.len(),
    ensures
        plan[i].urgency() >= plan[j].urgency(),
{
    let s = choose|s: Seq<KeeperAction>| #[trigger]
        order::is_stable_sort(tasks, s) && plan == capped(s, cap);
    assert(s[i].before_eq(&s[j]));
}

/// Without a limit, a plan holds every task exactly as often as it was
/// found; with one, it holds no more tasks than the limit.
pub proof fn law_plan_is_complete(tasks: Seq<KeeperAction>, cap: usize, plan: Seq<KeeperAction>)
    requires
        is_plan(tasks, cap, plan),
    ensures
        cap == 0 ==> plan.to_multiset() == tasks.to_multiset(),
        cap > 0 ==> plan.len() <= cap,
{
}

/// There is one plan only for given tasks.
pub proof fn law_plan_is_unique(
    tasks: Seq<KeeperAction>,
    cap: usize,
    p: Seq<KeeperAction>,
    q: Seq<KeeperAction>,
)
    requires
        is_plan(tasks, cap, p),
        is_plan(tasks, cap, q),
    ensures
        p == q,
{
    let s = choose|s: Seq<KeeperAction>| #[trigger]
        order::is_stable_sort(tasks, s) && p == capped(s, cap);
    let t = choose|t: Seq<KeeperAction>| #[trigger]
        order::is_stable_sort(tasks, t) && q == capped(t, cap);
    order::law_stable_sort_is_unique(tasks, s, t);
}

/// Creating comes before draining, and draining before closing, however many
/// entries are pending; a bucket with more pending entries is no less urgent,
/// and more so as long as its urgency can be told by a number.
pub proof fn law_urgency_of_kinds(a: KeeperAction, b: KeeperAction)
    ensures
        a is InitDormantBucket && b is PreSyncDormantBucket ==> a.urgency() > b.urgency(),
        a is InitDormantBucket && b is CloseDormantBucket ==> a.urgency() > b.urgency(),
        a is PreSyncDormantBucket && b is CloseDormantBucket ==> a.urgency() > b.urgency(),
        (a matches KeeperAction::PreSyncDormantBucket { pending: m, .. } && b matches
            KeeperAction::PreSyncDormantBucket { pending: n, .. } && m <= n) ==> a.urgency()
            <= b.urgency(),
        (a matches KeeperAction::PreSyncDormantBucket { pending: m, .. } && b matches
            KeeperAction::PreSyncDormantBucket { pending: n, .. } && m < n && n < 0xffff_ffff_0000_0000)
            ==> a.urgency() < b.urgency(),
        a matches KeeperAction::PreSyncDormantBucket { pending: m, .. } ==> m < 0xffff_ffff_0000_0000
            ==> a.urgency() == m + 10_000_000,
{
}

/// The tasks of buckets never create one.
proof fn lemma_bucket_tasks_create_nothing<V: KeeperChainView>(
    view: &V,
    config: SchedulerConfig,
    id: u32,
    buckets: Seq<BucketSnapshot>,
)
    requires
        tasks_of_buckets(view, config, id, buckets) is Ok,
    ensures
        forall|i: int|
            0 <= i < tasks_of_buckets(view, config, id, buckets)->Ok_0.len() ==> !(
            #[trigger] tasks_of_buckets(view, config, id, buckets)->Ok_0[i] is InitDormantBucket),
    decreases buckets.len(),
{
    if buckets.len() > 0 {
        lemma_bucket_tasks_create_nothing(view, config, id, buckets.drop_last());
    }
}

/// The tasks of sub-pools never create a bucket.
proof fn lemma_sub_pool_tasks_create_nothing<V: KeeperChainView>(
    view: &V,
    config: SchedulerConfig,
    ids: Seq<u32>,
)
    requires
        tasks_of_sub_pools(view, config, ids) is Ok,
    ensures
        forall|i: int|
            0 <= i < tasks_of_sub_pools(view, config, ids)->Ok_0.len() ==> !(
            #[trigger] tasks_of_sub_pools(view, config, ids)->Ok_0[i] is InitDormantBucket),
    decreases ids.len(),
{
    if ids.len() > 0 {
        lemma_sub_pool_tasks_create_nothing(view, config, ids.drop_last());
        lemma_bucket_tasks_create_nothing(
            view,
            config,
            ids.last(),
            view.buckets_of(ids.last()),
        );
    }
}

/// The task of a hint is found exactly where its bucket is not shown.
proof fn lemma_hint_task_is_found<V: KeeperChainView>(
    view: &V,
    config: SchedulerConfig,
    hints: Seq<InitHint>,
    hint: InitHint,
)
    requires
        tasks_of_sub_pools(view, config, view.ids()) is Ok,
        hints.contains(hint),
    ensures
        (tasks_of_sub_pools(view, config, view.ids())->Ok_0 + init_tasks(view, hints)).contains(
            hint.action(),
        ) <==> !shown(view, hint),
{
    broadcast use vstd::seq_lib::group_filter_ensures;

    let tasks = tasks_of_sub_pools(view, config, view.ids())->Ok_0;
    let inits = init_tasks(view, hints);
    let due = |h: InitHint| !shown(view, h);
    lemma_sub_pool_tasks_create_nothing(view, config, view.ids());
    if !shown(view, hint) {
        let k = choose|k: int| 0 <= k < hints.len() && hints[k] == hint;
        assert(due(hints[k]));
        assert(hints.filter(due).contains(hint));
        let n = choose|n: int| 0 <= n < hints.filter(due).len() && hints.filter(due)[n] == hint;
        assert(inits[n] == hint.action());
        assert((tasks + inits)[tasks.len() + n] == hint.action());
    }
    if (tasks + inits).contains(hint.action()) {
        let n = choose|n: int| 0 <= n < (tasks + inits).len() && (tasks + inits)[n]
            == hint.action();
        if n < tasks.len() {
            assert(tasks[n] is InitDormantBucket);
        } else {
            let g = hints.filter(due)[n - tasks.len()];
            assert(g.action() == hint.action());
            assert(g == hint);
            hints.lemma_filter_pred(due, n - tasks.len());
        }
    }
}

/// A hint is forgotten exactly when its task is in the plan, and only where
/// its bucket is not shown: what a limit cuts off, and what is already
/// there, stays recorded.
pub proof fn law_hints_stay_until_planned<V: KeeperChainView>(
    view: &V,
    config: SchedulerConfig,
    hints: Seq<InitHint>,
    cap: usize,
    plan: Seq<KeeperAction>,
    hint: InitHint,
)
    requires
        tasks_of_sub_pools(view, config, view.ids()) is Ok,
        is_plan(
            tasks_of_sub_pools(view, config, view.ids())->Ok_0 + init_tasks(view, hints),
            cap,
            plan,
        ),
        hints.contains(hint),
    ensures
        hints_left(hints, plan).contains(hint) <==> !plan.contains(hint.action()),
        shown(view, hint) ==> hints_left(hints, plan).contains(hint),
        cap == 0 && !shown(view, hint) ==> !hints_left(hints, plan).contains(hint),
{
    broadcast use vstd::seq_lib::group_filter_ensures;

    let tasks = tasks_of_sub_pools(view, config, view.ids())->Ok_0 + init_tasks(view, hints);
    let left = |h: InitHint| !plan.contains(h.action());
    let k = choose|k: int| 0 <= k < hints.len() && hints[k] == hint;
    if !plan.contains(hint.action()) {
        assert(left(hints[k]));
        assert(hints.filter(left).contains(hint));
    } else if hints.filter(left).contains(hint) {
        let n = choose|n: int| 0 <= n < hints.filter(left).len() && hints.filter(left)[n] == hint;
        hints.lemma_filter_pred(left, n);
    }
    lemma_hint_task_is_found(view, config, hints, hint);
    let s = choose|s: Seq<KeeperAction>| #[trigger]
        order::is_stable_sort(tasks, s) && plan == capped(s, cap);
    tasks.to_multiset_ensures();
    s.to_multiset_ensures();
    assert(s.contains(hint.action()) <==> tasks.contains(hint.action())) by {
        assert(s.to_multiset().count(hint.action()) == tasks.to_multiset().count(hint.action()));
    }
    if plan.contains(hint.action()) {
        let n = choose|n: int| 0 <= n < plan.len() && plan[n] == hint.action();
        assert(s[n] == hint.action());
        assert(s.contains(hint.action()));
    }
}

/// Without a limit the hints that are left are those whose buckets are
/// shown, so that planning again over the same view finds no hint that is due.
pub proof fn law_hints_are_planned_once<V: KeeperChainView>(
    view: &V,
    config: SchedulerConfig,
    hints: Seq<InitHint>,
    plan: Seq<KeeperAction>,
)
    requires
        tasks_of_sub_pools(view, config, view.ids()) is Ok,
        is_plan(
            tasks_of_sub_pools(view, config, view.ids())->Ok_0 + init_tasks(view, hints),
            0,
            plan,
        ),
    ensures
        hints_left(hints, plan) == kept_hints(view, hints),
        due_hints(view, hints_left(hints, plan)) == Seq::<InitHint>::empty(),
{
    let left = |h: InitHint| !plan.contains(h.action());
    let there = |h: InitHint| shown(view, h);
    assert forall|i: int| 0 <= i < hints.len() implies left(#[trigger] hints[i]) == there(
        hints[i],
    ) by {
        law_hints_stay_until_planned(view, config, hints, 0, plan, hints[i]);
    }
    lemma_filter_agrees(hints, left, there);
    let kept = kept_hints(view, hints);
    assert forall|i: int| 0 <= i < kept.len() implies shown(view, #[trigger] kept[i]) by {
        hints.lemma_filter_pred(there, i);
    }
    lemma_filter_none(kept, |h: InitHint| !shown(view, h));
}

/// Two tests that agree on every value leave the same values.
proof fn lemma_filter_agrees<A>(s: Seq<A>, p: spec_fn(A) -> bool, q: spec_fn(A) -> bool)
    requires
        forall|i: int| 0 <= i < s.len() ==> p(#[trigger] s[i]) == q(s[i]),
    ensures
        s.filter(p) == s.filter(q),
    decreases s.len(),
{
    reveal(Seq::filter);
    if s.len() > 0 {
        let t = s.drop_last();
        assert forall|i: int| 0 <= i < t.len() implies p(#[trigger] t[i]) == q(t[i]) by {
            assert(t[i] == s[i]);
        }
        lemma_filter_agrees(t, p, q);
        assert(p(s[s.len() - 1]) == q(s[s.len() - 1]));
    }
}

/// Filtering values none of which passes leaves nothing.
pub proof fn lemma_filter_none<A>(s: Seq<A>, pred: spec_fn(A) -> bool)
    requires
        forall|i: int| 0 <= i < s.len() ==> !pred(#[trigger] s[i]),
    ensures
        s.filter(pred) == Seq::<A>::empty(),
    decreases s.len(),
{
    reveal(Seq::filter);
    if s.len() > 0 {
        lemma_filter_none(s.drop_last(), pred);
        assert(!pred(s[s.len() - 1]));
    } else {
        assert(s.filter(pred) =~= Seq::<A>::empty());
    }
}

/// Recording a hint twice is recording it once.
pub proof fn law_recording_is_idempotent(hints: Seq<InitHint>, hint: InitHint)
    ensures
        recorded(recorded(hints, hint), hint) == recorded(hints, hint),
        recorded(hints, hint).contains(hint),
    decreases hints.len(),
{
    let r = recorded(hints, hint);
    if hints.len() == 0 {
        assert(r[0] == hint);
        assert(recorded(r, hint) =~= r);
    } else if hints[0].same_bucket(hint) {
        assert(r[0] == hint);
        assert(r.drop_first() =~= hints.drop_first());
        assert(recorded(r, hint) =~= r);
    } else {
        let t = hints.drop_first();
        law_recording_is_idempotent(t, hint);
        assert(r[0] == hints[0]);
        assert(r.drop_first() =~= recorded(t, hint));
        assert(recorded(r, hint) =~= r);
        let i = choose|i: int| 0 <= i < recorded(t, hint).len() && recorded(t, hint)[i] == hint;
        assert(r[i + 1] == hint);
    }
}

} // verus!
