//! Carrying a plan out, and the keeper's pass over one view of the chain.
use vstd::prelude::*;

use crate::planner::scheduler;
use crate::planner::scheduler::Scheduler;
use crate::planner::volatility;
use crate::planner::volatility::{PriceSample, RealizedVolatilityEstimator, RotatePrediction};
use crate::planner::{KeeperAction, KeeperChainView, KeeperError};

verus! {

/// What became of one task.
#[allow(inconsistent_fields)]
#[derive(Debug, Clone, PartialEq, Eq)]
pub enum ActionDispatchResult {
    /// The task was accepted.
    Submitted {
        /// Signature of the transaction, where there is one.
        signature: Option<String>,
    },
    /// The task was declined; this is not a failure.
    Skipped {
        /// Why.
        reason: &'static str,
    },
    /// The task failed.
    Failed {
        /// Why.
        reason: String,
    },
}

impl ActionDispatchResult {
    /// A copy of the result.
    pub fn duplicate(&self) -> (r: Self)
        ensures
            r == *self,
    {
        match self {
            ActionDispatchResult::Submitted { signature } => ActionDispatchResult::Submitted {
                signature: match signature {
                    Some(text) => Some(text.clone()),
                    None => None,
                },
            },
            ActionDispatchResult::Skipped { reason } => ActionDispatchResult::Skipped { reason },
            ActionDispatchResult::Failed { reason } => ActionDispatchResult::Failed {
                reason: reason.clone(),
            },
        }
    }
}

/// Where tasks go.
pub trait ActionExecutor: Sized {
    /// The executor may answer `action` with `r`, turning from `before` into
    /// `after`. One that does not say may answer anything.
    open spec fn may_answer(
        before: Self,
        action: KeeperAction,
        after: Self,
        r: ActionDispatchResult,
    ) -> bool {
        true
    }

    /// Carries one task out.
    fn execute(&mut self, action: KeeperAction) -> (r: ActionDispatchResult)
        ensures
            Self::may_answer(*old(self), action, *final(self), r),
    ;
}

/// An executor that records tasks and does nothing else.
#[derive(Debug, Clone)]
pub struct DryRunExecutor {
    /// The tasks, in the order they came.
    pub log: Vec<KeeperAction>,
}

impl Default for DryRunExecutor {
    fn default() -> (r: Self)
        ensures
            r.log@ == Seq::<KeeperAction>::empty(),
    {
        DryRunExecutor { log: Vec::new() }
    }
}

impl DryRunExecutor {
    /// An executor that has recorded nothing.
    pub fn new() -> (r: Self)
        ensures
            r.log@ == Seq::<KeeperAction>::empty(),
    {
        DryRunExecutor { log: Vec::new() }
    }

    /// Hands the recorded tasks out and forgets them.
    pub fn drain(&mut self) -> (r: Vec<KeeperAction>)
        ensures
            r@ == old(self).log@,
            final(self).log@ == Seq::<KeeperAction>::empty(),
    {
        let mut out: Vec<KeeperAction> = Vec::new();
        out.append(&mut self.log);
        proof {
            assert(out@ =~= old(self).log@);
        }
        out
    }

    /// The recorded tasks.
    pub fn log(&self) -> (r: &[KeeperAction])
        ensures
            r@ == self.log@,
    {
        self.log.as_slice()
    }
}

impl ActionExecutor for DryRunExecutor {
    open spec fn may_answer(
        before: Self,
        action: KeeperAction,
        after: Self,
        r: ActionDispatchResult,
    ) -> bool {
        &&& after.log@ == before.log@.push(action)
        &&& r == ActionDispatchResult::Submitted { signature: None }
    }

    fn execute(&mut self, action: KeeperAction) -> (r: ActionDispatchResult) {
        self.log.push(action);
        ActionDispatchResult::Submitted { signature: None }
    }
}

/// The executor went through `states` while it answered the tasks one after the other.
pub open spec fn answered_in_turn<X: ActionExecutor>(
    states: Seq<X>,
    answers: Seq<(KeeperAction, ActionDispatchResult)>,
) -> bool {
    &&& states.len() == answers.len() + 1
    &&& forall|i: int|
        #![trigger answers[i]]
        0 <= i < answers.len() ==> X::may_answer(
            states[i],
            answers[i].0,
            states[i + 1],
            answers[i].1,
        )
}

/// The tasks of `plan` were carried out in order, each once, and answered with `answers`.
pub open spec fn carried_out<X: ActionExecutor>(
    before: X,
    plan: Seq<KeeperAction>,
    answers: Seq<(KeeperAction, ActionDispatchResult)>,
    after: X,
) -> bool {
    &&& answers.len() == plan.len()
    &&& forall|i: int| 0 <= i < plan.len() ==> (#[trigger] answers[i]).0 == plan[i]
    &&& exists|states: Seq<X>| #[trigger]
        answered_in_turn(states, answers) && states[0] == before && states.last() == after
}

/// Carries the tasks of a plan out, in order.
pub fn execute_plan<X: ActionExecutor>(plan: &Vec<KeeperAction>, executor: &mut X) -> (r: Vec<
    (KeeperAction, ActionDispatchResult),
>)
    ensures
        carried_out(*old(executor), plan@, r@, *final(executor)),
{
    let mut out: Vec<(KeeperAction, ActionDispatchResult)> = Vec::new();
    let ghost mut states: Seq<X> = seq![*executor];
    let mut i: usize = 0;
    while i < plan.len()
        invariant
            i <= plan@.len(),
            out@.len() == i,
            forall|j: int| 0 <= j < i ==> (#[trigger] out@[j]).0 == plan@[j],
            answered_in_turn(states, out@),
            states[0] == *old(executor),
            states.last() == *executor,
        decreases plan@.len() - i,
    {
        let action: KeeperAction = plan[i];
        let ghost before = *executor;
        let result = executor.execute(action);
        let ghost answers = out@;
        out.push((action, result));
        i = i + 1;
        proof {
            let next = states.push(*executor);
            assert forall|j: int|
                #![trigger out@[j]]
                0 <= j < out@.len() implies X::may_answer(
                next[j],
                out@[j].0,
                next[j + 1],
                out@[j].1,
            ) by {
                if j < answers.len() {
                    assert(out@[j] == answers[j]);
                } else {
                    assert(next[j] == before);
                }
            }
            assert(next[0] == states[0]);
            states = next;
        }
    }
    out
}

/// The tasks that were answered.
pub open spec fn tasks_answered(answers: Seq<(KeeperAction, ActionDispatchResult)>) -> Seq<
    KeeperAction,
> {
    answers.map_values(|a: (KeeperAction, ActionDispatchResult)| a.0)
}

/// The plan for `tasks` was carried out.
pub open spec fn planned_and_carried_out<X: ActionExecutor>(
    tasks: Seq<KeeperAction>,
    cap: usize,
    before: X,
    answers: Seq<(KeeperAction, ActionDispatchResult)>,
    after: X,
) -> bool {
    exists|plan: Seq<KeeperAction>| #[trigger]
        scheduler::is_plan(tasks, cap, plan) && carried_out(before, plan, answers, after)
}

/// Plans over a view and carries the plan out. An error of the planner is
/// returned before any task is carried out; what becomes of a task is part
/// of the result.
pub fn run_plan_cycle<V: KeeperChainView, X: ActionExecutor>(
    scheduler: &mut Scheduler,
    view: &V,
    executor: &mut X,
) -> (r: Result<Vec<(KeeperAction, ActionDispatchResult)>, KeeperError>)
    requires
        old(scheduler).wf(),
    ensures
        final(scheduler).wf(),
        final(scheduler).settings() == old(scheduler).settings(),
        match scheduler::tasks_of_sub_pools(view, old(scheduler).settings(), view.ids()) {
            Err(e) => {
                &&& r == Err::<Vec<(KeeperAction, ActionDispatchResult)>, KeeperError>(e)
                &&& final(scheduler).hints() == old(scheduler).hints()
                &&& *final(executor) == *old(executor)
            },
            Ok(tasks) => {
                &&& r matches Ok(answers) && {
                    &&& final(scheduler).hints() == scheduler::hints_left(
                        old(scheduler).hints(),
                        tasks_answered(answers@),
                    )
                    &&& planned_and_carried_out(
                        tasks + scheduler::init_tasks(view, old(scheduler).hints()),
                        old(scheduler).settings().max_actions_per_plan,
                        *old(executor),
                        answers@,
                        *final(executor),
                    )
                }
            },
        },
{
    let plan: Vec<KeeperAction> = scheduler.plan(view)?;
    let answers = execute_plan(&plan, executor);
    proof {
        assert(tasks_answered(answers@) =~= plan@);
    }
    Ok(answers)
}

/// Counts of one pass of the keeper.
#[derive(Debug, Clone, Copy, PartialEq, Eq, Structural)]
pub struct KeeperLoopMetrics {
    /// Price samples fetched.
    pub price_samples_recorded: u32,
    /// Init hints that the predictor recorded.
    pub init_hints_recorded: u32,
    /// Tasks planned.
    pub actions_planned: u32,
    /// Tasks that were accepted.
    pub actions_submitted: u32,
    /// Tasks that failed.
    pub actions_failed: u32,
    /// Tasks that were declined.
    pub actions_skipped: u32,
    /// Whether the predictor was tuned to the estimated volatility.
    pub vol_estimator_applied: bool,
}

impl Default for KeeperLoopMetrics {
    fn default() -> (r: Self)
        ensures
            r == no_metrics(),
    {
        KeeperLoopMetrics {
            price_samples_recorded: 0,
            init_hints_recorded: 0,
            actions_planned: 0,
            actions_submitted: 0,
            actions_failed: 0,
            actions_skipped: 0,
            vol_estimator_applied: false,
        }
    }
}

/// The counts before anything has happened.
pub open spec fn no_metrics() -> KeeperLoopMetrics {
    KeeperLoopMetrics {
        price_samples_recorded: 0,
        init_hints_recorded: 0,
        actions_planned: 0,
        actions_submitted: 0,
        actions_failed: 0,
        actions_skipped: 0,
        vol_estimator_applied: false,
    }
}

/// The sum of two counts, field by field.
pub open spec fn merged(a: KeeperLoopMetrics, b: KeeperLoopMetrics) -> KeeperLoopMetrics {
    KeeperLoopMetrics {
        price_samples_recorded: (a.price_samples_recorded + b.price_samples_recorded) as u32,
        init_hints_recorded: (a.init_hints_recorded + b.init_hints_recorded) as u32,
        actions_planned: (a.actions_planned + b.actions_planned) as u32,
        actions_submitted: (a.actions_submitted + b.actions_submitted) as u32,
        actions_failed: (a.actions_failed + b.actions_failed) as u32,
        actions_skipped: (a.actions_skipped + b.actions_skipped) as u32,
        vol_estimator_applied: a.vol_estimator_applied || b.vol_estimator_applied,
    }
}

/// The sums of two counts fit.
pub open spec fn mergeable(a: KeeperLoopMetrics, b: KeeperLoopMetrics) -> bool {
    &&& a.price_samples_recorded + b.price_samples_recorded <= u32::MAX
    &&& a.init_hints_recorded + b.init_hints_recorded <= u32::MAX
    &&& a.actions_planned + b.actions_planned <= u32::MAX
    &&& a.actions_submitted + b.actions_submitted <= u32::MAX
    &&& a.actions_failed + b.actions_failed <= u32::MAX
    &&& a.actions_skipped + b.actions_skipped <= u32::MAX
}

impl KeeperLoopMetrics {
    /// Sums two counts field by field.
    pub fn merge(self, other: KeeperLoopMetrics) -> (r: Self)
        requires
            mergeable(self, other),
        ensures
            r == merged(self, other),
    {
        KeeperLoopMetrics {
            price_samples_recorded: self.price_samples_recorded + other.price_samples_recorded,
            init_hints_recorded: self.init_hints_recorded + other.init_hints_recorded,
            actions_planned: self.actions_planned + other.actions_planned,
            actions_submitted: self.actions_submitted + other.actions_submitted,
            actions_failed: self.actions_failed + other.actions_failed,
            actions_skipped: self.actions_skipped + other.actions_skipped,
            vol_estimator_applied: self.vol_estimator_applied || other.vol_estimator_applied,
        }
    }
}

/// What one pass of the keeper came to.
#[derive(Debug, Clone)]
pub struct KeeperLoopOutcome {
    /// The counts.
    pub metrics: KeeperLoopMetrics,
    /// The tasks and what became of them, in order.
    pub dispatched: Vec<(KeeperAction, ActionDispatchResult)>,
}

/// Settings of [`KeeperLoop`].
#[derive(Debug, Clone, Copy, PartialEq, Eq, Structural)]
pub struct KeeperLoopConfig {
    /// Whether the predictor's hints are recorded.
    pub run_predictor: bool,
    /// Whether the predictor is tuned to the estimated volatility.
    pub auto_tune_vol: bool,
}

impl Default for KeeperLoopConfig {
    fn default() -> (r: Self)
        ensures
            r.run_predictor,
            r.auto_tune_vol,
    {
        KeeperLoopConfig { run_predictor: true, auto_tune_vol: true }
    }
}

/// How many tasks of each kind of answer there are: accepted, failed, declined.
pub open spec fn answer_counts(answers: Seq<(KeeperAction, ActionDispatchResult)>) -> (
    nat,
    nat,
    nat,
)
    decreases answers.len(),
{
    if answers.len() == 0 {
        (0, 0, 0)
    } else {
        let (s, f, k) = answer_counts(answers.drop_last());
        match answers.last().1 {
            ActionDispatchResult::Submitted { .. } => (s + 1, f, k),
            ActionDispatchResult::Failed { .. } => (s, f + 1, k),
            ActionDispatchResult::Skipped { .. } => (s, f, k + 1),
        }
    }
}

/// Counts the tasks of each kind of answer: accepted, failed, declined.
pub fn count_answers(answers: &Vec<(KeeperAction, ActionDispatchResult)>) -> (r: (
    usize,
    usize,
    usize,
))
    ensures
        (r.0 as nat, r.1 as nat, r.2 as nat) == answer_counts(answers@),
        r.0 + r.1 + r.2 == answers@.len(),
{
    let mut submitted: usize = 0;
    let mut failed: usize = 0;
    let mut skipped: usize = 0;
    let mut i: usize = 0;
    proof {
        assert(answers@.take(0) =~= Seq::<(KeeperAction, ActionDispatchResult)>::empty());
    }
    while i < answers.len()
        invariant
            i <= answers.len(),
            (submitted as nat, failed as nat, skipped as nat) == answer_counts(
                answers@.take(i as int),
            ),
            submitted + failed + skipped == i,
        decreases answers.len() - i,
    {
        match &answers[i].1 {
            ActionDispatchResult::Submitted { .. } => {
                submitted = submitted + 1;
            },
            ActionDispatchResult::Failed { .. } => {
                failed = failed + 1;
            },
            ActionDispatchResult::Skipped { .. } => {
                skipped = skipped + 1;
            },
        }
        i = i + 1;
        proof {
            assert(answers@.take(i as int).drop_last() =~= answers@.take(i - 1));
        }
    }
    proof {
        assert(answers@.take(answers@.len() as int) =~= answers@);
    }
    (submitted, failed, skipped)
}

/// The keeper's long-lived state: the scheduler with its hints, and the price window.
///
/// A pass takes in a fresh price, has the risk model tuned where that is
/// wanted, records what the model predicts where that is wanted, plans, and
/// carries the plan out.
#[derive(Debug)]
pub struct KeeperLoop {
    config: KeeperLoopConfig,
    scheduler: Scheduler,
    vol_estimator: RealizedVolatilityEstimator,
}

/// The counts of a pass.
pub open spec fn metrics_of(
    config: KeeperLoopConfig,
    price_samples_recorded: u32,
    vol_estimator_applied: bool,
    predictions: Seq<RotatePrediction>,
    answers: Seq<(KeeperAction, ActionDispatchResult)>,
) -> KeeperLoopMetrics {
    let (submitted, failed, skipped) = answer_counts(answers);
    KeeperLoopMetrics {
        price_samples_recorded,
        init_hints_recorded: if config.run_predictor {
            predictions.len() as u32
        } else {
            0
        },
        actions_planned: answers.len() as u32,
        actions_submitted: submitted as u32,
        actions_failed: failed as u32,
        actions_skipped: skipped as u32,
        vol_estimator_applied: config.auto_tune_vol && vol_estimator_applied,
    }
}

/// The hints at hand when a pass plans.
pub open spec fn hints_to_plan(
    config: KeeperLoopConfig,
    hints: Seq<scheduler::InitHint>,
    predictions: Seq<RotatePrediction>,
) -> Seq<scheduler::InitHint> {
    if config.run_predictor {
        scheduler::recorded_all(hints, predictions)
    } else {
        hints
    }
}

/// The number of prices that a pass takes in.
pub open spec fn samples_in(sample: Option<PriceSample>) -> u32 {
    if sample is Some {
        1
    } else {
        0
    }
}

/// The price window of `after` is that of `before` once a price, if any, has
/// been taken in.
pub open spec fn priced(
    before: KeeperLoop,
    sample: Option<PriceSample>,
    after: KeeperLoop,
) -> bool {
    match sample {
        Some(s) => {
            &&& after.prices().settings() == before.prices().settings()
            &&& after.prices().window() == volatility::window_after(
                before.prices().settings(),
                before.prices().window(),
                s,
            )
        },
        None => after.prices() == before.prices(),
    }
}

/// The model may give this answer.
pub open spec fn consulted<
    V: KeeperChainView,
    M: Fn(&RealizedVolatilityEstimator, bool, &V) -> (bool, Vec<RotatePrediction>),
>(
    model: M,
    prices: RealizedVolatilityEstimator,
    tune: bool,
    view: &V,
    answer: (bool, Vec<RotatePrediction>),
) -> bool {
    model.ensures((&prices, tune, view), answer)
}

/// What a pass comes to once the model has answered.
pub open spec fn passed<V: KeeperChainView, X: ActionExecutor>(
    before: KeeperLoop,
    price_samples_recorded: u32,
    tuned: bool,
    predictions: Seq<RotatePrediction>,
    view: &V,
    executor: X,
    after: KeeperLoop,
    executor_after: X,
    r: Result<KeeperLoopOutcome, KeeperError>,
) -> bool {
    let config = before.planner().settings();
    let hints = hints_to_plan(before.settings(), before.planner().hints(), predictions);
    &&& after.planner().settings() == config
    &&& match scheduler::tasks_of_sub_pools(view, config, view.ids()) {
        Err(e) => {
            &&& r == Err::<KeeperLoopOutcome, KeeperError>(e)
            &&& after.planner().hints() == hints
            &&& executor_after == executor
        },
        Ok(tasks) => r matches Ok(outcome) && {
            &&& after.planner().hints() == scheduler::hints_left(
                hints,
                tasks_answered(outcome.dispatched@),
            )
            &&& outcome.metrics == metrics_of(
                before.settings(),
                price_samples_recorded,
                tuned,
                predictions,
                outcome.dispatched@,
            )
            &&& planned_and_carried_out(
                tasks + scheduler::init_tasks(view, hints),
                config.max_actions_per_plan,
                executor,
                outcome.dispatched@,
                executor_after,
            )
        },
    }
}

impl KeeperLoop {
    /// The settings.
    pub closed spec fn settings(&self) -> KeeperLoopConfig {
        self.config
    }

    /// The scheduler.
    pub closed spec fn planner(&self) -> Scheduler {
        self.scheduler
    }

    /// The price window.
    pub closed spec fn prices(&self) -> RealizedVolatilityEstimator {
        self.vol_estimator
    }

    /// The scheduler and the price window are in order.
    pub open spec fn wf(&self) -> bool {
        self.planner().wf() && self.prices().wf()
    }

    /// A keeper made of its parts.
    pub fn new(
        config: KeeperLoopConfig,
        scheduler: Scheduler,
        vol_estimator: RealizedVolatilityEstimator,
    ) -> (r: Self)
        requires
            scheduler.wf(),
            vol_estimator.wf(),
        ensures
            r.wf(),
            r.settings() == config,
            r.planner() == scheduler,
            r.prices() == vol_estimator,
    {
        KeeperLoop { config, scheduler, vol_estimator }
    }

    /// The settings.
    pub fn config(&self) -> (r: &KeeperLoopConfig)
        ensures
            *r == self.settings(),
    {
        &self.config
    }

    /// Replaces the settings.
    pub fn set_config(&mut self, config: KeeperLoopConfig)
        ensures
            final(self).settings() == config,
            final(self).planner() == old(self).planner(),
            final(self).prices() == old(self).prices(),
    {
        self.config = config;
    }

    /// The scheduler.
    pub fn scheduler(&self) -> (r: &Scheduler)
        ensures
            *r == self.planner(),
    {
        &self.scheduler
    }

    /// The scheduler, to record and cancel hints between passes.
    pub fn scheduler_mut(&mut self) -> (r: &mut Scheduler)
        ensures
            *r == old(self).planner(),
            final(self).planner() == *final(r),
            final(self).settings() == old(self).settings(),
            final(self).prices() == old(self).prices(),
    {
        &mut self.scheduler
    }

    /// The price window.
    pub fn vol_estimator(&self) -> (r: &RealizedVolatilityEstimator)
        ensures
            *r == self.prices(),
    {
        &self.vol_estimator
    }

    /// Takes in the price that was fetched, if any, and returns how many there were.
    fn observe(&mut self, sample: Option<PriceSample>) -> (r: u32)
        requires
            old(self).wf(),
        ensures
            final(self).wf(),
            final(self).settings() == old(self).settings(),
            final(self).planner() == old(self).planner(),
            priced(*old(self), sample, *final(self)),
            r == samples_in(sample),
    {
        match sample {
            Some(s) => {
                self.vol_estimator.record(s);
                1
            },
            None => 0,
        }
    }

    /// One pass of the keeper.
    ///
    /// The price that was fetched, if any, goes into the window. The model is
    /// shown the window and the view, and told whether to tune itself to the
    /// window; it answers with whether it did, and with its predictions. The
    /// predictions are recorded where the settings say so. Then the plan over
    /// the view is carried out.
    ///
    /// An error of the planner ends the pass before any task is carried
    /// out; price and predictions stay recorded. What becomes of a task is
    /// counted and never ends the pass.
    pub fn tick<
        V: KeeperChainView,
        X: ActionExecutor,
        M: Fn(&RealizedVolatilityEstimator, bool, &V) -> (bool, Vec<RotatePrediction>),
    >(
        &mut self,
        sample: Option<PriceSample>,
        model: &M,
        view: &V,
        executor: &mut X,
    ) -> (r: Result<KeeperLoopOutcome, KeeperError>)
        requires
            old(self).wf(),
            forall|w: &RealizedVolatilityEstimator, tune: bool, v: &V|
                model.requires((w, tune, v)),
        ensures
            final(self).wf(),
            final(self).settings() == old(self).settings(),
            priced(*old(self), sample, *final(self)),
            exists|answer: (bool, Vec<RotatePrediction>)|
                {
                    &&& #[trigger] consulted(
                        *model,
                        final(self).prices(),
                        old(self).settings().auto_tune_vol,
                        view,
                        answer,
                    )
                    &&& passed(
                        *old(self),
                        samples_in(sample),
                        answer.0,
                        answer.1@,
                        view,
                        *old(executor),
                        *final(self),
                        *final(executor),
                        r,
                    )
                },
    {
        let recorded: u32 = self.observe(sample);
        let (tuned, predictions): (bool, Vec<RotatePrediction>) = model(
            &self.vol_estimator,
            self.config.auto_tune_vol,
            view,
        );
        proof {
            assert(consulted(
                *model,
                self.prices(),
                old(self).settings().auto_tune_vol,
                view,
                (tuned, predictions),
            ));
        }
        self.carry_out(recorded, tuned, &predictions, view, executor)
    }

    /// The pass once the model has answered: records the predictions, plans
    /// over the view, and carries the plan out.
    pub fn carry_out<V: KeeperChainView, X: ActionExecutor>(
        &mut self,
        price_samples_recorded: u32,
        tuned: bool,
        predictions: &Vec<RotatePrediction>,
        view: &V,
        executor: &mut X,
    ) -> (r: Result<KeeperLoopOutcome, KeeperError>)
        requires
            old(self).wf(),
        ensures
            final(self).wf(),
            final(self).settings() == old(self).settings(),
            final(self).prices() == old(self).prices(),
            passed(
                *old(self),
                price_samples_recorded,
                tuned,
                predictions@,
                view,
                *old(executor),
                *final(self),
                *final(executor),
                r,
            ),
    {
        let mut metrics = KeeperLoopMetrics::default();
        metrics.price_samples_recorded = price_samples_recorded;
        if self.config.auto_tune_vol {
            metrics.vol_estimator_applied = tuned;
        }
        if self.config.run_predictor {
            self.scheduler.record_predictions(predictions);
            metrics.init_hints_recorded = predictions.len() as u32;
        }
        let dispatched = run_plan_cycle(&mut self.scheduler, view, executor)?;
        let (submitted, failed, skipped) = count_answers(&dispatched);
        metrics.actions_planned = dispatched.len() as u32;
        metrics.actions_submitted = submitted as u32;
        metrics.actions_failed = failed as u32;
        metrics.actions_skipped = skipped as u32;
        proof {
            assert(metrics == metrics_of(
                old(self).settings(),
                price_samples_recorded,
                tuned,
                predictions@,
                dispatched@,
            ));
        }
        Ok(KeeperLoopOutcome { metrics, dispatched })
    }
}

/// Merging counts is commutative, and merging with nothing changes nothing.
pub proof fn law_merge(a: KeeperLoopMetrics, b: KeeperLoopMetrics)
    requires
        mergeable(a, b),
    ensures
        merged(a, b) == merged(b, a),
        merged(a, no_metrics()) == a,
{
}

/// Every task that was carried out was accepted, failed or declined.
pub proof fn law_answers_add_up(answers: Seq<(KeeperAction, ActionDispatchResult)>)
    ensures
        answer_counts(answers).0 + answer_counts(answers).1 + answer_counts(answers).2
            == answers.len(),
    decreases answers.len(),
{
    if answers.len() > 0 {
        law_answers_add_up(answers.drop_last());
    }
}

} // verus!
