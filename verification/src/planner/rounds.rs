//! What holds of a pass of the keeper as a whole: which hints it plans with,
//! which tasks reach the executor, and what is remembered afterwards.
use vstd::prelude::*;
use vstd::seq_lib::*;

use crate::planner::cycle;
use crate::planner::cycle::{
    ActionDispatchResult, ActionExecutor, DryRunExecutor, KeeperLoop, KeeperLoopOutcome,
};
use crate::planner::scheduler;
use crate::planner::scheduler::{InitHint, SchedulerConfig};
use crate::planner::volatility::{PriceSample, RotatePrediction};
use crate::planner::warrant;
use crate::planner::window;
use crate::planner::{KeeperAction, KeeperChainView, KeeperError};

verus! {

/// The hint asks for the bucket where the prediction sees equity run out.
pub open spec fn follows(hint: InitHint, p: RotatePrediction) -> bool {
    hint.sub_pool_id == p.sub_pool_id && hint.direction == p.direction && hint.tick == p.zero_tick
}

/// Some hint asks for the bucket of the prediction.
pub open spec fn is_hinted(hints: Seq<InitHint>, p: RotatePrediction) -> bool {
    exists|i: int| 0 <= i < hints.len() && follows(#[trigger] hints[i], p)
}

/// Some prediction is about the bucket of the hint.
pub open spec fn is_predicted(predictions: Seq<RotatePrediction>, hint: InitHint) -> bool {
    exists|i: int| 0 <= i < predictions.len() && follows(hint, #[trigger] predictions[i])
}

/// Once predictions are recorded there is a hint for the bucket of each. A
/// hint for a bucket that none is about is there if and only if it was there
/// before, and every hint that is new is of the kind that predictions give.
pub proof fn law_predictions_become_hints(
    hints: Seq<InitHint>,
    predictions: Seq<RotatePrediction>,
)
    requires
        scheduler::distinct_buckets(hints),
    ensures
        scheduler::distinct_buckets(scheduler::recorded_all(hints, predictions)),
        forall|i: int|
            0 <= i < predictions.len() ==> is_hinted(
                scheduler::recorded_all(hints, predictions),
                #[trigger] predictions[i],
            ),
        forall|h: InitHint|
            !is_predicted(predictions, h) ==> (#[trigger] scheduler::recorded_all(
                hints,
                predictions,
            ).contains(h) <==> hints.contains(h)),
        forall|h: InitHint| #[trigger]
            scheduler::recorded_all(hints, predictions).contains(h) && !hints.contains(h)
                ==> h.rationale is RotateRiskHorizon,
    decreases predictions.len(),
{
    if predictions.len() > 0 {
        let n = predictions.len() - 1;
        let most = predictions.drop_last();
        let last = predictions.last();
        let hint = last.hint();
        law_predictions_become_hints(hints, most);
        let before = scheduler::recorded_all(hints, most);
        let after = scheduler::recorded_all(hints, predictions);
        assert(after == scheduler::recorded(before, hint));
        scheduler::lemma_recorded_distinct(before, hint);
        scheduler::law_recording_is_idempotent(before, hint);
        assert(predictions[n] == last);
        assert forall|i: int| 0 <= i < predictions.len() implies is_hinted(
            after,
            #[trigger] predictions[i],
        ) by {
            let p = predictions[i];
            if follows(hint, p) {
                let k = choose|k: int| 0 <= k < after.len() && after[k] == hint;
                assert(follows(after[k], p));
            } else {
                assert(most[i] == p);
                let j = choose|j: int| 0 <= j < before.len() && follows(#[trigger] before[j], p);
                let h = before[j];
                assert(before.contains(h));
                warrant::law_recording_touches_one_bucket(before, hint, h);
                let k = choose|k: int| 0 <= k < after.len() && after[k] == h;
                assert(follows(after[k], p));
            }
        }
        assert forall|h: InitHint| !is_predicted(predictions, h) implies (
        #[trigger] after.contains(h) <==> hints.contains(h)) by {
            assert(!follows(h, predictions[n]));
            if is_predicted(most, h) {
                let i = choose|i: int| 0 <= i < most.len() && follows(h, #[trigger] most[i]);
                assert(follows(h, predictions[i]));
            }
            warrant::law_recording_touches_one_bucket(before, hint, h);
            assert(before.contains(h) <==> hints.contains(h));
        }
        assert forall|h: InitHint| #[trigger] after.contains(h) && !hints.contains(h) implies
            h.rationale is RotateRiskHorizon by {
            warrant::law_recording_touches_one_bucket(before, hint, h);
            if h != hint {
                assert(before.contains(h));
            }
        }
    }
}

/// A hint is still there after a plan if and only if the plan does not hold
/// the task of creating its bucket.
pub proof fn law_hints_wait_for_their_task(
    hints: Seq<InitHint>,
    plan: Seq<KeeperAction>,
    h: InitHint,
)
    ensures
        scheduler::hints_left(hints, plan).contains(h) <==> hints.contains(h) && !plan.contains(
            KeeperAction::InitDormantBucket {
                sub_pool_id: h.sub_pool_id,
                direction: h.direction,
                tick: h.tick,
                rationale: h.rationale,
            },
        ),
{
    let left = |h: InitHint| !plan.contains(h.action());
    let f = hints.filter(left);
    if f.contains(h) {
        let i = choose|i: int| 0 <= i < f.len() && f[i] == h;
        hints.lemma_filter_contains_rev(left, h);
        hints.lemma_filter_pred(left, i);
    }
    if hints.contains(h) && left(h) {
        let j = choose|j: int| 0 <= j < hints.len() && hints[j] == h;
        hints.lemma_filter_contains(left, j);
    }
}

/// The tasks that are answered are the plan, task by task.
pub proof fn law_answers_follow_the_plan<X: ActionExecutor>(
    tasks: Seq<KeeperAction>,
    cap: usize,
    before: X,
    answers: Seq<(KeeperAction, ActionDispatchResult)>,
    after: X,
)
    requires
        cycle::planned_and_carried_out(tasks, cap, before, answers, after),
    ensures
        exists|plan: Seq<KeeperAction>|
            {
                &&& #[trigger] scheduler::is_plan(tasks, cap, plan)
                &&& plan.len() == answers.len()
                &&& forall|i: int| 0 <= i < plan.len() ==> (#[trigger] answers[i]).0 == plan[i]
            },
{
}

/// A dry run sends nothing: it ends with the plan behind what was recorded
/// before, and every task accepted without a signature.
pub proof fn law_dry_run_records_the_plan(
    before: DryRunExecutor,
    plan: Seq<KeeperAction>,
    answers: Seq<(KeeperAction, ActionDispatchResult)>,
    after: DryRunExecutor,
)
    requires
        cycle::carried_out(before, plan, answers, after),
    ensures
        after.log@ == before.log@ + plan,
        answers.len() == plan.len(),
        forall|i: int|
            0 <= i < answers.len() ==> ((#[trigger] answers[i]).1
                matches ActionDispatchResult::Submitted { signature } && signature is None),
{
    let states = choose|states: Seq<DryRunExecutor>| #[trigger]
        cycle::answered_in_turn(states, answers) && states[0] == before && states.last() == after;
    lemma_dry_run(plan, answers, states, plan.len());
    assert(plan.take(plan.len() as int) =~= plan);
}

/// What a dry run has recorded after so many tasks.
proof fn lemma_dry_run(
    plan: Seq<KeeperAction>,
    answers: Seq<(KeeperAction, ActionDispatchResult)>,
    states: Seq<DryRunExecutor>,
    n: nat,
)
    requires
        cycle::answered_in_turn(states, answers),
        answers.len() == plan.len(),
        forall|i: int| 0 <= i < plan.len() ==> (#[trigger] answers[i]).0 == plan[i],
        n <= plan.len(),
    ensures
        states[n as int].log@ == states[0].log@ + plan.take(n as int),
    decreases n,
{
    if n == 0 {
        assert(states[0].log@ + plan.take(0) =~= states[0].log@);
    } else {
        lemma_dry_run(plan, answers, states, (n - 1) as nat);
        assert(answers[n - 1].0 == plan[n - 1]);
        assert(plan.take(n as int) =~= plan.take(n - 1).push(plan[n - 1]));
        assert(states[0].log@ + plan.take(n as int) =~= (states[0].log@ + plan.take(n - 1)).push(
            plan[n - 1],
        ));
    }
}

/// What the settings of a pass decide: without the predictor nothing it says
/// is recorded or counted, and without tuning none is reported. Prices are
/// counted as they came, and tasks as they were answered.
pub proof fn law_settings_of_a_pass_are_kept<V: KeeperChainView, X: ActionExecutor>(
    before: KeeperLoop,
    price_samples_recorded: u32,
    tuned: bool,
    predictions: Seq<RotatePrediction>,
    view: &V,
    executor: X,
    after: KeeperLoop,
    executor_after: X,
    outcome: KeeperLoopOutcome,
)
    requires
        predictions.len() <= u32::MAX,
        cycle::passed(
            before,
            price_samples_recorded,
            tuned,
            predictions,
            view,
            executor,
            after,
            executor_after,
            Ok::<KeeperLoopOutcome, KeeperError>(outcome),
        ),
    ensures
        outcome.metrics.price_samples_recorded == price_samples_recorded,
        outcome.dispatched@.len() <= u32::MAX ==> outcome.metrics.actions_planned
            == outcome.dispatched@.len(),
        !before.settings().run_predictor ==> outcome.metrics.init_hints_recorded == 0,
        before.settings().run_predictor ==> outcome.metrics.init_hints_recorded
            == predictions.len(),
        outcome.metrics.vol_estimator_applied <==> before.settings().auto_tune_vol && tuned,
        !before.settings().run_predictor ==> forall|h: InitHint| #[trigger]
            after.planner().hints().contains(h) ==> before.planner().hints().contains(h),
        forall|h: InitHint, i: int|
            #![trigger after.planner().hints().contains(h), outcome.dispatched@[i]]
            0 <= i < outcome.dispatched@.len() && after.planner().hints().contains(h)
                ==> outcome.dispatched@[i].0 != h.action(),
{
    let hints = cycle::hints_to_plan(before.settings(), before.planner().hints(), predictions);
    let plan = cycle::tasks_answered(outcome.dispatched@);
    assert forall|h: InitHint| #[trigger] after.planner().hints().contains(h) implies
        hints.contains(h) && !plan.contains(h.action()) by {
        law_hints_wait_for_their_task(hints, plan, h);
    }
    assert forall|h: InitHint, i: int|
        #![trigger after.planner().hints().contains(h), outcome.dispatched@[i]]
        0 <= i < outcome.dispatched@.len() && after.planner().hints().contains(h) implies
        outcome.dispatched@[i].0 != h.action() by {
        assert(plan[i] == outcome.dispatched@[i].0);
    }
}

/// A pass that the planner ends has reached no executor, and keeps every
/// hint that was there for it to plan with.
pub proof fn law_refused_pass_sends_nothing<V: KeeperChainView, X: ActionExecutor>(
    before: KeeperLoop,
    price_samples_recorded: u32,
    tuned: bool,
    predictions: Seq<RotatePrediction>,
    view: &V,
    executor: X,
    after: KeeperLoop,
    executor_after: X,
    e: KeeperError,
    h: InitHint,
)
    requires
        scheduler::distinct_buckets(before.planner().hints()),
        cycle::passed(
            before,
            price_samples_recorded,
            tuned,
            predictions,
            view,
            executor,
            after,
            executor_after,
            Err::<KeeperLoopOutcome, KeeperError>(e),
        ),
    ensures
        executor_after == executor,
        before.settings().run_predictor ==> forall|i: int|
            0 <= i < predictions.len() ==> is_hinted(
                after.planner().hints(),
                #[trigger] predictions[i],
            ),
        !before.settings().run_predictor || !is_predicted(predictions, h) ==> (
        after.planner().hints().contains(h) <==> before.planner().hints().contains(h)),
{
    law_predictions_become_hints(before.planner().hints(), predictions);
}

/// The answers hold the task of creating the bucket of the prediction.
pub open spec fn is_created(
    answers: Seq<(KeeperAction, ActionDispatchResult)>,
    p: RotatePrediction,
) -> bool {
    exists|i: int|
        0 <= i < answers.len() && ((#[trigger] answers[i]).0
            matches KeeperAction::InitDormantBucket { sub_pool_id, direction, tick, .. }
            && sub_pool_id == p.sub_pool_id && direction == p.direction && tick == p.zero_tick)
}

/// The view shows no bucket where the prediction sees equity run out.
pub open spec fn is_missing<V: KeeperChainView>(view: &V, p: RotatePrediction) -> bool {
    forall|k: int|
        0 <= k < view.buckets_of(p.sub_pool_id).len() ==> (#[trigger] view.buckets_of(
            p.sub_pool_id,
        )[k]).direction != p.direction || view.buckets_of(p.sub_pool_id)[k].tick != p.zero_tick
}

/// Where a plan over a view and hints was carried out, and a hint asks for the
/// bucket of a prediction that the view does not show, the bucket is created.
pub proof fn lemma_hinted_is_created<V: KeeperChainView, X: ActionExecutor>(
    view: &V,
    config: SchedulerConfig,
    hints: Seq<InitHint>,
    p: RotatePrediction,
    before: X,
    answers: Seq<(KeeperAction, ActionDispatchResult)>,
    after: X,
)
    requires
        scheduler::tasks_of_sub_pools(view, config, view.ids()) is Ok,
        cycle::planned_and_carried_out(
            scheduler::tasks_of_sub_pools(view, config, view.ids())->Ok_0 + scheduler::init_tasks(
                view,
                hints,
            ),
            config.max_actions_per_plan,
            before,
            answers,
            after,
        ),
        config.max_actions_per_plan == 0,
        is_hinted(hints, p),
        is_missing(view, p),
    ensures
        is_created(answers, p),
{
    let tasks = scheduler::tasks_of_sub_pools(view, config, view.ids())->Ok_0
        + scheduler::init_tasks(view, hints);
    let plan = choose|plan: Seq<KeeperAction>| #[trigger]
        scheduler::is_plan(tasks, config.max_actions_per_plan, plan) && cycle::carried_out(
            before,
            plan,
            answers,
            after,
        );
    assert(warrant::planned(view, config, hints, plan));
    let i = choose|i: int| 0 <= i < hints.len() && follows(#[trigger] hints[i], p);
    warrant::law_every_missing_bucket_is_created(view, config, hints, plan, i);
    let task = KeeperAction::InitDormantBucket {
        sub_pool_id: hints[i].sub_pool_id,
        direction: hints[i].direction,
        tick: hints[i].tick,
        rationale: hints[i].rationale,
    };
    let j = choose|j: int| 0 <= j < plan.len() && plan[j] == task;
    assert(answers[j].0 == plan[j]);
}

/// With the predictor on and no limit, the bucket of every prediction of this
/// very pass that the view does not show is created in it.
pub proof fn law_predictions_are_acted_on_at_once<V: KeeperChainView, X: ActionExecutor>(
    before: KeeperLoop,
    price_samples_recorded: u32,
    tuned: bool,
    predictions: Seq<RotatePrediction>,
    view: &V,
    executor: X,
    after: KeeperLoop,
    executor_after: X,
    outcome: KeeperLoopOutcome,
    n: int,
)
    requires
        before.settings().run_predictor,
        scheduler::distinct_buckets(before.planner().hints()),
        before.planner().settings().max_actions_per_plan == 0,
        0 <= n < predictions.len(),
        is_missing(view, predictions[n]),
        cycle::passed(
            before,
            price_samples_recorded,
            tuned,
            predictions,
            view,
            executor,
            after,
            executor_after,
            Ok::<KeeperLoopOutcome, KeeperError>(outcome),
        ),
    ensures
        is_created(outcome.dispatched@, predictions[n]),
{
    let hints = scheduler::recorded_all(before.planner().hints(), predictions);
    law_predictions_become_hints(before.planner().hints(), predictions);
    assert(is_hinted(hints, predictions[n]));
    lemma_hinted_is_created(
        view,
        before.planner().settings(),
        hints,
        predictions[n],
        executor,
        outcome.dispatched@,
        executor_after,
    );
}

/// Every bucket that a pass finds with entries enough pending is drained in
/// it, where there is no limit.
pub proof fn law_pass_drains_what_lags<V: KeeperChainView, X: ActionExecutor>(
    before: KeeperLoop,
    price_samples_recorded: u32,
    tuned: bool,
    predictions: Seq<RotatePrediction>,
    view: &V,
    executor: X,
    after: KeeperLoop,
    executor_after: X,
    outcome: KeeperLoopOutcome,
    n: int,
    k: int,
    head: u64,
)
    requires
        before.planner().settings().max_actions_per_plan == 0,
        0 <= n < view.ids().len(),
        0 <= k < view.buckets_of(view.ids()[n]).len(),
        view.ledger_of(view.ids()[n], view.buckets_of(view.ids()[n])[k].direction) matches Some(l)
            && l.next_event_index == head,
        view.buckets_of(view.ids()[n])[k].last_applied_index < head,
        head - view.buckets_of(view.ids()[n])[k].last_applied_index
            >= before.planner().settings().min_pending_for_pre_sync,
        cycle::passed(
            before,
            price_samples_recorded,
            tuned,
            predictions,
            view,
            executor,
            after,
            executor_after,
            Ok::<KeeperLoopOutcome, KeeperError>(outcome),
        ),
    ensures
        exists|i: int|
            0 <= i < outcome.dispatched@.len() && (#[trigger] outcome.dispatched@[i]).0
                == (KeeperAction::PreSyncDormantBucket {
                sub_pool_id: view.buckets_of(view.ids()[n])[k].sub_pool_id,
                direction: view.buckets_of(view.ids()[n])[k].direction,
                tick: view.buckets_of(view.ids()[n])[k].tick,
                pending: (head - view.buckets_of(view.ids()[n])[k].last_applied_index) as u64,
            }),
{
    let config = before.planner().settings();
    let hints = cycle::hints_to_plan(before.settings(), before.planner().hints(), predictions);
    let answers = outcome.dispatched@;
    let tasks = scheduler::tasks_of_sub_pools(view, config, view.ids())->Ok_0
        + scheduler::init_tasks(view, hints);
    let plan = choose|plan: Seq<KeeperAction>| #[trigger]
        scheduler::is_plan(tasks, config.max_actions_per_plan, plan) && cycle::carried_out(
            executor,
            plan,
            answers,
            executor_after,
        );
    assert(warrant::planned(view, config, hints, plan));
    warrant::law_every_bucket_gets_its_task(view, config, hints, plan, n, k);
    let b = view.buckets_of(view.ids()[n])[k];
    let task = KeeperAction::PreSyncDormantBucket {
        sub_pool_id: b.sub_pool_id,
        direction: b.direction,
        tick: b.tick,
        pending: (head - b.last_applied_index) as u64,
    };
    let j = choose|j: int| 0 <= j < plan.len() && plan[j] == task;
    assert(answers[j].0 == plan[j]);
}

/// A pass takes in the price that came, and counts it: with a price that is
/// newer than the last, the window ends with it; without one the window stays.
pub proof fn law_pass_takes_the_price_in(
    before: KeeperLoop,
    sample: Option<PriceSample>,
    after: KeeperLoop,
)
    requires
        before.prices().wf(),
        cycle::priced(before, sample, after),
    ensures
        after.prices().settings() == before.prices().settings(),
        sample is None ==> after.prices().window() == before.prices().window()
            && cycle::samples_in(sample) == 0,
        sample is Some ==> cycle::samples_in(sample) == 1,
        sample matches Some(s) ==> s.price > 0 && before.prices().settings().max_samples > 0 && (
        before.prices().window().len() > 0 ==> before.prices().window().last().slot < s.slot)
            ==> after.prices().window().len() > 0 && after.prices().window().last() == s,
        sample matches Some(s) ==> s.price == 0 || (before.prices().window().len() > 0 && s.slot
            <= before.prices().window().last().slot) ==> after.prices().window()
            == before.prices().window(),
{
    if let Some(s) = sample {
        let window = before.prices().window();
        if s.price > 0 && (window.len() > 0 ==> window.last().slot < s.slot) {
            window::law_window_keeps_the_newest(before.prices().settings(), window, s);
        }
    }
}

} // verus!
