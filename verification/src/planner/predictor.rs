//! The walk of the risk model over a view: which sub-pools and sides it is
//! asked about, in which order, and what becomes of its answers.
//!
//! How likely the rotation of one side is, the caller says.
use vstd::prelude::*;

use crate::planner::scheduler;
use crate::planner::scheduler::Scheduler;
use crate::planner::volatility;
use crate::planner::volatility::{side_exposure, RotatePrediction};
use crate::planner::{Direction, KeeperChainView, SubPoolHealth};

verus! {

/// A list of at most one value.
pub open spec fn at_most_one(p: Option<RotatePrediction>) -> Seq<RotatePrediction> {
    match p {
        Some(x) => Seq::empty().push(x),
        None => Seq::empty(),
    }
}

/// The model may predict `p` for one side of a sub-pool; nothing is predicted
/// for a side that it is not asked about.
pub open spec fn side_predicted<P: Fn(&SubPoolHealth, Direction) -> Option<RotatePrediction>>(
    model: P,
    h: SubPoolHealth,
    direction: Direction,
    p: Option<RotatePrediction>,
) -> bool {
    if volatility::asked_about(h, direction) {
        model.ensures((&h, direction), p)
    } else {
        p is None
    }
}

/// The model may predict `all` for a sub-pool: the long side comes first.
pub open spec fn pool_predicted<P: Fn(&SubPoolHealth, Direction) -> Option<RotatePrediction>>(
    model: P,
    h: SubPoolHealth,
    all: Seq<RotatePrediction>,
) -> bool {
    exists|long: Option<RotatePrediction>, short: Option<RotatePrediction>|
        #![trigger side_predicted(model, h, Direction::Long, long), side_predicted(model, h, Direction::Short, short)]
        {
            &&& side_predicted(model, h, Direction::Long, long)
            &&& side_predicted(model, h, Direction::Short, short)
            &&& all == at_most_one(long) + at_most_one(short)
        }
}

/// `health` is an answer that the view may give when asked for the health of a sub-pool.
pub open spec fn health_shown<V: KeeperChainView>(
    view: &V,
    id: u32,
    health: Option<SubPoolHealth>,
) -> bool {
    call_ensures(V::sub_pool_health, (view, id), health)
}

/// What the model may predict for a sub-pool of a view: nothing where the
/// view does not know its health.
pub open spec fn shown_pool_predicted<
    V: KeeperChainView,
    P: Fn(&SubPoolHealth, Direction) -> Option<RotatePrediction>,
>(view: &V, model: P, id: u32, all: Seq<RotatePrediction>) -> bool {
    exists|health: Option<SubPoolHealth>| #[trigger]
        health_shown(view, id, health) && match health {
            None => all == Seq::<RotatePrediction>::empty(),
            Some(h) => pool_predicted(model, h, all),
        }
}

/// The model may have predicted `parts[i]` for the sub-pool `ids[i]`, each in turn.
pub open spec fn predicted_in_turn<
    V: KeeperChainView,
    P: Fn(&SubPoolHealth, Direction) -> Option<RotatePrediction>,
>(view: &V, model: P, ids: Seq<u32>, parts: Seq<Seq<RotatePrediction>>) -> bool {
    &&& parts.len() == ids.len()
    &&& forall|i: int|
        0 <= i < ids.len() ==> shown_pool_predicted(view, model, ids[i], #[trigger] parts[i])
}

/// What the model may predict for a view.
pub open spec fn view_predicted<
    V: KeeperChainView,
    P: Fn(&SubPoolHealth, Direction) -> Option<RotatePrediction>,
>(view: &V, model: P, all: Seq<RotatePrediction>) -> bool {
    exists|parts: Seq<Seq<RotatePrediction>>| #[trigger]
        predicted_in_turn(view, model, view.ids(), parts) && all == parts.flatten()
}

/// Asks the model about one side of a sub-pool, where there is something to ask.
fn predict_side<P: Fn(&SubPoolHealth, Direction) -> Option<RotatePrediction>>(
    h: &SubPoolHealth,
    direction: Direction,
    model: &P,
) -> (r: Option<RotatePrediction>)
    requires
        model.requires((h, direction)),
    ensures
        side_predicted(*model, *h, direction, r),
{
    match side_exposure(h, direction) {
        Some(_) => model(h, direction),
        None => None,
    }
}

/// Asks the model about both sides of a sub-pool, the long side first.
pub fn predict_one<P: Fn(&SubPoolHealth, Direction) -> Option<RotatePrediction>>(
    h: &SubPoolHealth,
    model: &P,
) -> (r: Vec<RotatePrediction>)
    requires
        forall|d: Direction| #[trigger] model.requires((h, d)),
    ensures
        pool_predicted(*model, *h, r@),
{
    let mut out: Vec<RotatePrediction> = Vec::new();
    let long: Option<RotatePrediction> = predict_side(h, Direction::Long, model);
    let short: Option<RotatePrediction> = predict_side(h, Direction::Short, model);
    if let Some(p) = long {
        out.push(p);
    }
    if let Some(p) = short {
        out.push(p);
    }
    proof {
        assert(side_predicted(*model, *h, Direction::Long, long));
        assert(side_predicted(*model, *h, Direction::Short, short));
        assert(out@ =~= at_most_one(long) + at_most_one(short));
    }
    out
}

/// Asks the model about every sub-pool of a view, in order. One whose health
/// the view does not know is passed over.
pub fn predict_all<
    V: KeeperChainView,
    P: Fn(&SubPoolHealth, Direction) -> Option<RotatePrediction>,
>(view: &V, model: &P) -> (r: Vec<RotatePrediction>)
    requires
        forall|h: &SubPoolHealth, d: Direction| #[trigger] model.requires((h, d)),
    ensures
        view_predicted(view, *model, r@),
{
    let ids: Vec<u32> = view.sub_pool_ids();
    let mut out: Vec<RotatePrediction> = Vec::new();
    let ghost mut parts: Seq<Seq<RotatePrediction>> = Seq::empty();
    let mut i: usize = 0;
    while i < ids.len()
        invariant
            i <= ids@.len(),
            ids@ == view.ids(),
            forall|h: &SubPoolHealth, d: Direction| #[trigger] model.requires((h, d)),
            parts.len() == i,
            forall|j: int|
                0 <= j < i ==> shown_pool_predicted(view, *model, ids@[j], #[trigger] parts[j]),
            out@ == parts.flatten(),
        decreases ids@.len() - i,
    {
        let id: u32 = ids[i];
        let health: Option<SubPoolHealth> = view.sub_pool_health(id);
        let ghost before = parts;
        let mut more: Vec<RotatePrediction> = Vec::new();
        if let Some(h) = health {
            more = predict_one(&h, model);
        }
        proof {
            assert(health_shown(view, id, health));
            assert(health is None ==> more@ =~= Seq::<RotatePrediction>::empty());
            parts = before.push(more@);
            assert(shown_pool_predicted(view, *model, id, more@));
            assert forall|j: int| 0 <= j < i + 1 implies shown_pool_predicted(
                view,
                *model,
                ids@[j],
                #[trigger] parts[j],
            ) by {
                if j < i {
                    assert(parts[j] == before[j]);
                }
            }
            before.lemma_flatten_push(more@);
        }
        out.append(&mut more);
        i = i + 1;
    }
    proof {
        assert(predicted_in_turn(view, *model, view.ids(), parts));
    }
    out
}

/// Asks the model about every sub-pool of a view and records the bucket of
/// each prediction.
pub fn populate_scheduler<
    V: KeeperChainView,
    P: Fn(&SubPoolHealth, Direction) -> Option<RotatePrediction>,
>(view: &V, planner: &mut Scheduler, model: &P) -> (r: Vec<RotatePrediction>)
    requires
        old(planner).wf(),
        forall|h: &SubPoolHealth, d: Direction| #[trigger] model.requires((h, d)),
    ensures
        view_predicted(view, *model, r@),
        final(planner).wf(),
        final(planner).settings() == old(planner).settings(),
        final(planner).hints() == scheduler::recorded_all(old(planner).hints(), r@),
{
    let predictions: Vec<RotatePrediction> = predict_all(view, model);
    planner.record_predictions(&predictions);
    predictions
}

/// A view that knows the health of no sub-pool yields no prediction.
pub proof fn law_unknown_health_is_passed_over<
    V: KeeperChainView,
    P: Fn(&SubPoolHealth, Direction) -> Option<RotatePrediction>,
>(view: &V, model: P, all: Seq<RotatePrediction>)
    requires
        view_predicted(view, model, all),
        forall|id: u32, health: Option<SubPoolHealth>|
            view.ids().contains(id) && #[trigger] health_shown(view, id, health)
                ==> health is None,
    ensures
        all == Seq::<RotatePrediction>::empty(),
{
    let parts = choose|parts: Seq<Seq<RotatePrediction>>| #[trigger]
        predicted_in_turn(view, model, view.ids(), parts) && all == parts.flatten();
    assert forall|i: int| 0 <= i < parts.len() implies #[trigger] parts[i] == Seq::<
        RotatePrediction,
    >::empty() by {
        assert(shown_pool_predicted(view, model, view.ids()[i], parts[i]));
        assert(view.ids().contains(view.ids()[i]));
    }
    lemma_flatten_of_nothing(parts);
}

/// For a sub-pool without a price, or whose sides have no position, nothing
/// is predicted; and for a long side whose equity covers its notional, nothing
/// either, whatever the model would say.
pub proof fn law_safe_sides_are_not_predicted<
    P: Fn(&SubPoolHealth, Direction) -> Option<RotatePrediction>,
>(model: P, h: SubPoolHealth, all: Seq<RotatePrediction>)
    requires
        pool_predicted(model, h, all),
    ensures
        h.last_price == 0 || (h.long_active_notional == 0 && h.short_active_notional == 0)
            ==> all == Seq::<RotatePrediction>::empty(),
        h.long_pool_equity >= h.long_active_notional ==> exists|short: Option<RotatePrediction>|
            #[trigger] side_predicted(model, h, Direction::Short, short) && all == at_most_one(
                short,
            ),
{
    let (long, short) = choose|long: Option<RotatePrediction>, short: Option<RotatePrediction>|
        #![trigger side_predicted(model, h, Direction::Long, long), side_predicted(model, h, Direction::Short, short)]
        {
            &&& side_predicted(model, h, Direction::Long, long)
            &&& side_predicted(model, h, Direction::Short, short)
            &&& all == at_most_one(long) + at_most_one(short)
        };
    if long is None {
        assert(all =~= at_most_one(short));
    }
}

/// Empty lists put together are empty.
proof fn lemma_flatten_of_nothing(parts: Seq<Seq<RotatePrediction>>)
    requires
        forall|i: int|
            0 <= i < parts.len() ==> #[trigger] parts[i] == Seq::<RotatePrediction>::empty(),
    ensures
        parts.flatten() == Seq::<RotatePrediction>::empty(),
    decreases parts.len(),
{
    if parts.len() > 0 {
        let rest = parts.drop_first();
        assert forall|i: int| 0 <= i < rest.len() implies #[trigger] rest[i] == Seq::<
            RotatePrediction,
        >::empty() by {
            assert(rest[i] == parts[i + 1]);
        }
        lemma_flatten_of_nothing(rest);
        assert(parts.flatten() =~= parts.first() + rest.flatten());
    }
}

/// What is predicted for a sub-pool is what the model says of its sides: at
/// most one prediction for each, the one for the long side first. A side
/// that the model is asked about, and of which it is sure, is not left out.
pub proof fn law_sides_are_predicted_in_turn<
    P: Fn(&SubPoolHealth, Direction) -> Option<RotatePrediction>,
>(model: P, h: SubPoolHealth, all: Seq<RotatePrediction>)
    requires
        pool_predicted(model, h, all),
    ensures
        all.len() <= 2,
        all.len() == 2 ==> model.ensures((&h, Direction::Long), Some(all[0])) && model.ensures(
            (&h, Direction::Short),
            Some(all[1]),
        ),
        all.len() == 1 ==> model.ensures((&h, Direction::Long), Some(all[0])) || model.ensures(
            (&h, Direction::Short),
            Some(all[0]),
        ),
        h.last_price > 0 && h.long_anchor_price > 0 && h.long_pool_equity < h.long_active_notional
            && !model.ensures((&h, Direction::Long), None) ==> all.len() > 0 && model.ensures(
            (&h, Direction::Long),
            Some(all[0]),
        ),
        h.last_price > 0 && h.short_anchor_price > 0 && h.short_active_notional > 0
            && !model.ensures((&h, Direction::Short), None) ==> all.len() > 0 && model.ensures(
            (&h, Direction::Short),
            Some(all.last()),
        ),
{
    let (long, short) = choose|long: Option<RotatePrediction>, short: Option<RotatePrediction>|
        #![trigger side_predicted(model, h, Direction::Long, long), side_predicted(model, h, Direction::Short, short)]
        {
            &&& side_predicted(model, h, Direction::Long, long)
            &&& side_predicted(model, h, Direction::Short, short)
            &&& all == at_most_one(long) + at_most_one(short)
        };
    if long is None {
        assert(all =~= at_most_one(short));
    }
    if short is None {
        assert(all =~= at_most_one(long));
    }
}

/// Nothing that is predicted for a sub-pool of a view is lost, and nothing
/// else is predicted.
pub proof fn law_every_sub_pool_is_asked_about<
    V: KeeperChainView,
    P: Fn(&SubPoolHealth, Direction) -> Option<RotatePrediction>,
>(view: &V, model: P, all: Seq<RotatePrediction>)
    requires
        view_predicted(view, model, all),
    ensures
        forall|i: int|
            0 <= i < view.ids().len() ==> #[trigger] asked_in_full(view, model, view.ids()[i], all),
        forall|p: RotatePrediction| #[trigger]
            all.contains(p) ==> exists|i: int|
                0 <= i < view.ids().len() && #[trigger] asked_for(view, model, view.ids()[i], p),
{
    let parts = choose|parts: Seq<Seq<RotatePrediction>>| #[trigger]
        predicted_in_turn(view, model, view.ids(), parts) && all == parts.flatten();
    assert forall|i: int| 0 <= i < view.ids().len() implies #[trigger] asked_in_full(
        view,
        model,
        view.ids()[i],
        all,
    ) by {
        assert(shown_pool_predicted(view, model, view.ids()[i], parts[i]));
        assert forall|p: RotatePrediction| #[trigger] parts[i].contains(p) implies all.contains(
            p,
        ) by {
            lemma_flattened(parts, p);
        }
    }
    assert forall|p: RotatePrediction| #[trigger] all.contains(p) implies exists|i: int|
        0 <= i < view.ids().len() && #[trigger] asked_for(view, model, view.ids()[i], p) by {
        lemma_flattened(parts, p);
        let i = choose|i: int| 0 <= i < parts.len() && (#[trigger] parts[i]).contains(p);
        assert(shown_pool_predicted(view, model, view.ids()[i], parts[i]));
        assert(asked_for(view, model, view.ids()[i], p));
    }
}

/// What the model may predict for the sub-pool is all in the list.
pub open spec fn asked_in_full<
    V: KeeperChainView,
    P: Fn(&SubPoolHealth, Direction) -> Option<RotatePrediction>,
>(view: &V, model: P, id: u32, all: Seq<RotatePrediction>) -> bool {
    exists|part: Seq<RotatePrediction>| #[trigger]
        shown_pool_predicted(view, model, id, part) && forall|p: RotatePrediction| #[trigger]
            part.contains(p) ==> all.contains(p)
}

/// The prediction is among what the model may predict for the sub-pool.
pub open spec fn asked_for<
    V: KeeperChainView,
    P: Fn(&SubPoolHealth, Direction) -> Option<RotatePrediction>,
>(view: &V, model: P, id: u32, p: RotatePrediction) -> bool {
    exists|part: Seq<RotatePrediction>| #[trigger]
        shown_pool_predicted(view, model, id, part) && part.contains(p)
}

/// Lists put together hold what the lists hold.
proof fn lemma_flattened(parts: Seq<Seq<RotatePrediction>>, p: RotatePrediction)
    ensures
        parts.flatten().contains(p) <==> exists|i: int|
            0 <= i < parts.len() && (#[trigger] parts[i]).contains(p),
    decreases parts.len(),
{
    if parts.len() > 0 {
        let rest = parts.drop_first();
        lemma_flattened(rest, p);
        let first = parts.first();
        let all = parts.flatten();
        assert(all =~= first + rest.flatten());
        assert(parts[0] == first);
        if all.contains(p) {
            let k = choose|k: int| 0 <= k < all.len() && all[k] == p;
            if k < first.len() {
                assert(first[k] == p);
                assert(parts[0].contains(p));
            } else {
                assert(rest.flatten()[k - first.len()] == p);
                let i = choose|i: int| 0 <= i < rest.len() && (#[trigger] rest[i]).contains(p);
                assert(parts[i + 1].contains(p));
            }
        }
        if exists|i: int| 0 <= i < parts.len() && (#[trigger] parts[i]).contains(p) {
            let i = choose|i: int| 0 <= i < parts.len() && (#[trigger] parts[i]).contains(p);
            if i == 0 {
                let k = choose|k: int| 0 <= k < first.len() && first[k] == p;
                assert(all[k] == p);
            } else {
                assert(rest[i - 1].contains(p));
                let r = rest.flatten();
                let k = choose|k: int| 0 <= k < r.len() && r[k] == p;
                assert(all[first.len() + k] == p);
            }
        }
    }
}

} // verus!
