//! What the price window promises: it holds the newest observations, and
//! none that is too old for the newest.
use vstd::prelude::*;
use vstd::seq_lib::*;

use crate::planner::volatility;
use crate::planner::volatility::{
    tick_of_price, PriceSample, RealizedVolatilityEstimatorConfig, RotatePrediction,
};
use crate::planner::{Direction, SubPoolHealth};

verus! {

/// Of samples in order of time, those from a slot on are a tail.
proof fn lemma_recent_is_a_tail(samples: Seq<PriceSample>, oldest: int) -> (k: int)
    requires
        volatility::increasing(samples),
    ensures
        0 <= k <= samples.len(),
        volatility::recent(samples, oldest) == samples.skip(k),
        forall|i: int| 0 <= i < k ==> (#[trigger] samples[i]).slot < oldest,
        forall|i: int| k <= i < samples.len() ==> (#[trigger] samples[i]).slot >= oldest,
    decreases samples.len(),
{
    let young = |s: PriceSample| s.slot >= oldest;
    reveal(Seq::filter);
    if samples.len() == 0 {
        assert(samples.filter(young) =~= samples.skip(0));
        0
    } else {
        let most = samples.drop_last();
        let n = samples.len() - 1;
        assert(samples[n] == samples.last());
        assert forall|i: int, j: int|
            #![trigger most[i], most[j]]
            0 <= i < j < most.len() implies most[i].slot < most[j].slot by {
            assert(samples[i].slot < samples[j].slot);
        }
        let k = lemma_recent_is_a_tail(most, oldest);
        if samples.last().slot >= oldest {
            assert(samples.filter(young) =~= samples.skip(k));
            assert forall|i: int| 0 <= i < k implies (#[trigger] samples[i]).slot < oldest by {
                assert(most[i] == samples[i]);
            }
            assert forall|i: int| k <= i < samples.len() implies (#[trigger] samples[i]).slot
                >= oldest by {
                if i < n {
                    assert(most[i] == samples[i]);
                }
            }
            k
        } else {
            assert(k == n) by {
                if k < n {
                    assert(most[k] == samples[k]);
                    assert(samples[k].slot < samples[n].slot);
                }
            }
            assert(samples.filter(young) =~= samples.skip(n + 1));
            assert forall|i: int| 0 <= i < n + 1 implies (#[trigger] samples[i]).slot < oldest by {
                if i < n {
                    assert(most[i] == samples[i]);
                }
            }
            n + 1
        }
    }
}

/// A sample with a price, newer than the last, is taken in: afterwards the
/// window is the end of what it was with the sample behind it. As much of
/// that end stays as the two limits allow: at most so many samples, and none
/// that is older than the newest by more than the age allowed. What stays is
/// newer than anything that left.
pub proof fn law_window_keeps_the_newest(
    config: RealizedVolatilityEstimatorConfig,
    samples: Seq<PriceSample>,
    sample: PriceSample,
)
    requires
        forall|i: int, j: int|
            #![trigger samples[i], samples[j]]
            0 <= i < j < samples.len() ==> samples[i].slot < samples[j].slot,
        sample.price > 0,
        samples.len() > 0 ==> samples.last().slot < sample.slot,
    ensures
        ({
            let w = volatility::window_after(config, samples, sample);
            let grown = samples.push(sample);
            let left = grown.len() - w.len();
            &&& w.len() <= grown.len()
            &&& w.len() <= config.max_samples
            &&& forall|i: int| 0 <= i < w.len() ==> #[trigger] w[i] == grown[left + i]
            &&& forall|i: int|
                0 <= i < w.len() ==> sample.slot - (#[trigger] w[i]).slot <= config.max_age_slots
            &&& left > 0 ==> w.len() == config.max_samples || sample.slot - grown[left - 1].slot
                > config.max_age_slots
            &&& forall|i: int, j: int|
                #![trigger grown[i], w[j]]
                0 <= i < left && 0 <= j < w.len() ==> grown[i].slot < w[j].slot
            &&& config.max_samples > 0 ==> w.len() > 0 && w.last() == sample
        }),
{
    let w = volatility::window_after(config, samples, sample);
    let grown = samples.push(sample);
    let n = grown.len() as int;
    let left = n - w.len();
    let oldest = volatility::cutoff(sample.slot, config.max_age_slots);
    assert forall|i: int, j: int|
        #![trigger grown[i], grown[j]]
        0 <= i < j < grown.len() implies grown[i].slot < grown[j].slot by {
        if j == n - 1 && i < n - 2 {
            assert(samples[i].slot < samples[n - 2].slot);
        }
    }
    let k = lemma_recent_is_a_tail(grown, oldest);
    assert(grown[n - 1] == sample);
    assert(k < n);
    let tail = grown.skip(k);
    assert(w =~= tail.skip(tail.len() - w.len()));
    assert(forall|i: int| 0 <= i < w.len() ==> #[trigger] w[i] == grown[left + i]);
    assert(left >= k);
    assert forall|i: int| 0 <= i < w.len() implies sample.slot - (#[trigger] w[i]).slot
        <= config.max_age_slots by {
        assert(grown[left + i].slot >= oldest);
    }
    if left > 0 && w.len() != config.max_samples {
        assert(left == k);
        assert(grown[left - 1].slot < oldest);
    }
    assert forall|i: int, j: int|
        #![trigger grown[i], w[j]]
        0 <= i < left && 0 <= j < w.len() implies grown[i].slot < w[j].slot by {
        assert(grown[i].slot < grown[left + j].slot);
    }
}

/// The window after taking in a list of samples, one after the other.
pub open spec fn window_over(
    config: RealizedVolatilityEstimatorConfig,
    samples: Seq<PriceSample>,
) -> Seq<PriceSample>
    decreases samples.len(),
{
    if samples.len() == 0 {
        Seq::empty()
    } else {
        volatility::window_after(
            config,
            window_over(config, samples.drop_last()),
            samples.last(),
        )
    }
}

/// Of samples with prices, in order of time and none too old for the newest,
/// the window holds the last that were taken in, as many as it may hold.
pub proof fn law_full_window_holds_the_last(
    config: RealizedVolatilityEstimatorConfig,
    samples: Seq<PriceSample>,
)
    requires
        config.max_samples > 0,
        forall|i: int, j: int|
            #![trigger samples[i], samples[j]]
            0 <= i < j < samples.len() ==> samples[i].slot < samples[j].slot,
        forall|i: int| 0 <= i < samples.len() ==> (#[trigger] samples[i]).price > 0,
        samples.len() > 0 ==> samples.last().slot - samples[0].slot <= config.max_age_slots,
    ensures
        samples.len() <= config.max_samples ==> window_over(config, samples) == samples,
        samples.len() > config.max_samples ==> window_over(config, samples) == samples.subrange(
            samples.len() - config.max_samples,
            samples.len() as int,
        ),
    decreases samples.len(),
{
    if samples.len() > 0 {
        let most = samples.drop_last();
        let n = samples.len() as int;
        let last = samples.last();
        assert(samples[n - 1] == last);
        assert forall|i: int, j: int|
            #![trigger most[i], most[j]]
            0 <= i < j < most.len() implies most[i].slot < most[j].slot by {
            assert(samples[i].slot < samples[j].slot);
        }
        assert forall|i: int| 0 <= i < most.len() implies (#[trigger] most[i]).price > 0 by {
            assert(most[i] == samples[i]);
        }
        if n > 1 {
            assert(most[0] == samples[0] && most.last() == samples[n - 2]);
            assert(samples[n - 2].slot < samples[n - 1].slot);
        }
        law_full_window_holds_the_last(config, most);
        let before = window_over(config, most);
        let skipped = most.len() - before.len();
        assert forall|i: int| 0 <= i < before.len() implies #[trigger] before[i] == samples[skipped
            + i] by {}
        assert forall|i: int, j: int|
            #![trigger before[i], before[j]]
            0 <= i < j < before.len() implies before[i].slot < before[j].slot by {
            assert(samples[skipped + i].slot < samples[skipped + j].slot);
        }
        law_window_keeps_the_newest(config, before, last);
        let w = window_over(config, samples);
        let grown = before.push(last);
        let left = grown.len() - w.len();
        if left > 0 && w.len() != config.max_samples {
            assert(grown[left - 1] == samples[skipped + left - 1]);
            assert(samples[0].slot <= samples[skipped + left - 1].slot) by {
                if skipped + left - 1 > 0 {
                    assert(samples[0].slot < samples[skipped + left - 1].slot);
                }
            }
        }
        assert(w =~= samples.skip(n - w.len()));
        assert(samples.skip(n - w.len()) =~= samples.subrange(n - w.len(), n));
        if n <= config.max_samples {
            assert(samples.skip(0) =~= samples);
        }
    }
}

/// The tick of a price is the number of whole steps of the grid below it: the
/// price lies at or above the tick, and below the next one.
pub proof fn law_tick_lies_below_its_price(price: u64, price_tick: u64, factor: u32)
    requires
        price_tick > 0,
        factor > 0,
    ensures
        ({
            let tick = tick_of_price(price, price_tick, factor);
            let step = price_tick * factor;
            &&& tick >= 0
            &&& tick * step <= price
            &&& price < (tick + 1) * step || (tick == i64::MAX && step == 1)
        }),
{
    let step = price_tick * factor;
    assert(step > 0) by (nonlinear_arith)
        requires
            price_tick > 0,
            factor > 0,
            step == price_tick * factor,
    ;
    vstd::arithmetic::div_mod::lemma_fundamental_div_mod(price as int, step);
    let q = price as int / step;
    assert(q * step <= price < (q + 1) * step && q >= 0) by (nonlinear_arith)
        requires
            price as int == step * q + price as int % step,
            0 <= price as int % step < step,
            step > 0,
            price >= 0,
    ;
    let tick = tick_of_price(price, price_tick, factor);
    if q > i64::MAX {
        assert(step == 1) by (nonlinear_arith)
            requires
                q > 0x7fff_ffff_ffff_ffff,
                q * step <= 0xffff_ffff_ffff_ffff,
                step > 0,
        ;
        assert(tick * step <= price) by (nonlinear_arith)
            requires
                tick <= q,
                q * step <= price,
                step > 0,
        ;
    }
}

/// A grid without a factor is one with the factor one; without a tick size
/// every price has the tick zero.
pub proof fn law_degenerate_grids(price: u64, price_tick: u64, factor: u32)
    ensures
        tick_of_price(price, price_tick, 0) == tick_of_price(price, price_tick, 1),
        tick_of_price(price, 0, factor) == 0,
{
}

/// What a prediction asks for is the bucket of the sub-pool and side it is
/// about, at the tick where its equity is gone.
pub proof fn law_prediction_asks_for_its_bucket(p: RotatePrediction)
    ensures
        p.hint().sub_pool_id == p.sub_pool_id,
        p.hint().direction == p.direction,
        p.hint().tick == p.zero_tick,
        p.hint().rationale is RotateRiskHorizon,
{
}

/// A side of a sub-pool is read off the fields of that side alone.
pub proof fn law_sides_are_read_apart(h: SubPoolHealth)
    ensures
        ({
            let long = volatility::side_of(h, Direction::Long);
            let short = volatility::side_of(h, Direction::Short);
            &&& (long.anchor_price, long.equity, long.notional) == (
                h.long_anchor_price,
                h.long_pool_equity,
                h.long_active_notional,
            )
            &&& (short.anchor_price, short.equity, short.notional) == (
                h.short_anchor_price,
                h.short_pool_equity,
                h.short_active_notional,
            )
        }),
        volatility::asked_about(h, Direction::Long) <==> h.last_price > 0 && h.long_anchor_price
            > 0 && h.long_pool_equity < h.long_active_notional,
        volatility::asked_about(h, Direction::Short) <==> h.last_price > 0
            && h.short_anchor_price > 0 && h.short_active_notional > 0,
{
}

} // verus!
