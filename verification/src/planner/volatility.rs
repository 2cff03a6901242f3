//! The price window behind the realised-volatility estimate, and the
//! rotations that the risk model predicts.
//!
//! The model itself works in floating point and lives with the caller. Here
//! stands which observations it sees, and what its answers are made of;
//! [`crate::planner::predictor`] asks it.
use vstd::prelude::*;
use vstd::seq_lib::*;

use crate::planner::scheduler;
use crate::planner::scheduler::InitHint;
use crate::planner::{Direction, InitRationale, SubPoolHealth};

verus! {

/// One oracle observation.
#[derive(Debug, Clone, Copy, PartialEq, Eq, Structural)]
pub struct PriceSample {
    /// Price in the engine's fixed-point units.
    pub price: u64,
    /// Slot the price was observed at.
    pub slot: u64,
}

/// Settings of [`RealizedVolatilityEstimator`].
#[derive(Debug, Clone, Copy, PartialEq, Eq, Structural)]
pub struct RealizedVolatilityEstimatorConfig {
    /// At most this many samples are kept.
    pub max_samples: usize,
    /// No sample is kept that is older than this.
    pub max_age_slots: u64,
    /// Fewer samples than this give no estimate.
    pub min_samples: usize,
}

impl Default for RealizedVolatilityEstimatorConfig {
    fn default() -> (r: Self)
        ensures
            r.max_samples == 256,
            r.max_age_slots == 54_000,
            r.min_samples == 16,
    {
        RealizedVolatilityEstimatorConfig {
            max_samples: 256,
            max_age_slots: 54_000,
            min_samples: 16,
        }
    }
}

/// Slots strictly increase from sample to sample.
pub open spec fn increasing(samples: Seq<PriceSample>) -> bool {
    forall|i: int, j: int|
        #![trigger samples[i], samples[j]]
        0 <= i < j < samples.len() ==> samples[i].slot < samples[j].slot
}

/// No sample has a zero price.
pub open spec fn priced(samples: Seq<PriceSample>) -> bool {
    forall|i: int| 0 <= i < samples.len() ==> (#[trigger] samples[i]).price > 0
}

/// The last `n` values of a list, or all where it has fewer.
pub open spec fn last_values(s: Seq<PriceSample>, n: int) -> Seq<PriceSample> {
    if s.len() > n {
        s.skip(s.len() - n)
    } else {
        s
    }
}

/// A sample is taken in when it is newer than the last one and has a price.
pub open spec fn admissible(samples: Seq<PriceSample>, sample: PriceSample) -> bool {
    sample.price > 0 && (samples.len() > 0 ==> samples.last().slot < sample.slot)
}

/// The oldest slot that is kept when a sample of slot `slot` is the newest.
pub open spec fn cutoff(slot: u64, max_age_slots: u64) -> int {
    if slot >= max_age_slots {
        slot - max_age_slots
    } else {
        0
    }
}

/// The samples from the slot `oldest` on.
pub open spec fn recent(samples: Seq<PriceSample>, oldest: int) -> Seq<PriceSample> {
    samples.filter(|s: PriceSample| s.slot >= oldest)
}

/// The window after a sample: an admissible one is appended, then samples
/// that are too old leave, then the oldest of those that are too many.
pub open spec fn window_after(
    config: RealizedVolatilityEstimatorConfig,
    samples: Seq<PriceSample>,
    sample: PriceSample,
) -> Seq<PriceSample> {
    if admissible(samples, sample) {
        last_values(
            recent(samples.push(sample), cutoff(sample.slot, config.max_age_slots)),
            config.max_samples as int,
        )
    } else {
        samples
    }
}

/// The rolling window of oracle observations.
#[derive(Debug)]
pub struct RealizedVolatilityEstimator {
    config: RealizedVolatilityEstimatorConfig,
    samples: Vec<PriceSample>,
}

impl Clone for RealizedVolatilityEstimator {
    fn clone(&self) -> (r: Self)
        ensures
            r.settings() == self.settings(),
            r.window() == self.window(),
    {
        let samples: Vec<PriceSample> = self.samples.clone();
        proof {
            assert(samples@ =~= self.samples@);
        }
        RealizedVolatilityEstimator { config: self.config, samples }
    }
}

impl Default for RealizedVolatilityEstimator {
    fn default() -> (r: Self)
        ensures
            r.wf(),
            r.window() == Seq::<PriceSample>::empty(),
            r.settings().max_samples == 256,
            r.settings().max_age_slots == 54_000,
            r.settings().min_samples == 16,
    {
        RealizedVolatilityEstimator::new(RealizedVolatilityEstimatorConfig::default())
    }
}

impl RealizedVolatilityEstimator {
    /// The settings.
    pub closed spec fn settings(&self) -> RealizedVolatilityEstimatorConfig {
        self.config
    }

    /// The samples kept, oldest first.
    pub closed spec fn window(&self) -> Seq<PriceSample> {
        self.samples@
    }

    /// The samples stand in order of time, have prices, and are not too many.
    pub open spec fn wf(&self) -> bool {
        &&& increasing(self.window())
        &&& priced(self.window())
        &&& self.window().len() <= self.settings().max_samples
    }

    /// A window without samples.
    pub fn new(config: RealizedVolatilityEstimatorConfig) -> (r: Self)
        ensures
            r.wf(),
            r.settings() == config,
            r.window() == Seq::<PriceSample>::empty(),
    {
        RealizedVolatilityEstimator { config, samples: Vec::new() }
    }

    /// The settings.
    pub fn config(&self) -> (r: &RealizedVolatilityEstimatorConfig)
        ensures
            *r == self.settings(),
    {
        &self.config
    }

    /// Number of samples kept.
    pub fn sample_count(&self) -> (r: usize)
        ensures
            r == self.window().len(),
    {
        self.samples.len()
    }

    /// The samples kept, oldest first.
    pub fn samples(&self) -> (r: &Vec<PriceSample>)
        ensures
            r@ == self.window(),
    {
        &self.samples
    }

    /// Whether there are samples enough for an estimate.
    pub fn is_warm(&self) -> (r: bool)
        ensures
            r == (self.window().len() >= self.settings().min_samples),
    {
        self.samples.len() >= self.config.min_samples
    }

    /// Drops every sample.
    pub fn reset(&mut self)
        ensures
            final(self).wf(),
            final(self).settings() == old(self).settings(),
            final(self).window() == Seq::<PriceSample>::empty(),
    {
        self.samples.clear();
    }

    /// Takes a sample in. One that is not newer than the last, or has no
    /// price, is dropped.
    pub fn record(&mut self, sample: PriceSample)
        requires
            old(self).wf(),
        ensures
            final(self).wf(),
            final(self).settings() == old(self).settings(),
            final(self).window() == window_after(old(self).settings(), old(self).window(), sample),
    {
        let n: usize = self.samples.len();
        if n > 0 {
            if sample.slot <= self.samples[n - 1].slot {
                return;
            }
        }
        if sample.price == 0 {
            return;
        }
        self.samples.push(sample);
        let ghost grown = self.samples@;
        proof {
            assert forall|i: int, j: int|
                #![trigger grown[i], grown[j]]
                0 <= i < j < grown.len() implies grown[i].slot < grown[j].slot by {
                if j == grown.len() - 1 && i < n - 1 {
                    assert(grown[i].slot < grown[n - 1].slot);
                }
            }
        }
        let oldest: u64 = sample.slot.saturating_sub(self.config.max_age_slots);
        proof {
            assert(grown.skip(0) =~= grown);
        }
        let ghost mut k: int = 0;
        while self.samples.len() > 0 && self.samples[0].slot < oldest
            invariant
                0 <= k <= grown.len(),
                self.samples@ == grown.skip(k),
                self.config == old(self).config,
                forall|i: int| 0 <= i < k ==> (#[trigger] grown[i]).slot < oldest,
            decreases self.samples@.len(),
        {
            let _ = self.samples.remove(0);
            proof {
                assert(self.samples@ =~= grown.skip(k + 1));
                k = k + 1;
            }
        }
        proof {
            lemma_old_prefix_leaves(grown, k, oldest as int);
        }
        let ghost high = self.samples@;
        let ghost mut dropped: int = 0;
        proof {
            assert(high.skip(0) =~= high);
        }
        while self.samples.len() > self.config.max_samples
            invariant
                0 <= dropped <= high.len(),
                self.samples@ == high.skip(dropped),
                self.config == old(self).config,
                dropped > 0 ==> high.len() - dropped >= self.config.max_samples,
            decreases self.samples@.len(),
        {
            let _ = self.samples.remove(0);
            proof {
                assert(self.samples@ =~= high.skip(dropped + 1));
                dropped = dropped + 1;
            }
        }
        proof {
            assert(self.samples@ =~= last_values(high, self.config.max_samples as int));
            assert(self.samples@ =~= grown.skip(k + dropped));
            lemma_suffix_in_order(grown, k + dropped);
        }
    }
}

/// Of samples in order of time, dropping those before the cutoff from the
/// front is keeping those from the cutoff on.
proof fn lemma_old_prefix_leaves(samples: Seq<PriceSample>, k: int, oldest: int)
    requires
        increasing(samples),
        0 <= k <= samples.len(),
        forall|i: int| 0 <= i < k ==> (#[trigger] samples[i]).slot < oldest,
        k < samples.len() ==> samples[k].slot >= oldest,
    ensures
        recent(samples, oldest) == samples.skip(k),
{
    let young = |s: PriceSample| s.slot >= oldest;
    let low = samples.take(k);
    let high = samples.skip(k);
    assert(samples =~= low + high);
    assert forall|i: int| 0 <= i < high.len() implies young(#[trigger] high[i]) by {
        if i > 0 {
            assert(samples[k].slot < samples[k + i].slot);
        }
    }
    assert forall|i: int| 0 <= i < low.len() implies !young(#[trigger] low[i]) by {
        assert(samples[i].slot < oldest);
    }
    Seq::filter_distributes_over_add(low, high, young);
    scheduler::lemma_filter_none(low, young);
    scheduler::lemma_filter_all(high, young);
    assert(samples.filter(young) =~= high);
}

/// The last samples of a window in order are in order.
proof fn lemma_suffix_in_order(samples: Seq<PriceSample>, k: int)
    requires
        increasing(samples),
        priced(samples),
        0 <= k <= samples.len(),
    ensures
        increasing(samples.skip(k)),
        priced(samples.skip(k)),
{
    let w = samples.skip(k);
    assert forall|i: int, j: int|
        #![trigger w[i], w[j]]
        0 <= i < j < w.len() implies w[i].slot < w[j].slot by {
        assert(samples[k + i].slot < samples[k + j].slot);
    }
    assert forall|i: int| 0 <= i < w.len() implies (#[trigger] w[i]).price > 0 by {
        assert(w[i] == samples[k + i]);
    }
}

/// The window never holds a sample that is too old for its newest one.
pub proof fn law_window_is_recent(
    config: RealizedVolatilityEstimatorConfig,
    samples: Seq<PriceSample>,
    sample: PriceSample,
    i: int,
)
    requires
        admissible(samples, sample),
        0 <= i < window_after(config, samples, sample).len(),
    ensures
        window_after(config, samples, sample)[i].slot >= cutoff(sample.slot, config.max_age_slots),
{
    let oldest = cutoff(sample.slot, config.max_age_slots);
    let young = |s: PriceSample| s.slot >= oldest;
    let kept = samples.push(sample).filter(young);
    let n = config.max_samples as int;
    let j = if kept.len() > n {
        kept.len() - n + i
    } else {
        i
    };
    samples.push(sample).lemma_filter_pred(young, j);
}

/// A sample that is not newer than the last one changes nothing, and
/// neither does one without a price.
pub proof fn law_stale_samples_are_dropped(
    config: RealizedVolatilityEstimatorConfig,
    samples: Seq<PriceSample>,
    sample: PriceSample,
)
    requires
        sample.price == 0 || (samples.len() > 0 && sample.slot <= samples.last().slot),
    ensures
        window_after(config, samples, sample) == samples,
{
}

/// A rotation that the risk model expects.
#[derive(Debug, Clone, Copy, PartialEq, Eq, Structural)]
pub struct RotatePrediction {
    /// Sub pool id.
    pub sub_pool_id: u32,
    /// Side whose active pool is at risk of reaching zero.
    pub direction: Direction,
    /// Price at which the equity of that side reaches zero.
    pub zero_price: u64,
    /// Tick of the bucket that the rotation lands on.
    pub zero_tick: i64,
}

impl RotatePrediction {
    /// The hint to create the bucket that the rotation lands on.
    pub open spec fn hint(self) -> InitHint {
        InitHint {
            sub_pool_id: self.sub_pool_id,
            direction: self.direction,
            tick: self.zero_tick,
            rationale: InitRationale::RotateRiskHorizon,
        }
    }
}

/// What the risk model reads of one side of a sub-pool.
#[derive(Debug, Clone, Copy, PartialEq, Eq, Structural)]
pub struct SideExposure {
    /// Anchor price.
    pub anchor_price: u64,
    /// Pool equity.
    pub equity: u128,
    /// Active notional.
    pub notional: u128,
}

/// One side of a sub-pool.
pub open spec fn side_of(h: SubPoolHealth, direction: Direction) -> SideExposure {
    match direction {
        Direction::Long => SideExposure {
            anchor_price: h.long_anchor_price,
            equity: h.long_pool_equity,
            notional: h.long_active_notional,
        },
        Direction::Short => SideExposure {
            anchor_price: h.short_anchor_price,
            equity: h.short_pool_equity,
            notional: h.short_active_notional,
        },
    }
}

/// The risk model is asked about the side: there is a price, an anchor and a
/// position, and the side can reach zero. A long side whose equity covers its
/// notional cannot, as the price would have to fall below nothing.
pub open spec fn asked_about(h: SubPoolHealth, direction: Direction) -> bool {
    let side = side_of(h, direction);
    &&& h.last_price > 0
    &&& side.anchor_price > 0
    &&& side.notional > 0
    &&& !(direction == Direction::Long && side.equity >= side.notional)
}

/// The side of a sub-pool, where the risk model is asked about it.
pub fn side_exposure(h: &SubPoolHealth, direction: Direction) -> (r: Option<SideExposure>)
    ensures
        r == if asked_about(*h, direction) {
            Some(side_of(*h, direction))
        } else {
            None
        },
{
    if h.last_price == 0 {
        return None;
    }
    let side = match direction {
        Direction::Long => SideExposure {
            anchor_price: h.long_anchor_price,
            equity: h.long_pool_equity,
            notional: h.long_active_notional,
        },
        Direction::Short => SideExposure {
            anchor_price: h.short_anchor_price,
            equity: h.short_pool_equity,
            notional: h.short_active_notional,
        },
    };
    if side.anchor_price == 0 || side.notional == 0 {
        return None;
    }
    if direction == Direction::Long && side.equity >= side.notional {
        return None;
    }
    Some(side)
}

/// The prediction that a side reaches zero at `zero_price`, on the market's tick grid.
pub fn rotate_prediction(
    h: &SubPoolHealth,
    direction: Direction,
    zero_price: u64,
    price_tick: u64,
    tick_aggregation_factor: u32,
) -> (r: RotatePrediction)
    ensures
        r == (RotatePrediction {
            sub_pool_id: h.sub_pool_id,
            direction,
            zero_price,
            zero_tick: tick_of_price(zero_price, price_tick, tick_aggregation_factor),
        }),
{
    RotatePrediction {
        sub_pool_id: h.sub_pool_id,
        direction,
        zero_price,
        zero_tick: price_to_tick(zero_price, price_tick, tick_aggregation_factor),
    }
}

/// The tick of a price: `floor(price / (price_tick * factor))`, at most
/// `i64::MAX`. A factor of zero counts as one; without a tick size it is zero.
pub open spec fn tick_of_price(price: u64, price_tick: u64, tick_aggregation_factor: u32) -> i64 {
    let factor: int = if tick_aggregation_factor == 0 {
        1
    } else {
        tick_aggregation_factor as int
    };
    if price_tick == 0 {
        0
    } else {
        let t = price as int / (price_tick * factor);
        if t > i64::MAX {
            i64::MAX
        } else {
            t as i64
        }
    }
}

/// Rounds a price down to the tick grid of its market.
pub fn price_to_tick(price: u64, price_tick: u64, tick_aggregation_factor: u32) -> (r: i64)
    ensures
        r == tick_of_price(price, price_tick, tick_aggregation_factor),
{
    let factor: u128 = if tick_aggregation_factor == 0 {
        1
    } else {
        tick_aggregation_factor as u128
    };
    if price_tick == 0 {
        return 0;
    }
    proof {
        assert(0 < price_tick * factor <= 0xffff_ffff_ffff_ffff * 0xffff_ffff) by (nonlinear_arith)
            requires
                0 < price_tick <= 0xffff_ffff_ffff_ffff,
                0 < factor <= 0xffff_ffff,
        ;
    }
    let denom: u128 = price_tick as u128 * factor;
    let t: u128 = price as u128 / denom;
    if t > i64::MAX as u128 {
        i64::MAX
    } else {
        t as i64
    }
}

} // verus!
