//! What a keeper does between user transactions, and in which order.
//!
//! The chain relies on a keeper for three tasks: to drain pending
//! distribution entries into a dormant bucket, to close a bucket that is
//! drained, and to create a bucket ahead of a rotation. The planner reads a
//! [`KeeperChainView`] and returns the tasks, most urgent first.
pub mod complete;
pub mod cycle;
pub mod predictor;
pub mod rounds;
pub mod scheduler;
pub mod volatility;
pub mod warrant;
pub mod window;

use vstd::prelude::*;

use crate::text;

verus! {

/// Side of the market.
#[derive(Debug, Clone, Copy, PartialEq, Eq, Hash, Structural)]
pub enum Direction {
    /// Gains when the price rises.
    Long,
    /// Gains when the price falls.
    Short,
}

impl Direction {
    /// The name of the side.
    pub open spec fn name(self) -> Seq<char> {
        match self {
            Direction::Long => "Long"@,
            Direction::Short => "Short"@,
        }
    }

    /// Appends the name of the side.
    pub fn push_name(self, out: &mut String)
        ensures
            final(out)@ == old(out)@ + self.name(),
    {
        match self {
            Direction::Long => out.append("Long"),
            Direction::Short => out.append("Short"),
        }
    }
}

/// Errors of the planner: a chain view that contradicts itself.
#[derive(Debug, Clone, Copy, PartialEq, Eq, Structural)]
pub enum KeeperError {
    /// A bucket has applied more entries than its ledger has.
    BucketAheadOfLedger {
        /// Sub pool id.
        sub_pool: u32,
        /// Direction.
        direction: Direction,
        /// Bucket tick.
        tick: i64,
        /// The bucket's `last_applied_index`.
        applied: u64,
        /// The ledger's `next_event_index`.
        head: u64,
    },
    /// A bucket has no ledger.
    MissingLedger {
        /// Sub pool id.
        sub_pool: u32,
        /// Direction.
        direction: Direction,
    },
}

impl KeeperError {
    /// The text of the error.
    pub open spec fn text(self) -> Seq<char> {
        match self {
            KeeperError::BucketAheadOfLedger { sub_pool, direction, tick, applied, head } =>
            "invariant violated: bucket last_applied_index ("@ + text::decimal(applied as nat)
                + ") > ledger next_event_index ("@ + text::decimal(head as nat) + ") for ("@
                + text::decimal(sub_pool as nat) + ", "@ + direction.name() + ", tick="@
                + text::decimal_int(tick as int) + ")"@,
            KeeperError::MissingLedger { sub_pool, direction } =>
            "chain view: missing ledger for ("@ + text::decimal(sub_pool as nat) + ", "@
                + direction.name() + ")"@,
        }
    }

    /// Renders the error.
    pub fn to_string(&self) -> (r: String)
        ensures
            r@ == self.text(),
    {
        match self {
            KeeperError::BucketAheadOfLedger { sub_pool, direction, tick, applied, head } => {
                let mut out = String::from_str("invariant violated: bucket last_applied_index (");
                text::push_decimal(&mut out, *applied as u128);
                out.append(") > ledger next_event_index (");
                text::push_decimal(&mut out, *head as u128);
                out.append(") for (");
                text::push_decimal(&mut out, *sub_pool as u128);
                out.append(", ");
                direction.push_name(&mut out);
                out.append(", tick=");
                text::push_decimal_int(&mut out, *tick);
                out.append(")");
                out
            },
            KeeperError::MissingLedger { sub_pool, direction } => {
                let mut out = String::from_str("chain view: missing ledger for (");
                text::push_decimal(&mut out, *sub_pool as u128);
                out.append(", ");
                direction.push_name(&mut out);
                out.append(")");
                out
            },
        }
    }
}

/// One dormant bucket.
#[derive(Debug, Clone, Copy, PartialEq, Eq, Structural)]
pub struct BucketSnapshot {
    /// Sub pool id this bucket belongs to.
    pub sub_pool_id: u32,
    /// Direction.
    pub direction: Direction,
    /// Bucket tick.
    pub tick: i64,
    /// Anchor price stamped on the bucket.
    pub anchor_price: u64,
    /// Aggregated recovery shares.
    pub total_recovery_shares: u128,
    /// Aggregated dormant notional.
    pub total_recovery_notional: u128,
    /// Funds attributed to this bucket; redeemable by claim.
    pub accrued_value: u128,
    /// Number of distinct dormant positions held in this bucket.
    pub position_count: u64,
    /// Index of the last ledger entry applied to this bucket.
    pub last_applied_index: u64,
}

impl BucketSnapshot {
    /// Nothing is left in the bucket.
    pub open spec fn dead(&self) -> bool {
        self.total_recovery_shares == 0 && self.total_recovery_notional == 0 && self.accrued_value
            == 0 && self.position_count == 0
    }

    /// Whether nothing is left in the bucket.
    pub fn is_dead(&self) -> (r: bool)
        ensures
            r == self.dead(),
    {
        self.total_recovery_shares == 0 && self.total_recovery_notional == 0 && self.accrued_value
            == 0 && self.position_count == 0
    }
}

/// One distribution ledger, as far as the keeper reads it.
#[derive(Debug, Clone, Copy, PartialEq, Eq, Structural)]
pub struct LedgerSnapshot {
    /// Sub pool id.
    pub sub_pool_id: u32,
    /// Direction.
    pub direction: Direction,
    /// Absolute index just past the last appended entry.
    pub next_event_index: u64,
    /// Number of buckets the sub-pool accounts for on this side.
    pub bucket_count_hint: u32,
}

/// The active state of one sub-pool: what the rotate-risk model reads.
#[derive(Debug, Clone, Copy, PartialEq, Eq, Structural)]
pub struct SubPoolHealth {
    /// Sub pool id.
    pub sub_pool_id: u32,
    /// Last oracle price.
    pub last_price: u64,
    /// Anchor price of the long active generation.
    pub long_anchor_price: u64,
    /// Anchor price of the short active generation.
    pub short_anchor_price: u64,
    /// Long-side active pool equity. A rotation follows when it reaches zero.
    pub long_pool_equity: u128,
    /// Short-side active pool equity.
    pub short_pool_equity: u128,
    /// Long-side active notional.
    pub long_active_notional: u128,
    /// Short-side active notional.
    pub short_active_notional: u128,
    /// Active generation tag for long.
    pub long_active_generation: u64,
    /// Active generation tag for short.
    pub short_active_generation: u64,
}

/// What the planner reads from the chain. An implementation says what it shows.
pub trait KeeperChainView {
    /// The ids of the sub-pools.
    open spec fn ids(&self) -> Seq<u32> {
        arbitrary()
    }

    /// The buckets of a sub-pool.
    open spec fn buckets_of(&self, sub_pool_id: u32) -> Seq<BucketSnapshot> {
        arbitrary()
    }

    /// The ledger of one side of a sub-pool.
    open spec fn ledger_of(&self, sub_pool_id: u32, direction: Direction) -> Option<
        LedgerSnapshot,
    > {
        arbitrary()
    }

    /// The ids of the sub-pools.
    fn sub_pool_ids(&self) -> (r: Vec<u32>)
        ensures
            r@ == self.ids(),
    ;

    /// Every bucket of a sub-pool.
    fn buckets(&self, sub_pool_id: u32) -> (r: Vec<BucketSnapshot>)
        ensures
            r@ == self.buckets_of(sub_pool_id),
    ;

    /// The ledger of one side of a sub-pool, if there is one.
    fn ledger(&self, sub_pool_id: u32, direction: Direction) -> (r: Option<LedgerSnapshot>)
        ensures
            r == self.ledger_of(sub_pool_id, direction),
    ;

    /// The health of a sub-pool. A view need not know it.
    fn sub_pool_health(&self, _sub_pool_id: u32) -> (r: Option<SubPoolHealth>)
        default_ensures
            r is None,
    {
        None
    }
}

/// Why a bucket is to be created.
#[derive(Debug, Clone, Copy, PartialEq, Eq, Structural)]
pub enum InitRationale {
    /// The risk model expects a rotation to the tick.
    RotateRiskHorizon,
    /// The caller asked for it.
    Explicit,
}

/// One task of the keeper.
#[derive(Debug, Clone, Copy, PartialEq, Eq, Structural)]
pub enum KeeperAction {
    /// Drain pending distribution entries into one bucket.
    PreSyncDormantBucket {
        /// Sub pool id.
        sub_pool_id: u32,
        /// Direction.
        direction: Direction,
        /// Bucket tick.
        tick: i64,
        /// Number of entries waiting for this bucket.
        pending: u64,
    },
    /// Close a dead bucket that has caught up with its ledger.
    CloseDormantBucket {
        /// Sub pool id.
        sub_pool_id: u32,
        /// Direction.
        direction: Direction,
        /// Bucket tick.
        tick: i64,
    },
    /// Create a bucket ahead of a rotation.
    InitDormantBucket {
        /// Sub pool id.
        sub_pool_id: u32,
        /// Direction.
        direction: Direction,
        /// Bucket tick.
        tick: i64,
        /// Rationale.
        rationale: InitRationale,
    },
}

impl KeeperAction {
    /// The urgency of the task: creating comes first, since a missing
    /// bucket blocks users; then draining, by the number of pending entries;
    /// closing comes last.
    pub open spec fn urgency(self) -> u64 {
        match self {
            KeeperAction::InitDormantBucket { .. } => u64::MAX,
            KeeperAction::PreSyncDormantBucket { pending, .. } => if 10_000_000 + pending
                >= u64::MAX {
                (u64::MAX - 1) as u64
            } else {
                (10_000_000 + pending) as u64
            },
            KeeperAction::CloseDormantBucket { .. } => 1,
        }
    }

    /// The urgency of the task; a higher number is more urgent.
    pub fn priority(&self) -> (r: u64)
        ensures
            r == self.urgency(),
    {
        match self {
            KeeperAction::InitDormantBucket { .. } => u64::MAX,
            KeeperAction::PreSyncDormantBucket { pending, .. } => {
                let depth: u64 = 10_000_000u64.saturating_add(*pending);
                if depth == u64::MAX {
                    u64::MAX - 1
                } else {
                    depth
                }
            },
            KeeperAction::CloseDormantBucket { .. } => 1,
        }
    }
}

} // verus!
