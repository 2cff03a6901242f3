//! A consistent view of one market, read through an [`AccountFetcher`].
//!
//! A refresh reads the market account, then for each sub-pool its account
//! and, side by side, the accounts that belong to it. Those start with the
//! sub-pool's address and the side, which is what the listing asks for; the
//! length of the data tells ledgers from buckets.
//!
//! A market whose schema version differs from the one this keeper was built
//! for, and a market that is paused, are refused.
use std::collections::HashMap;

use vstd::prelude::*;
use vstd::seq_lib::*;

use crate::decoder;
use crate::decoder::accounts::{
    LedgerModel, OnchainDistributionLedger, OnchainDormantBucket, OnchainMarket, OnchainSubPool,
};
use crate::decoder::leader_lock::same_pubkey;
use crate::decoder::{decode_anchor_account, AccountDecodeError, Pubkey32, ANCHOR_DISCRIMINATOR_LEN};
use crate::ids::ids_of;
use crate::order;
use crate::order::Sortable;
use crate::planner::predictor;
use crate::planner::{
    BucketSnapshot, Direction, KeeperChainView, LedgerSnapshot, SubPoolHealth,
};
use crate::rpc::fetcher;
use crate::rpc::fetcher::{AccountFetcher, RpcError};
use crate::table;
use crate::table::Table;
use crate::text;
use crate::wire;
use crate::wire::{WireDecode, WireEncode};

verus! {

/// The schema version that this keeper understands. The number is the
/// clearing program's, which writes it into its market accounts; it is kept
/// in step with the program by hand.
pub const SCHEMA_VERSION_CURRENT: u16 = 1;

/// What is known of a market before it is read.
#[derive(Debug, Clone)]
pub struct MarketContext {
    /// The program.
    pub program_id: Pubkey32,
    /// Address of the `Market` account.
    pub market: Pubkey32,
    /// The market's symbol.
    pub market_symbol: [u8; 16],
    /// The sub-pools to observe.
    pub sub_pools: Vec<SubPoolEntry>,
}

/// A sub-pool's id and address.
#[derive(Debug, Clone, Copy, PartialEq, Eq)]
pub struct SubPoolEntry {
    /// Sub pool id.
    pub sub_pool_id: u32,
    /// Address of the `SubPool` account.
    pub pubkey: Pubkey32,
}

/// Settings of [`ChainSnapshot::refresh`].
#[derive(Debug, Clone, Copy)]
pub struct SnapshotConfig {
    /// Whether a market of another schema version is refused.
    pub enforce_schema_version: bool,
    /// Whether a paused market is refused.
    pub bail_when_paused: bool,
}

impl Default for SnapshotConfig {
    fn default() -> (r: Self)
        ensures
            r.enforce_schema_version,
            r.bail_when_paused,
    {
        SnapshotConfig { enforce_schema_version: true, bail_when_paused: true }
    }
}

/// Errors of a refresh.
#[derive(Debug, Clone, PartialEq, Eq)]
pub enum SnapshotError {
    /// The fetcher failed.
    Rpc(RpcError),
    /// An account cannot be decoded.
    Decode {
        /// `market` or `sub_pool`.
        kind: &'static str,
        /// Address of the account.
        pubkey: Pubkey32,
        /// Why.
        source: AccountDecodeError,
    },
    /// There is no market account.
    MarketNotFound(Pubkey32),
    /// There is no account of a sub-pool.
    SubPoolNotFound {
        /// Sub pool id.
        sub_pool_id: u32,
        /// Address of the account.
        pubkey: Pubkey32,
    },
    /// The market has another schema version.
    SchemaVersionMismatch {
        /// That of the market.
        onchain: u16,
        /// That of this keeper.
        compiled: u16,
    },
    /// The market is paused.
    MarketPaused,
}

impl SnapshotError {
    /// The text of the error.
    pub open spec fn text(self) -> Seq<char> {
        match self {
            SnapshotError::Rpc(e) => e.text(),
            SnapshotError::Decode { kind, pubkey, source } => "decode error for "@ + kind@
                + " pubkey "@ + text::byte_list(pubkey@) + ": "@ + source.text(),
            SnapshotError::MarketNotFound(pubkey) => "market account "@ + text::byte_list(pubkey@)
                + " not found"@,
            SnapshotError::SubPoolNotFound { sub_pool_id, pubkey } => "sub_pool account "@
                + text::byte_list(pubkey@) + " (id="@ + text::decimal(sub_pool_id as nat)
                + ") not found"@,
            SnapshotError::SchemaVersionMismatch { onchain, compiled } =>
            "market schema_version mismatch: on-chain="@ + text::decimal(onchain as nat)
                + ", keeper-compiled="@ + text::decimal(compiled as nat),
            SnapshotError::MarketPaused => "market is paused; refusing to surface keeper actions"@,
        }
    }

    /// Renders the error.
    pub fn to_string(&self) -> (r: String)
        ensures
            r@ == self.text(),
    {
        match self {
            SnapshotError::Rpc(e) => e.to_string(),
            SnapshotError::Decode { kind, pubkey, source } => {
                let mut out = String::from_str("decode error for ");
                out.append(kind);
                out.append(" pubkey ");
                text::push_byte_list(&mut out, pubkey.as_slice());
                out.append(": ");
                out.append(source.to_string().as_str());
                out
            },
            SnapshotError::MarketNotFound(pubkey) => {
                let mut out = String::from_str("market account ");
                text::push_byte_list(&mut out, pubkey.as_slice());
                out.append(" not found");
                out
            },
            SnapshotError::SubPoolNotFound { sub_pool_id, pubkey } => {
                let mut out = String::from_str("sub_pool account ");
                text::push_byte_list(&mut out, pubkey.as_slice());
                out.append(" (id=");
                text::push_decimal(&mut out, *sub_pool_id as u128);
                out.append(") not found");
                out
            },
            SnapshotError::SchemaVersionMismatch { onchain, compiled } => {
                let mut out = String::from_str("market schema_version mismatch: on-chain=");
                text::push_decimal(&mut out, *onchain as u128);
                out.append(", keeper-compiled=");
                text::push_decimal(&mut out, *compiled as u128);
                out
            },
            SnapshotError::MarketPaused => String::from_str(
                "market is paused; refusing to surface keeper actions",
            ),
        }
    }
}

impl Sortable for OnchainDormantBucket {
    /// Short buckets before long ones, each side by tick.
    open spec fn before_eq(&self, other: &Self) -> bool {
        if self.direction_is_long == other.direction_is_long {
            self.zero_price_tick <= other.zero_price_tick
        } else {
            other.direction_is_long
        }
    }

    fn comes_before_eq(&self, other: &Self) -> (r: bool) {
        if self.direction_is_long == other.direction_is_long {
            self.zero_price_tick <= other.zero_price_tick
        } else {
            other.direction_is_long
        }
    }

    proof fn lemma_total(&self, other: &Self) {
    }

    proof fn lemma_transitive(&self, middle: &Self, last: &Self) {
    }
}

/// The side that a flag stands for.
pub open spec fn side(direction_is_long: bool) -> Direction {
    if direction_is_long {
        Direction::Long
    } else {
        Direction::Short
    }
}

/// The data is that of an account with a record of type `T`.
pub open spec fn readable<T: WireDecode>(data: Seq<u8>) -> bool {
    data.len() >= ANCHOR_DISCRIMINATOR_LEN && T::fault(data.skip(8)) is None
}

/// The record in the data of an account.
pub open spec fn record_in<T: WireDecode>(data: Seq<u8>) -> T {
    choose|v: T| #[trigger] v.fits() && v.wire() == data.skip(8)
}

/// The ledger in the data of an account.
pub open spec fn ledger_in(data: Seq<u8>) -> LedgerModel {
    record_in::<OnchainDistributionLedger>(data)@
}

/// A record that was decoded is the record in the data.
proof fn lemma_decoded<T: WireDecode>(data: Seq<u8>, r: Result<T, AccountDecodeError>)
    requires
        decoder::decodes(data, r),
    ensures
        r is Ok <==> readable::<T>(data),
        r matches Ok(v) ==> record_in::<T>(data).same(&v),
{
    if let Ok(v) = r {
        assert(v.fits() && v.wire() == data.skip(8));
        let w = record_in::<T>(data);
        assert(w.fits() && w.wire() == data.skip(8));
        w.lemma_wire_is_injective(&v);
    }
}

/// What is known of a market once it has been read.
#[verifier::ext_equal]
pub struct SnapshotModel {
    /// The market account.
    pub market: Option<OnchainMarket>,
    /// The sub-pools by id.
    pub sub_pools: Map<u32, OnchainSubPool>,
    /// The buckets of each sub-pool.
    pub buckets: Map<u32, Seq<OnchainDormantBucket>>,
    /// The ledgers by sub-pool and side.
    pub ledgers: Map<(u32, Direction), LedgerModel>,
    /// The addresses of the buckets by sub-pool, side and tick.
    pub bucket_pubkeys: Map<(u32, Direction, i64), Pubkey32>,
    /// The addresses of the ledgers by sub-pool and side.
    pub ledger_pubkeys: Map<(u32, Direction), Pubkey32>,
}

/// Nothing is known.
pub open spec fn empty_model() -> SnapshotModel {
    SnapshotModel {
        market: None,
        sub_pools: Map::empty(),
        buckets: Map::empty(),
        ledgers: Map::empty(),
        bucket_pubkeys: Map::empty(),
        ledger_pubkeys: Map::empty(),
    }
}

/// The buckets of a sub-pool, none where it is not known.
pub open spec fn buckets_at(m: SnapshotModel, id: u32) -> Seq<OnchainDormantBucket> {
    if m.buckets.contains_key(id) {
        m.buckets[id]
    } else {
        Seq::empty()
    }
}

/// The data is that of a ledger of one side of a sub-pool.
pub open spec fn is_ledger(entry: SubPoolEntry, long: bool, data: Seq<u8>) -> bool {
    &&& readable::<OnchainDistributionLedger>(data)
    &&& ledger_in(data).sub_pool == entry.pubkey
    &&& ledger_in(data).direction_is_long == long
}

/// The data is that of a bucket of one side of a sub-pool.
pub open spec fn is_bucket(entry: SubPoolEntry, long: bool, data: Seq<u8>) -> bool {
    &&& readable::<OnchainDormantBucket>(data)
    &&& record_in::<OnchainDormantBucket>(data).sub_pool == entry.pubkey
    &&& record_in::<OnchainDormantBucket>(data).direction_is_long == long
}

/// What is known after one listed account of a side: a ledger takes its
/// place, a bucket is added, anything else is passed over.
pub open spec fn with_account(
    m: SnapshotModel,
    entry: SubPoolEntry,
    long: bool,
    hit: (Pubkey32, Seq<u8>),
) -> SnapshotModel {
    let id = entry.sub_pool_id;
    if is_ledger(entry, long, hit.1) {
        SnapshotModel {
            ledgers: m.ledgers.insert((id, side(long)), ledger_in(hit.1)),
            ledger_pubkeys: m.ledger_pubkeys.insert((id, side(long)), hit.0),
            ..m
        }
    } else if is_bucket(entry, long, hit.1) {
        let bucket = record_in::<OnchainDormantBucket>(hit.1);
        SnapshotModel {
            buckets: m.buckets.insert(id, buckets_at(m, id).push(bucket)),
            bucket_pubkeys: m.bucket_pubkeys.insert(
                (id, side(long), bucket.zero_price_tick),
                hit.0,
            ),
            ..m
        }
    } else {
        m
    }
}

/// What is known after the listed accounts of a side.
pub open spec fn with_accounts(
    m: SnapshotModel,
    entry: SubPoolEntry,
    long: bool,
    hits: Seq<(Pubkey32, Seq<u8>)>,
) -> SnapshotModel
    decreases hits.len(),
{
    if hits.len() == 0 {
        m
    } else {
        with_account(with_accounts(m, entry, long, hits.drop_last()), entry, long, hits.last())
    }
}

/// What is known after the buckets of a sub-pool have been put in order.
pub open spec fn with_sorted_buckets(m: SnapshotModel, id: u32) -> SnapshotModel {
    if m.buckets.contains_key(id) {
        SnapshotModel { buckets: m.buckets.insert(id, order::sort_of(m.buckets[id])), ..m }
    } else {
        m
    }
}

/// Why a refresh ends early.
pub enum RefreshFault {
    /// The fetcher failed.
    Rpc(RpcError),
    /// There is no market account.
    MarketMissing,
    /// The data of the market account cannot be read.
    MarketUnreadable(Seq<u8>),
    /// The market has another schema version.
    WrongSchema(u16),
    /// The market is paused.
    Paused,
    /// There is no account of a sub-pool.
    PoolMissing(SubPoolEntry),
    /// The data of a sub-pool's account cannot be read.
    PoolUnreadable(SubPoolEntry, Seq<u8>),
}

/// The error `e` reports the fault.
pub open spec fn reports(ctx: MarketContext, e: SnapshotError, fault: RefreshFault) -> bool {
    match fault {
        RefreshFault::Rpc(cause) => e == SnapshotError::Rpc(cause),
        RefreshFault::MarketMissing => e == SnapshotError::MarketNotFound(ctx.market),
        RefreshFault::MarketUnreadable(data) => e matches SnapshotError::Decode {
            kind,
            pubkey,
            source,
        } && kind@ == "market"@ && pubkey == ctx.market && decoder::decodes::<OnchainMarket>(
            data,
            Err(source),
        ),
        RefreshFault::WrongSchema(version) => e == (SnapshotError::SchemaVersionMismatch {
            onchain: version,
            compiled: SCHEMA_VERSION_CURRENT,
        }),
        RefreshFault::Paused => e == SnapshotError::MarketPaused,
        RefreshFault::PoolMissing(entry) => e == (SnapshotError::SubPoolNotFound {
            sub_pool_id: entry.sub_pool_id,
            pubkey: entry.pubkey,
        }),
        RefreshFault::PoolUnreadable(entry, data) => e matches SnapshotError::Decode {
            kind,
            pubkey,
            source,
        } && kind@ == "sub_pool"@ && pubkey == entry.pubkey && decoder::decodes::<OnchainSubPool>(
            data,
            Err(source),
        ),
    }
}

/// `r` says that there was no fault, or reports the one there was.
pub open spec fn outcome_reported(
    ctx: MarketContext,
    r: Result<(), SnapshotError>,
    fault: Option<RefreshFault>,
) -> bool {
    match fault {
        None => r is Ok,
        Some(f) => r matches Err(e) && reports(ctx, e, f),
    }
}

/// What is wrong with the answer about the market account, if anything.
pub open spec fn market_fault(
    cfg: SnapshotConfig,
    answer: Result<Option<Seq<u8>>, RpcError>,
) -> Option<RefreshFault> {
    match answer {
        Err(e) => Some(RefreshFault::Rpc(e)),
        Ok(None) => Some(RefreshFault::MarketMissing),
        Ok(Some(data)) => {
            let market = record_in::<OnchainMarket>(data);
            if !readable::<OnchainMarket>(data) {
                Some(RefreshFault::MarketUnreadable(data))
            } else if cfg.enforce_schema_version && market.schema_version
                != SCHEMA_VERSION_CURRENT {
                Some(RefreshFault::WrongSchema(market.schema_version))
            } else if cfg.bail_when_paused && market.paused {
                Some(RefreshFault::Paused)
            } else {
                None
            }
        },
    }
}

/// What is known after the answer about the market account.
pub open spec fn with_market(
    m: SnapshotModel,
    cfg: SnapshotConfig,
    answer: Result<Option<Seq<u8>>, RpcError>,
) -> SnapshotModel {
    if market_fault(cfg, answer) is None {
        SnapshotModel { market: Some(record_in::<OnchainMarket>(answer->Ok_0->Some_0)), ..m }
    } else {
        m
    }
}

/// What is wrong with the answer about a sub-pool's account, if anything.
pub open spec fn pool_fault(
    entry: SubPoolEntry,
    answer: Result<Option<Seq<u8>>, RpcError>,
) -> Option<RefreshFault> {
    match answer {
        Err(e) => Some(RefreshFault::Rpc(e)),
        Ok(None) => Some(RefreshFault::PoolMissing(entry)),
        Ok(Some(data)) => if readable::<OnchainSubPool>(data) {
            None
        } else {
            Some(RefreshFault::PoolUnreadable(entry, data))
        },
    }
}

/// What is known after the answer about a sub-pool's account.
pub open spec fn with_pool(
    m: SnapshotModel,
    entry: SubPoolEntry,
    answer: Result<Option<Seq<u8>>, RpcError>,
) -> SnapshotModel {
    if pool_fault(entry, answer) is None {
        SnapshotModel {
            sub_pools: m.sub_pools.insert(
                entry.sub_pool_id,
                record_in::<OnchainSubPool>(answer->Ok_0->Some_0),
            ),
            ..m
        }
    } else {
        m
    }
}

/// The answers of a fetcher about one sub-pool.
pub struct PoolAnswers {
    /// Its account.
    pub account: Result<Option<Seq<u8>>, RpcError>,
    /// The accounts of its long side.
    pub long: Result<Seq<(Pubkey32, Seq<u8>)>, RpcError>,
    /// The accounts of its short side.
    pub short: Result<Seq<(Pubkey32, Seq<u8>)>, RpcError>,
}

/// What is known, and what went wrong, after the answers about one sub-pool.
/// An answer counts only where those before it were good.
pub open spec fn after_pool(m: SnapshotModel, entry: SubPoolEntry, p: PoolAnswers) -> (
    SnapshotModel,
    Option<RefreshFault>,
) {
    if pool_fault(entry, p.account) is Some {
        (m, pool_fault(entry, p.account))
    } else {
        let m1 = with_pool(m, entry, p.account);
        match p.long {
            Err(e) => (m1, Some(RefreshFault::Rpc(e))),
            Ok(long_hits) => {
                let m2 = with_accounts(m1, entry, true, long_hits);
                match p.short {
                    Err(e) => (m2, Some(RefreshFault::Rpc(e))),
                    Ok(short_hits) => (
                        with_sorted_buckets(
                            with_accounts(m2, entry, false, short_hits),
                            entry.sub_pool_id,
                        ),
                        None,
                    ),
                }
            },
        }
    }
}

/// What is known, and what went wrong, after the answers about a list of sub-pools.
pub open spec fn after_pools(
    m: SnapshotModel,
    entries: Seq<SubPoolEntry>,
    pools: Seq<PoolAnswers>,
) -> (SnapshotModel, Option<RefreshFault>)
    decreases pools.len(),
{
    if pools.len() == 0 {
        (m, None)
    } else {
        let (before, fault) = after_pools(m, entries, pools.drop_last());
        if fault is Some {
            (before, fault)
        } else {
            after_pool(before, entries[pools.len() - 1], pools.last())
        }
    }
}

/// What is known, and what went wrong, after a refresh.
pub open spec fn after_refresh(
    ctx: MarketContext,
    cfg: SnapshotConfig,
    market: Result<Option<Seq<u8>>, RpcError>,
    pools: Seq<PoolAnswers>,
) -> (SnapshotModel, Option<RefreshFault>) {
    if market_fault(cfg, market) is Some {
        (empty_model(), market_fault(cfg, market))
    } else {
        after_pools(with_market(empty_model(), cfg, market), ctx.sub_pools@, pools)
    }
}

/// The bytes with which the accounts of one side of a sub-pool begin.
pub open spec fn side_prefix(pubkey: Pubkey32, long: bool) -> Seq<u8> {
    pubkey@ + wire::bool_wire(long)
}

/// The fetcher may give these answers about a sub-pool.
pub open spec fn pool_answered<F: AccountFetcher>(
    fetcher: &F,
    ctx: MarketContext,
    entry: SubPoolEntry,
    p: PoolAnswers,
) -> bool {
    &&& fetcher.may_fetch(entry.pubkey, p.account)
    &&& pool_fault(entry, p.account) is None ==> fetcher.may_list(
        ctx.program_id,
        ANCHOR_DISCRIMINATOR_LEN,
        side_prefix(entry.pubkey, true),
        p.long,
    )
    &&& pool_fault(entry, p.account) is None && p.long is Ok ==> fetcher.may_list(
        ctx.program_id,
        ANCHOR_DISCRIMINATOR_LEN,
        side_prefix(entry.pubkey, false),
        p.short,
    )
}

/// The fetcher was asked about the market, and about the sub-pools in turn
/// until one went wrong, and may have given these answers.
pub open spec fn refresh_answered<F: AccountFetcher>(
    fetcher: &F,
    ctx: MarketContext,
    cfg: SnapshotConfig,
    market: Result<Option<Seq<u8>>, RpcError>,
    pools: Seq<PoolAnswers>,
) -> bool {
    &&& fetcher.may_fetch(ctx.market, market)
    &&& pools.len() <= ctx.sub_pools@.len()
    &&& market_fault(cfg, market) is Some ==> pools.len() == 0
    &&& after_refresh(ctx, cfg, market, pools).1 is None ==> pools.len() == ctx.sub_pools@.len()
    &&& forall|i: int|
        0 <= i < pools.len() ==> pool_answered(fetcher, ctx, ctx.sub_pools@[i], #[trigger] pools[i])
}

/// A market as it was last read.
#[derive(Debug)]
pub struct ChainSnapshot {
    /// The market account.
    pub market: Option<OnchainMarket>,
    /// The sub-pools by id.
    pub sub_pools: HashMap<u32, OnchainSubPool>,
    /// The buckets of each sub-pool.
    pub buckets: HashMap<u32, Vec<OnchainDormantBucket>>,
    /// The ledgers by sub-pool and side.
    pub ledgers: Table<(u32, Direction), OnchainDistributionLedger>,
    /// The addresses of the buckets by sub-pool, side and tick.
    pub bucket_pubkeys: Table<(u32, Direction, i64), Pubkey32>,
    /// The addresses of the ledgers by sub-pool and side.
    pub ledger_pubkeys: Table<(u32, Direction), Pubkey32>,
}

/// The contents of lists of buckets.
pub open spec fn bucket_lists(m: Map<u32, Vec<OnchainDormantBucket>>) -> Map<
    u32,
    Seq<OnchainDormantBucket>,
> {
    m.map_values(|v: Vec<OnchainDormantBucket>| v@)
}

/// The contents of ledgers.
pub open spec fn ledger_models(
    m: Map<(u32, Direction), OnchainDistributionLedger>,
) -> Map<(u32, Direction), LedgerModel> {
    m.map_values(|l: OnchainDistributionLedger| l@)
}

impl View for ChainSnapshot {
    type V = SnapshotModel;

    open spec fn view(&self) -> SnapshotModel {
        SnapshotModel {
            market: self.market,
            sub_pools: self.sub_pools@,
            buckets: bucket_lists(self.buckets@),
            ledgers: ledger_models(self.ledgers@),
            bucket_pubkeys: self.bucket_pubkeys@,
            ledger_pubkeys: self.ledger_pubkeys@,
        }
    }
}

/// A cloned address is the same address.
proof fn lemma_cloned_address(a: Pubkey32, b: Pubkey32)
    requires
        cloned(a, b),
    ensures
        a == b,
{
    assert(a@ =~= b@);
    assert(a =~= b);
}

/// Pairs whose addresses were cloned make up the same map.
proof fn lemma_cloned_addresses<K>(a: Seq<(K, Pubkey32)>, b: Seq<(K, Pubkey32)>)
    requires
        a.len() == b.len(),
        forall|i: int|
            #![trigger b[i]]
            0 <= i < b.len() ==> b[i].0 == a[i].0 && cloned(a[i].1, b[i].1),
    ensures
        table::map_of(b) == table::map_of(a),
{
    assert forall|i: int| #![trigger b[i]] 0 <= i < b.len() implies b[i].1 == a[i].1 by {
        lemma_cloned_address(a[i].1, b[i].1);
    }
    table::lemma_same_pairs(a, b);
}

impl Clone for ChainSnapshot {
    fn clone(&self) -> (r: Self)
        ensures
            r@ == self@,
    {
        let r = ChainSnapshot {
            market: self.market,
            sub_pools: self.sub_pools.clone(),
            buckets: self.buckets.clone(),
            ledgers: self.ledgers.clone(),
            bucket_pubkeys: self.bucket_pubkeys.clone(),
            ledger_pubkeys: self.ledger_pubkeys.clone(),
        };
        proof {
            table::lemma_alike(
                self.ledgers.items(),
                r.ledgers.items(),
                |l: OnchainDistributionLedger| l@,
            );
            lemma_cloned_addresses(self.bucket_pubkeys.items(), r.bucket_pubkeys.items());
            lemma_cloned_addresses(self.ledger_pubkeys.items(), r.ledger_pubkeys.items());
        }
        r
    }
}

impl Default for ChainSnapshot {
    fn default() -> (r: Self)
        ensures
            r@ == empty_model(),
    {
        ChainSnapshot::new()
    }
}

impl ChainSnapshot {
    /// A snapshot of nothing.
    pub fn new() -> (r: Self)
        ensures
            r@ == empty_model(),
    {
        let r = ChainSnapshot {
            market: None,
            sub_pools: HashMap::new(),
            buckets: HashMap::new(),
            ledgers: Table::new(),
            bucket_pubkeys: Table::new(),
            ledger_pubkeys: Table::new(),
        };
        proof {
            assert(r@ =~= empty_model());
        }
        r
    }

    /// Forgets everything.
    pub fn clear(&mut self)
        ensures
            final(self)@ == empty_model(),
    {
        self.market = None;
        self.sub_pools.clear();
        self.buckets.clear();
        self.ledgers.clear();
        self.bucket_pubkeys.clear();
        self.ledger_pubkeys.clear();
        proof {
            assert(self@ =~= empty_model());
        }
    }

    /// The market account, once it has been read.
    pub fn market(&self) -> (r: Option<&OnchainMarket>)
        ensures
            r == match self@.market {
                Some(m) => Some(&m),
                None => None,
            },
    {
        match &self.market {
            Some(m) => Some(m),
            None => None,
        }
    }

    /// The address of a bucket.
    pub fn bucket_pubkey(&self, sub_pool_id: u32, direction: Direction, tick: i64) -> (r: Option<
        Pubkey32,
    >)
        ensures
            r == if self@.bucket_pubkeys.contains_key((sub_pool_id, direction, tick)) {
                Some(self@.bucket_pubkeys[(sub_pool_id, direction, tick)])
            } else {
                None
            },
    {
        match self.bucket_pubkeys.get(&(sub_pool_id, direction, tick)) {
            Some(pk) => Some(*pk),
            None => None,
        }
    }

    /// The address of a ledger.
    pub fn ledger_pubkey(&self, sub_pool_id: u32, direction: Direction) -> (r: Option<Pubkey32>)
        ensures
            r == if self@.ledger_pubkeys.contains_key((sub_pool_id, direction)) {
                Some(self@.ledger_pubkeys[(sub_pool_id, direction)])
            } else {
                None
            },
    {
        match self.ledger_pubkeys.get(&(sub_pool_id, direction)) {
            Some(pk) => Some(*pk),
            None => None,
        }
    }

    /// Takes in the answer about the market account.
    pub fn accept_market(
        &mut self,
        ctx: &MarketContext,
        cfg: SnapshotConfig,
        answer: Result<Option<Vec<u8>>, RpcError>,
    ) -> (r: Result<(), SnapshotError>)
        ensures
            final(self)@ == with_market(old(self)@, cfg, fetcher::account_answer(answer)),
            outcome_reported(*ctx, r, market_fault(cfg, fetcher::account_answer(answer))),
    {
        let data: Vec<u8> = match answer {
            Err(e) => {
                return Err(SnapshotError::Rpc(e));
            },
            Ok(None) => {
                return Err(SnapshotError::MarketNotFound(ctx.market));
            },
            Ok(Some(data)) => data,
        };
        let decoded: Result<OnchainMarket, AccountDecodeError> = decode_anchor_account(
            data.as_slice(),
        );
        proof {
            lemma_decoded(data@, decoded);
        }
        let market: OnchainMarket = match decoded {
            Ok(m) => m,
            Err(source) => {
                return Err(
                    SnapshotError::Decode { kind: "market", pubkey: ctx.market, source },
                );
            },
        };
        if cfg.enforce_schema_version && market.schema_version != SCHEMA_VERSION_CURRENT {
            return Err(
                SnapshotError::SchemaVersionMismatch {
                    onchain: market.schema_version,
                    compiled: SCHEMA_VERSION_CURRENT,
                },
            );
        }
        if cfg.bail_when_paused && market.paused {
            return Err(SnapshotError::MarketPaused);
        }
        self.market = Some(market);
        Ok(())
    }

    /// Takes in the answer about a sub-pool's account.
    pub fn accept_sub_pool(
        &mut self,
        ctx: &MarketContext,
        entry: &SubPoolEntry,
        answer: Result<Option<Vec<u8>>, RpcError>,
    ) -> (r: Result<(), SnapshotError>)
        ensures
            final(self)@ == with_pool(old(self)@, *entry, fetcher::account_answer(answer)),
            outcome_reported(*ctx, r, pool_fault(*entry, fetcher::account_answer(answer))),
    {
        let data: Vec<u8> = match answer {
            Err(e) => {
                return Err(SnapshotError::Rpc(e));
            },
            Ok(None) => {
                return Err(
                    SnapshotError::SubPoolNotFound {
                        sub_pool_id: entry.sub_pool_id,
                        pubkey: entry.pubkey,
                    },
                );
            },
            Ok(Some(data)) => data,
        };
        let decoded: Result<OnchainSubPool, AccountDecodeError> = decode_anchor_account(
            data.as_slice(),
        );
        proof {
            lemma_decoded(data@, decoded);
        }
        let pool: OnchainSubPool = match decoded {
            Ok(p) => p,
            Err(source) => {
                return Err(
                    SnapshotError::Decode { kind: "sub_pool", pubkey: entry.pubkey, source },
                );
            },
        };
        self.sub_pools.insert(entry.sub_pool_id, pool);
        Ok(())
    }

    /// Takes in one listed account of one side of a sub-pool.
    pub fn accept_account(
        &mut self,
        entry: &SubPoolEntry,
        direction_is_long: bool,
        pubkey: Pubkey32,
        data: &Vec<u8>,
    )
        ensures
            final(self)@ == with_account(old(self)@, *entry, direction_is_long, (pubkey, data@)),
    {
        let direction: Direction = if direction_is_long {
            Direction::Long
        } else {
            Direction::Short
        };
        let id: u32 = entry.sub_pool_id;
        let as_ledger: Result<OnchainDistributionLedger, AccountDecodeError> =
            decode_anchor_account(data.as_slice());
        proof {
            lemma_decoded(data@, as_ledger);
        }
        if let Ok(ledger) = as_ledger {
            if same_pubkey(&ledger.sub_pool, &entry.pubkey) && ledger.direction_is_long
                == direction_is_long {
                let ghost model = ledger@;
                let ghost before = self.ledgers@;
                self.ledger_pubkeys.insert((id, direction), pubkey);
                self.ledgers.insert((id, direction), ledger);
                proof {
                    assert(ledger_models(before.insert((id, direction), ledger)) =~= ledger_models(
                        before,
                    ).insert((id, direction), model));
                    assert(self@ =~= with_account(
                        old(self)@,
                        *entry,
                        direction_is_long,
                        (pubkey, data@),
                    ));
                }
                return;
            }
        }
        let as_bucket: Result<OnchainDormantBucket, AccountDecodeError> = decode_anchor_account(
            data.as_slice(),
        );
        proof {
            lemma_decoded(data@, as_bucket);
        }
        if let Ok(bucket) = as_bucket {
            if same_pubkey(&bucket.sub_pool, &entry.pubkey) && bucket.direction_is_long
                == direction_is_long {
                self.bucket_pubkeys.insert((id, direction, bucket.zero_price_tick), pubkey);
                let ghost before = self.buckets@;
                let mut list: Vec<OnchainDormantBucket> = match self.buckets.remove(&id) {
                    Some(list) => list,
                    None => Vec::new(),
                };
                let ghost had = list@;
                list.push(bucket);
                let ghost has = list@;
                self.buckets.insert(id, list);
                proof {
                    assert(had =~= buckets_at(old(self)@, id));
                    assert(has =~= had.push(bucket));
                    assert(bucket_lists(before.remove(id).insert(id, list)) =~= bucket_lists(
                        before,
                    ).insert(id, has));
                    assert(self@ =~= with_account(
                        old(self)@,
                        *entry,
                        direction_is_long,
                        (pubkey, data@),
                    ));
                }
            }
        }
    }

    /// Takes in the listed accounts of one side of a sub-pool.
    pub fn accept_accounts(
        &mut self,
        entry: &SubPoolEntry,
        direction_is_long: bool,
        hits: &Vec<(Pubkey32, Vec<u8>)>,
    )
        ensures
            final(self)@ == with_accounts(
                old(self)@,
                *entry,
                direction_is_long,
                fetcher::listed(hits@),
            ),
    {
        let ghost all = fetcher::listed(hits@);
        let mut i: usize = 0;
        proof {
            assert(all.take(0) =~= Seq::<(Pubkey32, Seq<u8>)>::empty());
        }
        while i < hits.len()
            invariant
                i <= hits@.len(),
                all == fetcher::listed(hits@),
                self@ == with_accounts(old(self)@, *entry, direction_is_long, all.take(i as int)),
            decreases hits@.len() - i,
        {
            self.accept_account(entry, direction_is_long, hits[i].0, &hits[i].1);
            i = i + 1;
            proof {
                assert(all.take(i as int).drop_last() =~= all.take(i - 1));
                assert(all.take(i as int).last() == all[i - 1]);
            }
        }
        proof {
            assert(all.take(all.len() as int) =~= all);
        }
    }

    /// Puts the buckets of a sub-pool in order.
    pub fn sort_buckets(&mut self, sub_pool_id: u32)
        ensures
            final(self)@ == with_sorted_buckets(old(self)@, sub_pool_id),
    {
        let ghost before = self.buckets@;
        if let Some(list) = self.buckets.remove(&sub_pool_id) {
            let ghost unsorted = list@;
            let sorted: Vec<OnchainDormantBucket> = order::stable_sort(list);
            let ghost result = sorted@;
            self.buckets.insert(sub_pool_id, sorted);
            proof {
                order::lemma_sort_of(unsorted, result);
                assert(bucket_lists(before.remove(sub_pool_id).insert(sub_pool_id, sorted))
                    =~= bucket_lists(before).insert(sub_pool_id, result));
                assert(self@ =~= with_sorted_buckets(old(self)@, sub_pool_id));
            }
        } else {
            proof {
                assert(before.remove(sub_pool_id) =~= before);
                assert(self@ =~= old(self)@);
            }
        }
    }

    /// Reads one side of a sub-pool.
    fn refresh_side<F: AccountFetcher>(
        &mut self,
        fetcher: &F,
        ctx: &MarketContext,
        entry: &SubPoolEntry,
        direction_is_long: bool,
    ) -> (r: Result<(), RpcError>)
        ensures
            exists|answer: Result<Seq<(Pubkey32, Seq<u8>)>, RpcError>|
                {
                    &&& #[trigger] fetcher.may_list(
                        ctx.program_id,
                        ANCHOR_DISCRIMINATOR_LEN,
                        side_prefix(entry.pubkey, direction_is_long),
                        answer,
                    )
                    &&& match answer {
                        Ok(hits) => r is Ok && final(self)@ == with_accounts(
                            old(self)@,
                            *entry,
                            direction_is_long,
                            hits,
                        ),
                        Err(e) => r == Err::<(), RpcError>(e) && final(self)@ == old(self)@,
                    }
                },
    {
        let mut prefix: Vec<u8> = Vec::new();
        wire::put_bytes(&mut prefix, entry.pubkey.as_slice());
        wire::put_bool(&mut prefix, direction_is_long);
        proof {
            assert(prefix@ =~= side_prefix(entry.pubkey, direction_is_long));
        }
        let answer = fetcher.fetch_program_accounts_filter(
            &ctx.program_id,
            ANCHOR_DISCRIMINATOR_LEN,
            prefix.as_slice(),
        );
        let ghost seen = fetcher::list_answer(answer);
        let hits = answer?;
        self.accept_accounts(entry, direction_is_long, &hits);
        Ok(())
    }

    /// Reads one sub-pool.
    fn refresh_pool<F: AccountFetcher>(
        &mut self,
        fetcher: &F,
        ctx: &MarketContext,
        entry: &SubPoolEntry,
    ) -> (r: Result<(), SnapshotError>)
        ensures
            exists|p: PoolAnswers|
                {
                    &&& #[trigger] pool_answered(fetcher, *ctx, *entry, p)
                    &&& final(self)@ == after_pool(old(self)@, *entry, p).0
                    &&& outcome_reported(*ctx, r, after_pool(old(self)@, *entry, p).1)
                },
    {
        let answer = fetcher.fetch_account(&entry.pubkey);
        let ghost account = fetcher::account_answer(answer);
        let ghost m0 = self@;
        let ghost none: Result<Seq<(Pubkey32, Seq<u8>)>, RpcError> = arbitrary();
        match self.accept_sub_pool(ctx, entry, answer) {
            Ok(_) => {},
            Err(e) => {
                proof {
                    let p = PoolAnswers { account, long: none, short: none };
                    assert(pool_answered(fetcher, *ctx, *entry, p));
                }
                return Err(e);
            },
        }
        let ghost m1 = self@;
        let first = self.refresh_side(fetcher, ctx, entry, true);
        let ghost long = choose|a: Result<Seq<(Pubkey32, Seq<u8>)>, RpcError>|
            {
                &&& #[trigger] fetcher.may_list(
                    ctx.program_id,
                    ANCHOR_DISCRIMINATOR_LEN,
                    side_prefix(entry.pubkey, true),
                    a,
                )
                &&& match a {
                    Ok(hits) => first is Ok && self@ == with_accounts(m1, *entry, true, hits),
                    Err(e) => first == Err::<(), RpcError>(e) && self@ == m1,
                }
            };
        match first {
            Ok(_) => {},
            Err(e) => {
                proof {
                    let p = PoolAnswers { account, long, short: none };
                    assert(pool_answered(fetcher, *ctx, *entry, p));
                }
                return Err(SnapshotError::Rpc(e));
            },
        }
        let ghost m2 = self@;
        let second = self.refresh_side(fetcher, ctx, entry, false);
        let ghost short = choose|a: Result<Seq<(Pubkey32, Seq<u8>)>, RpcError>|
            {
                &&& #[trigger] fetcher.may_list(
                    ctx.program_id,
                    ANCHOR_DISCRIMINATOR_LEN,
                    side_prefix(entry.pubkey, false),
                    a,
                )
                &&& match a {
                    Ok(hits) => second is Ok && self@ == with_accounts(m2, *entry, false, hits),
                    Err(e) => second == Err::<(), RpcError>(e) && self@ == m2,
                }
            };
        let ghost p = PoolAnswers { account, long, short };
        proof {
            assert(pool_answered(fetcher, *ctx, *entry, p));
        }
        match second {
            Ok(_) => {},
            Err(e) => {
                return Err(SnapshotError::Rpc(e));
            },
        }
        self.sort_buckets(entry.sub_pool_id);
        Ok(())
    }

    /// Reads the market anew. What was known before is forgotten; after an
    /// error, what had been read until then is known.
    pub fn refresh<F: AccountFetcher>(
        &mut self,
        fetcher: &F,
        ctx: &MarketContext,
        cfg: SnapshotConfig,
    ) -> (r: Result<(), SnapshotError>)
        ensures
            exists|market: Result<Option<Seq<u8>>, RpcError>, pools: Seq<PoolAnswers>|
                {
                    &&& #[trigger] refresh_answered(fetcher, *ctx, cfg, market, pools)
                    &&& final(self)@ == after_refresh(*ctx, cfg, market, pools).0
                    &&& outcome_reported(*ctx, r, after_refresh(*ctx, cfg, market, pools).1)
                },
    {
        self.clear();
        let answer = fetcher.fetch_account(&ctx.market);
        let ghost market = fetcher::account_answer(answer);
        let ghost mut pools: Seq<PoolAnswers> = Seq::empty();
        match self.accept_market(ctx, cfg, answer) {
            Ok(_) => {},
            Err(e) => {
                proof {
                    assert(refresh_answered(fetcher, *ctx, cfg, market, pools));
                }
                return Err(e);
            },
        }
        let ghost m0 = self@;
        let mut i: usize = 0;
        while i < ctx.sub_pools.len()
            invariant
                i <= ctx.sub_pools@.len(),
                market_fault(cfg, market) is None,
                m0 == with_market(empty_model(), cfg, market),
                fetcher.may_fetch(ctx.market, market),
                pools.len() == i,
                after_pools(m0, ctx.sub_pools@, pools) == (self@, None::<RefreshFault>),
                forall|j: int|
                    0 <= j < pools.len() ==> pool_answered(
                        fetcher,
                        *ctx,
                        ctx.sub_pools@[j],
                        #[trigger] pools[j],
                    ),
            decreases ctx.sub_pools@.len() - i,
        {
            let entry: SubPoolEntry = ctx.sub_pools[i];
            let ghost before = self@;
            let outcome = self.refresh_pool(fetcher, ctx, &entry);
            i = i + 1;
            proof {
                let p = choose|p: PoolAnswers|
                    {
                        &&& #[trigger] pool_answered(fetcher, *ctx, entry, p)
                        &&& self@ == after_pool(before, entry, p).0
                        &&& outcome_reported(*ctx, outcome, after_pool(before, entry, p).1)
                    };
                let next = pools.push(p);
                assert(next.drop_last() =~= pools);
                assert(next.last() == p);
                pools = next;
            }
            match outcome {
                Ok(_) => {},
                Err(e) => {
                    proof {
                        assert(refresh_answered(fetcher, *ctx, cfg, market, pools));
                    }
                    return Err(e);
                },
            }
        }
        proof {
            assert(refresh_answered(fetcher, *ctx, cfg, market, pools));
        }
        Ok(())
    }
}

/// A bucket as the planner sees it.
pub open spec fn bucket_snapshot(id: u32, b: OnchainDormantBucket) -> BucketSnapshot {
    BucketSnapshot {
        sub_pool_id: id,
        direction: side(b.direction_is_long),
        tick: b.zero_price_tick,
        anchor_price: b.anchor_price,
        total_recovery_shares: b.total_recovery_shares,
        total_recovery_notional: b.total_recovery_notional,
        accrued_value: b.accrued_value,
        position_count: b.position_count,
        last_applied_index: b.last_applied_index,
    }
}

/// The health of a sub-pool that has not rotated: its anchor is its last price.
pub open spec fn pool_health(id: u32, sp: OnchainSubPool) -> SubPoolHealth {
    SubPoolHealth {
        sub_pool_id: id,
        last_price: sp.last_price,
        long_anchor_price: sp.last_price,
        short_anchor_price: sp.last_price,
        long_pool_equity: sp.long_pool_equity,
        short_pool_equity: sp.short_pool_equity,
        long_active_notional: sp.long_active_notional,
        short_active_notional: sp.short_active_notional,
        long_active_generation: sp.long_active_generation,
        short_active_generation: sp.short_active_generation,
    }
}

/// The health of a sub-pool, read off its account.
pub fn health_of(sub_pool_id: u32, sp: &OnchainSubPool) -> (r: SubPoolHealth)
    ensures
        r == pool_health(sub_pool_id, *sp),
{
    SubPoolHealth {
        sub_pool_id,
        last_price: sp.last_price,
        long_anchor_price: sp.last_price,
        short_anchor_price: sp.last_price,
        long_pool_equity: sp.long_pool_equity,
        short_pool_equity: sp.short_pool_equity,
        long_active_notional: sp.long_active_notional,
        short_active_notional: sp.short_active_notional,
        long_active_generation: sp.long_active_generation,
        short_active_generation: sp.short_active_generation,
    }
}

impl KeeperChainView for ChainSnapshot {
    /// The ids of the sub-pools, in order.
    open spec fn ids(&self) -> Seq<u32> {
        order::listing_of(self@.sub_pools.dom())
    }

    open spec fn buckets_of(&self, sub_pool_id: u32) -> Seq<BucketSnapshot> {
        buckets_at(self@, sub_pool_id).map_values(
            |b: OnchainDormantBucket| bucket_snapshot(sub_pool_id, b),
        )
    }

    open spec fn ledger_of(&self, sub_pool_id: u32, direction: Direction) -> Option<
        LedgerSnapshot,
    > {
        if self@.ledgers.contains_key((sub_pool_id, direction)) && self@.sub_pools.contains_key(
            sub_pool_id,
        ) {
            Some(
                LedgerSnapshot {
                    sub_pool_id,
                    direction,
                    next_event_index: self@.ledgers[(sub_pool_id, direction)].next_event_index,
                    bucket_count_hint: match direction {
                        Direction::Long => self@.sub_pools[sub_pool_id].long_dormant_bucket_count,
                        Direction::Short => self@.sub_pools[sub_pool_id].short_dormant_bucket_count,
                    },
                },
            )
        } else {
            None
        }
    }

    fn sub_pool_ids(&self) -> (r: Vec<u32>) {
        let ids: Vec<u32> = ids_of(&self.sub_pools);
        let ghost unsorted = ids@;
        let r = order::stable_sort(ids);
        proof {
            order::lemma_sorted_listing(self@.sub_pools.dom(), unsorted, r@);
        }
        r
    }

    fn buckets(&self, sub_pool_id: u32) -> (r: Vec<BucketSnapshot>) {
        let mut out: Vec<BucketSnapshot> = Vec::new();
        let ghost f = |b: OnchainDormantBucket| bucket_snapshot(sub_pool_id, b);
        match self.buckets.get(&sub_pool_id) {
            None => {
                proof {
                    assert(out@ =~= buckets_at(self@, sub_pool_id).map_values(f));
                }
                out
            },
            Some(list) => {
                let mut i: usize = 0;
                proof {
                    assert(list@.take(0).map_values(f) =~= out@);
                }
                while i < list.len()
                    invariant
                        i <= list@.len(),
                        f == (|b: OnchainDormantBucket| bucket_snapshot(sub_pool_id, b)),
                        out@ == list@.take(i as int).map_values(f),
                    decreases list@.len() - i,
                {
                    let b: OnchainDormantBucket = list[i];
                    out.push(
                        BucketSnapshot {
                            sub_pool_id,
                            direction: if b.direction_is_long {
                                Direction::Long
                            } else {
                                Direction::Short
                            },
                            tick: b.zero_price_tick,
                            anchor_price: b.anchor_price,
                            total_recovery_shares: b.total_recovery_shares,
                            total_recovery_notional: b.total_recovery_notional,
                            accrued_value: b.accrued_value,
                            position_count: b.position_count,
                            last_applied_index: b.last_applied_index,
                        },
                    );
                    i = i + 1;
                    proof {
                        assert(list@.take(i as int).map_values(f) =~= list@.take(i - 1).map_values(
                            f,
                        ).push(f(b)));
                    }
                }
                proof {
                    assert(list@.take(list@.len() as int) =~= list@);
                    assert(buckets_at(self@, sub_pool_id) == list@);
                }
                out
            },
        }
    }

    fn ledger(&self, sub_pool_id: u32, direction: Direction) -> (r: Option<LedgerSnapshot>) {
        match self.ledgers.get(&(sub_pool_id, direction)) {
            None => None,
            Some(ledger) => match self.sub_pools.get(&sub_pool_id) {
                None => None,
                Some(sp) => Some(
                    LedgerSnapshot {
                        sub_pool_id,
                        direction,
                        next_event_index: ledger.next_event_index,
                        bucket_count_hint: match direction {
                            Direction::Long => sp.long_dormant_bucket_count,
                            Direction::Short => sp.short_dormant_bucket_count,
                        },
                    },
                ),
            },
        }
    }

    fn sub_pool_health(&self, sub_pool_id: u32) -> (r: Option<SubPoolHealth>)
        ensures
            r == if self@.sub_pools.contains_key(sub_pool_id) {
                Some(pool_health(sub_pool_id, self@.sub_pools[sub_pool_id]))
            } else {
                None
            },
    {
        match self.sub_pools.get(&sub_pool_id) {
            None => None,
            Some(sp) => Some(health_of(sub_pool_id, sp)),
        }
    }
}

/// A snapshot knows the health of exactly the sub-pools that it holds.
pub proof fn law_health_of_held_sub_pools_is_shown(
    snap: &ChainSnapshot,
    sub_pool_id: u32,
    r: Option<SubPoolHealth>,
)
    requires
        predictor::health_shown(snap, sub_pool_id, r),
    ensures
        r == if snap@.sub_pools.contains_key(sub_pool_id) {
            Some(pool_health(sub_pool_id, snap@.sub_pools[sub_pool_id]))
        } else {
            None
        },
{
}

/// The buckets of every sub-pool are in order: short before long, each side by tick.
pub open spec fn buckets_in_order(m: SnapshotModel) -> bool {
    forall|id: u32| #[trigger] m.buckets.contains_key(id) ==> order::sorted(m.buckets[id])
}

/// The accounts of a sub-pool leave the buckets of the others alone.
proof fn lemma_accounts_keep_others(
    m: SnapshotModel,
    entry: SubPoolEntry,
    long: bool,
    hits: Seq<(Pubkey32, Seq<u8>)>,
    id: u32,
)
    requires
        id != entry.sub_pool_id,
    ensures
        with_accounts(m, entry, long, hits).buckets.contains_key(id) == m.buckets.contains_key(id),
        m.buckets.contains_key(id) ==> with_accounts(m, entry, long, hits).buckets[id]
            == m.buckets[id],
    decreases hits.len(),
{
    if hits.len() > 0 {
        lemma_accounts_keep_others(m, entry, long, hits.drop_last(), id);
    }
}

/// The answers about sub-pools, where none went wrong, leave the buckets in order.
proof fn lemma_pools_leave_buckets_in_order(
    m: SnapshotModel,
    entries: Seq<SubPoolEntry>,
    pools: Seq<PoolAnswers>,
)
    requires
        buckets_in_order(m),
        after_pools(m, entries, pools).1 is None,
    ensures
        buckets_in_order(after_pools(m, entries, pools).0),
    decreases pools.len(),
{
    if pools.len() > 0 {
        lemma_pools_leave_buckets_in_order(m, entries, pools.drop_last());
        let before = after_pools(m, entries, pools.drop_last()).0;
        let entry = entries[pools.len() - 1];
        let p = pools.last();
        let m1 = with_pool(before, entry, p.account);
        let m2 = with_accounts(m1, entry, true, p.long->Ok_0);
        let m3 = with_accounts(m2, entry, false, p.short->Ok_0);
        let after = after_pools(m, entries, pools).0;
        assert forall|id: u32| #[trigger] after.buckets.contains_key(id) implies order::sorted(
            after.buckets[id],
        ) by {
            if id == entry.sub_pool_id {
                order::law_sort_exists(m3.buckets[id]);
            } else {
                lemma_accounts_keep_others(m1, entry, true, p.long->Ok_0, id);
                lemma_accounts_keep_others(m2, entry, false, p.short->Ok_0, id);
                assert(before.buckets.contains_key(id));
            }
        }
    }
}

/// After a refresh without a fault the buckets of every sub-pool are in
/// order, whatever the order in which the fetcher listed them.
pub proof fn law_refreshed_buckets_are_in_order(
    ctx: MarketContext,
    cfg: SnapshotConfig,
    market: Result<Option<Seq<u8>>, RpcError>,
    pools: Seq<PoolAnswers>,
)
    requires
        after_refresh(ctx, cfg, market, pools).1 is None,
    ensures
        buckets_in_order(after_refresh(ctx, cfg, market, pools).0),
{
    lemma_pools_leave_buckets_in_order(
        with_market(empty_model(), cfg, market),
        ctx.sub_pools@,
        pools,
    );
}

/// The ids of a snapshot are those of the sub-pools that it holds, each
/// once, from the lowest to the highest.
pub proof fn law_ids_are_in_order(snap: &ChainSnapshot)
    ensures
        forall|i: int, j: int|
            #![trigger snap.ids()[i], snap.ids()[j]]
            0 <= i < j < snap.ids().len() ==> snap.ids()[i] < snap.ids()[j],
        forall|id: u32| #[trigger]
            snap.ids().contains(id) <==> snap@.sub_pools.contains_key(id),
{
    order::law_listing_exists(snap@.sub_pools.dom());
    assert(order::lists(snap@.sub_pools.dom(), snap.ids()));
}

/// No account data is both a ledger and a bucket: their lengths differ.
pub proof fn law_ledgers_and_buckets_are_told_apart(data: Seq<u8>)
    ensures
        !(readable::<OnchainDistributionLedger>(data) && readable::<OnchainDormantBucket>(data)),
{
    let body = data.skip(8);
    let count = wire::le_value(body.subrange(89, 93));
    if readable::<OnchainDistributionLedger>(data) && readable::<OnchainDormantBucket>(data) {
        assert(body.len() == 101 + 64 * count);
        assert(body.len() == 120);
    }
}

/// A paused market is never surfaced where that is asked for, and neither
/// is one of another schema version.
pub proof fn law_refused_markets_stay_hidden(
    ctx: MarketContext,
    cfg: SnapshotConfig,
    market: Result<Option<Seq<u8>>, RpcError>,
    pools: Seq<PoolAnswers>,
)
    requires
        after_refresh(ctx, cfg, market, pools).1 is None,
    ensures
        market matches Ok(Some(data)) && readable::<OnchainMarket>(data) && {
            let m = record_in::<OnchainMarket>(data);
            &&& cfg.enforce_schema_version ==> m.schema_version == SCHEMA_VERSION_CURRENT
            &&& cfg.bail_when_paused ==> !m.paused
        },
{
}

/// While the market account is refused, nothing at all is known.
pub proof fn law_refused_refresh_knows_nothing(
    ctx: MarketContext,
    cfg: SnapshotConfig,
    market: Result<Option<Seq<u8>>, RpcError>,
    pools: Seq<PoolAnswers>,
)
    requires
        market_fault(cfg, market) is Some,
    ensures
        after_refresh(ctx, cfg, market, pools).0 == empty_model(),
        after_refresh(ctx, cfg, market, pools).1 == market_fault(cfg, market),
{
}

/// The record that was written to an account is the record in its data.
proof fn lemma_written<T: WireDecode>(value: &T, discriminator: Seq<u8>)
    requires
        value.fits(),
        discriminator.len() == 8,
    ensures
        readable::<T>(decoder::account_bytes(value, discriminator)),
        record_in::<T>(decoder::account_bytes(value, discriminator)).same(value),
{
    let data = decoder::account_bytes(value, discriminator);
    assert(data.skip(8) =~= value.wire());
    value.lemma_wire_is_faultless();
    let found = record_in::<T>(data);
    assert(value.fits() && value.wire() == data.skip(8));
    assert(found.fits() && found.wire() == data.skip(8));
    found.lemma_wire_is_injective(value);
}

/// What was written to the account of a market, and is not refused, is what
/// a snapshot shows of it.
pub proof fn law_written_market_is_shown(
    m: SnapshotModel,
    cfg: SnapshotConfig,
    market: OnchainMarket,
    discriminator: [u8; 8],
)
    requires
        cfg.enforce_schema_version ==> market.schema_version == SCHEMA_VERSION_CURRENT,
        cfg.bail_when_paused ==> !market.paused,
    ensures
        ({
            let answer = Ok::<Option<Seq<u8>>, RpcError>(
                Some(decoder::account_bytes(&market, discriminator@)),
            );
            market_fault(cfg, answer) is None && with_market(m, cfg, answer).market == Some(market)
        }),
{
    lemma_written(&market, discriminator@);
}

/// What was written to the account of a sub-pool is what a snapshot shows of it.
pub proof fn law_written_sub_pool_is_shown(
    m: SnapshotModel,
    entry: SubPoolEntry,
    pool: OnchainSubPool,
    discriminator: [u8; 8],
)
    ensures
        ({
            let answer = Ok::<Option<Seq<u8>>, RpcError>(
                Some(decoder::account_bytes(&pool, discriminator@)),
            );
            &&& pool_fault(entry, answer) is None
            &&& with_pool(m, entry, answer).sub_pools.contains_pair(entry.sub_pool_id, pool)
        }),
{
    lemma_written(&pool, discriminator@);
}

/// What was written to the ledger of a side is what a snapshot shows of it,
/// under the address at which it was listed.
pub proof fn law_written_ledger_is_shown(
    m: SnapshotModel,
    entry: SubPoolEntry,
    ledger: OnchainDistributionLedger,
    pubkey: Pubkey32,
    discriminator: [u8; 8],
)
    requires
        ledger.fits(),
        ledger.sub_pool == entry.pubkey,
    ensures
        ({
            let key = (entry.sub_pool_id, side(ledger.direction_is_long));
            let after = with_account(
                m,
                entry,
                ledger.direction_is_long,
                (pubkey, decoder::account_bytes(&ledger, discriminator@)),
            );
            &&& after.ledgers.contains_pair(key, ledger@)
            &&& after.ledger_pubkeys.contains_pair(key, pubkey)
        }),
{
    lemma_written(&ledger, discriminator@);
}

/// What was written to a bucket of a side is what a snapshot shows of it,
/// under the address at which it was listed.
pub proof fn law_written_bucket_is_shown(
    m: SnapshotModel,
    entry: SubPoolEntry,
    bucket: OnchainDormantBucket,
    pubkey: Pubkey32,
    discriminator: [u8; 8],
)
    requires
        bucket.sub_pool == entry.pubkey,
    ensures
        ({
            let id = entry.sub_pool_id;
            let long = bucket.direction_is_long;
            let after = with_account(
                m,
                entry,
                long,
                (pubkey, decoder::account_bytes(&bucket, discriminator@)),
            );
            &&& buckets_at(after, id) == buckets_at(m, id).push(bucket)
            &&& after.bucket_pubkeys.contains_pair((id, side(long), bucket.zero_price_tick), pubkey)
        }),
{
    let data = decoder::account_bytes(&bucket, discriminator@);
    lemma_written(&bucket, discriminator@);
    law_ledgers_and_buckets_are_told_apart(data);
}

/// A side that does not own an account passes it over.
pub proof fn law_foreign_accounts_are_passed_over(
    m: SnapshotModel,
    entry: SubPoolEntry,
    long: bool,
    bucket: OnchainDormantBucket,
    pubkey: Pubkey32,
    discriminator: [u8; 8],
)
    requires
        bucket.sub_pool != entry.pubkey || bucket.direction_is_long != long,
    ensures
        with_account(
            m,
            entry,
            long,
            (pubkey, decoder::account_bytes(&bucket, discriminator@)),
        ) == m,
{
    let data = decoder::account_bytes(&bucket, discriminator@);
    lemma_written(&bucket, discriminator@);
    law_ledgers_and_buckets_are_told_apart(data);
}

} // verus!
