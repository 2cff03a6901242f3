//! What a snapshot shows of the accounts that it was read from, field by
//! field and account by account.
use vstd::prelude::*;
use vstd::seq_lib::*;

use crate::decoder::accounts::{
    OnchainDistributionLedger, OnchainDormantBucket, OnchainMarket, OnchainSubPool,
};
use crate::decoder::Pubkey32;
use crate::order;
use crate::order::Sortable;
use crate::planner::predictor;
use crate::planner::{Direction, KeeperChainView, SubPoolHealth};
use crate::rpc::snapshot;
use crate::rpc::snapshot::{
    ChainSnapshot, MarketContext, PoolAnswers, RefreshFault, SnapshotConfig, SnapshotModel,
    SubPoolEntry,
};
use crate::wire::{WireDecode, WireEncode};

verus! {

/// A bucket is shown as it stands in its account: under the sub-pool it was
/// asked for, on the side that its flag names, with every amount in its place.
pub proof fn law_buckets_are_shown_as_they_stand(snap: &ChainSnapshot, id: u32, i: int)
    requires
        snap.buckets@.contains_key(id),
        0 <= i < snap.buckets@[id]@.len(),
    ensures
        snap.buckets_of(id).len() == snap.buckets@[id]@.len(),
        ({
            let seen = snap.buckets_of(id)[i];
            let b = snap.buckets@[id]@[i];
            &&& seen.sub_pool_id == id
            &&& seen.direction is Long <==> b.direction_is_long
            &&& seen.tick == b.zero_price_tick
            &&& seen.anchor_price == b.anchor_price
            &&& seen.total_recovery_shares == b.total_recovery_shares
            &&& seen.total_recovery_notional == b.total_recovery_notional
            &&& seen.accrued_value == b.accrued_value
            &&& seen.position_count == b.position_count
            &&& seen.last_applied_index == b.last_applied_index
        }),
{
}

/// A sub-pool that holds no buckets shows none.
pub proof fn law_unknown_pools_show_no_buckets(snap: &ChainSnapshot, id: u32)
    requires
        !snap.buckets@.contains_key(id),
    ensures
        snap.buckets_of(id).len() == 0,
{
}

/// A ledger is shown where it and its sub-pool are known: with its own head,
/// and with the number of buckets that the sub-pool counts on its side.
pub proof fn law_ledgers_are_shown_as_they_stand(
    snap: &ChainSnapshot,
    id: u32,
    direction: Direction,
)
    ensures
        snap.ledger_of(id, direction) is Some <==> snap.ledgers@.contains_key((id, direction))
            && snap.sub_pools@.contains_key(id),
        snap.ledger_of(id, direction) matches Some(seen) ==> {
            &&& seen.sub_pool_id == id
            &&& seen.direction == direction
            &&& seen.next_event_index == snap.ledgers@[(id, direction)].next_event_index
            &&& direction is Long ==> seen.bucket_count_hint
                == snap.sub_pools@[id].long_dormant_bucket_count
            &&& direction is Short ==> seen.bucket_count_hint
                == snap.sub_pools@[id].short_dormant_bucket_count
        },
{
    assert(snap@.ledgers.contains_key((id, direction)) == snap.ledgers@.contains_key(
        (id, direction),
    ));
}

/// The health of a sub-pool is that of its account, each side in its place;
/// both anchors are the last price.
pub proof fn law_health_is_read_side_by_side(
    snap: &ChainSnapshot,
    id: u32,
    r: Option<SubPoolHealth>,
)
    requires
        predictor::health_shown(snap, id, r),
    ensures
        r is Some <==> snap.sub_pools@.contains_key(id),
        r matches Some(h) ==> {
            let p = snap.sub_pools@[id];
            &&& h.sub_pool_id == id
            &&& h.last_price == p.last_price
            &&& h.long_anchor_price == p.last_price
            &&& h.short_anchor_price == p.last_price
            &&& h.long_pool_equity == p.long_pool_equity
            &&& h.short_pool_equity == p.short_pool_equity
            &&& h.long_active_notional == p.long_active_notional
            &&& h.short_active_notional == p.short_active_notional
            &&& h.long_active_generation == p.long_active_generation
            &&& h.short_active_generation == p.short_active_generation
        },
{
}

/// Buckets are ordered with the short side first, each side by tick.
pub proof fn law_order_of_buckets(a: OnchainDormantBucket, b: OnchainDormantBucket)
    ensures
        !a.direction_is_long && b.direction_is_long ==> a.before_eq(&b) && !b.before_eq(&a),
        a.direction_is_long == b.direction_is_long ==> (a.before_eq(&b) <==> a.zero_price_tick
            <= b.zero_price_tick),
{
}

/// The data of an account holds the record behind eight bytes.
pub open spec fn holds<T: WireEncode>(data: Seq<u8>, value: T) -> bool {
    data.len() >= 8 && value.fits() && data.subrange(8, data.len() as int) == value.wire()
}

/// A record that an account holds is the one that is read off it.
pub proof fn lemma_held<T: WireDecode>(data: Seq<u8>, value: T)
    requires
        holds(data, value),
    ensures
        snapshot::readable::<T>(data),
        snapshot::record_in::<T>(data).same(&value),
{
    assert(data.skip(8) =~= data.subrange(8, data.len() as int));
    value.lemma_wire_is_faultless();
    let found = snapshot::record_in::<T>(data);
    assert(value.fits() && value.wire() == data.skip(8));
    assert(found.fits() && found.wire() == data.skip(8));
    found.lemma_wire_is_injective(&value);
}

/// An account as the program writes it.
pub enum Written {
    /// A ledger.
    Ledger(OnchainDistributionLedger),
    /// A bucket.
    Bucket(OnchainDormantBucket),
}

/// The listed accounts are these, as the program writes them.
pub open spec fn listed(hits: Seq<(Pubkey32, Seq<u8>)>, records: Seq<Written>) -> bool {
    &&& hits.len() == records.len()
    &&& forall|j: int|
        0 <= j < hits.len() ==> match #[trigger] records[j] {
            Written::Ledger(l) => holds(hits[j].1, l),
            Written::Bucket(b) => holds(hits[j].1, b),
        }
}

/// The `j`th account is this bucket, of the side and the sub-pool.
pub open spec fn bucket_at(
    records: Seq<Written>,
    j: int,
    entry: SubPoolEntry,
    long: bool,
    b: OnchainDormantBucket,
) -> bool {
    &&& 0 <= j < records.len()
    &&& records[j] == Written::Bucket(b)
    &&& b.sub_pool == entry.pubkey
    &&& b.direction_is_long == long
}

/// The `j`th account is this ledger, of the side and the sub-pool.
pub open spec fn ledger_at(
    records: Seq<Written>,
    j: int,
    entry: SubPoolEntry,
    long: bool,
    l: OnchainDistributionLedger,
) -> bool {
    &&& 0 <= j < records.len()
    &&& records[j] == Written::Ledger(l)
    &&& l.sub_pool == entry.pubkey
    &&& l.direction_is_long == long
}

/// What one account does.
proof fn lemma_one_account(
    m: SnapshotModel,
    entry: SubPoolEntry,
    long: bool,
    hit: (Pubkey32, Seq<u8>),
    record: Written,
)
    requires
        match record {
            Written::Ledger(l) => holds(hit.1, l),
            Written::Bucket(b) => holds(hit.1, b),
        },
    ensures
        ({
            let after = snapshot::with_account(m, entry, long, hit);
            let id = entry.sub_pool_id;
            let dir = if long {
                Direction::Long
            } else {
                Direction::Short
            };
            match record {
                Written::Ledger(l) => if l.sub_pool == entry.pubkey && l.direction_is_long == long {
                    after == (SnapshotModel {
                        ledgers: m.ledgers.insert((id, dir), l@),
                        ledger_pubkeys: m.ledger_pubkeys.insert((id, dir), hit.0),
                        ..m
                    })
                } else {
                    after == m
                },
                Written::Bucket(b) => if b.sub_pool == entry.pubkey && b.direction_is_long == long {
                    after == (SnapshotModel {
                        buckets: m.buckets.insert(id, snapshot::buckets_at(m, id).push(b)),
                        bucket_pubkeys: m.bucket_pubkeys.insert(
                            (id, dir, b.zero_price_tick),
                            hit.0,
                        ),
                        ..m
                    })
                } else {
                    after == m
                },
            }
        }),
{
    snapshot::law_ledgers_and_buckets_are_told_apart(hit.1);
    match record {
        Written::Ledger(l) => {
            lemma_held(hit.1, l);
        },
        Written::Bucket(b) => {
            lemma_held(hit.1, b);
        },
    }
}

/// After the accounts of one side have been taken in, the buckets of the
/// sub-pool are those it had and those of that side among the accounts; each
/// of these is known by its side and tick at the address at which it was
/// listed last; the ledger of the side is the one listed last. Nothing is
/// known of any other sub-pool or side that was not known before.
pub proof fn law_listed_accounts_are_taken_in(
    m: SnapshotModel,
    entry: SubPoolEntry,
    long: bool,
    hits: Seq<(Pubkey32, Seq<u8>)>,
    records: Seq<Written>,
)
    requires
        listed(hits, records),
    ensures
        ({
            let after = snapshot::with_accounts(m, entry, long, hits);
            let id = entry.sub_pool_id;
            let dir = if long {
                Direction::Long
            } else {
                Direction::Short
            };
            &&& after.market == m.market
            &&& after.sub_pools == m.sub_pools
            &&& forall|b: OnchainDormantBucket| #[trigger]
                snapshot::buckets_at(after, id).contains(b) <==> snapshot::buckets_at(
                    m,
                    id,
                ).contains(b) || exists|j: int| #[trigger] bucket_at(records, j, entry, long, b)
            &&& forall|j: int, b: OnchainDormantBucket| #[trigger]
                bucket_at(records, j, entry, long, b) ==> after.bucket_pubkeys.contains_key(
                    (id, dir, b.zero_price_tick),
                )
            &&& forall|k: (u32, Direction, i64)| #[trigger]
                after.bucket_pubkeys.contains_key(k) ==> (m.bucket_pubkeys.contains_pair(
                    k,
                    after.bucket_pubkeys[k],
                ) || (k.0 == id && k.1 == dir && exists|j: int, b: OnchainDormantBucket| #[trigger]
                    bucket_at(records, j, entry, long, b) && b.zero_price_tick == k.2 && hits[j].0
                        == after.bucket_pubkeys[k]))
            &&& forall|j: int, l: OnchainDistributionLedger| #[trigger]
                ledger_at(records, j, entry, long, l) ==> after.ledgers.contains_key((id, dir))
                    && after.ledger_pubkeys.contains_key((id, dir))
            &&& forall|k: (u32, Direction)| #[trigger]
                after.ledger_pubkeys.contains_key(k) ==> (m.ledger_pubkeys.contains_pair(
                    k,
                    after.ledger_pubkeys[k],
                ) && (m.ledgers.contains_key(k) ==> after.ledgers.contains_pair(k, m.ledgers[k])))
                    || (k == (id, dir) && exists|j: int, l: OnchainDistributionLedger| #[trigger]
                    ledger_at(records, j, entry, long, l) && hits[j].0 == after.ledger_pubkeys[k]
                        && after.ledgers.contains_pair(k, l@))
            &&& forall|other: u32|
                other != id ==> #[trigger] snapshot::buckets_at(after, other)
                    == snapshot::buckets_at(m, other)
        }),
    decreases hits.len(),
{
    let id = entry.sub_pool_id;
    let dir = if long {
        Direction::Long
    } else {
        Direction::Short
    };
    if hits.len() > 0 {
        let n = hits.len() - 1;
        let most = hits.drop_last();
        let fewer = records.drop_last();
        assert forall|j: int| 0 <= j < most.len() implies match #[trigger] fewer[j] {
            Written::Ledger(l) => holds(most[j].1, l),
            Written::Bucket(b) => holds(most[j].1, b),
        } by {
            assert(fewer[j] == records[j]);
        }
        law_listed_accounts_are_taken_in(m, entry, long, most, fewer);
        let before = snapshot::with_accounts(m, entry, long, most);
        let after = snapshot::with_accounts(m, entry, long, hits);
        assert(records[n] == records.last() && hits[n] == hits.last());
        lemma_one_account(before, entry, long, hits[n], records[n]);
        let had = snapshot::buckets_at(before, id);
        let has = snapshot::buckets_at(after, id);
        assert forall|b: OnchainDormantBucket| #[trigger]
            has.contains(b) <==> snapshot::buckets_at(m, id).contains(b) || exists|j: int| #[trigger]
                bucket_at(records, j, entry, long, b) by {
            if bucket_at(records, n, entry, long, b) {
                assert(has[had.len() as int] == b);
            }
            if exists|j: int| #[trigger] bucket_at(fewer, j, entry, long, b) {
                let j = choose|j: int| #[trigger] bucket_at(fewer, j, entry, long, b);
                assert(bucket_at(records, j, entry, long, b));
            }
            if exists|j: int| #[trigger] bucket_at(records, j, entry, long, b) {
                let j = choose|j: int| #[trigger] bucket_at(records, j, entry, long, b);
                if j < n {
                    assert(bucket_at(fewer, j, entry, long, b));
                }
            }
            if had.contains(b) {
                let k = choose|k: int| 0 <= k < had.len() && had[k] == b;
                assert(has[k] == b);
            }
            if has.contains(b) && !had.contains(b) {
                let k = choose|k: int| 0 <= k < has.len() && has[k] == b;
                assert(k == had.len());
                assert(bucket_at(records, n, entry, long, b));
            }
        }
        assert forall|j: int, b: OnchainDormantBucket| #[trigger]
            bucket_at(records, j, entry, long, b) implies after.bucket_pubkeys.contains_key(
            (id, dir, b.zero_price_tick),
        ) by {
            if j < n {
                assert(bucket_at(fewer, j, entry, long, b));
            }
        }
        assert forall|k: (u32, Direction, i64)| #[trigger]
            after.bucket_pubkeys.contains_key(k) implies (m.bucket_pubkeys.contains_pair(
            k,
            after.bucket_pubkeys[k],
        ) || (k.0 == id && k.1 == dir && exists|j: int, b: OnchainDormantBucket| #[trigger]
            bucket_at(records, j, entry, long, b) && b.zero_price_tick == k.2 && hits[j].0
                == after.bucket_pubkeys[k])) by {
            if before.bucket_pubkeys.contains_pair(k, after.bucket_pubkeys[k]) {
                if !m.bucket_pubkeys.contains_pair(k, after.bucket_pubkeys[k]) {
                    assert(before.bucket_pubkeys.contains_key(k));
                    let (j, b) = choose|j: int, b: OnchainDormantBucket| #[trigger]
                        bucket_at(fewer, j, entry, long, b) && b.zero_price_tick == k.2
                            && most[j].0 == before.bucket_pubkeys[k];
                    assert(bucket_at(records, j, entry, long, b));
                    assert(hits[j] == most[j]);
                }
            } else {
                let b = records[n]->Bucket_0;
                assert(bucket_at(records, n, entry, long, b));
            }
        }
        assert forall|j: int, l: OnchainDistributionLedger| #[trigger]
            ledger_at(records, j, entry, long, l) implies after.ledgers.contains_key((id, dir))
            && after.ledger_pubkeys.contains_key((id, dir)) by {
            if j < n {
                assert(ledger_at(fewer, j, entry, long, l));
            }
        }
        assert forall|k: (u32, Direction)| #[trigger]
            after.ledger_pubkeys.contains_key(k) implies (m.ledger_pubkeys.contains_pair(
            k,
            after.ledger_pubkeys[k],
        ) && (m.ledgers.contains_key(k) ==> after.ledgers.contains_pair(k, m.ledgers[k]))) || (k
            == (id, dir) && exists|j: int, l: OnchainDistributionLedger| #[trigger]
            ledger_at(records, j, entry, long, l) && hits[j].0 == after.ledger_pubkeys[k]
                && after.ledgers.contains_pair(k, l@)) by {
            if after.ledger_pubkeys == before.ledger_pubkeys && after.ledgers == before.ledgers {
                assert(before.ledger_pubkeys.contains_key(k));
                if k == (id, dir) && exists|j: int, l: OnchainDistributionLedger| #[trigger]
                    ledger_at(fewer, j, entry, long, l) && most[j].0 == before.ledger_pubkeys[k]
                        && before.ledgers.contains_pair(k, l@) {
                    let (j, l) = choose|j: int, l: OnchainDistributionLedger| #[trigger]
                        ledger_at(fewer, j, entry, long, l) && most[j].0 == before.ledger_pubkeys[k]
                            && before.ledgers.contains_pair(k, l@);
                    assert(ledger_at(records, j, entry, long, l));
                    assert(hits[j] == most[j]);
                }
            } else {
                let l = records[n]->Ledger_0;
                assert(ledger_at(records, n, entry, long, l));
                if k != (id, dir) {
                    assert(before.ledger_pubkeys.contains_key(k));
                }
            }
        }
        assert forall|other: u32| other != id implies #[trigger] snapshot::buckets_at(after, other)
            == snapshot::buckets_at(m, other) by {
            assert(snapshot::buckets_at(after, other) == snapshot::buckets_at(before, other));
        }
    }
}

/// The two models agree on one sub-pool.
pub open spec fn agree_on(a: SnapshotModel, b: SnapshotModel, id: u32) -> bool {
    &&& a.sub_pools.contains_key(id) == b.sub_pools.contains_key(id)
    &&& a.sub_pools.contains_key(id) ==> a.sub_pools[id] == b.sub_pools[id]
    &&& snapshot::buckets_at(a, id) == snapshot::buckets_at(b, id)
    &&& forall|d: Direction| #[trigger]
        a.ledgers.contains_key((id, d)) == b.ledgers.contains_key((id, d))
    &&& forall|d: Direction| #[trigger]
        a.ledgers.contains_key((id, d)) ==> a.ledgers[(id, d)] == b.ledgers[(id, d)]
    &&& forall|d: Direction| #[trigger]
        a.ledger_pubkeys.contains_key((id, d)) == b.ledger_pubkeys.contains_key((id, d))
    &&& forall|d: Direction| #[trigger]
        a.ledger_pubkeys.contains_key((id, d)) ==> a.ledger_pubkeys[(id, d)]
            == b.ledger_pubkeys[(id, d)]
    &&& forall|d: Direction, t: i64| #[trigger]
        a.bucket_pubkeys.contains_key((id, d, t)) == b.bucket_pubkeys.contains_key((id, d, t))
    &&& forall|d: Direction, t: i64| #[trigger]
        a.bucket_pubkeys.contains_key((id, d, t)) ==> a.bucket_pubkeys[(id, d, t)]
            == b.bucket_pubkeys[(id, d, t)]
}

/// The accounts of one sub-pool say nothing about another.
proof fn lemma_accounts_leave_others(
    m: SnapshotModel,
    entry: SubPoolEntry,
    long: bool,
    hits: Seq<(Pubkey32, Seq<u8>)>,
    other: u32,
)
    requires
        other != entry.sub_pool_id,
    ensures
        agree_on(snapshot::with_accounts(m, entry, long, hits), m, other),
    decreases hits.len(),
{
    if hits.len() > 0 {
        lemma_accounts_leave_others(m, entry, long, hits.drop_last(), other);
    }
}

/// The answers about one sub-pool say nothing about another.
pub proof fn law_pools_are_read_apart(
    m: SnapshotModel,
    entry: SubPoolEntry,
    p: PoolAnswers,
    other: u32,
)
    requires
        other != entry.sub_pool_id,
    ensures
        agree_on(snapshot::after_pool(m, entry, p).0, m, other),
        snapshot::after_pool(m, entry, p).0.market == m.market,
{
    let m1 = snapshot::with_pool(m, entry, p.account);
    lemma_accounts_keep_market(m1, entry, true, p.long->Ok_0);
    lemma_accounts_leave_others(m1, entry, true, p.long->Ok_0, other);
    let m2 = snapshot::with_accounts(m1, entry, true, p.long->Ok_0);
    lemma_accounts_keep_market(m2, entry, false, p.short->Ok_0);
    lemma_accounts_leave_others(m2, entry, false, p.short->Ok_0, other);
}

/// The accounts of a sub-pool say nothing about the market.
proof fn lemma_accounts_keep_market(
    m: SnapshotModel,
    entry: SubPoolEntry,
    long: bool,
    hits: Seq<(Pubkey32, Seq<u8>)>,
)
    ensures
        snapshot::with_accounts(m, entry, long, hits).market == m.market,
        snapshot::with_accounts(m, entry, long, hits).sub_pools == m.sub_pools,
    decreases hits.len(),
{
    if hits.len() > 0 {
        lemma_accounts_keep_market(m, entry, long, hits.drop_last());
    }
}

/// What the chain has of one sub-pool: its record and the accounts of its sides.
pub struct PoolRecords {
    /// The sub-pool.
    pub pool: OnchainSubPool,
    /// The accounts listed for its long side.
    pub longs: Seq<Written>,
    /// The accounts listed for its short side.
    pub shorts: Seq<Written>,
}

/// The answers are these records, as the program writes them.
pub open spec fn answered(p: PoolAnswers, c: PoolRecords) -> bool {
    &&& p.account matches Ok(Some(data)) && holds(data, c.pool)
    &&& p.long matches Ok(hits) && listed(hits, c.longs)
    &&& p.short matches Ok(hits) && listed(hits, c.shorts)
}

/// The bucket is among the accounts of one side or the other of a sub-pool.
pub open spec fn on_chain(c: PoolRecords, entry: SubPoolEntry, b: OnchainDormantBucket) -> bool {
    ||| exists|j: int| #[trigger] bucket_at(c.longs, j, entry, true, b)
    ||| exists|j: int| #[trigger] bucket_at(c.shorts, j, entry, false, b)
}

/// The model shows a sub-pool as the chain has it.
pub open spec fn shows_pool(m: SnapshotModel, entry: SubPoolEntry, c: PoolRecords) -> bool {
    let id = entry.sub_pool_id;
    &&& m.sub_pools.contains_key(id)
    &&& m.sub_pools[id] == c.pool
    &&& forall|b: OnchainDormantBucket| #[trigger]
        snapshot::buckets_at(m, id).contains(b) <==> on_chain(c, entry, b)
    &&& forall|j: int, b: OnchainDormantBucket| #[trigger]
        bucket_at(c.longs, j, entry, true, b) ==> m.bucket_pubkeys.contains_key(
            (id, Direction::Long, b.zero_price_tick),
        )
    &&& forall|j: int, b: OnchainDormantBucket| #[trigger]
        bucket_at(c.shorts, j, entry, false, b) ==> m.bucket_pubkeys.contains_key(
            (id, Direction::Short, b.zero_price_tick),
        )
    &&& forall|j: int, l: OnchainDistributionLedger| #[trigger]
        ledger_at(c.longs, j, entry, true, l) ==> m.ledgers.contains_key((id, Direction::Long))
            && m.ledger_pubkeys.contains_key((id, Direction::Long))
    &&& forall|j: int, l: OnchainDistributionLedger| #[trigger]
        ledger_at(c.shorts, j, entry, false, l) ==> m.ledgers.contains_key((id, Direction::Short))
            && m.ledger_pubkeys.contains_key((id, Direction::Short))
}

/// Reading one sub-pool about which nothing was known yet shows it as the chain has it.
proof fn lemma_one_pool(m: SnapshotModel, entry: SubPoolEntry, p: PoolAnswers, c: PoolRecords)
    requires
        answered(p, c),
        snapshot::buckets_at(m, entry.sub_pool_id).len() == 0,
    ensures
        snapshot::after_pool(m, entry, p).1 is None,
        shows_pool(snapshot::after_pool(m, entry, p).0, entry, c),
        snapshot::after_pool(m, entry, p).0.market == m.market,
{
    let id = entry.sub_pool_id;
    lemma_held(p.account->Ok_0->Some_0, c.pool);
    let m1 = snapshot::with_pool(m, entry, p.account);
    let m2 = snapshot::with_accounts(m1, entry, true, p.long->Ok_0);
    let m3 = snapshot::with_accounts(m2, entry, false, p.short->Ok_0);
    law_listed_accounts_are_taken_in(m1, entry, true, p.long->Ok_0, c.longs);
    law_listed_accounts_are_taken_in(m2, entry, false, p.short->Ok_0, c.shorts);
    lemma_accounts_grow(m2, entry, false, p.short->Ok_0);
    let after = snapshot::with_sorted_buckets(m3, id);
    assert(snapshot::after_pool(m, entry, p).0 == after);
    order::law_sort_exists(snapshot::buckets_at(m3, id));
    if m3.buckets.contains_key(id) {
        order::lemma_permutation(m3.buckets[id], order::sort_of(m3.buckets[id]));
    }
    assert forall|b: OnchainDormantBucket| #[trigger]
        snapshot::buckets_at(after, id).contains(b) <==> on_chain(c, entry, b) by {
        let x = snapshot::buckets_at(m3, id);
        let y = snapshot::buckets_at(after, id);
        assert(!snapshot::buckets_at(m1, id).contains(b));
        assert(x.contains(b) <==> y.contains(b)) by {
            if x.contains(b) {
                let i = choose|i: int| 0 <= i < x.len() && x[i] == b;
                assert(y.contains(x[i]));
            }
            if y.contains(b) {
                let i = choose|i: int| 0 <= i < y.len() && y[i] == b;
                assert(x.contains(y[i]));
            }
        }
        assert(snapshot::buckets_at(m2, id).contains(b) <==> exists|j: int| #[trigger]
            bucket_at(c.longs, j, entry, true, b));
    }
}

/// What is known stays known while accounts are taken in.
proof fn lemma_accounts_grow(
    m: SnapshotModel,
    entry: SubPoolEntry,
    long: bool,
    hits: Seq<(Pubkey32, Seq<u8>)>,
)
    ensures
        ({
            let after = snapshot::with_accounts(m, entry, long, hits);
            &&& forall|k: (u32, Direction, i64)|
                m.bucket_pubkeys.contains_key(k) ==> #[trigger] after.bucket_pubkeys.contains_key(k)
            &&& forall|k: (u32, Direction)|
                m.ledgers.contains_key(k) ==> #[trigger] after.ledgers.contains_key(k)
            &&& forall|k: (u32, Direction)|
                m.ledger_pubkeys.contains_key(k) ==> #[trigger] after.ledger_pubkeys.contains_key(k)
        }),
    decreases hits.len(),
{
    if hits.len() > 0 {
        lemma_accounts_grow(m, entry, long, hits.drop_last());
    }
}

/// A model that agrees with one that shows a sub-pool shows it too.
proof fn lemma_shows_by_agreement(
    a: SnapshotModel,
    b: SnapshotModel,
    entry: SubPoolEntry,
    c: PoolRecords,
)
    requires
        agree_on(a, b, entry.sub_pool_id),
        shows_pool(b, entry, c),
    ensures
        shows_pool(a, entry, c),
{
}

/// The sub-pools read one after the other.
proof fn lemma_pools(
    m: SnapshotModel,
    entries: Seq<SubPoolEntry>,
    pools: Seq<PoolAnswers>,
    chain: Seq<PoolRecords>,
)
    requires
        pools.len() == chain.len(),
        pools.len() <= entries.len(),
        forall|i: int| 0 <= i < pools.len() ==> answered(#[trigger] pools[i], chain[i]),
        forall|i: int, j: int|
            #![trigger entries[i], entries[j]]
            0 <= i < j < entries.len() ==> entries[i].sub_pool_id != entries[j].sub_pool_id,
        forall|id: u32| #[trigger] snapshot::buckets_at(m, id).len() == 0,
    ensures
        snapshot::after_pools(m, entries, pools).1 is None,
        snapshot::after_pools(m, entries, pools).0.market == m.market,
        forall|i: int|
            0 <= i < pools.len() ==> shows_pool(
                snapshot::after_pools(m, entries, pools).0,
                #[trigger] entries[i],
                chain[i],
            ),
        forall|i: int|
            pools.len() <= i < entries.len() ==> snapshot::buckets_at(
                snapshot::after_pools(m, entries, pools).0,
                (#[trigger] entries[i]).sub_pool_id,
            ).len() == 0,
    decreases pools.len(),
{
    if pools.len() > 0 {
        let n = pools.len() - 1;
        let most = pools.drop_last();
        let fewer = chain.drop_last();
        assert forall|i: int| 0 <= i < most.len() implies answered(#[trigger] most[i], fewer[i]) by {
            assert(answered(pools[i], chain[i]));
        }
        lemma_pools(m, entries, most, fewer);
        let before = snapshot::after_pools(m, entries, most).0;
        let after = snapshot::after_pools(m, entries, pools).0;
        assert(pools[n] == pools.last());
        assert(answered(pools[n], chain[n]));
        let e = entries[n];
        lemma_one_pool(before, entries[n], pools[n], chain[n]);
        assert forall|i: int| 0 <= i < pools.len() implies shows_pool(
            after,
            #[trigger] entries[i],
            chain[i],
        ) by {
            if i < n {
                assert(entries[i].sub_pool_id != entries[n].sub_pool_id);
                law_pools_are_read_apart(before, entries[n], pools[n], entries[i].sub_pool_id);
                assert(chain[i] == fewer[i]);
                lemma_shows_by_agreement(after, before, entries[i], chain[i]);
            }
        }
        assert forall|i: int| pools.len() <= i < entries.len() implies snapshot::buckets_at(
            after,
            (#[trigger] entries[i]).sub_pool_id,
        ).len() == 0 by {
            assert(entries[n].sub_pool_id != entries[i].sub_pool_id);
            law_pools_are_read_apart(before, entries[n], pools[n], entries[i].sub_pool_id);
        }
    } else {
        assert forall|i: int| 0 <= i < entries.len() implies snapshot::buckets_at(
            m,
            (#[trigger] entries[i]).sub_pool_id,
        ).len() == 0 by {}
    }
}

/// A refresh from a chain whose accounts the program has written, of a market
/// that is not refused, succeeds, and shows the market and every sub-pool as
/// the chain has it: its record, its buckets of either side and no others,
/// and its ledgers.
pub proof fn law_refresh_shows_the_chain(
    ctx: MarketContext,
    cfg: SnapshotConfig,
    market: OnchainMarket,
    data: Seq<u8>,
    pools: Seq<PoolAnswers>,
    chain: Seq<PoolRecords>,
)
    requires
        holds(data, market),
        cfg.enforce_schema_version ==> market.schema_version == snapshot::SCHEMA_VERSION_CURRENT,
        cfg.bail_when_paused ==> !market.paused,
        pools.len() == ctx.sub_pools@.len(),
        pools.len() == chain.len(),
        forall|i: int| 0 <= i < pools.len() ==> answered(#[trigger] pools[i], chain[i]),
        forall|i: int, j: int|
            #![trigger ctx.sub_pools@[i], ctx.sub_pools@[j]]
            0 <= i < j < ctx.sub_pools@.len() ==> ctx.sub_pools@[i].sub_pool_id
                != ctx.sub_pools@[j].sub_pool_id,
    ensures
        snapshot::after_refresh(ctx, cfg, Ok(Some(data)), pools).1 is None,
        snapshot::after_refresh(ctx, cfg, Ok(Some(data)), pools).0.market == Some(market),
        forall|i: int|
            0 <= i < pools.len() ==> shows_pool(
                snapshot::after_refresh(ctx, cfg, Ok(Some(data)), pools).0,
                #[trigger] ctx.sub_pools@[i],
                chain[i],
            ),
{
    lemma_held(data, market);
    let start = snapshot::with_market(snapshot::empty_model(), cfg, Ok(Some(data)));
    assert forall|id: u32| #[trigger] snapshot::buckets_at(start, id).len() == 0 by {}
    lemma_pools(start, ctx.sub_pools@, pools, chain);
}

/// A market of another schema version is refused with both versions, a paused
/// one as paused, a missing one as missing; each only where it is asked for.
pub proof fn law_refusals_of_markets(cfg: SnapshotConfig, market: OnchainMarket, data: Seq<u8>)
    requires
        holds(data, market),
    ensures
        snapshot::market_fault(cfg, Ok(None)) == Some(RefreshFault::MarketMissing),
        snapshot::market_fault(cfg, Ok(Some(data))) == if cfg.enforce_schema_version
            && market.schema_version != snapshot::SCHEMA_VERSION_CURRENT {
            Some(RefreshFault::WrongSchema(market.schema_version))
        } else if cfg.bail_when_paused && market.paused {
            Some(RefreshFault::Paused)
        } else {
            None
        },
{
    lemma_held(data, market);
}

} // verus!
