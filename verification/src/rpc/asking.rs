//! What a refresh asks of the chain, in bytes, and how it says what it did
//! not get.
use vstd::prelude::*;

use crate::decoder::accounts::{
    OnchainDistributionLedger, OnchainDormantBucket, OnchainSubPool,
};
use crate::decoder::Pubkey32;
use crate::order;
use crate::rpc::fetcher;
use crate::rpc::fetcher::{AccountFetcher, MockAccount, RpcError};
use crate::rpc::sight;
use crate::rpc::snapshot;
use crate::rpc::snapshot::{
    MarketContext, PoolAnswers, RefreshFault, SnapshotConfig, SnapshotError, SnapshotModel,
    SubPoolEntry,
};

verus! {

/// The bytes are an address and a last byte behind it.
pub open spec fn is_address_and(bytes: Seq<u8>, pubkey: Pubkey32, last: u8) -> bool {
    &&& bytes.len() == 33
    &&& forall|i: int| 0 <= i < 32 ==> #[trigger] bytes[i] == pubkey@[i]
    &&& bytes[32] == last
}

/// The fetcher was asked for the accounts of the program that hold, behind
/// the tag, the address and the last byte, and may have answered so.
pub open spec fn asked_behind_the_tag<F: AccountFetcher>(
    fetcher: &F,
    program_id: Pubkey32,
    pubkey: Pubkey32,
    last: u8,
    r: Result<Seq<(Pubkey32, Seq<u8>)>, RpcError>,
) -> bool {
    exists|bytes: Seq<u8>| #[trigger]
        fetcher.may_list(program_id, 8, bytes, r) && is_address_and(bytes, pubkey, last)
}

/// A refresh asks for the market by its address, then for each sub-pool by
/// its own; where that can be read, for the accounts that name the sub-pool
/// behind their tag, with a one behind its address for the long side and,
/// where those came, with a zero for the short side.
pub proof fn law_refresh_asks_for_each_account<F: AccountFetcher>(
    fetcher: &F,
    ctx: MarketContext,
    cfg: SnapshotConfig,
    market: Result<Option<Seq<u8>>, RpcError>,
    pools: Seq<PoolAnswers>,
    i: int,
)
    requires
        snapshot::refresh_answered(fetcher, ctx, cfg, market, pools),
        0 <= i < pools.len(),
    ensures
        fetcher.may_fetch(ctx.market, market),
        pools.len() <= ctx.sub_pools@.len(),
        fetcher.may_fetch(ctx.sub_pools@[i].pubkey, pools[i].account),
        forall|pool: OnchainSubPool|
            pools[i].account is Ok && pools[i].account->Ok_0 is Some && #[trigger] sight::holds(
                pools[i].account->Ok_0->Some_0,
                pool,
            ) ==> {
                &&& asked_behind_the_tag(
                    fetcher,
                    ctx.program_id,
                    ctx.sub_pools@[i].pubkey,
                    1,
                    pools[i].long,
                )
                &&& pools[i].long is Ok ==> asked_behind_the_tag(
                    fetcher,
                    ctx.program_id,
                    ctx.sub_pools@[i].pubkey,
                    0,
                    pools[i].short,
                )
            },
{
    let entry = ctx.sub_pools@[i];
    assert(snapshot::pool_answered(fetcher, ctx, entry, pools[i]));
    assert(is_address_and(snapshot::side_prefix(entry.pubkey, true), entry.pubkey, 1));
    assert(is_address_and(snapshot::side_prefix(entry.pubkey, false), entry.pubkey, 0));
    assert forall|pool: OnchainSubPool|
        pools[i].account is Ok && pools[i].account->Ok_0 is Some && #[trigger] sight::holds(
            pools[i].account->Ok_0->Some_0,
            pool,
        ) implies snapshot::pool_fault(entry, pools[i].account) is None by {
        sight::lemma_held(pools[i].account->Ok_0->Some_0, pool);
    }
}

/// One byte string comes before another that is as long and not the same if
/// and only if the first byte in which they differ is less.
pub proof fn law_first_difference_decides(a: Seq<u8>, b: Seq<u8>, i: int)
    requires
        a.len() == b.len(),
        0 <= i < a.len(),
        a[i] != b[i],
        forall|j: int| 0 <= j < i ==> a[j] == b[j],
    ensures
        order::lex_le(a, b) <==> a[i] < b[i],
    decreases i,
{
    if i > 0 {
        let x = a.drop_first();
        let y = b.drop_first();
        assert(a[0] == b[0]);
        assert forall|j: int| 0 <= j < i - 1 implies x[j] == y[j] by {
            assert(a[j + 1] == b[j + 1]);
        }
        law_first_difference_decides(x, y, i - 1);
    }
}

/// Equal byte strings come before each other.
pub proof fn law_equal_bytes_are_in_order(a: Seq<u8>)
    ensures
        order::lex_le(a, a),
    decreases a.len(),
{
    if a.len() > 0 {
        law_equal_bytes_are_in_order(a.drop_first());
    }
}

/// A listing holds an account if and only if it belongs to the program and
/// has every byte asked for in its place, and holds it with its data.
pub proof fn law_listing_goes_by_owner_and_bytes(
    accounts: Map<Pubkey32, MockAccount>,
    program_id: Pubkey32,
    offset: int,
    bytes: Seq<u8>,
    hits: Seq<(Pubkey32, Seq<u8>)>,
    k: Pubkey32,
    data: Seq<u8>,
)
    requires
        fetcher::is_listing(accounts, program_id, offset, bytes, hits),
        0 <= offset,
    ensures
        hits.contains((k, data)) <==> {
            &&& accounts.contains_key(k)
            &&& accounts[k].owner == program_id
            &&& accounts[k].data@ == data
            &&& offset + bytes.len() <= data.len()
            &&& forall|i: int| 0 <= i < bytes.len() ==> #[trigger] bytes[i] == data[offset + i]
        },
        forall|i: int, j: int|
            #![trigger hits[i], hits[j]]
            0 <= i < j < hits.len() ==> hits[i].0 != hits[j].0 && order::lex_le(
                hits[i].0@,
                hits[j].0@,
            ),
{
    if hits.contains((k, data)) {
        let n = choose|n: int| 0 <= n < hits.len() && hits[n] == (k, data);
        assert(hits[n].0 == k);
        let part = data.subrange(offset, offset + bytes.len());
        assert(part == bytes);
        assert forall|i: int| 0 <= i < bytes.len() implies #[trigger] bytes[i] == data[offset
            + i] by {
            assert(part[i] == data[offset + i]);
        }
    }
    if accounts.contains_key(k) && accounts[k].owner == program_id && accounts[k].data@ == data
        && offset + bytes.len() <= data.len() && (forall|i: int|
        0 <= i < bytes.len() ==> #[trigger] bytes[i] == data[offset + i]) {
        assert(data.subrange(offset, offset + bytes.len()) =~= bytes);
        assert(fetcher::account_matches(accounts[k], program_id, offset, bytes));
    }
}

/// The first sub-pool about which something is wrong ends a refresh: nothing
/// that was said of later ones counts.
pub proof fn law_first_fault_ends_the_refresh(
    m: SnapshotModel,
    entries: Seq<SubPoolEntry>,
    pools: Seq<PoolAnswers>,
    more: Seq<PoolAnswers>,
)
    requires
        snapshot::after_pools(m, entries, pools).1 is Some,
    ensures
        snapshot::after_pools(m, entries, pools + more) == snapshot::after_pools(
            m,
            entries,
            pools,
        ),
    decreases more.len(),
{
    if more.len() == 0 {
        assert(pools + more =~= pools);
    } else {
        law_first_fault_ends_the_refresh(m, entries, pools, more.drop_last());
        assert((pools + more).drop_last() =~= pools + more.drop_last());
    }
}

/// What a refresh says of the sub-pool it stumbled over: that it is missing,
/// under its number and address; or what the chain answered in place of its
/// account or of the accounts of its sides. A sub-pool that is there with
/// both sides is no fault.
pub proof fn law_refusals_of_sub_pools(
    ctx: MarketContext,
    m: SnapshotModel,
    entries: Seq<SubPoolEntry>,
    good: Seq<PoolAnswers>,
    p: PoolAnswers,
    e: SnapshotError,
)
    requires
        snapshot::after_pools(m, entries, good).1 is None,
        good.len() < entries.len(),
        snapshot::after_pools(m, entries, good.push(p)).1 matches Some(fault)
            && snapshot::reports(ctx, e, fault),
    ensures
        p.account == Ok::<Option<Seq<u8>>, RpcError>(None) ==> (e
            matches SnapshotError::SubPoolNotFound { sub_pool_id, pubkey } && sub_pool_id
            == entries[good.len() as int].sub_pool_id && pubkey
            == entries[good.len() as int].pubkey),
        p.account matches Err(cause) ==> e == SnapshotError::Rpc(cause),
        p.account is Ok && p.account->Ok_0 is Some ==> {
            ||| (e matches SnapshotError::Decode { kind, pubkey, .. } && kind@ == "sub_pool"@
                && pubkey == entries[good.len() as int].pubkey)
            ||| (p.long matches Err(cause) && e == SnapshotError::Rpc(cause))
            ||| (p.long is Ok && (p.short matches Err(cause) && e == SnapshotError::Rpc(cause)))
        },
        p.account is Err || p.account->Ok_0 is None || p.long is Err || p.short is Err || e
            is Decode,
{
    assert(good.push(p).drop_last() =~= good);
    assert(good.push(p).last() == p);
}

/// What a refresh says of the market it was refused: that it is missing,
/// under its address; that it is paused; of which version it is and which
/// is read here; or what the chain answered in its place.
pub proof fn law_refusals_name_the_market(ctx: MarketContext, e: SnapshotError, fault: RefreshFault)
    requires
        snapshot::reports(ctx, e, fault),
    ensures
        fault is MarketMissing ==> e == SnapshotError::MarketNotFound(ctx.market),
        fault is Paused ==> e is MarketPaused,
        fault matches RefreshFault::Rpc(cause) ==> e == SnapshotError::Rpc(cause),
        fault matches RefreshFault::WrongSchema(v) ==> (e
            matches SnapshotError::SchemaVersionMismatch { onchain, compiled } && onchain == v
            && compiled == snapshot::SCHEMA_VERSION_CURRENT),
        fault is MarketUnreadable ==> (e matches SnapshotError::Decode { kind, pubkey, .. } && kind@
            == "market"@ && pubkey == ctx.market),
{
}

/// An account that names another sub-pool, or the other side, is passed
/// over, whatever else it holds.
pub proof fn law_accounts_of_others_are_passed_over(
    m: SnapshotModel,
    entry: SubPoolEntry,
    long: bool,
    pubkey: Pubkey32,
    data: Seq<u8>,
)
    ensures
        snapshot::readable::<OnchainDistributionLedger>(data) && !snapshot::readable::<
            OnchainDormantBucket,
        >(data) && (snapshot::ledger_in(data).sub_pool != entry.pubkey || snapshot::ledger_in(
            data,
        ).direction_is_long != long) ==> snapshot::with_account(m, entry, long, (pubkey, data))
            == m,
        snapshot::readable::<OnchainDormantBucket>(data) && !snapshot::readable::<
            OnchainDistributionLedger,
        >(data) && (snapshot::record_in::<OnchainDormantBucket>(data).sub_pool != entry.pubkey
            || snapshot::record_in::<OnchainDormantBucket>(data).direction_is_long != long)
            ==> snapshot::with_account(m, entry, long, (pubkey, data)) == m,
{
}

} // verus!
