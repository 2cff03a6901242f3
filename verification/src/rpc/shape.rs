//! What the instructions for tasks look like: each account by its place, and
//! each byte of the data.
use vstd::prelude::*;
use vstd::seq_lib::*;

use crate::decoder::layout;
use crate::decoder::layout::{flag, number, signed};
use crate::decoder::Pubkey32;
use crate::order;
use crate::order::Sortable;
use crate::planner::cycle::ActionExecutor;
use crate::planner::{Direction, KeeperAction};
use crate::rpc::tx;
use crate::rpc::tx::{AccountMeta, RpcExecutor, TxBuildError, TxBuilder};
use crate::table;
use crate::wire;

verus! {

/// The account is read and does not sign.
pub open spec fn is_read(a: AccountMeta, pubkey: Pubkey32) -> bool {
    a.pubkey == pubkey && !a.is_signer && !a.is_writable
}

/// The account is written and does not sign.
pub open spec fn is_written(a: AccountMeta, pubkey: Pubkey32) -> bool {
    a.pubkey == pubkey && !a.is_signer && a.is_writable
}

/// The account is written and signs.
pub open spec fn is_signing(a: AccountMeta, pubkey: Pubkey32) -> bool {
    a.pubkey == pubkey && a.is_signer && a.is_writable
}

/// The ticks under which buckets of one side are known.
pub open spec fn known_ticks(
    known: Map<(u32, Direction, i64), Pubkey32>,
    id: u32,
    direction: Direction,
) -> Set<i64> {
    Set::new(|tick: i64| known.contains_key((id, direction, tick)))
}

/// The account is a bucket that is known under some tick of one side.
pub open spec fn is_known_bucket(
    a: AccountMeta,
    known: Map<(u32, Direction, i64), Pubkey32>,
    id: u32,
    direction: Direction,
) -> bool {
    exists|tick: i64| #[trigger]
        known.contains_key((id, direction, tick)) && is_written(a, known[(id, direction, tick)])
}

/// The accounts are the buckets of one side: each of them is known under some
/// tick, each that is known is among them, there are as many as there are
/// ticks, they are written, and their addresses do not fall.
pub open spec fn are_side_buckets(
    accounts: Seq<AccountMeta>,
    known: Map<(u32, Direction, i64), Pubkey32>,
    id: u32,
    direction: Direction,
) -> bool {
    &&& forall|i: int|
        0 <= i < accounts.len() ==> is_known_bucket(#[trigger] accounts[i], known, id, direction)
    &&& forall|tick: i64| #[trigger]
        known.contains_key((id, direction, tick)) ==> exists|i: int|
            0 <= i < accounts.len() && is_written(
                #[trigger] accounts[i],
                known[(id, direction, tick)],
            )
    &&& accounts.len() == known_ticks(known, id, direction).len()
    &&& forall|i: int, j: int|
        #![trigger accounts[i], accounts[j]]
        0 <= i < j < accounts.len() ==> order::lex_le(accounts[i].pubkey@, accounts[j].pubkey@)
}

/// Finitely many pairs have finitely many keys.
proof fn lemma_finite<K, V>(items: Seq<(K, V)>)
    ensures
        table::map_of(items).dom().finite(),
    decreases items.len(),
{
    if items.len() > 0 {
        lemma_finite(items.drop_last());
    }
}

/// The buckets of one side, as they are appended to an instruction.
proof fn lemma_side<B: TxBuilder>(exec: RpcExecutor<B>, id: u32, direction: Direction)
    ensures
        are_side_buckets(
            tx::written(tx::side_buckets(exec.snapshot@, id, direction)),
            exec.snapshot.bucket_pubkeys@,
            id,
            direction,
        ),
{
    let known = exec.snapshot.bucket_pubkeys@;
    let m = exec.snapshot@;
    let ticks = tx::ticks_of(m, id, direction);
    lemma_finite(exec.snapshot.bucket_pubkeys.items());
    let mine = known.dom().filter(
        |k: (u32, Direction, i64)| k.0 == id && k.1 == direction,
    );
    let tick_of = |k: (u32, Direction, i64)| k.2;
    known.dom().lemma_len_filter(|k: (u32, Direction, i64)| k.0 == id && k.1 == direction);
    mine.lemma_map_finite(tick_of);
    assert(ticks =~= mine.map(tick_of)) by {
        assert forall|t: i64| ticks.contains(t) implies mine.map(tick_of).contains(t) by {
            assert(mine.contains((id, direction, t)));
            assert(tick_of((id, direction, t)) == t);
        }
    }
    order::law_listing_exists(ticks);
    let list = order::listing_of(ticks);
    let f = |tick: i64| m.bucket_pubkeys[(id, direction, tick)];
    let keys = list.map_values(f);
    order::law_sort_exists(keys);
    let sorted = order::sort_of(keys);
    order::lemma_permutation(keys, sorted);
    assert(tx::side_buckets(m, id, direction) == sorted);
    let accounts = tx::written(sorted);
    assert forall|i: int| 0 <= i < accounts.len() implies is_known_bucket(
        #[trigger] accounts[i],
        known,
        id,
        direction,
    ) by {
        assert(keys.contains(sorted[i]));
        let k = choose|k: int| 0 <= k < keys.len() && keys[k] == sorted[i];
        assert(list.contains(list[k]));
        assert(known.contains_key((id, direction, list[k])));
    }
    assert forall|tick: i64| #[trigger] known.contains_key((id, direction, tick)) implies exists|
        i: int,
    |
        0 <= i < accounts.len() && is_written(
            #[trigger] accounts[i],
            known[(id, direction, tick)],
        ) by {
        assert(ticks.contains(tick));
        assert(list.contains(tick));
        let k = choose|k: int| 0 <= k < list.len() && list[k] == tick;
        assert(keys[k] == f(tick));
        assert(sorted.contains(keys[k]));
        let i = choose|i: int| 0 <= i < sorted.len() && sorted[i] == keys[k];
        assert(is_written(accounts[i], known[(id, direction, tick)]));
    }
    assert(list.no_duplicates());
    list.unique_seq_to_set();
    assert(list.to_set() =~= ticks) by {
        assert forall|t: i64| list.to_set().contains(t) == ticks.contains(t) by {
            assert(list.contains(t) == list.to_set().contains(t));
        }
    }
    assert(ticks =~= known_ticks(known, id, direction));
    assert forall|i: int, j: int|
        #![trigger accounts[i], accounts[j]]
        0 <= i < j < accounts.len() implies order::lex_le(
        accounts[i].pubkey@,
        accounts[j].pubkey@,
    ) by {
        assert(sorted[i].before_eq(&sorted[j]));
    }
}

/// The instruction that drains a bucket names, in this order: the market, the
/// sub-pool, the long ledger, the short ledger, the clock, the keeper who
/// signs; then every long bucket and after them every short one.
pub proof fn law_pre_sync_accounts_by_place<B: TxBuilder>(
    exec: RpcExecutor<B>,
    id: u32,
    direction: Direction,
    tick: i64,
    pending: u64,
)
    requires
        tx::built(
            exec.context(),
            KeeperAction::PreSyncDormantBucket { sub_pool_id: id, direction, tick, pending },
        ) is Ok,
    ensures
        ({
            let d = tx::built(
                exec.context(),
                KeeperAction::PreSyncDormantBucket { sub_pool_id: id, direction, tick, pending },
            )->Ok_0;
            let ledgers = exec.snapshot.ledger_pubkeys@;
            let a = d.accounts;
            let n = a.len() as int;
            &&& d.program_id == exec.program_id
            &&& n >= 6
            &&& is_read(a[0], exec.market)
            &&& exec.sub_pool_pubkeys@.contains_key(id)
            &&& is_written(a[1], exec.sub_pool_pubkeys@[id])
            &&& ledgers.contains_key((id, Direction::Long))
            &&& is_written(a[2], ledgers[(id, Direction::Long)])
            &&& ledgers.contains_key((id, Direction::Short))
            &&& is_written(a[3], ledgers[(id, Direction::Short)])
            &&& is_read(a[4], exec.clock_sysvar)
            &&& is_signing(a[5], exec.keeper)
            &&& exists|split: int|
                #![trigger a.subrange(6, split), a.subrange(split, n)]
                6 <= split <= n && are_side_buckets(
                    a.subrange(6, split),
                    exec.snapshot.bucket_pubkeys@,
                    id,
                    Direction::Long,
                ) && are_side_buckets(
                    a.subrange(split, n),
                    exec.snapshot.bucket_pubkeys@,
                    id,
                    Direction::Short,
                )
        }),
{
    let action = KeeperAction::PreSyncDormantBucket { sub_pool_id: id, direction, tick, pending };
    let a = tx::built(exec.context(), action)->Ok_0.accounts;
    assert(a == tx::pre_sync_accounts(exec.context(), id));
    let longs = tx::written(tx::side_buckets(exec.snapshot@, id, Direction::Long));
    let shorts = tx::written(tx::side_buckets(exec.snapshot@, id, Direction::Short));
    lemma_side(exec, id, Direction::Long);
    lemma_side(exec, id, Direction::Short);
    let split = 6 + longs.len() as int;
    let n = a.len() as int;
    assert(a.subrange(6, split) =~= longs);
    assert(a.subrange(split, n) =~= shorts);
}

/// The data of the instruction that drains a bucket: its discriminator, the
/// side, the tick, and how many buckets the sub-pool accounts for on the long
/// and on the short side.
pub proof fn law_pre_sync_data_by_place<B: TxBuilder>(
    exec: RpcExecutor<B>,
    id: u32,
    direction: Direction,
    tick: i64,
    pending: u64,
)
    requires
        tx::built(
            exec.context(),
            KeeperAction::PreSyncDormantBucket { sub_pool_id: id, direction, tick, pending },
        ) is Ok,
    ensures
        ({
            let d = tx::built(
                exec.context(),
                KeeperAction::PreSyncDormantBucket { sub_pool_id: id, direction, tick, pending },
            )->Ok_0;
            let pools = exec.snapshot.sub_pools@;
            &&& d.data.len() == 25
            &&& d.data.take(8) == tx::DISC_PRE_SYNC_DORMANT_BUCKET@
            &&& flag(d.data, 8) == (direction is Long)
            &&& signed(d.data, 9) == tick
            &&& pools.contains_key(id)
            &&& number(d.data, 17, 4) == pools[id].long_dormant_bucket_count
            &&& number(d.data, 21, 4) == pools[id].short_dormant_bucket_count
        }),
{
    broadcast use crate::wire::group_wire;

    let pool = exec.snapshot.sub_pools@[id];
    let (longs, shorts) = (pool.long_dormant_bucket_count, pool.short_dormant_bucket_count);
    let data = tx::pre_sync_data(direction == Direction::Long, tick, longs, shorts);
    assert(data.take(8) =~= tx::DISC_PRE_SYNC_DORMANT_BUCKET@);
    assert(data[8] == wire::bool_wire(direction == Direction::Long)[0]);
    assert(data.subrange(9, 17) =~= wire::i64_wire(tick));
    assert(data.subrange(17, 21) =~= wire::u32_wire(longs));
    assert(data.subrange(21, 25) =~= wire::u32_wire(shorts));
    layout::lemma_number(data, 9, 8);
    layout::lemma_number(data, 17, 4);
    layout::lemma_number(data, 21, 4);
    wire::lemma_byte_ranges();
    wire::lemma_le_value_of_le_bytes(wire::i64_pattern(tick), 8);
    wire::lemma_le_value_of_le_bytes(longs as nat, 4);
    wire::lemma_le_value_of_le_bytes(shorts as nat, 4);
}

/// The instruction that closes a bucket names, in this order: the market, the
/// sub-pool, the ledger of the bucket's side, the bucket, the keeper as the
/// receiver of the rent, and the keeper who signs. Its data: the
/// discriminator, the side and the tick.
pub proof fn law_close_by_place<B: TxBuilder>(
    exec: RpcExecutor<B>,
    id: u32,
    direction: Direction,
    tick: i64,
)
    requires
        tx::built(
            exec.context(),
            KeeperAction::CloseDormantBucket { sub_pool_id: id, direction, tick },
        ) is Ok,
    ensures
        ({
            let d = tx::built(
                exec.context(),
                KeeperAction::CloseDormantBucket { sub_pool_id: id, direction, tick },
            )->Ok_0;
            let ledgers = exec.snapshot.ledger_pubkeys@;
            let buckets = exec.snapshot.bucket_pubkeys@;
            let a = d.accounts;
            &&& d.program_id == exec.program_id
            &&& d.action == (KeeperAction::CloseDormantBucket { sub_pool_id: id, direction, tick })
            &&& a.len() == 6
            &&& is_read(a[0], exec.market)
            &&& exec.sub_pool_pubkeys@.contains_key(id)
            &&& is_read(a[1], exec.sub_pool_pubkeys@[id])
            &&& ledgers.contains_key((id, direction))
            &&& is_read(a[2], ledgers[(id, direction)])
            &&& buckets.contains_key((id, direction, tick))
            &&& is_written(a[3], buckets[(id, direction, tick)])
            &&& is_written(a[4], exec.keeper)
            &&& is_signing(a[5], exec.keeper)
            &&& d.data.len() == 17
            &&& d.data.take(8) == tx::DISC_CLOSE_DORMANT_BUCKET@
            &&& flag(d.data, 8) == (direction is Long)
            &&& signed(d.data, 9) == tick
        }),
{
    lemma_bucket_data(tx::DISC_CLOSE_DORMANT_BUCKET, direction, tick);
}

/// Side and tick behind a discriminator.
proof fn lemma_bucket_data(disc: [u8; 8], direction: Direction, tick: i64)
    ensures
        ({
            let data = disc@ + wire::bool_wire(direction == Direction::Long) + wire::i64_wire(tick);
            &&& data.len() == 17
            &&& data.take(8) == disc@
            &&& flag(data, 8) == (direction is Long)
            &&& signed(data, 9) == tick
        }),
{
    broadcast use crate::wire::group_wire;

    let data = disc@ + wire::bool_wire(direction == Direction::Long) + wire::i64_wire(tick);
    assert(data.take(8) =~= disc@);
    assert(data[8] == wire::bool_wire(direction == Direction::Long)[0]);
    assert(data.subrange(9, 17) =~= wire::i64_wire(tick));
    layout::lemma_number(data, 9, 8);
    wire::lemma_byte_ranges();
    wire::lemma_le_value_of_le_bytes(wire::i64_pattern(tick), 8);
}

/// The instruction that creates a bucket names, in this order: the market, the
/// sub-pool, a stand-in for the bucket, the keeper who signs and pays, and the
/// system program. The stand-in holds a mark, the side, the tick and the start
/// of the sub-pool's address. Its data: the discriminator, the side and the
/// tick.
pub proof fn law_init_by_place<B: TxBuilder>(
    exec: RpcExecutor<B>,
    id: u32,
    direction: Direction,
    tick: i64,
    action: KeeperAction,
    bucket: Pubkey32,
)
    requires
        action matches KeeperAction::InitDormantBucket { sub_pool_id, direction: d, tick: t, .. }
            && sub_pool_id == id && d == direction && t == tick,
        tx::built(exec.context(), action) is Ok,
        bucket@ == tx::placeholder(
            exec.sub_pool_pubkeys@[id],
            direction == Direction::Long,
            tick,
        ),
    ensures
        ({
            let d = tx::built(exec.context(), action)->Ok_0;
            let a = d.accounts;
            &&& d.program_id == exec.program_id
            &&& a.len() == 5
            &&& is_read(a[0], exec.market)
            &&& exec.sub_pool_pubkeys@.contains_key(id)
            &&& is_read(a[1], exec.sub_pool_pubkeys@[id])
            &&& is_written(a[2], bucket)
            &&& is_signing(a[3], exec.keeper)
            &&& is_read(a[4], exec.system_program)
            &&& d.data.len() == 17
            &&& d.data.take(8) == tx::DISC_INITIALIZE_DORMANT_BUCKET@
            &&& flag(d.data, 8) == (direction is Long)
            &&& signed(d.data, 9) == tick
        }),
        bucket@.len() == 32,
        bucket@.take(5) == seq![0xffu8, 0xffu8, 0x50u8, 0x44u8, 0x41u8],
        flag(bucket@, 5) == (direction is Long),
        signed(bucket@, 6) == tick,
        bucket@.subrange(14, 32) == exec.sub_pool_pubkeys@[id]@.take(18),
{
    broadcast use crate::wire::group_wire;

    lemma_bucket_data(tx::DISC_INITIALIZE_DORMANT_BUCKET, direction, tick);
    let pool = exec.sub_pool_pubkeys@[id];
    let chosen = choose|pk: Pubkey32|
        pk@ == tx::placeholder(pool, direction == Direction::Long, tick);
    wire::lemma_array_injective(bucket, chosen);
    assert(bucket@.take(5) =~= seq![0xffu8, 0xffu8, 0x50u8, 0x44u8, 0x41u8]);
    assert(bucket@[5] == wire::bool_wire(direction == Direction::Long)[0]);
    assert(bucket@.subrange(6, 14) =~= wire::i64_wire(tick));
    assert(bucket@.subrange(14, 32) =~= pool@.take(18));
    layout::lemma_number(bucket@, 6, 8);
    wire::lemma_byte_ranges();
    wire::lemma_le_value_of_le_bytes(wire::i64_pattern(tick), 8);
}

/// An instruction is refused exactly where the executor lacks an address that
/// it would name, and the error says which: that of the sub-pool, that of a
/// ledger, or that of the bucket. Draining also needs the sub-pool's record.
pub proof fn law_refusals_name_what_is_missing<B: TxBuilder>(
    exec: RpcExecutor<B>,
    action: KeeperAction,
)
    ensures
        ({
            let pools = exec.sub_pool_pubkeys@;
            let ledgers = exec.snapshot.ledger_pubkeys@;
            let buckets = exec.snapshot.bucket_pubkeys@;
            let records = exec.snapshot.sub_pools@;
            let r = tx::built(exec.context(), action);
            match action {
                KeeperAction::PreSyncDormantBucket { sub_pool_id: id, direction, tick, .. } => {
                    r is Ok <==> pools.contains_key(id) && ledgers.contains_key(
                        (id, Direction::Long),
                    ) && ledgers.contains_key((id, Direction::Short)) && buckets.contains_key(
                        (id, direction, tick),
                    ) && records.contains_key(id)
                },
                KeeperAction::CloseDormantBucket { sub_pool_id: id, direction, tick } => {
                    r is Ok <==> pools.contains_key(id) && ledgers.contains_key((id, direction))
                        && buckets.contains_key((id, direction, tick))
                },
                KeeperAction::InitDormantBucket { sub_pool_id: id, .. } => {
                    r is Ok <==> pools.contains_key(id)
                },
            }
        }),
        match tx::built(exec.context(), action) {
            Err(TxBuildError::MissingSubPool(id)) => id == id_of(action) && (
            !exec.sub_pool_pubkeys@.contains_key(id) || (action is PreSyncDormantBucket
                && !exec.snapshot.sub_pools@.contains_key(id))),
            Err(TxBuildError::MissingLedger { sub_pool_id, direction }) => {
                &&& sub_pool_id == id_of(action)
                &&& !exec.snapshot.ledger_pubkeys@.contains_key((sub_pool_id, direction))
                &&& action matches KeeperAction::CloseDormantBucket { direction: d, .. } ==> d
                    == direction
            },
            Err(TxBuildError::MissingBucket { sub_pool_id, direction, tick }) => {
                &&& sub_pool_id == id_of(action)
                &&& !exec.snapshot.bucket_pubkeys@.contains_key((sub_pool_id, direction, tick))
            },
            Err(TxBuildError::Builder(_)) => false,
            Ok(_) => true,
        },
{
}

/// The sub-pool that a task is about.
pub open spec fn id_of(action: KeeperAction) -> u32 {
    match action {
        KeeperAction::PreSyncDormantBucket { sub_pool_id, .. } => sub_pool_id,
        KeeperAction::CloseDormantBucket { sub_pool_id, .. } => sub_pool_id,
        KeeperAction::InitDormantBucket { sub_pool_id, .. } => sub_pool_id,
    }
}

/// The address of a sub-pool is that which its ledgers name: the long one
/// where it is known, else the short one. Addresses that are handed in come
/// before those that were read off.
pub proof fn law_pool_addresses_come_from_ledgers<B: TxBuilder>(exec: RpcExecutor<B>, id: u32)
    ensures
        ({
            let m = exec.snapshot;
            let known = m.ledger_pubkeys@.contains_key((id, Direction::Long))
                || m.ledger_pubkeys@.contains_key((id, Direction::Short));
            let pools = tx::inferred_pools(m@);
            &&& pools.contains_key(id) <==> known && (m.ledgers@.contains_key((id, Direction::Long))
                || m.ledgers@.contains_key((id, Direction::Short)))
            &&& known && m.ledgers@.contains_key((id, Direction::Long)) ==> pools[id]
                == m.ledgers@[(id, Direction::Long)].sub_pool
            &&& known && !m.ledgers@.contains_key((id, Direction::Long)) && m.ledgers@.contains_key(
                (id, Direction::Short),
            ) ==> pools[id] == m.ledgers@[(id, Direction::Short)].sub_pool
        }),
{
    let m = exec.snapshot@;
    assert(m.ledgers.contains_key((id, Direction::Long))
        == exec.snapshot.ledgers@.contains_key((id, Direction::Long)));
    assert(m.ledgers.contains_key((id, Direction::Short))
        == exec.snapshot.ledgers@.contains_key((id, Direction::Short)));
}

} // verus!
