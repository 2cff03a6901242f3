//! The seeds from which account addresses are derived.
use vstd::prelude::*;

use crate::decoder::layout;
use crate::decoder::Pubkey32;
use crate::wire;

verus! {

/// Seed prefix of the `GlobalConfig` address: the ASCII bytes of `global_config`.
pub const SEED_GLOBAL_CONFIG: [u8; 13] = [0x67, 0x6c, 0x6f, 0x62, 0x61, 0x6c, 0x5f, 0x63, 0x6f, 0x6e, 0x66, 0x69, 0x67];

/// Seed prefix of `Market` addresses: the ASCII bytes of `market`.
pub const SEED_MARKET: [u8; 6] = [0x6d, 0x61, 0x72, 0x6b, 0x65, 0x74];

/// Seed prefix of `SubPool` addresses: the ASCII bytes of `sub_pool`.
pub const SEED_SUB_POOL: [u8; 8] = [0x73, 0x75, 0x62, 0x5f, 0x70, 0x6f, 0x6f, 0x6c];

/// Seed prefix of `DistributionLedger` addresses: the ASCII bytes of `dist_ledger`.
pub const SEED_DIST_LEDGER: [u8; 11] = [0x64, 0x69, 0x73, 0x74, 0x5f, 0x6c, 0x65, 0x64, 0x67, 0x65, 0x72];

/// Seed prefix of `DormantBucket` addresses: the ASCII bytes of `dormant_bucket`.
pub const SEED_DORMANT_BUCKET: [u8; 14] = [0x64, 0x6f, 0x72, 0x6d, 0x61, 0x6e, 0x74, 0x5f, 0x62, 0x75, 0x63, 0x6b, 0x65, 0x74];

/// Seed prefix of a market's vault authority: the ASCII bytes of `market_vault_authority`.
pub const SEED_MARKET_VAULT_AUTHORITY: [u8; 22] = [0x6d, 0x61, 0x72, 0x6b, 0x65, 0x74, 0x5f, 0x76, 0x61, 0x75, 0x6c, 0x74, 0x5f, 0x61, 0x75, 0x74, 0x68, 0x6f, 0x72, 0x69, 0x74, 0x79];

/// Seed prefix of a market's leader lock: the ASCII bytes of `keeper_leader_lock`.
pub const SEED_KEEPER_LEADER_LOCK: [u8; 18] = [0x6b, 0x65, 0x65, 0x70, 0x65, 0x72, 0x5f, 0x6c, 0x65, 0x61, 0x64, 0x65, 0x72, 0x5f, 0x6c, 0x6f, 0x63, 0x6b];

/// The seeds of one address.
#[derive(Debug, Clone, PartialEq, Eq)]
pub struct PdaSeeds {
    /// The seeds, in order.
    pub segments: Vec<Vec<u8>>,
}

impl PdaSeeds {
    /// The bytes of the seeds.
    pub open spec fn view(&self) -> Seq<Seq<u8>> {
        self.segments@.map_values(|s: Vec<u8>| s@)
    }

    /// The seeds as slices.
    pub fn as_refs(&self) -> (r: Vec<&[u8]>)
        ensures
            r@.len() == self@.len(),
            forall|i: int| 0 <= i < r@.len() ==> (#[trigger] r@[i])@ == self@[i],
    {
        let mut out: Vec<&[u8]> = Vec::new();
        let mut i: usize = 0;
        while i < self.segments.len()
            invariant
                i <= self.segments@.len(),
                out@.len() == i,
                forall|j: int| 0 <= j < i ==> (#[trigger] out@[j])@ == self.segments@[j]@,
            decreases self.segments@.len() - i,
        {
            out.push(self.segments[i].as_slice());
            i = i + 1;
        }
        out
    }
}

/// Seeds made of two byte strings.
fn two_seeds(a: &[u8], b: &[u8]) -> (r: PdaSeeds)
    ensures
        r@ == seq![a@, b@],
{
    let mut segments: Vec<Vec<u8>> = Vec::new();
    segments.push(vstd::slice::slice_to_vec(a));
    segments.push(vstd::slice::slice_to_vec(b));
    let r = PdaSeeds { segments };
    proof {
        assert(r@ =~= seq![a@, b@]);
    }
    r
}

/// The seeds of the `GlobalConfig` address.
pub fn global_config_seeds() -> (r: PdaSeeds)
    ensures
        r@ == seq![SEED_GLOBAL_CONFIG@],
{
    let mut segments: Vec<Vec<u8>> = Vec::new();
    segments.push(vstd::slice::slice_to_vec(SEED_GLOBAL_CONFIG.as_slice()));
    let r = PdaSeeds { segments };
    proof {
        assert(r@ =~= seq![SEED_GLOBAL_CONFIG@]);
    }
    r
}

/// The seeds of a `Market` address.
pub fn market_seeds(symbol: &[u8; 16]) -> (r: PdaSeeds)
    ensures
        r@ == seq![SEED_MARKET@, symbol@],
{
    two_seeds(SEED_MARKET.as_slice(), symbol.as_slice())
}

/// The bytes of the seeds of a `SubPool` address.
pub open spec fn sub_pool_seeds_spec(market: Pubkey32, sub_pool_id: u32) -> Seq<Seq<u8>> {
    seq![SEED_SUB_POOL@, market@, wire::u32_wire(sub_pool_id)]
}

/// The seeds of a `SubPool` address.
pub fn sub_pool_seeds(market: &Pubkey32, sub_pool_id: u32) -> (r: PdaSeeds)
    ensures
        r@ == sub_pool_seeds_spec(*market, sub_pool_id),
{
    let mut r = two_seeds(SEED_SUB_POOL.as_slice(), market.as_slice());
    let ghost before = r@;
    let mut id: Vec<u8> = Vec::new();
    wire::put_u32(&mut id, sub_pool_id);
    r.segments.push(id);
    proof {
        assert(id@ =~= wire::u32_wire(sub_pool_id));
        assert(r@ =~= before.push(id@));
        assert(r@ =~= sub_pool_seeds_spec(*market, sub_pool_id));
    }
    r
}

/// The bytes of the seeds of a `DistributionLedger` address.
pub open spec fn distribution_ledger_seeds_spec(
    sub_pool: Pubkey32,
    direction_is_long: bool,
) -> Seq<Seq<u8>> {
    seq![SEED_DIST_LEDGER@, sub_pool@, wire::bool_wire(direction_is_long)]
}

/// The seeds of a `DistributionLedger` address.
pub fn distribution_ledger_seeds(sub_pool: &Pubkey32, direction_is_long: bool) -> (r: PdaSeeds)
    ensures
        r@ == distribution_ledger_seeds_spec(*sub_pool, direction_is_long),
{
    let mut r = two_seeds(SEED_DIST_LEDGER.as_slice(), sub_pool.as_slice());
    let ghost before = r@;
    let mut side: Vec<u8> = Vec::new();
    wire::put_bool(&mut side, direction_is_long);
    r.segments.push(side);
    proof {
        assert(side@ =~= wire::bool_wire(direction_is_long));
        assert(r@ =~= before.push(side@));
        assert(r@ =~= distribution_ledger_seeds_spec(*sub_pool, direction_is_long));
    }
    r
}

/// The bytes of the seeds of a `DormantBucket` address.
pub open spec fn dormant_bucket_seeds_spec(
    sub_pool: Pubkey32,
    direction_is_long: bool,
    zero_price_tick: i64,
) -> Seq<Seq<u8>> {
    seq![
        SEED_DORMANT_BUCKET@,
        sub_pool@,
        wire::bool_wire(direction_is_long),
        wire::i64_wire(zero_price_tick),
    ]
}

/// The seeds of a `DormantBucket` address.
pub fn dormant_bucket_seeds(
    sub_pool: &Pubkey32,
    direction_is_long: bool,
    zero_price_tick: i64,
) -> (r: PdaSeeds)
    ensures
        r@ == dormant_bucket_seeds_spec(*sub_pool, direction_is_long, zero_price_tick),
{
    let mut r = two_seeds(SEED_DORMANT_BUCKET.as_slice(), sub_pool.as_slice());
    let ghost before = r@;
    let mut side: Vec<u8> = Vec::new();
    wire::put_bool(&mut side, direction_is_long);
    let mut tick: Vec<u8> = Vec::new();
    wire::put_i64(&mut tick, zero_price_tick);
    r.segments.push(side);
    r.segments.push(tick);
    proof {
        assert(side@ =~= wire::bool_wire(direction_is_long));
        assert(tick@ =~= wire::i64_wire(zero_price_tick));
        assert(r@ =~= before.push(side@).push(tick@));
        assert(r@ =~= dormant_bucket_seeds_spec(*sub_pool, direction_is_long, zero_price_tick));
    }
    r
}

/// The seeds of a market's vault authority.
pub fn market_vault_authority_seeds(market: &Pubkey32) -> (r: PdaSeeds)
    ensures
        r@ == seq![SEED_MARKET_VAULT_AUTHORITY@, market@],
{
    two_seeds(SEED_MARKET_VAULT_AUTHORITY.as_slice(), market.as_slice())
}

/// The seeds of a market's leader lock.
pub fn keeper_leader_lock_seeds(market: &Pubkey32) -> (r: PdaSeeds)
    ensures
        r@ == seq![SEED_KEEPER_LEADER_LOCK@, market@],
{
    two_seeds(SEED_KEEPER_LEADER_LOCK.as_slice(), market.as_slice())
}

/// Distinct buckets have distinct seeds.
pub proof fn law_bucket_seeds_are_distinct(
    sub_pool: Pubkey32,
    long: bool,
    tick: i64,
    other_sub_pool: Pubkey32,
    other_long: bool,
    other_tick: i64,
)
    requires
        dormant_bucket_seeds_spec(sub_pool, long, tick) == dormant_bucket_seeds_spec(
            other_sub_pool,
            other_long,
            other_tick,
        ),
    ensures
        sub_pool == other_sub_pool,
        long == other_long,
        tick == other_tick,
{
    let a = dormant_bucket_seeds_spec(sub_pool, long, tick);
    let b = dormant_bucket_seeds_spec(other_sub_pool, other_long, other_tick);
    assert(a[1] == sub_pool@ && b[1] == other_sub_pool@);
    wire::lemma_array_injective(sub_pool, other_sub_pool);
    assert(a[2] == wire::bool_wire(long) && b[2] == wire::bool_wire(other_long));
    wire::lemma_bool_injective(long, other_long);
    assert(a[3] == wire::i64_wire(tick) && b[3] == wire::i64_wire(other_tick));
    wire::lemma_i64_injective(tick, other_tick);
}

/// Distinct sub-pools of the markets have distinct seeds.
pub proof fn law_sub_pool_seeds_are_distinct(
    market: Pubkey32,
    id: u32,
    other_market: Pubkey32,
    other_id: u32,
)
    requires
        sub_pool_seeds_spec(market, id) == sub_pool_seeds_spec(other_market, other_id),
    ensures
        market == other_market,
        id == other_id,
{
    let a = sub_pool_seeds_spec(market, id);
    let b = sub_pool_seeds_spec(other_market, other_id);
    assert(a[1] == market@ && b[1] == other_market@);
    wire::lemma_array_injective(market, other_market);
    assert(a[2] == wire::u32_wire(id) && b[2] == wire::u32_wire(other_id));
    wire::lemma_u32_injective(id, other_id);
}

/// The seed prefixes are the names of the accounts in ASCII.
pub proof fn law_prefixes_spell_the_accounts(i: int)
    ensures
        0 <= i < 13 ==> SEED_GLOBAL_CONFIG@[i] as int == "global_config"@[i] as int,
        0 <= i < 6 ==> SEED_MARKET@[i] as int == "market"@[i] as int,
        0 <= i < 8 ==> SEED_SUB_POOL@[i] as int == "sub_pool"@[i] as int,
        0 <= i < 11 ==> SEED_DIST_LEDGER@[i] as int == "dist_ledger"@[i] as int,
        0 <= i < 14 ==> SEED_DORMANT_BUCKET@[i] as int == "dormant_bucket"@[i] as int,
        0 <= i < 22 ==> SEED_MARKET_VAULT_AUTHORITY@[i] as int == "market_vault_authority"@[
            i
        ] as int,
        0 <= i < 18 ==> SEED_KEEPER_LEADER_LOCK@[i] as int == "keeper_leader_lock"@[i] as int,
{
    reveal_strlit("global_config");
    reveal_strlit("market");
    reveal_strlit("sub_pool");
    reveal_strlit("dist_ledger");
    reveal_strlit("dormant_bucket");
    reveal_strlit("market_vault_authority");
    reveal_strlit("keeper_leader_lock");
}

/// The seeds of sub-pools, ledgers and buckets by place: the name of the
/// account, the account it belongs to, then the number in four bytes with
/// the least significant first, or the side in one, and the tick in eight.
pub proof fn law_seeds_by_place(owner: Pubkey32, id: u32, long: bool, tick: i64)
    ensures
        ({
            let s = sub_pool_seeds_spec(owner, id);
            &&& s.len() == 3
            &&& s[0] == SEED_SUB_POOL@
            &&& s[1] == owner@
            &&& s[2].len() == 4
            &&& layout::number(s[2], 0, 4) == id
        }),
        ({
            let s = distribution_ledger_seeds_spec(owner, long);
            &&& s.len() == 3
            &&& s[0] == SEED_DIST_LEDGER@
            &&& s[1] == owner@
            &&& s[2].len() == 1
            &&& s[2][0] == if long {
                1u8
            } else {
                0u8
            }
        }),
        ({
            let s = dormant_bucket_seeds_spec(owner, long, tick);
            &&& s.len() == 4
            &&& s[0] == SEED_DORMANT_BUCKET@
            &&& s[1] == owner@
            &&& s[2].len() == 1
            &&& s[2][0] == if long {
                1u8
            } else {
                0u8
            }
            &&& s[3].len() == 8
            &&& layout::signed(s[3], 0) == tick
        }),
{
    wire::lemma_byte_ranges();
    let four = wire::u32_wire(id);
    wire::lemma_le_bytes_len(id as nat, 4);
    layout::lemma_number(four, 0, 4);
    assert(four.subrange(0, 4) =~= four);
    wire::lemma_le_value_of_le_bytes(id as nat, 4);
    let eight = wire::i64_wire(tick);
    wire::lemma_le_bytes_len(wire::i64_pattern(tick), 8);
    layout::lemma_number(eight, 0, 8);
    assert(eight.subrange(0, 8) =~= eight);
    wire::lemma_le_value_of_le_bytes(wire::i64_pattern(tick), 8);
}

} // verus!
