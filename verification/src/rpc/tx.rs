//! Instructions for the keeper's tasks.
//!
//! A task names a bucket by sub-pool, side and tick. The executor looks the
//! accounts of the task up in a snapshot, encodes the instruction and hands
//! both to a builder, which signs and submits.
use std::collections::HashMap;

use vstd::prelude::*;
use vstd::seq_lib::*;

use crate::decoder::Pubkey32;
use crate::ids::ids_of;
use crate::order;
use crate::planner::cycle::{ActionDispatchResult, ActionExecutor};
use crate::planner::{Direction, InitRationale, KeeperAction};
use crate::rpc::snapshot;
use crate::rpc::snapshot::{ChainSnapshot, SnapshotModel};
use crate::table;
use crate::text;
use crate::wire;

verus! {

/// Discriminator of the instruction `pre_sync_dormant_bucket`.
pub const DISC_PRE_SYNC_DORMANT_BUCKET: [u8; 8] = [0xd6, 0x62, 0xa8, 0x7a, 0xc1, 0x9c, 0x38, 0x08];

/// Discriminator of the instruction `close_dormant_bucket`.
pub const DISC_CLOSE_DORMANT_BUCKET: [u8; 8] = [0x16, 0x25, 0x10, 0x86, 0xff, 0x31, 0xf8, 0x83];

/// Discriminator of the instruction `initialize_dormant_bucket`.
pub const DISC_INITIALIZE_DORMANT_BUCKET: [u8; 8] = [0x8f, 0xcb, 0x7b, 0xd0, 0xc2, 0x40, 0x6e, 0x35];

/// The data of `pre_sync_dormant_bucket`.
pub open spec fn pre_sync_data(long: bool, tick: i64, longs: u32, shorts: u32) -> Seq<u8> {
    DISC_PRE_SYNC_DORMANT_BUCKET@ + wire::bool_wire(long) + wire::i64_wire(tick) + wire::u32_wire(
        longs,
    ) + wire::u32_wire(shorts)
}

/// Encodes the instruction `pre_sync_dormant_bucket`.
pub fn encode_pre_sync_dormant_bucket_ix(
    direction_is_long: bool,
    tick: i64,
    long_bucket_count: u32,
    short_bucket_count: u32,
) -> (r: Vec<u8>)
    ensures
        r@ == pre_sync_data(direction_is_long, tick, long_bucket_count, short_bucket_count),
{
    let mut out: Vec<u8> = Vec::new();
    wire::put_bytes(&mut out, DISC_PRE_SYNC_DORMANT_BUCKET.as_slice());
    proof {
        assert(out@ =~= DISC_PRE_SYNC_DORMANT_BUCKET@);
    }
    wire::put_bool(&mut out, direction_is_long);
    wire::put_i64(&mut out, tick);
    wire::put_u32(&mut out, long_bucket_count);
    wire::put_u32(&mut out, short_bucket_count);
    out
}

/// The data of `close_dormant_bucket`.
pub open spec fn close_data(long: bool, tick: i64) -> Seq<u8> {
    DISC_CLOSE_DORMANT_BUCKET@ + wire::bool_wire(long) + wire::i64_wire(tick)
}

/// Encodes the instruction `close_dormant_bucket`.
pub fn encode_close_dormant_bucket_ix(direction_is_long: bool, tick: i64) -> (r: Vec<u8>)
    ensures
        r@ == close_data(direction_is_long, tick),
{
    let mut out: Vec<u8> = Vec::new();
    wire::put_bytes(&mut out, DISC_CLOSE_DORMANT_BUCKET.as_slice());
    proof {
        assert(out@ =~= DISC_CLOSE_DORMANT_BUCKET@);
    }
    wire::put_bool(&mut out, direction_is_long);
    wire::put_i64(&mut out, tick);
    out
}

/// The data of `initialize_dormant_bucket`.
pub open spec fn init_data(long: bool, tick: i64) -> Seq<u8> {
    DISC_INITIALIZE_DORMANT_BUCKET@ + wire::bool_wire(long) + wire::i64_wire(tick)
}

/// Encodes the instruction `initialize_dormant_bucket`.
pub fn encode_initialize_dormant_bucket_ix(direction_is_long: bool, tick: i64) -> (r: Vec<u8>)
    ensures
        r@ == init_data(direction_is_long, tick),
{
    let mut out: Vec<u8> = Vec::new();
    wire::put_bytes(&mut out, DISC_INITIALIZE_DORMANT_BUCKET.as_slice());
    proof {
        assert(out@ =~= DISC_INITIALIZE_DORMANT_BUCKET@);
    }
    wire::put_bool(&mut out, direction_is_long);
    wire::put_i64(&mut out, tick);
    out
}

/// Errors of building an instruction.
#[derive(Debug, Clone, PartialEq, Eq)]
pub enum TxBuildError {
    /// The snapshot does not know the sub-pool.
    MissingSubPool(u32),
    /// The snapshot does not know the bucket.
    MissingBucket {
        /// Sub pool id.
        sub_pool_id: u32,
        /// Direction.
        direction: Direction,
        /// Bucket tick.
        tick: i64,
    },
    /// The snapshot does not know the ledger.
    MissingLedger {
        /// Sub pool id.
        sub_pool_id: u32,
        /// Direction.
        direction: Direction,
    },
    /// The builder rejected the instruction.
    Builder(String),
}

impl TxBuildError {
    /// The text of the error.
    pub open spec fn text(self) -> Seq<char> {
        match self {
            TxBuildError::MissingSubPool(id) => "snapshot is missing sub_pool "@ + text::decimal(
                id as nat,
            ),
            TxBuildError::MissingBucket { sub_pool_id, direction, tick } =>
            "snapshot is missing bucket ("@ + text::decimal(sub_pool_id as nat) + ", "@
                + direction.name() + ", tick="@ + text::decimal_int(tick as int) + ")"@,
            TxBuildError::MissingLedger { sub_pool_id, direction } =>
            "snapshot is missing ledger ("@ + text::decimal(sub_pool_id as nat) + ", "@
                + direction.name() + ")"@,
            TxBuildError::Builder(reason) => "tx builder rejected: "@ + reason@,
        }
    }

    /// Renders the error.
    pub fn to_string(&self) -> (r: String)
        ensures
            r@ == self.text(),
    {
        match self {
            TxBuildError::MissingSubPool(id) => {
                let mut out = String::from_str("snapshot is missing sub_pool ");
                text::push_decimal(&mut out, *id as u128);
                out
            },
            TxBuildError::MissingBucket { sub_pool_id, direction, tick } => {
                let mut out = String::from_str("snapshot is missing bucket (");
                text::push_decimal(&mut out, *sub_pool_id as u128);
                out.append(", ");
                direction.push_name(&mut out);
                out.append(", tick=");
                text::push_decimal_int(&mut out, *tick);
                out.append(")");
                out
            },
            TxBuildError::MissingLedger { sub_pool_id, direction } => {
                let mut out = String::from_str("snapshot is missing ledger (");
                text::push_decimal(&mut out, *sub_pool_id as u128);
                out.append(", ");
                direction.push_name(&mut out);
                out.append(")");
                out
            },
            TxBuildError::Builder(reason) => {
                let mut out = String::from_str("tx builder rejected: ");
                out.append(reason.as_str());
                out
            },
        }
    }
}

/// One account of an instruction.
#[derive(Debug, Clone, Copy, PartialEq, Eq)]
pub struct AccountMeta {
    /// Address of the account.
    pub pubkey: Pubkey32,
    /// Whether the account must sign.
    pub is_signer: bool,
    /// Whether the account is written.
    pub is_writable: bool,
}

/// The account `pubkey` with the given flags.
pub open spec fn meta(pubkey: Pubkey32, is_signer: bool, is_writable: bool) -> AccountMeta {
    AccountMeta { pubkey, is_signer, is_writable }
}

impl AccountMeta {
    /// An account that is written and does not sign.
    pub fn writable(pubkey: Pubkey32) -> (r: Self)
        ensures
            r == meta(pubkey, false, true),
    {
        AccountMeta { pubkey, is_signer: false, is_writable: true }
    }

    /// An account that is read and does not sign.
    pub fn readonly(pubkey: Pubkey32) -> (r: Self)
        ensures
            r == meta(pubkey, false, false),
    {
        AccountMeta { pubkey, is_signer: false, is_writable: false }
    }

    /// An account that is written and signs.
    pub fn signer_writable(pubkey: Pubkey32) -> (r: Self)
        ensures
            r == meta(pubkey, true, true),
    {
        AccountMeta { pubkey, is_signer: true, is_writable: true }
    }

    /// An account that is read and signs.
    pub fn signer_readonly(pubkey: Pubkey32) -> (r: Self)
        ensures
            r == meta(pubkey, true, false),
    {
        AccountMeta { pubkey, is_signer: true, is_writable: false }
    }
}

/// An instruction for a task.
#[derive(Debug, PartialEq, Eq)]
pub struct DispatchedAction {
    /// The task.
    pub action: KeeperAction,
    /// The program.
    pub program_id: Pubkey32,
    /// The instruction's data.
    pub data: Vec<u8>,
    /// The instruction's accounts, in order.
    pub accounts: Vec<AccountMeta>,
}

/// The contents of an instruction for a task.
#[verifier::ext_equal]
pub struct DispatchedModel {
    /// The task.
    pub action: KeeperAction,
    /// The program.
    pub program_id: Pubkey32,
    /// The instruction's data.
    pub data: Seq<u8>,
    /// The instruction's accounts, in order.
    pub accounts: Seq<AccountMeta>,
}

impl View for DispatchedAction {
    type V = DispatchedModel;

    open spec fn view(&self) -> DispatchedModel {
        DispatchedModel {
            action: self.action,
            program_id: self.program_id,
            data: self.data@,
            accounts: self.accounts@,
        }
    }
}

impl Clone for DispatchedAction {
    fn clone(&self) -> (r: Self)
        ensures
            r@ == self@,
    {
        let mut data: Vec<u8> = Vec::new();
        wire::put_bytes(&mut data, self.data.as_slice());
        let mut accounts: Vec<AccountMeta> = Vec::new();
        push_all(&mut accounts, &self.accounts);
        proof {
            assert(data@ =~= self.data@);
            assert(accounts@ =~= self.accounts@);
        }
        DispatchedAction { action: self.action, program_id: self.program_id, data, accounts }
    }
}

/// Appends a list of accounts.
pub(crate) fn push_all(out: &mut Vec<AccountMeta>, accounts: &Vec<AccountMeta>)
    ensures
        final(out)@ == old(out)@ + accounts@,
{
    let mut i: usize = 0;
    proof {
        assert(old(out)@ + accounts@.take(0) =~= old(out)@);
    }
    while i < accounts.len()
        invariant
            i <= accounts@.len(),
            out@ == old(out)@ + accounts@.take(i as int),
        decreases accounts@.len() - i,
    {
        out.push(accounts[i]);
        i = i + 1;
        proof {
            assert(accounts@.take(i as int) =~= accounts@.take(i - 1).push(accounts@[i - 1]));
        }
    }
    proof {
        assert(accounts@.take(accounts@.len() as int) =~= accounts@);
    }
}

/// A transaction that was submitted.
#[derive(Debug, Clone, PartialEq, Eq)]
pub struct SubmittedTx {
    /// Its signature; a dry run has none.
    pub signature: Option<String>,
}

/// Where instructions go.
pub trait TxBuilder: Sized {
    /// The builder may answer `dispatched` with `r`, turning from `before`
    /// into `after`. One that does not say may answer anything.
    open spec fn may_submit(
        before: Self,
        dispatched: DispatchedModel,
        after: Self,
        r: ActionDispatchResult,
    ) -> bool {
        true
    }

    /// Submits one instruction.
    fn submit(&mut self, dispatched: &DispatchedAction) -> (r: ActionDispatchResult)
        ensures
            Self::may_submit(*old(self), dispatched@, *final(self), r),
    ;
}

/// A builder that records instructions and does nothing else.
#[derive(Debug, Clone)]
pub struct MockTxBuilder {
    /// The instructions, in the order they came.
    pub submitted: Vec<DispatchedAction>,
    /// The answer to every instruction, where it is not to be that of success.
    pub override_result: Option<ActionDispatchResult>,
}

/// The contents of a list of instructions.
pub open spec fn dispatched_models(s: Seq<DispatchedAction>) -> Seq<DispatchedModel> {
    s.map_values(|d: DispatchedAction| d@)
}

impl Default for MockTxBuilder {
    fn default() -> (r: Self)
        ensures
            r.submitted@.len() == 0,
            r.override_result is None,
    {
        MockTxBuilder { submitted: Vec::new(), override_result: None }
    }
}

impl MockTxBuilder {
    /// A builder that has recorded nothing.
    pub fn new() -> (r: Self)
        ensures
            r.submitted@.len() == 0,
            r.override_result is None,
    {
        MockTxBuilder { submitted: Vec::new(), override_result: None }
    }

    /// Hands the recorded instructions out and forgets them.
    pub fn drain(&mut self) -> (r: Vec<DispatchedAction>)
        ensures
            r@ == old(self).submitted@,
            final(self).submitted@.len() == 0,
            final(self).override_result == old(self).override_result,
    {
        let mut out: Vec<DispatchedAction> = Vec::new();
        out.append(&mut self.submitted);
        proof {
            assert(out@ =~= old(self).submitted@);
        }
        out
    }
}

impl TxBuilder for MockTxBuilder {
    open spec fn may_submit(
        before: Self,
        dispatched: DispatchedModel,
        after: Self,
        r: ActionDispatchResult,
    ) -> bool {
        &&& dispatched_models(after.submitted@) == dispatched_models(before.submitted@).push(
            dispatched,
        )
        &&& after.override_result == before.override_result
        &&& r == match before.override_result {
            Some(answer) => answer,
            None => ActionDispatchResult::Submitted { signature: None },
        }
    }

    fn submit(&mut self, dispatched: &DispatchedAction) -> (r: ActionDispatchResult) {
        let copy: DispatchedAction = dispatched.clone();
        self.submitted.push(copy);
        proof {
            assert(dispatched_models(self.submitted@) =~= dispatched_models(
                old(self).submitted@,
            ).push(dispatched@));
        }
        match &self.override_result {
            Some(answer) => answer.duplicate(),
            None => ActionDispatchResult::Submitted { signature: None },
        }
    }
}

/// Turns tasks into instructions and hands them to a builder.
pub struct RpcExecutor<'a, B: TxBuilder> {
    /// The program.
    pub program_id: Pubkey32,
    /// Address of the market.
    pub market: Pubkey32,
    /// Addresses of the sub-pools by id.
    pub sub_pool_pubkeys: HashMap<u32, Pubkey32>,
    /// The keeper: it signs, pays, and receives the rent of what it closes.
    pub keeper: Pubkey32,
    /// Address of the clock sysvar.
    pub clock_sysvar: Pubkey32,
    /// Address of the system program.
    pub system_program: Pubkey32,
    /// Where the accounts are looked up.
    pub snapshot: &'a ChainSnapshot,
    /// Where instructions go.
    pub builder: B,
}

/// What an executor reads to build an instruction.
#[verifier::ext_equal]
pub struct BuildContext {
    /// The program.
    pub program_id: Pubkey32,
    /// Address of the market.
    pub market: Pubkey32,
    /// Addresses of the sub-pools by id.
    pub sub_pool_pubkeys: Map<u32, Pubkey32>,
    /// The keeper.
    pub keeper: Pubkey32,
    /// Address of the clock sysvar.
    pub clock_sysvar: Pubkey32,
    /// Address of the system program.
    pub system_program: Pubkey32,
    /// Where the accounts are looked up.
    pub snapshot: SnapshotModel,
}

/// The address of a sub-pool, read off its ledgers; the long one comes first.
pub open spec fn inferred_pool(m: SnapshotModel, id: u32) -> Option<Pubkey32> {
    if !(m.ledger_pubkeys.contains_key((id, Direction::Long)) || m.ledger_pubkeys.contains_key(
        (id, Direction::Short),
    )) {
        None
    } else if m.ledgers.contains_key((id, Direction::Long)) {
        Some(m.ledgers[(id, Direction::Long)].sub_pool)
    } else if m.ledgers.contains_key((id, Direction::Short)) {
        Some(m.ledgers[(id, Direction::Short)].sub_pool)
    } else {
        None
    }
}

/// The addresses of the sub-pools, read off their ledgers.
pub open spec fn inferred_pools(m: SnapshotModel) -> Map<u32, Pubkey32> {
    Map::new(|id: u32| inferred_pool(m, id) is Some, |id: u32| inferred_pool(m, id)->Some_0)
}

/// The ticks of the known buckets of one side.
pub open spec fn ticks_of(m: SnapshotModel, id: u32, direction: Direction) -> Set<i64> {
    Set::new(|tick: i64| m.bucket_pubkeys.contains_key((id, direction, tick)))
}

/// The addresses of the known buckets of one side, in order.
pub open spec fn side_buckets(m: SnapshotModel, id: u32, direction: Direction) -> Seq<Pubkey32> {
    order::sort_of(
        order::listing_of(ticks_of(m, id, direction)).map_values(
            |tick: i64| m.bucket_pubkeys[(id, direction, tick)],
        ),
    )
}

/// The accounts `pubkeys`, written and not signing.
pub open spec fn written(pubkeys: Seq<Pubkey32>) -> Seq<AccountMeta> {
    pubkeys.map_values(|pk: Pubkey32| meta(pk, false, true))
}

/// Stands for the address of a bucket that does not exist yet: a mark, the
/// side, the tick and the start of the sub-pool's address.
pub open spec fn placeholder(sub_pool: Pubkey32, long: bool, tick: i64) -> Seq<u8> {
    Seq::<u8>::empty().push(0xff).push(0xff).push(0x50).push(0x44).push(0x41) + wire::bool_wire(
        long,
    ) + wire::i64_wire(tick) + sub_pool@.take(18)
}

/// The accounts of `pre_sync_dormant_bucket`: the market, the sub-pool,
/// both ledgers, the clock and the keeper; then the buckets of the long side
/// and those of the short side.
pub open spec fn pre_sync_accounts(c: BuildContext, id: u32) -> Seq<AccountMeta> {
    let m = c.snapshot;
    Seq::<AccountMeta>::empty().push(meta(c.market, false, false)).push(
        meta(c.sub_pool_pubkeys[id], false, true),
    ).push(meta(m.ledger_pubkeys[(id, Direction::Long)], false, true)).push(
        meta(m.ledger_pubkeys[(id, Direction::Short)], false, true),
    ).push(meta(c.clock_sysvar, false, false)).push(meta(c.keeper, true, true)) + written(
        side_buckets(m, id, Direction::Long),
    ) + written(side_buckets(m, id, Direction::Short))
}

/// The instruction that drains a bucket.
pub open spec fn built_pre_sync(c: BuildContext, id: u32, direction: Direction, tick: i64) -> Result<
    DispatchedModel,
    TxBuildError,
> {
    let m = c.snapshot;
    if !c.sub_pool_pubkeys.contains_key(id) {
        Err(TxBuildError::MissingSubPool(id))
    } else if !m.ledger_pubkeys.contains_key((id, Direction::Long)) {
        Err(TxBuildError::MissingLedger { sub_pool_id: id, direction: Direction::Long })
    } else if !m.ledger_pubkeys.contains_key((id, Direction::Short)) {
        Err(TxBuildError::MissingLedger { sub_pool_id: id, direction: Direction::Short })
    } else if !m.bucket_pubkeys.contains_key((id, direction, tick)) {
        Err(TxBuildError::MissingBucket { sub_pool_id: id, direction, tick })
    } else if !m.sub_pools.contains_key(id) {
        Err(TxBuildError::MissingSubPool(id))
    } else {
        Ok(
            DispatchedModel {
                action: KeeperAction::PreSyncDormantBucket {
                    sub_pool_id: id,
                    direction,
                    tick,
                    pending: 0,
                },
                program_id: c.program_id,
                data: pre_sync_data(
                    direction == Direction::Long,
                    tick,
                    m.sub_pools[id].long_dormant_bucket_count,
                    m.sub_pools[id].short_dormant_bucket_count,
                ),
                accounts: pre_sync_accounts(c, id),
            },
        )
    }
}

/// The instruction that closes a bucket. Its accounts: the market, the
/// sub-pool, the ledger, the bucket, the keeper as receiver of the rent and
/// the keeper as signer.
pub open spec fn built_close(c: BuildContext, id: u32, direction: Direction, tick: i64) -> Result<
    DispatchedModel,
    TxBuildError,
> {
    let m = c.snapshot;
    if !c.sub_pool_pubkeys.contains_key(id) {
        Err(TxBuildError::MissingSubPool(id))
    } else if !m.ledger_pubkeys.contains_key((id, direction)) {
        Err(TxBuildError::MissingLedger { sub_pool_id: id, direction })
    } else if !m.bucket_pubkeys.contains_key((id, direction, tick)) {
        Err(TxBuildError::MissingBucket { sub_pool_id: id, direction, tick })
    } else {
        Ok(
            DispatchedModel {
                action: KeeperAction::CloseDormantBucket { sub_pool_id: id, direction, tick },
                program_id: c.program_id,
                data: close_data(direction == Direction::Long, tick),
                accounts: Seq::<AccountMeta>::empty().push(meta(c.market, false, false)).push(
                    meta(c.sub_pool_pubkeys[id], false, false),
                ).push(meta(m.ledger_pubkeys[(id, direction)], false, false)).push(
                    meta(m.bucket_pubkeys[(id, direction, tick)], false, true),
                ).push(meta(c.keeper, false, true)).push(meta(c.keeper, true, true)),
            },
        )
    }
}

/// The instruction that creates a bucket. Its accounts: the market, the
/// sub-pool, the placeholder of the bucket, the keeper and the system
/// program.
pub open spec fn built_init(c: BuildContext, id: u32, direction: Direction, tick: i64) -> Result<
    DispatchedModel,
    TxBuildError,
> {
    if !c.sub_pool_pubkeys.contains_key(id) {
        Err(TxBuildError::MissingSubPool(id))
    } else {
        let bucket = choose|pk: Pubkey32|
            pk@ == placeholder(c.sub_pool_pubkeys[id], direction == Direction::Long, tick);
        Ok(
            DispatchedModel {
                action: KeeperAction::InitDormantBucket {
                    sub_pool_id: id,
                    direction,
                    tick,
                    rationale: InitRationale::Explicit,
                },
                program_id: c.program_id,
                data: init_data(direction == Direction::Long, tick),
                accounts: Seq::<AccountMeta>::empty().push(meta(c.market, false, false)).push(
                    meta(c.sub_pool_pubkeys[id], false, false),
                ).push(meta(bucket, false, true)).push(meta(c.keeper, true, true)).push(
                    meta(c.system_program, false, false),
                ),
            },
        )
    }
}

/// The instruction for a task.
pub open spec fn built(c: BuildContext, action: KeeperAction) -> Result<
    DispatchedModel,
    TxBuildError,
> {
    match action {
        KeeperAction::PreSyncDormantBucket { sub_pool_id, direction, tick, .. } => built_pre_sync(
            c,
            sub_pool_id,
            direction,
            tick,
        ),
        KeeperAction::CloseDormantBucket { sub_pool_id, direction, tick } => built_close(
            c,
            sub_pool_id,
            direction,
            tick,
        ),
        KeeperAction::InitDormantBucket { sub_pool_id, direction, tick, .. } => built_init(
            c,
            sub_pool_id,
            direction,
            tick,
        ),
    }
}

/// `r` is the instruction, or the error, that `expected` says.
pub open spec fn is_built(
    r: Result<DispatchedAction, TxBuildError>,
    expected: Result<DispatchedModel, TxBuildError>,
) -> bool {
    match expected {
        Ok(model) => r matches Ok(d) && d@ == model,
        Err(e) => r == Err::<DispatchedAction, TxBuildError>(e),
    }
}

/// The side is the long one.
fn is_long(direction: Direction) -> (r: bool)
    ensures
        r == (direction == Direction::Long),
{
    match direction {
        Direction::Long => true,
        Direction::Short => false,
    }
}

/// Builds the placeholder of a bucket that does not exist yet.
fn derive_init_bucket_placeholder(
    sub_pool: &Pubkey32,
    direction_is_long: bool,
    tick: i64,
) -> (r: Pubkey32)
    ensures
        r@ == placeholder(*sub_pool, direction_is_long, tick),
{
    let mut bytes: Vec<u8> = Vec::new();
    bytes.push(0xff);
    bytes.push(0xff);
    bytes.push(0x50);
    bytes.push(0x44);
    bytes.push(0x41);
    wire::put_bool(&mut bytes, direction_is_long);
    wire::put_i64(&mut bytes, tick);
    wire::put_bytes(&mut bytes, vstd::slice::slice_subrange(sub_pool.as_slice(), 0, 18));
    proof {
        broadcast use crate::wire::group_wire;

        assert(sub_pool@.subrange(0, 18) =~= sub_pool@.take(18));
        assert(bytes@.len() == 32);
    }
    let mut out: Pubkey32 = [0u8; 32];
    let mut i: usize = 0;
    while i < 32
        invariant
            i <= 32,
            bytes@.len() == 32,
            forall|j: int| 0 <= j < i ==> out[j] == bytes@[j],
        decreases 32 - i,
    {
        out[i] = bytes[i];
        i = i + 1;
    }
    proof {
        assert(out@ =~= bytes@);
    }
    out
}

/// The addresses of the known buckets of one side, in order.
fn bucket_pubkeys_of(snapshot: &ChainSnapshot, id: u32, direction: Direction) -> (r: Vec<Pubkey32>)
    ensures
        r@ == side_buckets(snapshot@, id, direction),
{
    let table = &snapshot.bucket_pubkeys;
    let n: usize = table.len();
    let ghost items = table.items();
    let ghost members = ticks_of(snapshot@, id, direction);
    let mut ticks: Vec<i64> = Vec::new();
    let mut i: usize = 0;
    while i < n
        invariant
            i <= n,
            n == items.len(),
            items == table.items(),
            table::distinct_keys(items),
            forall|x: i64| #[trigger]
                ticks@.contains(x) <==> exists|k: int|
                    #![trigger items[k]]
                    0 <= k < i && items[k].0 == (id, direction, x),
            ticks@.no_duplicates(),
        decreases n - i,
    {
        let key: (u32, Direction, i64) = table.entry_at(i).0;
        let ghost before = ticks@;
        i = i + 1;
        if key.0 == id && is_long(key.1) == is_long(direction) {
            ticks.push(key.2);
            proof {
                assert(items[i - 1].0 == (id, direction, key.2));
                assert(!before.contains(key.2)) by {
                    if before.contains(key.2) {
                        let k = choose|k: int|
                            #![trigger items[k]]
                            0 <= k < i - 1 && items[k].0 == (id, direction, key.2);
                        assert(items[k].0 != items[i - 1].0);
                    }
                }
                assert forall|x: i64| #[trigger]
                    ticks@.contains(x) <==> exists|k: int|
                        #![trigger items[k]]
                        0 <= k < i && items[k].0 == (id, direction, x) by {
                    if ticks@.contains(x) {
                        if x != key.2 {
                            let p = choose|p: int| 0 <= p < ticks@.len() && ticks@[p] == x;
                            assert(before[p] == x);
                            assert(before.contains(x));
                        }
                    }
                    if exists|k: int|
                        #![trigger items[k]]
                        0 <= k < i && items[k].0 == (id, direction, x) {
                        let k = choose|k: int|
                            #![trigger items[k]]
                            0 <= k < i && items[k].0 == (id, direction, x);
                        if k < i - 1 {
                            assert(before.contains(x));
                            let p = choose|p: int| 0 <= p < before.len() && before[p] == x;
                            assert(ticks@[p] == x);
                        } else {
                            assert(ticks@[before.len() as int] == x);
                        }
                    }
                }
            }
        } else {
            proof {
                assert forall|x: i64| #[trigger]
                    ticks@.contains(x) <==> exists|k: int|
                        #![trigger items[k]]
                        0 <= k < i && items[k].0 == (id, direction, x) by {
                    if exists|k: int|
                        #![trigger items[k]]
                        0 <= k < i && items[k].0 == (id, direction, x) {
                        let k = choose|k: int|
                            #![trigger items[k]]
                            0 <= k < i && items[k].0 == (id, direction, x);
                        assert(k < i - 1);
                    }
                }
            }
        }
    }
    let ghost unsorted = ticks@;
    let sorted: Vec<i64> = order::stable_sort(ticks);
    proof {
        table::lemma_map_of(items);
        assert forall|x: i64| #[trigger] unsorted.contains(x) <==> members.contains(x) by {
            if unsorted.contains(x) {
                let k = choose|k: int|
                    #![trigger items[k]]
                    0 <= k < n && items[k].0 == (id, direction, x);
                assert(table@.contains_key(items[k].0));
            }
            if members.contains(x) {
                assert(table@.contains_key((id, direction, x)));
            }
        }
        order::lemma_sorted_listing(members, unsorted, sorted@);
    }
    let ghost f = |tick: i64| snapshot@.bucket_pubkeys[(id, direction, tick)];
    let mut out: Vec<Pubkey32> = Vec::new();
    let mut j: usize = 0;
    proof {
        assert(sorted@.take(0).map_values(f) =~= out@);
    }
    while j < sorted.len()
        invariant
            j <= sorted@.len(),
            order::lists(members, sorted@),
            members == ticks_of(snapshot@, id, direction),
            table == &snapshot.bucket_pubkeys,
            f == (|tick: i64| snapshot@.bucket_pubkeys[(id, direction, tick)]),
            out@ == sorted@.take(j as int).map_values(f),
        decreases sorted@.len() - j,
    {
        proof {
            assert(sorted@.contains(sorted@[j as int]));
            assert(members.contains(sorted@[j as int]));
        }
        if let Some(pk) = table.get(&(id, direction, sorted[j])) {
            out.push(*pk);
        }
        j = j + 1;
        proof {
            assert(sorted@.take(j as int).map_values(f) =~= sorted@.take(j - 1).map_values(
                f,
            ).push(f(sorted@[j - 1])));
        }
    }
    let ghost pubkeys = out@;
    let r: Vec<Pubkey32> = order::stable_sort(out);
    proof {
        assert(sorted@.take(sorted@.len() as int) =~= sorted@);
        order::lemma_sort_of(pubkeys, r@);
    }
    r
}

/// Appends accounts that are written and do not sign.
fn push_written(out: &mut Vec<AccountMeta>, pubkeys: &Vec<Pubkey32>)
    ensures
        final(out)@ == old(out)@ + written(pubkeys@),
{
    let mut i: usize = 0;
    proof {
        assert(old(out)@ + written(pubkeys@.take(0)) =~= old(out)@);
    }
    while i < pubkeys.len()
        invariant
            i <= pubkeys@.len(),
            out@ == old(out)@ + written(pubkeys@.take(i as int)),
        decreases pubkeys@.len() - i,
    {
        out.push(AccountMeta::writable(pubkeys[i]));
        i = i + 1;
        proof {
            assert(written(pubkeys@.take(i as int)) =~= written(pubkeys@.take(i - 1)).push(
                meta(pubkeys@[i - 1], false, true),
            ));
        }
    }
    proof {
        assert(pubkeys@.take(pubkeys@.len() as int) =~= pubkeys@);
    }
}

impl<'a, B: TxBuilder> RpcExecutor<'a, B> {
    /// What the executor reads to build an instruction.
    pub open spec fn context(&self) -> BuildContext {
        BuildContext {
            program_id: self.program_id,
            market: self.market,
            sub_pool_pubkeys: self.sub_pool_pubkeys@,
            keeper: self.keeper,
            clock_sysvar: self.clock_sysvar,
            system_program: self.system_program,
            snapshot: self.snapshot@,
        }
    }

    /// An executor over a snapshot; the addresses of the sub-pools are read
    /// off their ledgers.
    pub fn new(
        program_id: Pubkey32,
        market: Pubkey32,
        keeper: Pubkey32,
        clock_sysvar: Pubkey32,
        system_program: Pubkey32,
        snapshot: &'a ChainSnapshot,
        builder: B,
    ) -> (r: Self)
        ensures
            r.context() == (BuildContext {
                program_id,
                market,
                sub_pool_pubkeys: inferred_pools(snapshot@),
                keeper,
                clock_sysvar,
                system_program,
                snapshot: snapshot@,
            }),
            r.builder == builder,
    {
        let mut pools: HashMap<u32, Pubkey32> = HashMap::new();
        let n: usize = snapshot.ledger_pubkeys.len();
        let ghost items = snapshot.ledger_pubkeys.items();
        let ghost m = snapshot@;
        let mut i: usize = 0;
        while i < n
            invariant
                i <= n,
                n == items.len(),
                items == snapshot.ledger_pubkeys.items(),
                table::distinct_keys(items),
                m == snapshot@,
                forall|id: u32| #[trigger]
                    pools@.contains_key(id) <==> inferred_pool(m, id) is Some && exists|k: int|
                        #![trigger items[k]]
                        0 <= k < i && items[k].0.0 == id,
                forall|id: u32| #[trigger]
                    pools@.contains_key(id) ==> inferred_pool(m, id) == Some(pools@[id]),
            decreases n - i,
        {
            let id: u32 = snapshot.ledger_pubkeys.entry_at(i).0.0;
            let ghost before = pools@;
            proof {
                assert(items[i as int].0.0 == id);
                assert(m.ledger_pubkeys.contains_key(items[i as int].0));
                assert(items[i as int].0 == (id, Direction::Long) || items[i as int].0 == (
                    id,
                    Direction::Short,
                ));
                assert(m.ledgers.contains_key((id, Direction::Long)) == snapshot.ledgers@.contains_key((id, Direction::Long)));
                assert(m.ledgers.contains_key((id, Direction::Short)) == snapshot.ledgers@.contains_key((id, Direction::Short)));
            }
            if let Some(ledger) = snapshot.ledgers.get(&(id, Direction::Long)) {
                pools.insert(id, ledger.sub_pool);
            } else if let Some(ledger) = snapshot.ledgers.get(&(id, Direction::Short)) {
                pools.insert(id, ledger.sub_pool);
            }
            i = i + 1;
            proof {
                assert forall|x: u32| #[trigger]
                    pools@.contains_key(x) <==> inferred_pool(m, x) is Some && exists|k: int|
                        #![trigger items[k]]
                        0 <= k < i && items[k].0.0 == x by {
                    if x != id {
                        assert(pools@.contains_key(x) == before.contains_key(x));
                        if exists|k: int|
                            #![trigger items[k]]
                            0 <= k < i && items[k].0.0 == x {
                            let k = choose|k: int|
                                #![trigger items[k]]
                                0 <= k < i && items[k].0.0 == x;
                            assert(k < i - 1);
                        }
                    } else {
                        assert(items[i - 1].0.0 == x);
                    }
                }
            }
        }
        proof {
            table::lemma_map_of(items);
            assert forall|id: u32| #[trigger] pools@.contains_key(id) <==> inferred_pools(
                m,
            ).contains_key(id) by {
                if inferred_pool(m, id) is Some {
                    if m.ledger_pubkeys.contains_key((id, Direction::Long)) {
                        let k = choose|k: int|
                            #![trigger items[k]]
                            0 <= k < items.len() && items[k].0 == (id, Direction::Long);
                        assert(items[k].0.0 == id);
                    } else {
                        let k = choose|k: int|
                            #![trigger items[k]]
                            0 <= k < items.len() && items[k].0 == (id, Direction::Short);
                        assert(items[k].0.0 == id);
                    }
                }
            }
            assert(pools@ =~= inferred_pools(m));
        }
        RpcExecutor {
            program_id,
            market,
            sub_pool_pubkeys: pools,
            keeper,
            clock_sysvar,
            system_program,
            snapshot,
            builder,
        }
    }

    /// Adds addresses of sub-pools; they come before those read off ledgers.
    pub fn with_sub_pool_pubkeys(self, pubkeys: HashMap<u32, Pubkey32>) -> (r: Self)
        ensures
            r.context() == (BuildContext {
                sub_pool_pubkeys: self.context().sub_pool_pubkeys.union_prefer_right(pubkeys@),
                ..self.context()
            }),
            r.builder == self.builder,
    {
        let mut pools: HashMap<u32, Pubkey32> = self.sub_pool_pubkeys;
        let ghost start = pools@;
        let ids: Vec<u32> = ids_of(&pubkeys);
        let mut i: usize = 0;
        proof {
            assert(pools@ =~= start.union_prefer_right(pubkeys@.restrict(ids@.take(0).to_set())));
        }
        while i < ids.len()
            invariant
                i <= ids@.len(),
                forall|id: u32| #[trigger] ids@.contains(id) <==> pubkeys@.contains_key(id),
                pools@ == start.union_prefer_right(
                    pubkeys@.restrict(ids@.take(i as int).to_set()),
                ),
            decreases ids@.len() - i,
        {
            let id: u32 = ids[i];
            proof {
                assert(ids@.contains(id));
                assert(ids@.take(i + 1) =~= ids@.take(i as int).push(id));
                assert(ids@.take(i + 1).to_set() =~= ids@.take(i as int).to_set().insert(id)) by {
                    broadcast use group_seq_properties;

                }
                assert(start.union_prefer_right(pubkeys@.restrict(ids@.take(i + 1).to_set()))
                    =~= pools@.insert(id, pubkeys@[id]));
            }
            if let Some(pubkey) = pubkeys.get(&id) {
                pools.insert(id, *pubkey);
            }
            i = i + 1;
        }
        proof {
            assert(ids@.take(ids@.len() as int) =~= ids@);
            assert(pubkeys@.restrict(ids@.to_set()) =~= pubkeys@) by {
                assert forall|id: u32| ids@.to_set().contains(id) == pubkeys@.contains_key(id) by {
                    assert(ids@.contains(id) == ids@.to_set().contains(id));
                }
            }
        }
        RpcExecutor {
            program_id: self.program_id,
            market: self.market,
            sub_pool_pubkeys: pools,
            keeper: self.keeper,
            clock_sysvar: self.clock_sysvar,
            system_program: self.system_program,
            snapshot: self.snapshot,
            builder: self.builder,
        }
    }

    /// Builds the instruction for a task without submitting it.
    pub fn build(&self, action: &KeeperAction) -> (r: Result<DispatchedAction, TxBuildError>)
        ensures
            is_built(r, built(self.context(), *action)),
    {
        match *action {
            KeeperAction::PreSyncDormantBucket { sub_pool_id, direction, tick, .. } => {
                self.build_pre_sync(sub_pool_id, direction, tick)
            },
            KeeperAction::CloseDormantBucket { sub_pool_id, direction, tick } => {
                self.build_close(sub_pool_id, direction, tick)
            },
            KeeperAction::InitDormantBucket { sub_pool_id, direction, tick, .. } => {
                self.build_init(sub_pool_id, direction, tick)
            },
        }
    }

    /// The address of a sub-pool.
    fn sub_pool_pubkey(&self, sub_pool_id: u32) -> (r: Result<Pubkey32, TxBuildError>)
        ensures
            r == if self.sub_pool_pubkeys@.contains_key(sub_pool_id) {
                Ok(self.sub_pool_pubkeys@[sub_pool_id])
            } else {
                Err::<Pubkey32, TxBuildError>(TxBuildError::MissingSubPool(sub_pool_id))
            },
    {
        match self.sub_pool_pubkeys.get(&sub_pool_id) {
            Some(pk) => Ok(*pk),
            None => Err(TxBuildError::MissingSubPool(sub_pool_id)),
        }
    }

    /// Builds the instruction that drains a bucket.
    fn build_pre_sync(&self, sub_pool_id: u32, direction: Direction, tick: i64) -> (r: Result<
        DispatchedAction,
        TxBuildError,
    >)
        ensures
            is_built(r, built_pre_sync(self.context(), sub_pool_id, direction, tick)),
    {
        let pool: Pubkey32 = self.sub_pool_pubkey(sub_pool_id)?;
        let long_ledger: Pubkey32 = match self.snapshot.ledger_pubkey(
            sub_pool_id,
            Direction::Long,
        ) {
            Some(pk) => pk,
            None => {
                return Err(TxBuildError::MissingLedger { sub_pool_id, direction: Direction::Long });
            },
        };
        let short_ledger: Pubkey32 = match self.snapshot.ledger_pubkey(
            sub_pool_id,
            Direction::Short,
        ) {
            Some(pk) => pk,
            None => {
                return Err(
                    TxBuildError::MissingLedger { sub_pool_id, direction: Direction::Short },
                );
            },
        };
        if self.snapshot.bucket_pubkey(sub_pool_id, direction, tick).is_none() {
            return Err(TxBuildError::MissingBucket { sub_pool_id, direction, tick });
        }
        let record = match self.snapshot.sub_pools.get(&sub_pool_id) {
            Some(record) => record,
            None => {
                return Err(TxBuildError::MissingSubPool(sub_pool_id));
            },
        };
        let data: Vec<u8> = encode_pre_sync_dormant_bucket_ix(
            is_long(direction),
            tick,
            record.long_dormant_bucket_count,
            record.short_dormant_bucket_count,
        );
        let mut accounts: Vec<AccountMeta> = Vec::new();
        accounts.push(AccountMeta::readonly(self.market));
        accounts.push(AccountMeta::writable(pool));
        accounts.push(AccountMeta::writable(long_ledger));
        accounts.push(AccountMeta::writable(short_ledger));
        accounts.push(AccountMeta::readonly(self.clock_sysvar));
        accounts.push(AccountMeta::signer_writable(self.keeper));
        let longs: Vec<Pubkey32> = bucket_pubkeys_of(self.snapshot, sub_pool_id, Direction::Long);
        let shorts: Vec<Pubkey32> = bucket_pubkeys_of(self.snapshot, sub_pool_id, Direction::Short);
        push_written(&mut accounts, &longs);
        push_written(&mut accounts, &shorts);
        proof {
            assert(accounts@ =~= pre_sync_accounts(self.context(), sub_pool_id));
        }
        Ok(
            DispatchedAction {
                action: KeeperAction::PreSyncDormantBucket {
                    sub_pool_id,
                    direction,
                    tick,
                    pending: 0,
                },
                program_id: self.program_id,
                data,
                accounts,
            },
        )
    }

    /// Builds the instruction that closes a bucket.
    fn build_close(&self, sub_pool_id: u32, direction: Direction, tick: i64) -> (r: Result<
        DispatchedAction,
        TxBuildError,
    >)
        ensures
            is_built(r, built_close(self.context(), sub_pool_id, direction, tick)),
    {
        let pool: Pubkey32 = self.sub_pool_pubkey(sub_pool_id)?;
        let ledger: Pubkey32 = match self.snapshot.ledger_pubkey(sub_pool_id, direction) {
            Some(pk) => pk,
            None => {
                return Err(TxBuildError::MissingLedger { sub_pool_id, direction });
            },
        };
        let bucket: Pubkey32 = match self.snapshot.bucket_pubkey(sub_pool_id, direction, tick) {
            Some(pk) => pk,
            None => {
                return Err(TxBuildError::MissingBucket { sub_pool_id, direction, tick });
            },
        };
        let data: Vec<u8> = encode_close_dormant_bucket_ix(is_long(direction), tick);
        let mut accounts: Vec<AccountMeta> = Vec::new();
        accounts.push(AccountMeta::readonly(self.market));
        accounts.push(AccountMeta::readonly(pool));
        accounts.push(AccountMeta::readonly(ledger));
        accounts.push(AccountMeta::writable(bucket));
        accounts.push(AccountMeta::writable(self.keeper));
        accounts.push(AccountMeta::signer_writable(self.keeper));
        Ok(
            DispatchedAction {
                action: KeeperAction::CloseDormantBucket { sub_pool_id, direction, tick },
                program_id: self.program_id,
                data,
                accounts,
            },
        )
    }

    /// Builds the instruction that creates a bucket.
    fn build_init(&self, sub_pool_id: u32, direction: Direction, tick: i64) -> (r: Result<
        DispatchedAction,
        TxBuildError,
    >)
        ensures
            is_built(r, built_init(self.context(), sub_pool_id, direction, tick)),
    {
        let pool: Pubkey32 = self.sub_pool_pubkey(sub_pool_id)?;
        let data: Vec<u8> = encode_initialize_dormant_bucket_ix(is_long(direction), tick);
        let bucket: Pubkey32 = derive_init_bucket_placeholder(&pool, is_long(direction), tick);
        proof {
            let chosen = choose|pk: Pubkey32|
                pk@ == placeholder(pool, direction == Direction::Long, tick);
            wire::lemma_array_injective(bucket, chosen);
        }
        let mut accounts: Vec<AccountMeta> = Vec::new();
        accounts.push(AccountMeta::readonly(self.market));
        accounts.push(AccountMeta::readonly(pool));
        accounts.push(AccountMeta::writable(bucket));
        accounts.push(AccountMeta::signer_writable(self.keeper));
        accounts.push(AccountMeta::readonly(self.system_program));
        Ok(
            DispatchedAction {
                action: KeeperAction::InitDormantBucket {
                    sub_pool_id,
                    direction,
                    tick,
                    rationale: InitRationale::Explicit,
                },
                program_id: self.program_id,
                data,
                accounts,
            },
        )
    }
}

impl<'a, B: TxBuilder> ActionExecutor for RpcExecutor<'a, B> {
    /// An instruction that can be built goes to the builder, and its answer
    /// is the answer; otherwise the error's text is, and nothing is submitted.
    open spec fn may_answer(
        before: Self,
        action: KeeperAction,
        after: Self,
        r: ActionDispatchResult,
    ) -> bool {
        &&& after.context() == before.context()
        &&& match built(before.context(), action) {
            Ok(dispatched) => B::may_submit(before.builder, dispatched, after.builder, r),
            Err(e) => {
                &&& after.builder == before.builder
                &&& r matches ActionDispatchResult::Failed { reason } && reason@ == e.text()
            },
        }
    }

    fn execute(&mut self, action: KeeperAction) -> (r: ActionDispatchResult) {
        match self.build(&action) {
            Ok(dispatched) => self.builder.submit(&dispatched),
            Err(e) => ActionDispatchResult::Failed { reason: e.to_string() },
        }
    }
}

/// A discriminator, a side and a tick can be read back off their bytes.
proof fn lemma_bucket_data_injective(
    disc: Seq<u8>,
    long_a: bool,
    tick_a: i64,
    long_b: bool,
    tick_b: i64,
)
    requires
        disc + wire::bool_wire(long_a) + wire::i64_wire(tick_a) == disc + wire::bool_wire(long_b)
            + wire::i64_wire(tick_b),
    ensures
        long_a == long_b,
        tick_a == tick_b,
{
    broadcast use crate::wire::group_wire;

    let n = disc.len() as int;
    let a = disc + wire::bool_wire(long_a) + wire::i64_wire(tick_a);
    let b = disc + wire::bool_wire(long_b) + wire::i64_wire(tick_b);
    assert(a.subrange(n + 1, n + 9) =~= wire::i64_wire(tick_a));
    assert(b.subrange(n + 1, n + 9) =~= wire::i64_wire(tick_b));
    assert(a[n] == wire::bool_wire(long_a)[0]);
    assert(b[n] == wire::bool_wire(long_b)[0]);
    wire::lemma_i64_injective(tick_a, tick_b);
}

/// Instructions that close, or create, different buckets have different data.
pub proof fn law_bucket_data_tells_buckets_apart(
    long_a: bool,
    tick_a: i64,
    long_b: bool,
    tick_b: i64,
)
    ensures
        close_data(long_a, tick_a) == close_data(long_b, tick_b) ==> long_a == long_b && tick_a
            == tick_b,
        init_data(long_a, tick_a) == init_data(long_b, tick_b) ==> long_a == long_b && tick_a
            == tick_b,
{
    if close_data(long_a, tick_a) == close_data(long_b, tick_b) {
        lemma_bucket_data_injective(
            DISC_CLOSE_DORMANT_BUCKET@,
            long_a,
            tick_a,
            long_b,
            tick_b,
        );
    }
    if init_data(long_a, tick_a) == init_data(long_b, tick_b) {
        lemma_bucket_data_injective(
            DISC_INITIALIZE_DORMANT_BUCKET@,
            long_a,
            tick_a,
            long_b,
            tick_b,
        );
    }
}

/// An instruction that closes a bucket is never one that creates or drains one.
pub proof fn law_instruction_kinds_differ(
    long_a: bool,
    tick_a: i64,
    long_b: bool,
    tick_b: i64,
    longs: u32,
    shorts: u32,
)
    ensures
        close_data(long_a, tick_a) != init_data(long_b, tick_b),
        close_data(long_a, tick_a) != pre_sync_data(long_b, tick_b, longs, shorts),
        init_data(long_a, tick_a) != pre_sync_data(long_b, tick_b, longs, shorts),
{
    assert(close_data(long_a, tick_a)[0] == DISC_CLOSE_DORMANT_BUCKET@[0]);
    assert(init_data(long_a, tick_a)[0] == DISC_INITIALIZE_DORMANT_BUCKET@[0]);
    assert(init_data(long_b, tick_b)[0] == DISC_INITIALIZE_DORMANT_BUCKET@[0]);
    assert(pre_sync_data(long_b, tick_b, longs, shorts)[0] == DISC_PRE_SYNC_DORMANT_BUCKET@[0]);
    assert(DISC_CLOSE_DORMANT_BUCKET@[0] == 0x16);
    assert(DISC_INITIALIZE_DORMANT_BUCKET@[0] == 0x8f);
    assert(DISC_PRE_SYNC_DORMANT_BUCKET@[0] == 0xd6);
}

/// A task whose instruction cannot be built never reaches the builder.
pub proof fn law_unbuildable_task_is_not_submitted<B: TxBuilder>(
    before: RpcExecutor<B>,
    action: KeeperAction,
    after: RpcExecutor<B>,
    r: ActionDispatchResult,
)
    requires
        RpcExecutor::may_answer(before, action, after, r),
        built(before.context(), action) is Err,
    ensures
        after.builder == before.builder,
        r is Failed,
{
}

/// The keeper signs every instruction, and nothing else does.
pub proof fn law_only_the_keeper_signs(c: BuildContext, action: KeeperAction, i: int)
    requires
        built(c, action) is Ok,
        0 <= i < built(c, action)->Ok_0.accounts.len(),
    ensures
        built(c, action)->Ok_0.accounts[i].is_signer ==> built(c, action)->Ok_0.accounts[i]
            == meta(c.keeper, true, true),
        exists|j: int|
            0 <= j < built(c, action)->Ok_0.accounts.len() && #[trigger] built(
                c,
                action,
            )->Ok_0.accounts[j] == meta(c.keeper, true, true),
{
    let accounts = built(c, action)->Ok_0.accounts;
    match action {
        KeeperAction::PreSyncDormantBucket { .. } => {
            assert(accounts[5] == meta(c.keeper, true, true));
        },
        KeeperAction::CloseDormantBucket { .. } => {
            assert(accounts[5] == meta(c.keeper, true, true));
        },
        KeeperAction::InitDormantBucket { .. } => {
            assert(accounts[3] == meta(c.keeper, true, true));
        },
    }
}

} // verus!
