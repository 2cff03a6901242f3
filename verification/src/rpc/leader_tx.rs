//! Instructions for the keeper-leader lock, and reading it from the chain.
//!
//! These are not tasks of the planner: the lock decides whether tasks are
//! carried out at all.
use vstd::prelude::*;

use crate::decoder;
use crate::decoder::ix;
use crate::decoder::ix::{
    account_discriminator, encode_keeper_leader_acquire, encode_keeper_leader_heartbeat,
    encode_keeper_leader_release, KeeperLeaderAcquireArgs, KeeperLeaderHeartbeatArgs,
    KeeperLeaderReleaseArgs,
};
use crate::decoder::leader_lock::KeeperLeaderLock;
use crate::decoder::{decode_anchor_account_with_discriminator, AccountDecodeError, Pubkey32};
use crate::rpc::fetcher;
use crate::rpc::fetcher::{AccountFetcher, RpcError};
use crate::rpc::pda;
use crate::rpc::pda::PdaSeeds;
use crate::rpc::tx;
use crate::rpc::tx::AccountMeta;
use crate::text;
use crate::wire;
use crate::wire::{WireDecode, WireEncode};

verus! {

/// An instruction for the lock.
#[derive(Debug, PartialEq, Eq)]
pub struct LeaderInstruction {
    /// The program.
    pub program_id: Pubkey32,
    /// The instruction's data.
    pub data: Vec<u8>,
    /// The instruction's accounts, in order.
    pub accounts: Vec<AccountMeta>,
}

/// The contents of an instruction for the lock.
#[verifier::ext_equal]
pub struct LeaderInstructionModel {
    /// The program.
    pub program_id: Pubkey32,
    /// The instruction's data.
    pub data: Seq<u8>,
    /// The instruction's accounts, in order.
    pub accounts: Seq<AccountMeta>,
}

impl View for LeaderInstruction {
    type V = LeaderInstructionModel;

    open spec fn view(&self) -> LeaderInstructionModel {
        LeaderInstructionModel {
            program_id: self.program_id,
            data: self.data@,
            accounts: self.accounts@,
        }
    }
}

impl Clone for LeaderInstruction {
    fn clone(&self) -> (r: Self)
        ensures
            r@ == self@,
    {
        let mut data: Vec<u8> = Vec::new();
        wire::put_bytes(&mut data, self.data.as_slice());
        let mut accounts: Vec<AccountMeta> = Vec::new();
        tx::push_all(&mut accounts, &self.accounts);
        proof {
            assert(data@ =~= self.data@);
            assert(accounts@ =~= self.accounts@);
        }
        LeaderInstruction { program_id: self.program_id, data, accounts }
    }
}

/// The accounts of an instruction for the lock: the market, the lock and the
/// keeper.
pub open spec fn lock_accounts(market: Pubkey32, lock_pda: Pubkey32, keeper: Pubkey32) -> Seq<
    AccountMeta,
> {
    Seq::<AccountMeta>::empty().push(tx::meta(market, false, false)).push(
        tx::meta(lock_pda, false, true),
    ).push(tx::meta(keeper, true, true))
}

/// Lists the accounts of an instruction for the lock.
fn accounts_of(market: Pubkey32, lock_pda: Pubkey32, keeper: Pubkey32) -> (r: Vec<AccountMeta>)
    ensures
        r@ == lock_accounts(market, lock_pda, keeper),
{
    let mut accounts: Vec<AccountMeta> = Vec::new();
    accounts.push(AccountMeta::readonly(market));
    accounts.push(AccountMeta::writable(lock_pda));
    accounts.push(AccountMeta::signer_writable(keeper));
    accounts
}

/// Builds the instruction `keeper_leader_heartbeat`.
pub fn build_keeper_leader_heartbeat(
    program_id: Pubkey32,
    market: Pubkey32,
    lock_pda: Pubkey32,
    keeper: Pubkey32,
    args: KeeperLeaderHeartbeatArgs,
) -> (r: LeaderInstruction)
    ensures
        r@ == (LeaderInstructionModel {
            program_id,
            data: ix::instruction_bytes("keeper_leader_heartbeat"@, &args),
            accounts: lock_accounts(market, lock_pda, keeper),
        }),
{
    LeaderInstruction {
        program_id,
        data: encode_keeper_leader_heartbeat(&args),
        accounts: accounts_of(market, lock_pda, keeper),
    }
}

/// Builds the instruction `keeper_leader_acquire`.
pub fn build_keeper_leader_acquire(
    program_id: Pubkey32,
    market: Pubkey32,
    lock_pda: Pubkey32,
    keeper: Pubkey32,
    args: KeeperLeaderAcquireArgs,
) -> (r: LeaderInstruction)
    ensures
        r@ == (LeaderInstructionModel {
            program_id,
            data: ix::instruction_bytes("keeper_leader_acquire"@, &args),
            accounts: lock_accounts(market, lock_pda, keeper),
        }),
{
    LeaderInstruction {
        program_id,
        data: encode_keeper_leader_acquire(&args),
        accounts: accounts_of(market, lock_pda, keeper),
    }
}

/// Builds the instruction `keeper_leader_release`.
pub fn build_keeper_leader_release(
    program_id: Pubkey32,
    market: Pubkey32,
    lock_pda: Pubkey32,
    keeper: Pubkey32,
) -> (r: LeaderInstruction)
    ensures
        r@ == (LeaderInstructionModel {
            program_id,
            data: ix::instruction_bytes("keeper_leader_release"@, &KeeperLeaderReleaseArgs {  }),
            accounts: lock_accounts(market, lock_pda, keeper),
        }),
{
    LeaderInstruction {
        program_id,
        data: encode_keeper_leader_release(&KeeperLeaderReleaseArgs {  }),
        accounts: accounts_of(market, lock_pda, keeper),
    }
}

/// The seeds of the lock of a market.
pub fn leader_lock_seeds(market: &Pubkey32) -> (r: PdaSeeds)
    ensures
        r@ == seq![pda::SEED_KEEPER_LEADER_LOCK@, market@],
{
    pda::keeper_leader_lock_seeds(market)
}

/// Where instructions for the lock go.
pub trait KeeperLeaderTxBuilder: Sized {
    /// The builder may answer `instruction` with `r`, turning from `before`
    /// into `after`. One that does not say may answer anything.
    open spec fn may_submit(
        before: Self,
        instruction: LeaderInstructionModel,
        after: Self,
        r: Result<Option<String>, String>,
    ) -> bool {
        true
    }

    /// Submits one instruction. The result is the signature, where there is
    /// one, or the text of the error.
    fn submit_leader_ix(&mut self, instruction: LeaderInstruction) -> (r: Result<
        Option<String>,
        String,
    >)
        ensures
            Self::may_submit(*old(self), instruction@, *final(self), r),
    ;
}

/// A builder that records instructions and does nothing else.
#[derive(Debug, Clone)]
pub struct MockKeeperLeaderTxBuilder {
    /// The instructions, in the order they came.
    pub submitted: Vec<LeaderInstruction>,
    /// The error of every instruction, where they are to fail.
    pub force_err: Option<String>,
}

impl Default for MockKeeperLeaderTxBuilder {
    fn default() -> (r: Self)
        ensures
            r.submitted@.len() == 0,
            r.force_err is None,
    {
        MockKeeperLeaderTxBuilder { submitted: Vec::new(), force_err: None }
    }
}

impl MockKeeperLeaderTxBuilder {
    /// A builder that has recorded nothing.
    pub fn new() -> (r: Self)
        ensures
            r.submitted@.len() == 0,
            r.force_err is None,
    {
        MockKeeperLeaderTxBuilder { submitted: Vec::new(), force_err: None }
    }
}

/// The contents of a list of instructions for the lock.
pub open spec fn instruction_models(s: Seq<LeaderInstruction>) -> Seq<LeaderInstructionModel> {
    s.map_values(|i: LeaderInstruction| i@)
}

impl KeeperLeaderTxBuilder for MockKeeperLeaderTxBuilder {
    /// Where instructions are to fail, nothing is recorded.
    open spec fn may_submit(
        before: Self,
        instruction: LeaderInstructionModel,
        after: Self,
        r: Result<Option<String>, String>,
    ) -> bool {
        &&& after.force_err == before.force_err
        &&& match before.force_err {
            Some(err) => {
                &&& r == Err::<Option<String>, String>(err)
                &&& after.submitted == before.submitted
            },
            None => {
                &&& r == Ok::<Option<String>, String>(None)
                &&& instruction_models(after.submitted@) == instruction_models(
                    before.submitted@,
                ).push(instruction)
            },
        }
    }

    fn submit_leader_ix(&mut self, instruction: LeaderInstruction) -> (r: Result<
        Option<String>,
        String,
    >) {
        if let Some(err) = &self.force_err {
            return Err(err.clone());
        }
        let ghost model = instruction@;
        self.submitted.push(instruction);
        proof {
            assert(instruction_models(self.submitted@) =~= instruction_models(
                old(self).submitted@,
            ).push(model));
        }
        Ok(None)
    }
}

/// Errors of reading the lock.
#[derive(Debug, Clone, PartialEq, Eq)]
pub enum LeaderReconcileError {
    /// The fetcher failed.
    Rpc(RpcError),
    /// There is no such account.
    NotFound(Pubkey32),
    /// The account is not a lock.
    Decode(AccountDecodeError),
}

impl LeaderReconcileError {
    /// The text of the error.
    pub open spec fn text(self) -> Seq<char> {
        match self {
            LeaderReconcileError::Rpc(e) => e.text(),
            LeaderReconcileError::NotFound(pubkey) => "keeper-leader-lock PDA "@ + text::byte_list(
                pubkey@,
            ) + " not found on chain"@,
            LeaderReconcileError::Decode(e) => "keeper-leader-lock account decode failed: "@
                + e.text(),
        }
    }

    /// Renders the error.
    pub fn to_string(&self) -> (r: String)
        ensures
            r@ == self.text(),
    {
        match self {
            LeaderReconcileError::Rpc(e) => e.to_string(),
            LeaderReconcileError::NotFound(pubkey) => {
                let mut out = String::from_str("keeper-leader-lock PDA ");
                text::push_byte_list(&mut out, pubkey.as_slice());
                out.append(" not found on chain");
                out
            },
            LeaderReconcileError::Decode(e) => {
                let mut out = String::from_str("keeper-leader-lock account decode failed: ");
                out.append(e.to_string().as_str());
                out
            },
        }
    }
}

/// `r` is what the answer of a fetcher says of the lock at `lock_pda`.
pub open spec fn lock_read(
    lock_pda: Pubkey32,
    answer: Result<Option<Seq<u8>>, RpcError>,
    r: Result<KeeperLeaderLock, LeaderReconcileError>,
) -> bool {
    match answer {
        Err(e) => r == Err::<KeeperLeaderLock, LeaderReconcileError>(LeaderReconcileError::Rpc(e)),
        Ok(None) => r == Err::<KeeperLeaderLock, LeaderReconcileError>(
            LeaderReconcileError::NotFound(lock_pda),
        ),
        Ok(Some(data)) => decodes_as_lock(data, r),
    }
}

/// `r` is what the data of an account says of a lock.
pub open spec fn decodes_as_lock(
    data: Seq<u8>,
    r: Result<KeeperLeaderLock, LeaderReconcileError>,
) -> bool {
    exists|disc: [u8; 8], decoded: Result<KeeperLeaderLock, AccountDecodeError>|
        is_lock_discriminator(disc) && #[trigger] decoder::decodes_strictly(data, disc, decoded)
            && r == match decoded {
            Ok(lock) => Ok(lock),
            Err(e) => Err(LeaderReconcileError::Decode(e)),
        }
}

/// The discriminator is that of the account `KeeperLeaderLock`.
pub open spec fn is_lock_discriminator(disc: [u8; 8]) -> bool {
    disc@ == ix::discriminator_spec(ix::ANCHOR_ACCOUNT_NAMESPACE@, "KeeperLeaderLock"@)
}

/// Reads the lock off the answer of a fetcher.
pub fn decode_lock_answer(
    lock_pda: &Pubkey32,
    answer: Result<Option<Vec<u8>>, RpcError>,
) -> (r: Result<KeeperLeaderLock, LeaderReconcileError>)
    ensures
        lock_read(*lock_pda, fetcher::account_answer(answer), r),
{
    match answer {
        Err(e) => Err(LeaderReconcileError::Rpc(e)),
        Ok(None) => Err(LeaderReconcileError::NotFound(*lock_pda)),
        Ok(Some(data)) => {
            let disc = account_discriminator("KeeperLeaderLock");
            let decoded: Result<KeeperLeaderLock, AccountDecodeError> =
                decode_anchor_account_with_discriminator(data.as_slice(), &disc);
            proof {
                assert(is_lock_discriminator(disc));
                assert(decoder::decodes_strictly(data@, disc, decoded));
            }
            let r = match decoded {
                Ok(lock) => Ok(lock),
                Err(e) => Err(LeaderReconcileError::Decode(e)),
            };
            proof {
                assert(decodes_as_lock(data@, r));
            }
            r
        },
    }
}

/// Reads the lock from the chain. Its discriminator is checked.
pub fn fetch_keeper_leader_lock<F: AccountFetcher>(fetcher: &F, lock_pda: &Pubkey32) -> (r: Result<
    KeeperLeaderLock,
    LeaderReconcileError,
>)
    ensures
        exists|answer: Result<Option<Seq<u8>>, RpcError>| #[trigger]
            fetcher.may_fetch(*lock_pda, answer) && lock_read(*lock_pda, answer, r),
{
    let answer = fetcher.fetch_account(lock_pda);
    decode_lock_answer(lock_pda, answer)
}

/// A lock that was written as an account is read back.
pub proof fn law_written_lock_is_read(
    lock_pda: Pubkey32,
    lock: KeeperLeaderLock,
    disc: [u8; 8],
    r: Result<KeeperLeaderLock, LeaderReconcileError>,
)
    requires
        is_lock_discriminator(disc),
        lock_read(lock_pda, Ok(Some(decoder::account_bytes(&lock, disc@))), r),
    ensures
        r == Ok::<KeeperLeaderLock, LeaderReconcileError>(lock),
{
    let data = decoder::account_bytes(&lock, disc@);
    let (other, decoded) = choose|
        other: [u8; 8],
        decoded: Result<KeeperLeaderLock, AccountDecodeError>,
    |
        is_lock_discriminator(other) && #[trigger] decoder::decodes_strictly(data, other, decoded)
            && r == match decoded {
            Ok(l) => Ok(l),
            Err(e) => Err(LeaderReconcileError::Decode(e)),
        };
    wire::lemma_array_injective(disc, other);
    assert(data.take(8) =~= disc@);
    decoder::law_account_round_trip(&lock, disc, decoded);
}

/// An account under another discriminator is never taken for a lock.
pub proof fn law_foreign_account_is_refused(
    lock_pda: Pubkey32,
    data: Seq<u8>,
    disc: [u8; 8],
    r: Result<KeeperLeaderLock, LeaderReconcileError>,
)
    requires
        is_lock_discriminator(disc),
        data.len() >= 8 ==> data.take(8) != disc@,
        lock_read(lock_pda, Ok(Some(data)), r),
    ensures
        r matches Err(LeaderReconcileError::Decode(_)),
{
}

/// A release and a heartbeat of one keeper for one lock go to the same
/// program with the same accounts. The data of a release is its
/// discriminator; that of a heartbeat goes on behind its own, so that the two
/// are never the same, and begin differently where the discriminators differ.
pub proof fn law_release_is_no_heartbeat(
    program_id: Pubkey32,
    market: Pubkey32,
    lock_pda: Pubkey32,
    keeper: Pubkey32,
    args: KeeperLeaderHeartbeatArgs,
    release_disc: [u8; 8],
    heartbeat_disc: [u8; 8],
    release: LeaderInstructionModel,
    heartbeat: LeaderInstructionModel,
)
    requires
        release_disc@ == ix::discriminator_spec(
            ix::ANCHOR_INSTRUCTION_NAMESPACE@,
            "keeper_leader_release"@,
        ),
        heartbeat_disc@ == ix::discriminator_spec(
            ix::ANCHOR_INSTRUCTION_NAMESPACE@,
            "keeper_leader_heartbeat"@,
        ),
        release == (LeaderInstructionModel {
            program_id,
            data: ix::instruction_bytes("keeper_leader_release"@, &KeeperLeaderReleaseArgs {  }),
            accounts: lock_accounts(market, lock_pda, keeper),
        }),
        heartbeat == (LeaderInstructionModel {
            program_id,
            data: ix::instruction_bytes("keeper_leader_heartbeat"@, &args),
            accounts: lock_accounts(market, lock_pda, keeper),
        }),
    ensures
        release.program_id == heartbeat.program_id,
        release.accounts == heartbeat.accounts,
        release.data == release_disc@,
        release.data.len() == 8,
        heartbeat.data.len() == 16,
        heartbeat.data.take(8) == heartbeat_disc@,
        release.data != heartbeat.data,
        release_disc != heartbeat_disc ==> release.data.take(8) != heartbeat.data.take(8),
{
    broadcast use crate::wire::group_wire;

    let none = KeeperLeaderReleaseArgs {  };
    assert(none.wire() =~= Seq::<u8>::empty());
    assert(release.data =~= release_disc@);
    assert(args.wire().len() == 8);
    assert(heartbeat.data.take(8) =~= heartbeat_disc@);
    assert(release.data.take(8) =~= release_disc@);
    if release_disc@ == heartbeat_disc@ {
        assert(release_disc =~= heartbeat_disc);
    }
}

} // verus!
