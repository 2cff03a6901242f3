//! Instruction encoders.
//!
//! An instruction's data is an 8-byte discriminator followed by the layout
//! of its arguments. The discriminator is the start of the SHA-256 digest of
//! `global:` and the instruction's name; that of an account is the start of
//! the digest of `account:` and the account's name.
use sha2::Digest;
use vstd::prelude::*;
use vstd::utf8::*;

use crate::decoder::Pubkey32;
use crate::wire;
use crate::wire::{WireEncode, WireError};

verus! {

/// Namespace of instruction discriminators.
pub const ANCHOR_INSTRUCTION_NAMESPACE: &'static str = "global:";

/// Namespace of account discriminators.
pub const ANCHOR_ACCOUNT_NAMESPACE: &'static str = "account:";

/// The SHA-256 digest of a byte string.
pub uninterp spec fn sha256_digest(data: Seq<u8>) -> Seq<u8>;

/// Calls `sha2::Sha256::digest`. Its result is the 32-byte SHA-256 digest of
/// the whole input, and depends on nothing else.
#[verifier::external_body]
fn sha256(data: &[u8]) -> (r: [u8; 32])
    ensures
        r@ == sha256_digest(data@),
{
    sha2::Sha256::digest(data).into()
}

/// The discriminator of `name` in a namespace.
pub open spec fn discriminator_spec(namespace: Seq<char>, name: Seq<char>) -> Seq<u8> {
    sha256_digest(encode_utf8(namespace) + encode_utf8(name)).take(8)
}

/// The first 8 bytes of a digest.
pub fn discriminator_of(digest: &[u8; 32]) -> (r: [u8; 8])
    ensures
        r@ == digest@.take(8),
{
    let mut out: [u8; 8] = [0u8; 8];
    let mut i: usize = 0;
    while i < 8
        invariant
            i <= 8,
            forall|j: int| 0 <= j < i ==> out[j] == digest[j],
        decreases 8 - i,
    {
        out[i] = digest[i];
        i = i + 1;
    }
    proof {
        assert(out@ =~= digest@.take(8));
    }
    out
}

/// The discriminator of `name` in a namespace.
fn discriminator(namespace: &str, name: &str) -> (r: [u8; 8])
    ensures
        r@ == discriminator_spec(namespace@, name@),
{
    let mut input: Vec<u8> = Vec::new();
    wire::put_bytes(&mut input, namespace.as_bytes());
    wire::put_bytes(&mut input, name.as_bytes());
    proof {
        assert(input@ =~= encode_utf8(namespace@) + encode_utf8(name@));
    }
    discriminator_of(&sha256(input.as_slice()))
}

/// The discriminator of the instruction `ix_name`.
pub fn instruction_discriminator(ix_name: &str) -> (r: [u8; 8])
    ensures
        r@ == discriminator_spec(ANCHOR_INSTRUCTION_NAMESPACE@, ix_name@),
{
    discriminator(ANCHOR_INSTRUCTION_NAMESPACE, ix_name)
}

/// The discriminator of the account type `account_name`.
pub fn account_discriminator(account_name: &str) -> (r: [u8; 8])
    ensures
        r@ == discriminator_spec(ANCHOR_ACCOUNT_NAMESPACE@, account_name@),
{
    discriminator(ANCHOR_ACCOUNT_NAMESPACE, account_name)
}

/// The price band that a caller accepts.
#[derive(Debug, Clone, Copy, PartialEq, Eq)]
pub struct PriceEnvelopeArgs {
    /// Current oracle price.
    pub p_now: u64,
    /// Slot the price was fetched at.
    pub slot: u64,
    /// Lower bound of the assertion (inclusive).
    pub expected_min: u64,
    /// Upper bound of the assertion (inclusive).
    pub expected_max: u64,
}

impl PriceEnvelopeArgs {
    /// The layouts of the fields, in declaration order.
    pub open spec fn fields(&self) -> Seq<Seq<u8>> {
        Seq::empty()
            .push(wire::u64_wire(self.p_now))
            .push(wire::u64_wire(self.slot))
            .push(wire::u64_wire(self.expected_min))
            .push(wire::u64_wire(self.expected_max))
    }
}

impl WireEncode for PriceEnvelopeArgs {
    open spec fn wire(&self) -> Seq<u8> {
        wire::concat(self.fields())
    }

    open spec fn fits(&self) -> bool {
        true
    }

    fn serialize(&self, out: &mut Vec<u8>) -> (r: Result<(), WireError>) {
        broadcast use crate::wire::group_wire;

        let mut body: Vec<u8> = Vec::new();
        wire::put_u64(&mut body, self.p_now);
        wire::put_u64(&mut body, self.slot);
        wire::put_u64(&mut body, self.expected_min);
        wire::put_u64(&mut body, self.expected_max);
        out.append(&mut body);
        Ok(())
    }
}

/// Arguments of `open_position`.
#[derive(Debug, Clone, Copy, PartialEq, Eq)]
pub struct OpenPositionArgs {
    /// The price band that the caller accepts.
    pub envelope: PriceEnvelopeArgs,
    /// `true` for long, `false` for short.
    pub direction_is_long: bool,
    /// Gross collateral that is locked up (minor units).
    pub gross_amount: u64,
    /// Position id chosen by the caller.
    pub position_id: u64,
}

impl OpenPositionArgs {
    /// The layouts of the fields, in declaration order.
    pub open spec fn fields(&self) -> Seq<Seq<u8>> {
        Seq::empty()
            .push(self.envelope.wire())
            .push(wire::bool_wire(self.direction_is_long))
            .push(wire::u64_wire(self.gross_amount))
            .push(wire::u64_wire(self.position_id))
    }
}

impl WireEncode for OpenPositionArgs {
    open spec fn wire(&self) -> Seq<u8> {
        wire::concat(self.fields())
    }

    open spec fn fits(&self) -> bool {
        true
    }

    fn serialize(&self, out: &mut Vec<u8>) -> (r: Result<(), WireError>) {
        broadcast use crate::wire::group_wire;

        let mut body: Vec<u8> = Vec::new();
        let _ = self.envelope.serialize(&mut body);
        wire::put_bool(&mut body, self.direction_is_long);
        wire::put_u64(&mut body, self.gross_amount);
        wire::put_u64(&mut body, self.position_id);
        out.append(&mut body);
        Ok(())
    }
}

/// Arguments of `close_position`.
#[derive(Debug, Clone, Copy, PartialEq, Eq)]
pub struct ClosePositionArgs {
    /// The price band that the caller accepts.
    pub envelope: PriceEnvelopeArgs,
    /// Number of long-side dormant buckets among the remaining accounts.
    pub long_bucket_count: u32,
    /// Number of short-side dormant buckets among the remaining accounts.
    pub short_bucket_count: u32,
}

impl ClosePositionArgs {
    /// The layouts of the fields, in declaration order.
    pub open spec fn fields(&self) -> Seq<Seq<u8>> {
        Seq::empty()
            .push(self.envelope.wire())
            .push(wire::u32_wire(self.long_bucket_count))
            .push(wire::u32_wire(self.short_bucket_count))
    }
}

impl WireEncode for ClosePositionArgs {
    open spec fn wire(&self) -> Seq<u8> {
        wire::concat(self.fields())
    }

    open spec fn fits(&self) -> bool {
        true
    }

    fn serialize(&self, out: &mut Vec<u8>) -> (r: Result<(), WireError>) {
        broadcast use crate::wire::group_wire;

        let mut body: Vec<u8> = Vec::new();
        let _ = self.envelope.serialize(&mut body);
        wire::put_u32(&mut body, self.long_bucket_count);
        wire::put_u32(&mut body, self.short_bucket_count);
        out.append(&mut body);
        Ok(())
    }
}

/// Arguments of `keeper_leader_heartbeat`.
#[derive(Debug, Clone, Copy, PartialEq, Eq)]
pub struct KeeperLeaderHeartbeatArgs {
    /// Slot that the keeper observed.
    pub observed_slot: u64,
}

impl KeeperLeaderHeartbeatArgs {
    /// The layouts of the fields, in declaration order.
    pub open spec fn fields(&self) -> Seq<Seq<u8>> {
        Seq::empty()
            .push(wire::u64_wire(self.observed_slot))
    }
}

impl WireEncode for KeeperLeaderHeartbeatArgs {
    open spec fn wire(&self) -> Seq<u8> {
        wire::concat(self.fields())
    }

    open spec fn fits(&self) -> bool {
        true
    }

    fn serialize(&self, out: &mut Vec<u8>) -> (r: Result<(), WireError>) {
        broadcast use crate::wire::group_wire;

        let mut body: Vec<u8> = Vec::new();
        wire::put_u64(&mut body, self.observed_slot);
        out.append(&mut body);
        Ok(())
    }
}

/// Arguments of `keeper_leader_acquire`.
#[derive(Debug, Clone, Copy, PartialEq, Eq)]
pub struct KeeperLeaderAcquireArgs {
    /// Slot that the keeper observed.
    pub observed_slot: u64,
}

impl KeeperLeaderAcquireArgs {
    /// The layouts of the fields, in declaration order.
    pub open spec fn fields(&self) -> Seq<Seq<u8>> {
        Seq::empty()
            .push(wire::u64_wire(self.observed_slot))
    }
}

impl WireEncode for KeeperLeaderAcquireArgs {
    open spec fn wire(&self) -> Seq<u8> {
        wire::concat(self.fields())
    }

    open spec fn fits(&self) -> bool {
        true
    }

    fn serialize(&self, out: &mut Vec<u8>) -> (r: Result<(), WireError>) {
        broadcast use crate::wire::group_wire;

        let mut body: Vec<u8> = Vec::new();
        wire::put_u64(&mut body, self.observed_slot);
        out.append(&mut body);
        Ok(())
    }
}

/// Arguments of `keeper_leader_release`: none.
#[derive(Debug, Clone, Copy, PartialEq, Eq)]
pub struct KeeperLeaderReleaseArgs {
}

impl KeeperLeaderReleaseArgs {
    /// The layouts of the fields, in declaration order.
    pub open spec fn fields(&self) -> Seq<Seq<u8>> {
        Seq::empty()
    }
}

impl WireEncode for KeeperLeaderReleaseArgs {
    open spec fn wire(&self) -> Seq<u8> {
        wire::concat(self.fields())
    }

    open spec fn fits(&self) -> bool {
        true
    }

    fn serialize(&self, out: &mut Vec<u8>) -> (r: Result<(), WireError>) {
        broadcast use crate::wire::group_wire;

        let mut body: Vec<u8> = Vec::new();
        out.append(&mut body);
        Ok(())
    }
}

/// The data of an instruction: its discriminator and the layout of its arguments.
pub open spec fn instruction_bytes<T: WireEncode>(ix_name: Seq<char>, args: &T) -> Seq<u8> {
    discriminator_spec(ANCHOR_INSTRUCTION_NAMESPACE@, ix_name) + args.wire()
}

/// Encodes the instruction `open_position`.
pub fn encode_open_position(args: &OpenPositionArgs) -> (r: Vec<u8>)
    ensures
        r@ == instruction_bytes("open_position"@, args),
{
    encode_with_discriminator("open_position", args)
}

/// Encodes the instruction `close_position`.
pub fn encode_close_position(args: &ClosePositionArgs) -> (r: Vec<u8>)
    ensures
        r@ == instruction_bytes("close_position"@, args),
{
    encode_with_discriminator("close_position", args)
}

/// Encodes the instruction `keeper_leader_heartbeat`.
pub fn encode_keeper_leader_heartbeat(args: &KeeperLeaderHeartbeatArgs) -> (r: Vec<u8>)
    ensures
        r@ == instruction_bytes("keeper_leader_heartbeat"@, args),
{
    encode_with_discriminator("keeper_leader_heartbeat", args)
}

/// Encodes the instruction `keeper_leader_acquire`.
pub fn encode_keeper_leader_acquire(args: &KeeperLeaderAcquireArgs) -> (r: Vec<u8>)
    ensures
        r@ == instruction_bytes("keeper_leader_acquire"@, args),
{
    encode_with_discriminator("keeper_leader_acquire", args)
}

/// Encodes the instruction `keeper_leader_release`.
pub fn encode_keeper_leader_release(args: &KeeperLeaderReleaseArgs) -> (r: Vec<u8>)
    ensures
        r@ == instruction_bytes("keeper_leader_release"@, args),
{
    encode_with_discriminator("keeper_leader_release", args)
}

/// Encodes an instruction whose arguments have a layout.
fn encode_with_discriminator<T: WireEncode>(ix_name: &str, args: &T) -> (r: Vec<u8>)
    requires
        args.fits(),
    ensures
        r@ == instruction_bytes(ix_name@, args),
{
    let disc = instruction_discriminator(ix_name);
    let mut out: Vec<u8> = Vec::new();
    wire::put_bytes(&mut out, disc.as_slice());
    proof {
        assert(out@ =~= disc@);
    }
    let _ = args.serialize(&mut out);
    out
}

/// Seed prefix of the `KeeperLeaderLock` address: the ASCII bytes of `keeper_leader_lock`.
pub const KEEPER_LEADER_LOCK_SEED: [u8; 18] = [0x6b, 0x65, 0x65, 0x70, 0x65, 0x72, 0x5f, 0x6c, 0x65, 0x61, 0x64, 0x65, 0x72, 0x5f, 0x6c, 0x6f, 0x63, 0x6b];

/// Seed prefix of the `Market` address: the ASCII bytes of `market`.
pub const MARKET_SEED: [u8; 6] = [0x6d, 0x61, 0x72, 0x6b, 0x65, 0x74];

/// Seed prefix of the `Position` address: the ASCII bytes of `position`.
pub const POSITION_SEED: [u8; 8] = [0x70, 0x6f, 0x73, 0x69, 0x74, 0x69, 0x6f, 0x6e];

/// The seeds of the `KeeperLeaderLock` address of a market.
pub fn keeper_leader_lock_seeds(market: &Pubkey32) -> (r: [&[u8]; 2])
    ensures
        r[0]@ == KEEPER_LEADER_LOCK_SEED@,
        r[1]@ == market@,
{
    [KEEPER_LEADER_LOCK_SEED.as_slice(), market.as_slice()]
}

} // verus!
