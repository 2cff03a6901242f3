//! What the errors of the library say: each names what it is about, with
//! every figure in its place.
use vstd::prelude::*;

use crate::bot::cli::CliError;
use crate::bot::BotError;
use crate::decoder::{AccountDecodeError, Pubkey32};
use crate::molemath::MathError;
use crate::planner::{Direction, KeeperError};
use crate::rpc::fetcher::RpcError;
use crate::rpc::leader_tx::LeaderReconcileError;
use crate::rpc::market_registry::RegistryError;
use crate::rpc::snapshot::SnapshotError;
use crate::rpc::tx::TxBuildError;
use crate::text;
use crate::wire::WireError;

verus! {

/// A list of bytes shows each in decimal, in order, with a comma and a space
/// between any two, in square brackets.
pub proof fn law_byte_lists_show_every_byte(bytes: Seq<u8>, b: u8)
    ensures
        text::byte_list(Seq::empty()) == seq!['[', ']'],
        bytes.len() == 0 ==> text::byte_list(bytes.push(b)) == seq!['['] + text::decimal(b as nat)
            + seq![']'],
        bytes.len() > 0 ==> text::byte_list(bytes.push(b)) == text::byte_list(bytes).drop_last()
            + seq![',', ' '] + text::decimal(b as nat) + seq![']'],
{
    let none = Seq::<u8>::empty();
    assert(text::byte_items(none) =~= Seq::<char>::empty());
    assert(text::byte_list(none) =~= seq!['[', ']']);
    let all = bytes.push(b);
    assert(all.drop_last() =~= bytes);
    assert(all.last() == b);
    if bytes.len() > 0 {
        assert(text::byte_list(bytes).drop_last() =~= seq!['['] + text::byte_items(bytes));
        assert(text::byte_list(all) =~= text::byte_list(bytes).drop_last() + seq![',', ' ']
            + text::decimal(b as nat) + seq![']']);
    } else {
        assert(all[0] == b);
    }
}

/// What arithmetic says of a result that there is not.
pub proof fn law_arithmetic_says_why()
    ensures
        MathError::Overflow.text() == "math overflow"@,
        MathError::DivByZero.text() == "division by zero"@,
        MathError::SignOverflow.text() == "sign conversion overflow"@,
{
}

/// What the planner says of a bucket that is ahead of its ledger, and of a
/// ledger that is missing.
pub proof fn law_planner_names_the_bucket(
    sub_pool: u32,
    direction: Direction,
    tick: i64,
    applied: u64,
    head: u64,
)
    ensures
        (KeeperError::BucketAheadOfLedger { sub_pool, direction, tick, applied, head }).text()
            == "invariant violated: bucket last_applied_index ("@ + text::decimal(applied as nat)
            + ") > ledger next_event_index ("@ + text::decimal(head as nat) + ") for ("@
            + text::decimal(sub_pool as nat) + ", "@ + (if direction is Long {
            "Long"@
        } else {
            "Short"@
        }) + ", tick="@ + text::decimal_int(tick as int) + ")"@,
        (KeeperError::MissingLedger { sub_pool, direction }).text()
            == "chain view: missing ledger for ("@ + text::decimal(sub_pool as nat) + ", "@ + (
        if direction is Long {
            "Long"@
        } else {
            "Short"@
        }) + ")"@,
{
}

/// What the builder says of what a snapshot lacks.
pub proof fn law_builder_names_what_is_missing(
    id: u32,
    direction: Direction,
    tick: i64,
    reason: String,
)
    ensures
        TxBuildError::MissingSubPool(id).text() == "snapshot is missing sub_pool "@ + text::decimal(
            id as nat,
        ),
        (TxBuildError::MissingBucket { sub_pool_id: id, direction, tick }).text()
            == "snapshot is missing bucket ("@ + text::decimal(id as nat) + ", "@ + (
        if direction is Long {
            "Long"@
        } else {
            "Short"@
        }) + ", tick="@ + text::decimal_int(tick as int) + ")"@,
        (TxBuildError::MissingLedger { sub_pool_id: id, direction }).text()
            == "snapshot is missing ledger ("@ + text::decimal(id as nat) + ", "@ + (
        if direction is Long {
            "Long"@
        } else {
            "Short"@
        }) + ")"@,
        TxBuildError::Builder(reason).text() == "tx builder rejected: "@ + reason@,
{
}

/// What is said of account data: how long it is and has to be, which
/// discriminator it has and should have, or why it cannot be read.
pub proof fn law_decoder_says_what_it_got(
    len: usize,
    min: usize,
    got: [u8; 8],
    expected: [u8; 8],
    reason: String,
)
    ensures
        (AccountDecodeError::TooShort { len, min }).text() == "anchor account too short: got "@
            + text::decimal(len as nat) + " bytes, need at least "@ + text::decimal(min as nat),
        (AccountDecodeError::DiscriminatorMismatch { got, expected }).text()
            == "anchor discriminator mismatch: got "@ + text::byte_list(got@) + ", expected "@
            + text::byte_list(expected@),
        AccountDecodeError::Borsh(reason).text() == "borsh decode failed: "@ + reason@,
{
}

/// What is said of bytes that are no record.
pub proof fn law_wire_says_what_is_wrong(b: u8)
    ensures
        WireError::UnexpectedLength.text() == "Unexpected length of input"@,
        WireError::InvalidBool(b).text() == "Invalid bool representation: "@ + text::decimal(
            b as nat,
        ),
        WireError::NotAllBytesRead.text() == "Not all bytes read"@,
{
}

/// What a fetcher says, and what is said of a lock that cannot be had.
pub proof fn law_fetcher_says_what_it_met(
    reason: String,
    code: i64,
    e: RpcError,
    cause: AccountDecodeError,
    lock: Pubkey32,
)
    ensures
        RpcError::Transport(reason).text() == "rpc transport error: "@ + reason@,
        (RpcError::Code { code, message: reason }).text() == "rpc error code "@ + text::decimal_int(
            code as int,
        ) + ": "@ + reason@,
        RpcError::Decode(reason).text() == "decode error: "@ + reason@,
        LeaderReconcileError::Rpc(e).text() == e.text(),
        LeaderReconcileError::NotFound(lock).text() == "keeper-leader-lock PDA "@ + text::byte_list(
            lock@,
        ) + " not found on chain"@,
        LeaderReconcileError::Decode(cause).text()
            == "keeper-leader-lock account decode failed: "@ + cause.text(),
{
}

/// What a refresh says of the account that it stumbled over.
pub proof fn law_refresh_names_the_account(
    pubkey: Pubkey32,
    id: u32,
    onchain: u16,
    compiled: u16,
    e: RpcError,
)
    ensures
        SnapshotError::Rpc(e).text() == e.text(),
        SnapshotError::MarketNotFound(pubkey).text() == "market account "@ + text::byte_list(
            pubkey@,
        ) + " not found"@,
        (SnapshotError::SubPoolNotFound { sub_pool_id: id, pubkey }).text() == "sub_pool account "@
            + text::byte_list(pubkey@) + " (id="@ + text::decimal(id as nat) + ") not found"@,
        (SnapshotError::SchemaVersionMismatch { onchain, compiled }).text()
            == "market schema_version mismatch: on-chain="@ + text::decimal(onchain as nat)
            + ", keeper-compiled="@ + text::decimal(compiled as nat),
        SnapshotError::MarketPaused.text()
            == "market is paused; refusing to surface keeper actions"@,
{
}

/// A tick says what its refresh or its planner said.
pub proof fn law_tick_passes_on_what_was_said(s: SnapshotError, k: KeeperError)
    ensures
        BotError::Snapshot(s).text() == s.text(),
        BotError::Scheduler(k).text() == k.text(),
{
}

/// What is said of a file that lists markets.
pub proof fn law_registry_says_where_it_stumbled(
    line: usize,
    index: usize,
    offset: usize,
    name: String,
    detail: String,
)
    ensures
        (RegistryError::Toml { line, message: detail }).text() == "toml parse error at line "@
            + text::decimal(line as nat) + ": "@ + detail@,
        (RegistryError::InvalidSymbol { symbol: name, detail }).text() == "market `"@ + name@
            + "` has an invalid symbol: "@ + detail@,
        (RegistryError::DuplicateSymbol { symbol: name }).text() == "duplicate market symbol `"@
            + name@ + "`"@,
        RegistryError::Empty.text() == "market registry is empty"@,
        (RegistryError::EnvVar { name }).text() == "environment variable `"@ + name@
            + "` is unset or empty (referenced via ${"@ + name@ + "})"@,
        (RegistryError::MalformedEnvRef { offset, detail }).text()
            == "malformed environment variable reference at byte "@ + text::decimal(offset as nat)
            + ": "@ + detail@,
        forall|key: &'static str|
            (#[trigger] (RegistryError::MissingKey { index, key }).text()) == "market entry #"@
                + text::decimal(index as nat) + " missing required key `"@ + key@ + "`"@,
        forall|field: &'static str|
            (#[trigger] (RegistryError::InvalidPubkey { symbol: name, field, detail }).text())
                == "market `"@ + name@ + "` has invalid "@ + field@ + " pubkey: "@ + detail@,
{
}

/// What is said of a mode that there is not.
pub proof fn law_unknown_modes_are_named(mode: String)
    ensures
        CliError::UnknownMode(mode).text() == "unknown mode `"@ + mode@
            + "`. supported: smoke | serve | serve-multi"@,
{
}

} // verus!
