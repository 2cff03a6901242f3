//! Reading the replies of a Solana node.
use base64::Engine;
use vstd::prelude::*;
use vstd::seq_lib::*;

use crate::decoder::Pubkey32;
use crate::order;
use crate::order::Sortable;
use crate::rpc::fetcher;
use crate::rpc::fetcher::RpcError;
use crate::text;

verus! {

/// What the standard base64 decoder makes of a text: the bytes, or the text of its error.
pub uninterp spec fn base64_decoded(payload: Seq<char>) -> Result<Seq<u8>, Seq<char>>;

/// Calls `base64::Engine::decode` on `base64::engine::general_purpose::STANDARD`
/// and renders the error. Which bytes, or which error, depends on the text alone.
#[verifier::external_body]
fn decode_base64(payload: &str) -> (r: Result<Vec<u8>, String>)
    ensures
        match r {
            Ok(bytes) => base64_decoded(payload@) == Ok::<Seq<u8>, Seq<char>>(bytes@),
            Err(reason) => base64_decoded(payload@) == Err::<Seq<u8>, Seq<char>>(reason@),
        },
{
    base64::engine::general_purpose::STANDARD.decode(payload).map_err(|e| e.to_string())
}

/// What parsing a text as an address gives: its bytes, or the text of the error.
pub uninterp spec fn parsed_address(text: Seq<char>) -> Result<Seq<u8>, Seq<char>>;

/// Calls `str::parse` for `solana_pubkey::Pubkey`, takes the bytes and renders the
/// error. Which address, or which error, depends on the text alone.
#[verifier::external_body]
fn parse_address(text: &str) -> (r: Result<Pubkey32, String>)
    ensures
        match r {
            Ok(pubkey) => parsed_address(text@) == Ok::<Seq<u8>, Seq<char>>(pubkey@),
            Err(reason) => parsed_address(text@) == Err::<Seq<u8>, Seq<char>>(reason@),
        },
{
    text.parse::<solana_pubkey::Pubkey>().map(|p| p.to_bytes()).map_err(|e| e.to_string())
}

/// The text `part` stands in `whole` at the position `i`.
pub open spec fn stands_at(whole: Seq<char>, part: Seq<char>, i: int) -> bool {
    0 <= i && i + part.len() <= whole.len() && whole.subrange(i, i + part.len()) == part
}

/// The text `part` stands somewhere in `whole`.
pub open spec fn occurs_in(whole: Seq<char>, part: Seq<char>) -> bool {
    exists|i: int| stands_at(whole, part, i)
}

/// Whether a text stands somewhere in another.
fn contains_text(whole: &str, part: &str) -> (r: bool)
    ensures
        r == occurs_in(whole@, part@),
{
    let w: Vec<char> = text::chars_of(whole);
    let p: Vec<char> = text::chars_of(part);
    if p.len() > w.len() {
        proof {
            assert forall|k: int| !stands_at(whole@, part@, k) by {}
        }
        return false;
    }
    let last: usize = w.len() - p.len();
    let mut i: usize = 0;
    while i <= last
        invariant
            i <= last + 1,
            last == w.len() - p.len(),
            p.len() <= w.len(),
            w@ == whole@,
            p@ == part@,
            forall|k: int| 0 <= k < i ==> !#[trigger] stands_at(whole@, part@, k),
        decreases last + 1 - i,
    {
        let window: Vec<char> = text::part(&w, i, i + p.len());
        if text::same_chars(&window, &p) {
            proof {
                assert(stands_at(whole@, part@, i as int));
            }
            return true;
        }
        if i == last {
            proof {
                assert forall|k: int| !stands_at(whole@, part@, k) by {
                    if stands_at(whole@, part@, k) && k < i {
                        assert(0 <= k < i);
                    }
                }
            }
            return false;
        }
        i = i + 1;
    }
    false
}

/// The error that a client's error text stands for: one that the node
/// answered with, or one on the way to it.
pub open spec fn classified(message: Seq<char>, e: RpcError) -> bool {
    if occurs_in(message, "RPC response error"@) {
        e matches RpcError::Code { code, message: text } && code == -1 && text@ == message
    } else {
        e matches RpcError::Transport(text) && text@ == message
    }
}

/// Tells errors that the node answered with from those on the way to it.
pub fn classify_client_error(message: String) -> (r: RpcError)
    ensures
        classified(message@, r),
{
    if contains_text(message.as_str(), "RPC response error") {
        RpcError::Code { code: -1, message }
    } else {
        RpcError::Transport(message)
    }
}

/// The data of an account in a reply: `[payload, encoding]`.
#[derive(Debug, Clone, PartialEq, Eq)]
pub enum AccountDataBlob {
    /// The value is no array.
    NotAnArray,
    /// An array; an element that is no string is `None`.
    Array(Vec<Option<String>>),
}

/// The contents of the elements of an array.
pub open spec fn element_texts(items: Seq<Option<String>>) -> Seq<Option<Seq<char>>> {
    items.map_values(
        |s: Option<String>|
            match s {
                Some(text) => Some(text@),
                None => None,
            },
    )
}

/// The bytes that the elements of an array stand for, or what is wrong with them.
pub open spec fn decoded_elements(items: Seq<Option<Seq<char>>>) -> Result<Seq<u8>, Seq<char>> {
    if items.len() != 2 {
        Err(
            "getProgramAccounts: expected 2-element data array, got "@ + text::decimal(items.len()),
        )
    } else {
        match (items[0], items[1]) {
            (None, _) => Err("data[0] is not a string"@),
            (_, None) => Err("data[1] is not a string"@),
            (Some(payload), Some(encoding)) => if encoding == "base64"@ {
                match base64_decoded(payload) {
                    Ok(bytes) => Ok(bytes),
                    Err(reason) => Err("base64 decode: "@ + reason),
                }
            } else {
                Err(
                    "unsupported encoding "@ + encoding + ": keeper-rpc requests base64"@,
                )
            },
        }
    }
}

/// The bytes that a blob stands for, or what is wrong with it.
pub open spec fn decoded_blob(blob: AccountDataBlob) -> Result<Seq<u8>, Seq<char>> {
    match blob {
        AccountDataBlob::NotAnArray => Err(
            "getProgramAccounts: expected [data, encoding] array"@,
        ),
        AccountDataBlob::Array(items) => decoded_elements(element_texts(items@)),
    }
}

/// `r` holds the bytes, or reports what is wrong as a decode error.
pub open spec fn reports_bytes(
    expected: Result<Seq<u8>, Seq<char>>,
    r: Result<Vec<u8>, RpcError>,
) -> bool {
    match expected {
        Ok(bytes) => r matches Ok(v) && v@ == bytes,
        Err(reason) => r matches Err(RpcError::Decode(text)) && text@ == reason,
    }
}

/// Decodes a payload in an encoding.
pub fn decode_payload(payload: &str, encoding: &str) -> (r: Result<Vec<u8>, RpcError>)
    ensures
        reports_bytes(
            decoded_elements(Seq::empty().push(Some(payload@)).push(Some(encoding@))),
            r,
        ),
{
    if text::same_text(encoding, "base64") {
        finish_base64(decode_base64(payload))
    } else {
        let mut message = String::from_str("unsupported encoding ");
        message.append(encoding);
        message.append(": keeper-rpc requests base64");
        Err(RpcError::Decode(message))
    }
}

/// Reports the outcome of the base64 decoder.
pub fn finish_base64(outcome: Result<Vec<u8>, String>) -> (r: Result<Vec<u8>, RpcError>)
    ensures
        match outcome {
            Ok(bytes) => r == Ok::<Vec<u8>, RpcError>(bytes),
            Err(reason) => r matches Err(RpcError::Decode(text)) && text@ == "base64 decode: "@
                + reason@,
        },
{
    match outcome {
        Ok(bytes) => Ok(bytes),
        Err(reason) => {
            let mut message = String::from_str("base64 decode: ");
            message.append(reason.as_str());
            Err(RpcError::Decode(message))
        },
    }
}

/// Decodes the data of an account. Only base64 is read: another encoding was
/// not asked for.
pub fn decode_account_data_blob(blob: &AccountDataBlob) -> (r: Result<Vec<u8>, RpcError>)
    ensures
        reports_bytes(decoded_blob(*blob), r),
{
    match blob {
        AccountDataBlob::NotAnArray => Err(
            RpcError::Decode(
                String::from_str("getProgramAccounts: expected [data, encoding] array"),
            ),
        ),
        AccountDataBlob::Array(items) => {
            let ghost texts = element_texts(items@);
            if items.len() != 2 {
                let mut message = String::from_str(
                    "getProgramAccounts: expected 2-element data array, got ",
                );
                text::push_decimal(&mut message, items.len() as u128);
                return Err(RpcError::Decode(message));
            }
            let payload: &String = match &items[0] {
                Some(text) => text,
                None => {
                    proof {
                        assert(texts[0] is None);
                    }
                    return Err(RpcError::Decode(String::from_str("data[0] is not a string")));
                },
            };
            let encoding: &String = match &items[1] {
                Some(text) => text,
                None => {
                    proof {
                        assert(texts[0] is Some && texts[1] is None);
                    }
                    return Err(RpcError::Decode(String::from_str("data[1] is not a string")));
                },
            };
            proof {
                assert(texts =~= Seq::empty().push(Some(payload@)).push(Some(encoding@)));
            }
            decode_payload(payload.as_str(), encoding.as_str())
        },
    }
}

/// An account in a reply.
#[derive(Debug, PartialEq, Eq)]
pub struct KeyedAccount {
    /// The address as a text.
    pub pubkey: String,
    /// The data, or why it could not be looked at.
    pub data: Result<AccountDataBlob, String>,
}

/// The address of an account in a reply, or what is wrong with it.
pub open spec fn reply_address(account: KeyedAccount) -> Result<Seq<u8>, Seq<char>> {
    match parsed_address(account.pubkey@) {
        Ok(bytes) => Ok(bytes),
        Err(reason) => Err("invalid pubkey "@ + account.pubkey@ + ": "@ + reason),
    }
}

/// The data of an account in a reply, or what is wrong with it.
pub open spec fn reply_data(account: KeyedAccount) -> Result<Seq<u8>, Seq<char>> {
    match account.data {
        Ok(blob) => decoded_blob(blob),
        Err(reason) => Err("data re-serialize: "@ + reason@),
    }
}

/// The accounts of a reply from the position `i` on, or the first thing that
/// is wrong with them.
pub open spec fn reply_accounts(accounts: Seq<KeyedAccount>, i: int) -> Result<
    Seq<(Seq<u8>, Seq<u8>)>,
    Seq<char>,
>
    decreases accounts.len() - i,
{
    if i < 0 || i >= accounts.len() {
        Ok(Seq::empty())
    } else {
        match (reply_address(accounts[i]), reply_data(accounts[i])) {
            (Err(reason), _) => Err(reason),
            (_, Err(reason)) => Err(reason),
            (Ok(pubkey), Ok(data)) => match reply_accounts(accounts, i + 1) {
                Err(reason) => Err(reason),
                Ok(rest) => Ok(then_account((pubkey, data), rest)),
            },
        }
    }
}

/// One account, and those that follow it.
pub open spec fn then_account(
    account: (Seq<u8>, Seq<u8>),
    rest: Seq<(Seq<u8>, Seq<u8>)>,
) -> Seq<(Seq<u8>, Seq<u8>)> {
    Seq::<(Seq<u8>, Seq<u8>)>::empty().push(account) + rest
}

/// The bytes of addresses and data.
pub open spec fn account_bytes(hits: Seq<(Pubkey32, Vec<u8>)>) -> Seq<(Seq<u8>, Seq<u8>)> {
    hits.map_values(|h: (Pubkey32, Vec<u8>)| (h.0@, h.1@))
}

/// `hits` are the accounts, in the order of their addresses.
pub open spec fn in_address_order(
    accounts: Seq<(Seq<u8>, Seq<u8>)>,
    hits: Seq<(Pubkey32, Vec<u8>)>,
) -> bool {
    exists|unsorted: Seq<(Pubkey32, Vec<u8>)>| #[trigger]
        order::is_stable_sort(unsorted, hits) && account_bytes(unsorted) == accounts
}

/// What the accounts from a position on come to, given those before.
spec fn accounts_after(
    accounts: Seq<KeyedAccount>,
    done: Seq<(Seq<u8>, Seq<u8>)>,
    i: int,
) -> Result<Seq<(Seq<u8>, Seq<u8>)>, Seq<char>> {
    match reply_accounts(accounts, i) {
        Ok(rest) => Ok(done + rest),
        Err(reason) => Err(reason),
    }
}

/// Reports the outcome of parsing a text as an address.
pub fn finish_address(text: &str, outcome: Result<Pubkey32, String>) -> (r: Result<
    Pubkey32,
    RpcError,
>)
    ensures
        match outcome {
            Ok(pubkey) => r == Ok::<Pubkey32, RpcError>(pubkey),
            Err(reason) => r matches Err(RpcError::Decode(message)) && message@
                == "invalid pubkey "@ + text@ + ": "@ + reason@,
        },
{
    match outcome {
        Ok(pubkey) => Ok(pubkey),
        Err(reason) => {
            let mut message = String::from_str("invalid pubkey ");
            message.append(text);
            message.append(": ");
            message.append(reason.as_str());
            Err(RpcError::Decode(message))
        },
    }
}

/// Reads the address of an account in a reply.
fn read_address(account: &KeyedAccount) -> (r: Result<Pubkey32, RpcError>)
    ensures
        match reply_address(*account) {
            Ok(bytes) => r matches Ok(pk) && pk@ == bytes,
            Err(reason) => r matches Err(RpcError::Decode(text)) && text@ == reason,
        },
{
    finish_address(account.pubkey.as_str(), parse_address(account.pubkey.as_str()))
}

/// Reads the data of an account in a reply.
fn read_data(account: &KeyedAccount) -> (r: Result<Vec<u8>, RpcError>)
    ensures
        reports_bytes(reply_data(*account), r),
{
    match &account.data {
        Ok(blob) => decode_account_data_blob(blob),
        Err(reason) => {
            let mut message = String::from_str("data re-serialize: ");
            message.append(reason.as_str());
            Err(RpcError::Decode(message))
        },
    }
}

/// Reads the accounts of a reply, in the order of their addresses. The first
/// account that cannot be read is an error: none is dropped in silence.
pub fn read_program_accounts(accounts: &Vec<KeyedAccount>) -> (r: Result<
    Vec<(Pubkey32, Vec<u8>)>,
    RpcError,
>)
    ensures
        match reply_accounts(accounts@, 0) {
            Ok(expected) => r matches Ok(hits) && in_address_order(expected, hits@),
            Err(reason) => r matches Err(RpcError::Decode(text)) && text@ == reason,
        },
{
    let mut out: Vec<(Pubkey32, Vec<u8>)> = Vec::new();
    let mut i: usize = 0;
    proof {
        if reply_accounts(accounts@, 0) is Ok {
            assert(account_bytes(out@) + reply_accounts(accounts@, 0)->Ok_0 =~= reply_accounts(
                accounts@,
                0,
            )->Ok_0);
        }
    }
    while i < accounts.len()
        invariant
            i <= accounts.len(),
            accounts_after(accounts@, account_bytes(out@), i as int) == reply_accounts(
                accounts@,
                0,
            ),
        decreases accounts.len() - i,
    {
        let ghost done = account_bytes(out@);
        let ghost before = out@;
        let pubkey: Pubkey32 = read_address(&accounts[i])?;
        let data: Vec<u8> = read_data(&accounts[i])?;
        let ghost pair = (pubkey@, data@);
        out.push((pubkey, data));
        proof {
            assert(account_bytes(out@) =~= account_bytes(before).push(pair));
            if reply_accounts(accounts@, i + 1) is Ok {
                let rest = reply_accounts(accounts@, i + 1)->Ok_0;
                assert(reply_accounts(accounts@, i as int)->Ok_0 == then_account(pair, rest));
                assert(done + then_account(pair, rest) =~= done.push(pair) + rest);
            }
        }
        i = i + 1;
    }
    proof {
        assert(account_bytes(out@) + Seq::<(Seq<u8>, Seq<u8>)>::empty() =~= account_bytes(out@));
    }
    let ghost unsorted = out@;
    let r: Vec<(Pubkey32, Vec<u8>)> = order::stable_sort(out);
    proof {
        assert(order::is_stable_sort(unsorted, r@));
    }
    Ok(r)
}

/// A reply is read as a listing is given: its addresses never go down.
pub proof fn law_reply_is_in_order(
    accounts: Seq<(Seq<u8>, Seq<u8>)>,
    hits: Seq<(Pubkey32, Vec<u8>)>,
    i: int,
    j: int,
)
    requires
        in_address_order(accounts, hits),
        0 <= i < j < hits.len(),
    ensures
        order::lex_le(hits[i].0@, hits[j].0@),
{
    let unsorted = choose|unsorted: Seq<(Pubkey32, Vec<u8>)>| #[trigger]
        order::is_stable_sort(unsorted, hits) && account_bytes(unsorted) == accounts;
    assert(hits[i].before_eq(&hits[j]));
}

} // verus!
