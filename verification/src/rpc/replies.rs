//! What holds of a node's replies, account by account.
use vstd::prelude::*;
use vstd::seq_lib::*;

use crate::decoder::Pubkey32;
use crate::order;
use crate::rpc::fetcher::RpcError;
use crate::rpc::solana;
use crate::rpc::solana::KeyedAccount;
use crate::text;

verus! {

/// A reply that can be read holds as many accounts as it lists, each under
/// its own address and with its own data, in the order of the list.
pub proof fn law_reply_keeps_every_account(accounts: Seq<KeyedAccount>, from: int)
    requires
        0 <= from <= accounts.len(),
        solana::reply_accounts(accounts, from) is Ok,
    ensures
        ({
            let read = solana::reply_accounts(accounts, from)->Ok_0;
            &&& read.len() == accounts.len() - from
            &&& forall|i: int|
                #![trigger read[i]]
                0 <= i < read.len() ==> {
                    &&& solana::parsed_address(accounts[from + i].pubkey@) == Ok::<
                        Seq<u8>,
                        Seq<char>,
                    >(read[i].0)
                    &&& accounts[from + i].data is Ok
                    &&& solana::decoded_blob(accounts[from + i].data->Ok_0) == Ok::<
                        Seq<u8>,
                        Seq<char>,
                    >(read[i].1)
                }
        }),
    decreases accounts.len() - from,
{
    if from < accounts.len() {
        law_reply_keeps_every_account(accounts, from + 1);
        let read = solana::reply_accounts(accounts, from)->Ok_0;
        let rest = solana::reply_accounts(accounts, from + 1)->Ok_0;
        assert forall|i: int|
            #![trigger read[i]]
            0 <= i < read.len() implies {
            &&& solana::parsed_address(accounts[from + i].pubkey@) == Ok::<Seq<u8>, Seq<char>>(
                read[i].0,
            )
            &&& accounts[from + i].data is Ok
            &&& solana::decoded_blob(accounts[from + i].data->Ok_0) == Ok::<Seq<u8>, Seq<char>>(
                read[i].1,
            )
        } by {
            if i > 0 {
                assert(read[i] == rest[i - 1]);
                assert(accounts[from + i] == accounts[(from + 1) + (i - 1)]);
            }
        }
    }
}

/// The account can be read: its address parses and its data decodes.
pub open spec fn is_readable(account: KeyedAccount) -> bool {
    &&& solana::parsed_address(account.pubkey@) is Ok
    &&& account.data is Ok
    &&& solana::decoded_blob(account.data->Ok_0) is Ok
}

/// A reply can be read if and only if each of its accounts can.
pub proof fn law_one_bad_account_spoils_the_reply(accounts: Seq<KeyedAccount>, from: int)
    requires
        0 <= from <= accounts.len(),
    ensures
        solana::reply_accounts(accounts, from) is Ok <==> forall|i: int|
            from <= i < accounts.len() ==> is_readable(#[trigger] accounts[i]),
    decreases accounts.len() - from,
{
    if from < accounts.len() {
        law_one_bad_account_spoils_the_reply(accounts, from + 1);
        if solana::reply_accounts(accounts, from) is Ok {
            assert forall|i: int| from <= i < accounts.len() implies is_readable(
                #[trigger] accounts[i],
            ) by {}
        } else if forall|i: int|
            from <= i < accounts.len() ==> is_readable(#[trigger] accounts[i]) {
            assert(is_readable(accounts[from]));
        }
    }
}

/// The error of a reply is about the first account that cannot be read: its
/// address first, then its data.
pub proof fn law_first_bad_account_is_reported(accounts: Seq<KeyedAccount>, from: int, k: int)
    requires
        0 <= from <= k < accounts.len(),
        forall|i: int| from <= i < k ==> is_readable(#[trigger] accounts[i]),
        !is_readable(accounts[k]),
    ensures
        solana::parsed_address(accounts[k].pubkey@) matches Err(reason)
            ==> solana::reply_accounts(accounts, from) == Err::<
            Seq<(Seq<u8>, Seq<u8>)>,
            Seq<char>,
        >("invalid pubkey "@ + accounts[k].pubkey@ + ": "@ + reason),
        solana::parsed_address(accounts[k].pubkey@) is Ok && accounts[k].data is Err
            ==> solana::reply_accounts(accounts, from) == Err::<
            Seq<(Seq<u8>, Seq<u8>)>,
            Seq<char>,
        >("data re-serialize: "@ + accounts[k].data->Err_0@),
        solana::parsed_address(accounts[k].pubkey@) is Ok && accounts[k].data is Ok
            && solana::decoded_blob(accounts[k].data->Ok_0) is Err ==> solana::reply_accounts(
            accounts,
            from,
        ) == Err::<Seq<(Seq<u8>, Seq<u8>)>, Seq<char>>(
            solana::decoded_blob(accounts[k].data->Ok_0)->Err_0,
        ),
    decreases k - from,
{
    if from < k {
        assert(is_readable(accounts[from]));
        law_first_bad_account_is_reported(accounts, from + 1, k);
    }
}

/// Ordering a reply neither drops nor doubles an account.
pub proof fn law_ordering_keeps_the_accounts(
    accounts: Seq<(Seq<u8>, Seq<u8>)>,
    hits: Seq<(Pubkey32, Vec<u8>)>,
)
    requires
        solana::in_address_order(accounts, hits),
    ensures
        hits.len() == accounts.len(),
        forall|i: int|
            0 <= i < accounts.len() ==> solana::account_bytes(hits).contains(
                #[trigger] accounts[i],
            ),
        forall|i: int|
            #![trigger hits[i]]
            0 <= i < hits.len() ==> accounts.contains((hits[i].0@, hits[i].1@)),
{
    let unsorted = choose|unsorted: Seq<(Pubkey32, Vec<u8>)>| #[trigger]
        order::is_stable_sort(unsorted, hits) && solana::account_bytes(unsorted) == accounts;
    unsorted.to_multiset_ensures();
    hits.to_multiset_ensures();
    assert(unsorted.len() == unsorted.to_multiset().len());
    assert(hits.len() == hits.to_multiset().len());
    assert(accounts.len() == unsorted.len());
    assert forall|i: int| 0 <= i < accounts.len() implies solana::account_bytes(hits).contains(
        #[trigger] accounts[i],
    ) by {
        let x = unsorted[i];
        assert(unsorted.contains(x));
        assert(unsorted.to_multiset().count(x) > 0);
        assert(hits.contains(x));
        let j = choose|j: int| 0 <= j < hits.len() && hits[j] == x;
        assert(solana::account_bytes(hits)[j] == accounts[i]);
    }
    assert forall|i: int|
        #![trigger hits[i]]
        0 <= i < hits.len() implies accounts.contains((hits[i].0@, hits[i].1@)) by {
        let x = hits[i];
        assert(hits.contains(x));
        assert(hits.to_multiset().count(x) > 0);
        assert(unsorted.contains(x));
        let j = choose|j: int| 0 <= j < unsorted.len() && unsorted[j] == x;
        assert(accounts[j] == (x.0@, x.1@));
    }
}

/// An error that the node answered with is told by the words anywhere in the
/// text; any other is one on the way. The text is kept.
pub proof fn law_client_errors_are_told_apart(
    before: Seq<char>,
    after: Seq<char>,
    message: Seq<char>,
    e: RpcError,
)
    requires
        solana::classified(message, e),
    ensures
        message == before + "RPC response error"@ + after ==> e is Code,
        e matches RpcError::Code { code, message: text } ==> code == -1 && text@ == message
            && exists|i: int| solana::stands_at(message, "RPC response error"@, i),
        e matches RpcError::Transport(text) ==> text@ == message,
        !(e is Decode),
{
    if message == before + "RPC response error"@ + after {
        let i = before.len() as int;
        let part = "RPC response error"@;
        assert(message.subrange(i, i + part.len()) =~= part);
        assert(solana::stands_at(message, part, i));
    }
}

/// Data is read off a pair of texts whose second says `base64`; with two
/// texts nothing but the encoding and the decoder decides.
pub proof fn law_data_is_a_pair_in_base64(items: Seq<Option<Seq<char>>>)
    ensures
        solana::decoded_elements(items) is Ok ==> {
            &&& items.len() == 2
            &&& items[0] is Some
            &&& items[1] == Some("base64"@)
            &&& solana::decoded_elements(items) == solana::base64_decoded(items[0]->0)
        },
        items.len() == 2 && items[0] is Some && items[1] == Some("base64"@) && (
        solana::base64_decoded(items[0]->0) is Ok) ==> solana::decoded_elements(items) is Ok,
        items.len() != 2 ==> solana::decoded_elements(items) == Err::<Seq<u8>, Seq<char>>(
            "getProgramAccounts: expected 2-element data array, got "@ + text::decimal(items.len()),
        ),
{
}

} // verus!
