//! Reading accounts.
use vstd::prelude::*;
use vstd::seq_lib::*;

use crate::decoder::leader_lock::same_pubkey;
use crate::decoder::Pubkey32;
use crate::order;
use crate::order::Sortable;
use crate::table;
use crate::table::Table;
use crate::text;

verus! {

/// Errors of a fetcher.
#[derive(Debug, Clone, PartialEq, Eq)]
pub enum RpcError {
    /// The backend could not be reached.
    Transport(String),
    /// The backend answered with an error.
    Code {
        /// Its code.
        code: i64,
        /// Its message.
        message: String,
    },
    /// The backend answered with data that cannot be decoded.
    Decode(String),
}

impl RpcError {
    /// The text of the error.
    pub open spec fn text(self) -> Seq<char> {
        match self {
            RpcError::Transport(reason) => "rpc transport error: "@ + reason@,
            RpcError::Code { code, message } => "rpc error code "@ + text::decimal_int(code as int)
                + ": "@ + message@,
            RpcError::Decode(reason) => "decode error: "@ + reason@,
        }
    }

    /// Renders the error.
    pub fn to_string(&self) -> (r: String)
        ensures
            r@ == self.text(),
    {
        match self {
            RpcError::Transport(reason) => {
                let mut out = String::from_str("rpc transport error: ");
                out.append(reason.as_str());
                out
            },
            RpcError::Code { code, message } => {
                let mut out = String::from_str("rpc error code ");
                text::push_decimal_int(&mut out, *code);
                out.append(": ");
                out.append(message.as_str());
                out
            },
            RpcError::Decode(reason) => {
                let mut out = String::from_str("decode error: ");
                out.append(reason.as_str());
                out
            },
        }
    }
}

/// The bytes of a fetched account.
pub open spec fn account_answer(r: Result<Option<Vec<u8>>, RpcError>) -> Result<
    Option<Seq<u8>>,
    RpcError,
> {
    match r {
        Ok(Some(data)) => Ok(Some(data@)),
        Ok(None) => Ok(None),
        Err(e) => Err(e),
    }
}

/// The bytes of listed accounts.
pub open spec fn listed(hits: Seq<(Pubkey32, Vec<u8>)>) -> Seq<(Pubkey32, Seq<u8>)> {
    hits.map_values(|hit: (Pubkey32, Vec<u8>)| (hit.0, hit.1@))
}

/// The bytes of listed accounts, or the error.
pub open spec fn list_answer(r: Result<Vec<(Pubkey32, Vec<u8>)>, RpcError>) -> Result<
    Seq<(Pubkey32, Seq<u8>)>,
    RpcError,
> {
    match r {
        Ok(hits) => Ok(listed(hits@)),
        Err(e) => Err(e),
    }
}

/// Read access to accounts.
pub trait AccountFetcher {
    /// `r` is an answer that the fetcher may give when asked for one account.
    /// One that does not say may give any.
    open spec fn may_fetch(&self, pubkey: Pubkey32, r: Result<Option<Seq<u8>>, RpcError>) -> bool {
        true
    }

    /// `r` is an answer that the fetcher may give when asked for the
    /// accounts of a program with given bytes at an offset. One that does not
    /// say may give any.
    open spec fn may_list(
        &self,
        program_id: Pubkey32,
        match_offset: usize,
        match_bytes: Seq<u8>,
        r: Result<Seq<(Pubkey32, Seq<u8>)>, RpcError>,
    ) -> bool {
        true
    }

    /// Fetches the data of one account; `None` where there is no such account.
    fn fetch_account(&self, pubkey: &Pubkey32) -> (r: Result<Option<Vec<u8>>, RpcError>)
        ensures
            self.may_fetch(*pubkey, account_answer(r)),
    ;

    /// Fetches every account of a program whose data holds `match_bytes` at `match_offset`.
    fn fetch_program_accounts_filter(
        &self,
        program_id: &Pubkey32,
        match_offset: usize,
        match_bytes: &[u8],
    ) -> (r: Result<Vec<(Pubkey32, Vec<u8>)>, RpcError>)
        ensures
            self.may_list(*program_id, match_offset, match_bytes@, list_answer(r)),
    ;
}

/// One account of a [`MockAccountFetcher`].
#[derive(Debug)]
pub struct MockAccount {
    /// The program that owns the account.
    pub owner: Pubkey32,
    /// The data.
    pub data: Vec<u8>,
}

impl View for MockAccount {
    type V = (Pubkey32, Seq<u8>);

    /// Owner and data.
    open spec fn view(&self) -> (Pubkey32, Seq<u8>) {
        (self.owner, self.data@)
    }
}

impl Clone for MockAccount {
    fn clone(&self) -> (r: Self)
        ensures
            r@ == self@,
    {
        MockAccount {
            owner: self.owner,
            data: vstd::slice::slice_to_vec(self.data.as_slice()),
        }
    }
}

/// A fetcher over accounts in memory.
#[derive(Debug)]
pub struct MockAccountFetcher {
    /// The accounts by address.
    pub accounts: Table<Pubkey32, MockAccount>,
}

impl Default for MockAccountFetcher {
    fn default() -> (r: Self)
        ensures
            r.accounts@ == Map::<Pubkey32, MockAccount>::empty(),
    {
        MockAccountFetcher { accounts: Table::new() }
    }
}

/// Owners and data of accounts.
pub open spec fn account_contents(accounts: Map<Pubkey32, MockAccount>) -> Map<
    Pubkey32,
    (Pubkey32, Seq<u8>),
> {
    accounts.map_values(|a: MockAccount| a@)
}

impl Clone for MockAccountFetcher {
    fn clone(&self) -> (r: Self)
        ensures
            account_contents(r.accounts@) == account_contents(self.accounts@),
    {
        let r = MockAccountFetcher { accounts: self.accounts.clone() };
        proof {
            table::lemma_alike(
                self.accounts.items(),
                r.accounts.items(),
                |a: MockAccount| a@,
            );
        }
        r
    }
}

/// The account belongs to the program and holds `bytes` at `offset`.
pub open spec fn account_matches(
    account: MockAccount,
    program_id: Pubkey32,
    offset: int,
    bytes: Seq<u8>,
) -> bool {
    &&& account.owner == program_id
    &&& offset + bytes.len() <= account.data@.len()
    &&& account.data@.subrange(offset, offset + bytes.len()) == bytes
}

/// Addresses strictly increase.
pub open spec fn increasing_addresses(hits: Seq<(Pubkey32, Seq<u8>)>) -> bool {
    forall|i: int, j: int|
        #![trigger hits[i], hits[j]]
        0 <= i < j < hits.len() ==> order::lex_le(hits[i].0@, hits[j].0@) && hits[i].0 != hits[j].0
}

/// `hits` are the accounts that match, with their data, in the order of their addresses.
pub open spec fn is_listing(
    accounts: Map<Pubkey32, MockAccount>,
    program_id: Pubkey32,
    offset: int,
    bytes: Seq<u8>,
    hits: Seq<(Pubkey32, Seq<u8>)>,
) -> bool {
    &&& increasing_addresses(hits)
    &&& forall|i: int|
        #![trigger hits[i]]
        0 <= i < hits.len() ==> accounts.contains_key(hits[i].0) && hits[i].1
            == accounts[hits[i].0].data@ && account_matches(
            accounts[hits[i].0],
            program_id,
            offset,
            bytes,
        )
    &&& forall|k: Pubkey32| #[trigger]
        accounts.contains_key(k) && account_matches(accounts[k], program_id, offset, bytes)
            ==> hits.contains((k, accounts[k].data@))
}

impl MockAccountFetcher {
    /// A fetcher without accounts.
    pub fn new() -> (r: Self)
        ensures
            r.accounts@ == Map::<Pubkey32, MockAccount>::empty(),
    {
        MockAccountFetcher { accounts: Table::new() }
    }

    /// Adds an account, in place of one with the same address.
    pub fn insert(&mut self, pubkey: Pubkey32, owner: Pubkey32, data: Vec<u8>)
        ensures
            final(self).accounts@ == old(self).accounts@.insert(
                pubkey,
                (MockAccount { owner, data }),
            ),
    {
        self.accounts.insert(pubkey, MockAccount { owner, data });
    }

    /// Number of accounts.
    pub fn len(&self) -> (r: usize)
        ensures
            r == self.accounts@.len(),
    {
        self.accounts.len()
    }

    /// Whether there are no accounts.
    pub fn is_empty(&self) -> (r: bool)
        ensures
            r == (self.accounts@ == Map::<Pubkey32, MockAccount>::empty()),
    {
        self.accounts.is_empty()
    }
}

impl AccountFetcher for MockAccountFetcher {
    open spec fn may_fetch(
        &self,
        pubkey: Pubkey32,
        r: Result<Option<Seq<u8>>, RpcError>,
    ) -> bool {
        r == Ok::<Option<Seq<u8>>, RpcError>(
            if self.accounts@.contains_key(pubkey) {
                Some(self.accounts@[pubkey].data@)
            } else {
                None
            },
        )
    }

    open spec fn may_list(
        &self,
        program_id: Pubkey32,
        match_offset: usize,
        match_bytes: Seq<u8>,
        r: Result<Seq<(Pubkey32, Seq<u8>)>, RpcError>,
    ) -> bool {
        r matches Ok(hits) && is_listing(
            self.accounts@,
            program_id,
            match_offset as int,
            match_bytes,
            hits,
        )
    }

    fn fetch_account(&self, pubkey: &Pubkey32) -> (r: Result<Option<Vec<u8>>, RpcError>) {
        match self.accounts.get(pubkey) {
            Some(account) => Ok(Some(vstd::slice::slice_to_vec(account.data.as_slice()))),
            None => Ok(None),
        }
    }

    fn fetch_program_accounts_filter(
        &self,
        program_id: &Pubkey32,
        match_offset: usize,
        match_bytes: &[u8],
    ) -> (r: Result<Vec<(Pubkey32, Vec<u8>)>, RpcError>) {
        let n: usize = self.accounts.len();
        let ghost items = self.accounts.items();
        let mut out: Vec<(Pubkey32, Vec<u8>)> = Vec::new();
        let mut i: usize = 0;
        proof {
            assert(items.take(0) =~= Seq::<(Pubkey32, MockAccount)>::empty());
            assert(listed(out@) =~= Seq::<(Pubkey32, Seq<u8>)>::empty());
        }
        while i < n
            invariant
                i <= n,
                n == items.len(),
                items == self.accounts.items(),
                listed(out@) == matching(
                    items.take(i as int),
                    *program_id,
                    match_offset as int,
                    match_bytes@,
                ),
            decreases n - i,
        {
            let pair = self.accounts.entry_at(i);
            let ghost before = out@;
            proof {
                let next = items.take(i + 1);
                assert(next.drop_last() =~= items.take(i as int));
                assert(next.last() == *pair);
            }
            if Self::holds_at(&pair.1, program_id, match_offset, match_bytes) {
                out.push((pair.0, vstd::slice::slice_to_vec(pair.1.data.as_slice())));
                proof {
                    assert(listed(out@) =~= listed(before).push((pair.0, pair.1.data@)));
                }
            }
            i = i + 1;
        }
        proof {
            assert(items.take(n as int) =~= items);
        }
        let ghost found = out@;
        let sorted = order::stable_sort(out);
        proof {
            lemma_sorted_listing(
                items,
                *program_id,
                match_offset as int,
                match_bytes@,
                found,
                sorted@,
            );
        }
        Ok(sorted)
    }
}

/// The matching accounts among `items`, with their data, in the order they have there.
pub open spec fn matching(
    items: Seq<(Pubkey32, MockAccount)>,
    program_id: Pubkey32,
    offset: int,
    bytes: Seq<u8>,
) -> Seq<(Pubkey32, Seq<u8>)>
    decreases items.len(),
{
    if items.len() == 0 {
        Seq::empty()
    } else {
        let rest = matching(items.drop_last(), program_id, offset, bytes);
        if account_matches(items.last().1, program_id, offset, bytes) {
            rest.push((items.last().0, items.last().1.data@))
        } else {
            rest
        }
    }
}

/// What the matching accounts are.
proof fn lemma_matching(
    items: Seq<(Pubkey32, MockAccount)>,
    program_id: Pubkey32,
    offset: int,
    bytes: Seq<u8>,
)
    requires
        table::distinct_keys(items),
    ensures
        ({
            let found = matching(items, program_id, offset, bytes);
            &&& forall|j: int|
                #![trigger found[j]]
                0 <= j < found.len() ==> exists|k: int|
                    #![trigger items[k]]
                    0 <= k < items.len() && items[k].0 == found[j].0 && items[k].1.data@
                        == found[j].1 && account_matches(items[k].1, program_id, offset, bytes)
            &&& forall|k: int|
                #![trigger items[k]]
                0 <= k < items.len() && account_matches(items[k].1, program_id, offset, bytes)
                    ==> found.contains((items[k].0, items[k].1.data@))
            &&& forall|a: int, b: int|
                #![trigger found[a], found[b]]
                0 <= a < b < found.len() ==> found[a].0 != found[b].0
        }),
    decreases items.len(),
{
    if items.len() > 0 {
        let rest = items.drop_last();
        let n = items.len() - 1;
        assert forall|i: int, j: int|
            #![trigger rest[i], rest[j]]
            0 <= i < j < rest.len() implies rest[i].0 != rest[j].0 by {
            assert(items[i].0 != items[j].0);
        }
        lemma_matching(rest, program_id, offset, bytes);
        let before = matching(rest, program_id, offset, bytes);
        let found = matching(items, program_id, offset, bytes);
        assert forall|j: int|
            #![trigger found[j]]
            0 <= j < found.len() implies exists|k: int|
            #![trigger items[k]]
            0 <= k < items.len() && items[k].0 == found[j].0 && items[k].1.data@ == found[j].1
                && account_matches(items[k].1, program_id, offset, bytes) by {
            if j < before.len() {
                assert(before[j] == found[j]);
                let k = choose|k: int|
                    #![trigger rest[k]]
                    0 <= k < rest.len() && rest[k].0 == before[j].0 && rest[k].1.data@
                        == before[j].1 && account_matches(rest[k].1, program_id, offset, bytes);
                assert(items[k] == rest[k]);
            } else {
                assert(items[n] == items.last());
            }
        }
        assert forall|k: int|
            #![trigger items[k]]
            0 <= k < items.len() && account_matches(
                items[k].1,
                program_id,
                offset,
                bytes,
            ) implies found.contains((items[k].0, items[k].1.data@)) by {
            if k < n {
                assert(rest[k] == items[k]);
                let x = (items[k].0, items[k].1.data@);
                assert(before.contains(x));
                let j = choose|j: int| 0 <= j < before.len() && before[j] == x;
                assert(found[j] == x);
            } else {
                assert(found[found.len() - 1] == (items[k].0, items[k].1.data@));
            }
        }
        assert forall|a: int, b: int|
            #![trigger found[a], found[b]]
            0 <= a < b < found.len() implies found[a].0 != found[b].0 by {
            if b < before.len() {
                assert(before[a].0 != before[b].0);
            } else {
                assert(before[a] == found[a]);
                let k = choose|k: int|
                    #![trigger rest[k]]
                    0 <= k < rest.len() && rest[k].0 == before[a].0;
                assert(items[k].0 != items[n].0);
            }
        }
    }
}

/// Sorting the matching accounts by address lists them.
proof fn lemma_sorted_listing(
    items: Seq<(Pubkey32, MockAccount)>,
    program_id: Pubkey32,
    offset: int,
    bytes: Seq<u8>,
    found: Seq<(Pubkey32, Vec<u8>)>,
    sorted: Seq<(Pubkey32, Vec<u8>)>,
)
    requires
        table::distinct_keys(items),
        listed(found) == matching(items, program_id, offset, bytes),
        order::is_stable_sort(found, sorted),
    ensures
        is_listing(table::map_of(items), program_id, offset, bytes, listed(sorted)),
{
    let accounts = table::map_of(items);
    let hits = listed(sorted);
    let all = listed(found);
    table::lemma_map_of(items);
    lemma_matching(items, program_id, offset, bytes);
    order::lemma_permutation(found, sorted);
    assert forall|i: int|
        #![trigger hits[i]]
        0 <= i < hits.len() implies accounts.contains_key(hits[i].0) && hits[i].1
        == accounts[hits[i].0].data@ && account_matches(
        accounts[hits[i].0],
        program_id,
        offset,
        bytes,
    ) by {
        assert(found.contains(sorted[i]));
        let j = choose|j: int| 0 <= j < found.len() && found[j] == sorted[i];
        assert(all[j] == hits[i]);
        let k = choose|k: int|
            #![trigger items[k]]
            0 <= k < items.len() && items[k].0 == all[j].0 && items[k].1.data@ == all[j].1
                && account_matches(items[k].1, program_id, offset, bytes);
        assert(accounts[items[k].0] == items[k].1);
    }
    assert forall|k: Pubkey32| #[trigger]
        accounts.contains_key(k) && account_matches(
            accounts[k],
            program_id,
            offset,
            bytes,
        ) implies hits.contains((k, accounts[k].data@)) by {
        let n = choose|n: int|
            #![trigger items[n]]
            0 <= n < items.len() && items[n].0 == k;
        assert(accounts[items[n].0] == items[n].1);
        let x = (k, accounts[k].data@);
        assert(all.contains(x));
        let j = choose|j: int| 0 <= j < all.len() && all[j] == x;
        assert(sorted.contains(found[j]));
        let i = choose|i: int| 0 <= i < sorted.len() && sorted[i] == found[j];
        assert(hits[i] == x);
    }
    let key = |x: (Pubkey32, Vec<u8>)| x.0;
    assert forall|i: int, j: int|
        #![trigger found[i], found[j]]
        0 <= i < j < found.len() implies key(found[i]) != key(found[j]) by {
        assert(all[i].0 != all[j].0);
    }
    assert forall|a: int, b: int|
        #![trigger hits[a], hits[b]]
        0 <= a < b < hits.len() implies order::lex_le(hits[a].0@, hits[b].0@) && hits[a].0
        != hits[b].0 by {
        assert(sorted[a].before_eq(&sorted[b]));
        order::lemma_distinct_keys_stay(found, sorted, key, a, b);
    }
}

impl MockAccountFetcher {
    /// Whether an account belongs to a program and holds given bytes at an offset.
    fn holds_at(
        account: &MockAccount,
        program_id: &Pubkey32,
        match_offset: usize,
        match_bytes: &[u8],
    ) -> (r: bool)
        ensures
            r == account_matches(*account, *program_id, match_offset as int, match_bytes@),
    {
        if !same_pubkey(&account.owner, program_id) {
            return false;
        }
        let len: usize = account.data.len();
        if len < match_bytes.len() || len - match_bytes.len() < match_offset {
            return false;
        }
        let part: &[u8] = vstd::slice::slice_subrange(
            account.data.as_slice(),
            match_offset,
            match_offset + match_bytes.len(),
        );
        text::same_bytes(part, match_bytes)
    }
}

/// There is one listing only.
pub proof fn law_listing_is_unique(
    accounts: Map<Pubkey32, MockAccount>,
    program_id: Pubkey32,
    offset: int,
    bytes: Seq<u8>,
    a: Seq<(Pubkey32, Seq<u8>)>,
    b: Seq<(Pubkey32, Seq<u8>)>,
)
    requires
        is_listing(accounts, program_id, offset, bytes, a),
        is_listing(accounts, program_id, offset, bytes, b),
    ensures
        a == b,
{
    assert forall|x: (Pubkey32, Seq<u8>)| a.contains(x) == b.contains(x) by {
        if a.contains(x) {
            let i = choose|i: int| 0 <= i < a.len() && a[i] == x;
            assert(accounts.contains_key(a[i].0));
        }
        if b.contains(x) {
            let i = choose|i: int| 0 <= i < b.len() && b[i] == x;
            assert(accounts.contains_key(b[i].0));
        }
    }
    lemma_increasing_unique(a, b);
}

/// Lists in the order of their addresses with the same members are the same list.
proof fn lemma_increasing_unique(a: Seq<(Pubkey32, Seq<u8>)>, b: Seq<(Pubkey32, Seq<u8>)>)
    requires
        increasing_addresses(a),
        increasing_addresses(b),
        forall|x: (Pubkey32, Seq<u8>)| a.contains(x) == b.contains(x),
    ensures
        a == b,
    decreases a.len(),
{
    if a.len() == 0 {
        if b.len() > 0 {
            assert(b.contains(b[0]));
            assert(a.contains(b[0]));
        }
        assert(a =~= b);
    } else {
        let x = a.last();
        assert(a[a.len() - 1] == x);
        assert(a.contains(x));
        assert(b.contains(x));
        let y = b.last();
        assert(b[b.len() - 1] == y);
        assert(b.contains(y));
        assert(a.contains(y));
        let i = choose|i: int| 0 <= i < b.len() && b[i] == x;
        let j = choose|j: int| 0 <= j < a.len() && a[j] == y;
        if i < b.len() - 1 && j < a.len() - 1 {
            assert(order::lex_le(b[i].0@, b[b.len() - 1].0@));
            assert(order::lex_le(a[j].0@, a[a.len() - 1].0@));
            order::lemma_lex_antisymmetric(x.0@, y.0@);
            crate::wire::lemma_array_injective(x.0, y.0);
            assert(b[i].0 != b[b.len() - 1].0);
        }
        if i < b.len() - 1 {
            assert(j == a.len() - 1);
            assert(b[i].0 != b[b.len() - 1].0);
        }
        assert(x == y);
        let a1 = a.drop_last();
        let b1 = b.drop_last();
        assert forall|z: (Pubkey32, Seq<u8>)| a1.contains(z) == b1.contains(z) by {
            if a1.contains(z) {
                let k = choose|k: int| 0 <= k < a1.len() && a1[k] == z;
                assert(a[k] == z);
                assert(a[k].0 != a[a.len() - 1].0);
                assert(a.contains(z));
                assert(b.contains(z));
                let m = choose|m: int| 0 <= m < b.len() && b[m] == z;
                assert(b1[m] == z);
            }
            if b1.contains(z) {
                let k = choose|k: int| 0 <= k < b1.len() && b1[k] == z;
                assert(b[k] == z);
                assert(b[k].0 != b[b.len() - 1].0);
                assert(b.contains(z));
                assert(a.contains(z));
                let m = choose|m: int| 0 <= m < a.len() && a[m] == z;
                assert(a1[m] == z);
            }
        }
        assert forall|p: int, q: int|
            #![trigger a1[p], a1[q]]
            0 <= p < q < a1.len() implies order::lex_le(a1[p].0@, a1[q].0@) && a1[p].0
            != a1[q].0 by {
            assert(a[p].0 != a[q].0);
        }
        assert forall|p: int, q: int|
            #![trigger b1[p], b1[q]]
            0 <= p < q < b1.len() implies order::lex_le(b1[p].0@, b1[q].0@) && b1[p].0
            != b1[q].0 by {
            assert(b[p].0 != b[q].0);
        }
        lemma_increasing_unique(a1, b1);
        assert(a =~= a1.push(x));
        assert(b =~= b1.push(y));
    }
}

} // verus!
