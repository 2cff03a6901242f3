//! What holds of the file that lists the markets, row by row and reference
//! by reference.
use vstd::prelude::*;
use vstd::utf8::*;

use crate::base58;
use crate::rpc::market_registry;
use crate::rpc::market_registry::{
    EntryModel, ParseState, PieceModel, RegistryFault, TableModel,
};
use crate::text;

verus! {

/// The last row with the key has the value.
pub open spec fn given(
    fields: Seq<(Seq<char>, Seq<char>)>,
    key: Seq<char>,
    value: Seq<char>,
) -> bool {
    exists|i: int|
        {
            &&& 0 <= i < fields.len()
            &&& #[trigger] fields[i] == (key, value)
            &&& forall|j: int| i < j < fields.len() ==> (#[trigger] fields[j]).0 != key
        }
}

/// No row has the key.
pub open spec fn lacking(fields: Seq<(Seq<char>, Seq<char>)>, key: Seq<char>) -> bool {
    forall|i: int| 0 <= i < fields.len() ==> (#[trigger] fields[i]).0 != key
}

/// A key has the value of its last row, and none where it has no row.
pub proof fn law_last_row_counts(fields: Seq<(Seq<char>, Seq<char>)>, key: Seq<char>)
    ensures
        match market_registry::field_value(fields, key) {
            Some(value) => given(fields, key, value),
            None => lacking(fields, key),
        },
    decreases fields.len(),
{
    if fields.len() > 0 {
        let n = fields.len() - 1;
        if fields.last().0 == key {
            assert(fields[n] == (key, fields.last().1));
        } else {
            let most = fields.drop_last();
            law_last_row_counts(most, key);
            match market_registry::field_value(most, key) {
                Some(value) => {
                    let i = choose|i: int|
                        {
                            &&& 0 <= i < most.len()
                            &&& #[trigger] most[i] == (key, value)
                            &&& forall|j: int|
                                i < j < most.len() ==> (#[trigger] most[j]).0 != key
                        };
                    assert(fields[i] == (key, value));
                    assert forall|j: int| i < j < fields.len() implies (#[trigger] fields[j]).0
                        != key by {
                        if j < n {
                            assert(most[j] == fields[j]);
                        }
                    }
                },
                None => {
                    assert forall|j: int| 0 <= j < fields.len() implies (#[trigger] fields[j]).0
                        != key by {
                        if j < n {
                            assert(most[j] == fields[j]);
                        }
                    }
                },
            }
        }
    }
}

/// The address is given under the key, in base58 and in full.
pub open spec fn given_address(
    fields: Seq<(Seq<char>, Seq<char>)>,
    key: Seq<char>,
    bytes: Seq<u8>,
) -> bool {
    exists|value: Seq<char>| #[trigger]
        given(fields, key, value) && bytes.len() == 32 && base58::decoded(value) == Ok::<
            Seq<u8>,
            Seq<char>,
        >(bytes)
}

/// An entry holds what the rows of its table say: the symbol as it stands,
/// and each address under its own key. Without a row for the lock its address
/// is not known; without one for the leader, or with an empty one, none is
/// expected. No row has any other key.
pub proof fn law_entries_hold_what_their_rows_say(index: int, table: TableModel)
    requires
        market_registry::entry_of(index, table) is Ok,
    ensures
        ({
            let e = market_registry::entry_of(index, table)->Ok_0;
            let fields = table.fields;
            &&& given(fields, "symbol"@, e.symbol)
            &&& given_address(fields, "program_id"@, e.program_id)
            &&& given_address(fields, "market_pda"@, e.market_pda)
            &&& (lacking(fields, "lock_pda"@) && e.lock_pda == market_registry::UNKNOWN_LOCK@)
                || given_address(fields, "lock_pda"@, e.lock_pda)
            &&& match e.expected_leader {
                Some(bytes) => given_address(fields, "expected_leader"@, bytes),
                None => lacking(fields, "expected_leader"@) || given(
                    fields,
                    "expected_leader"@,
                    Seq::empty(),
                ),
            }
            &&& forall|i: int|
                #![trigger fields[i]]
                0 <= i < fields.len() ==> fields[i].0 == "symbol"@ || fields[i].0 == "program_id"@
                    || fields[i].0 == "market_pda"@ || fields[i].0 == "lock_pda"@ || fields[i].0
                    == "expected_leader"@
        }),
{
    let fields = table.fields;
    law_last_row_counts(fields, "symbol"@);
    law_last_row_counts(fields, "program_id"@);
    law_last_row_counts(fields, "market_pda"@);
    law_last_row_counts(fields, "lock_pda"@);
    law_last_row_counts(fields, "expected_leader"@);
    lemma_known_rows(fields, 0);
    let program = market_registry::field_value(fields, "program_id"@)->Some_0;
    assert(given(fields, "program_id"@, program));
    let market = market_registry::field_value(fields, "market_pda"@)->Some_0;
    assert(given(fields, "market_pda"@, market));
    if let Some(lock) = market_registry::field_value(fields, "lock_pda"@) {
        assert(given(fields, "lock_pda"@, lock));
    }
    if let Some(leader) = market_registry::field_value(fields, "expected_leader"@) {
        assert(given(fields, "expected_leader"@, leader));
        if leader.len() == 0 {
            assert(leader =~= Seq::<char>::empty());
        }
    }
}

/// Where no row with an unknown key is found, there is none.
proof fn lemma_known_rows(fields: Seq<(Seq<char>, Seq<char>)>, i: int)
    requires
        0 <= i <= fields.len(),
        market_registry::unknown_from(fields, i) >= fields.len(),
    ensures
        forall|k: int|
            i <= k < fields.len() ==> market_registry::known_key((#[trigger] fields[k]).0),
    decreases fields.len() - i,
{
    if i < fields.len() {
        lemma_known_rows(fields, i + 1);
    }
}

/// A registry that was read holds one entry for each table, in order, each
/// being what its own table says.
pub proof fn law_registry_follows_its_tables(tables: Seq<TableModel>, from: int)
    requires
        0 <= from <= tables.len(),
        market_registry::entries_from(tables, from) is Ok,
    ensures
        market_registry::entries_from(tables, from)->Ok_0.len() == tables.len() - from,
        forall|k: int|
            #![trigger market_registry::entries_from(tables, from)->Ok_0[k]]
            0 <= k < tables.len() - from ==> market_registry::entry_of(from + k, tables[from + k])
                == Ok::<EntryModel, RegistryFault>(
                market_registry::entries_from(tables, from)->Ok_0[k],
            ),
    decreases tables.len() - from,
{
    if from < tables.len() {
        law_registry_follows_its_tables(tables, from + 1);
        let list = market_registry::entries_from(tables, from)->Ok_0;
        let rest = market_registry::entries_from(tables, from + 1)->Ok_0;
        assert forall|k: int|
            #![trigger list[k]]
            0 <= k < tables.len() - from implies market_registry::entry_of(
            from + k,
            tables[from + k],
        ) == Ok::<EntryModel, RegistryFault>(list[k]) by {
            if k > 0 {
                assert(list[k] == rest[k - 1]);
                assert(tables[from + k] == tables[(from + 1) + (k - 1)]);
            }
        }
    }
}

/// The symbol in an account: the bytes of the text in UTF-8, as many as
/// there is room for, and zeros behind them.
pub proof fn law_symbols_are_filled_with_zeros(symbol: Seq<char>, i: int)
    requires
        0 <= i < 16,
    ensures
        market_registry::padded_symbol(symbol).len() == 16,
        market_registry::padded_symbol(symbol)[i] == if i < encode_utf8(symbol).len() {
            encode_utf8(symbol)[i]
        } else {
            0u8
        },
{
}

/// A text without white space at its ends stays as it is.
proof fn lemma_trimmed_already(s: Seq<char>)
    requires
        s.len() > 0 ==> !text::whitespace(s[0]) && !text::whitespace(s.last()),
    ensures
        text::trimmed(s) == s,
{
}

/// A space behind a text, or before it, is trimmed off.
proof fn lemma_trimmed_space(s: Seq<char>)
    ensures
        text::trimmed(s.push(' ')) == text::trimmed(s),
        text::trimmed(seq![' '] + s) == text::trimmed(s),
    decreases s.len(),
{
    let before = seq![' '] + s;
    assert(before.drop_first() =~= s);
    let behind = s.push(' ');
    if s.len() == 0 {
        assert(behind.drop_first() =~= s);
    } else if text::whitespace(s[0]) {
        assert(behind.drop_first() =~= s.drop_first().push(' '));
        lemma_trimmed_space(s.drop_first());
    } else {
        assert(behind.drop_last() =~= s);
        assert(behind.last() == ' ');
    }
}

/// A row is a key, an equals sign and a value in quotes: such a row gives
/// the key and what stands between the quotes, whatever it is.
pub proof fn law_rows_are_keys_and_quoted_values(key: Seq<char>, value: Seq<char>)
    requires
        market_registry::valid_key(key),
        !value.contains('"'),
    ensures
        market_registry::key_value(key.push(' ').push('=').push(' ').push('"') + value.push('"'))
            == Ok::<(Seq<char>, Seq<char>), Seq<char>>((key, value)),
        market_registry::key_value(key.push('=').push('"') + value.push('"')) == Ok::<
            (Seq<char>, Seq<char>),
            Seq<char>,
        >((key, value)),
{
    let quoted = seq!['"'] + value.push('"');
    let n = key.len() as int;
    let open = key.push(' ').push('=').push(' ').push('"') + value.push('"');
    let tight = key.push('=').push('"') + value.push('"');
    assert(forall|i: int| 0 <= i < n ==> #[trigger] key[i] != '=') by {
        assert forall|i: int| 0 <= i < n implies #[trigger] key[i] != '=' by {
            assert(market_registry::key_char(key[i]));
        }
    }
    assert(market_registry::key_char(key[0]));
    assert(market_registry::key_char(key[n - 1]));
    lemma_trimmed_already(key);
    lemma_trimmed_space(key);
    assert(quoted[0] == '"' && quoted.last() == '"');
    lemma_trimmed_already(quoted);
    lemma_trimmed_space(quoted);
    let end = text::find_from(quoted, '"', 1);
    text::lemma_find_from(quoted, '"', 1);
    assert(quoted[value.len() as int + 1] == '"');
    if end < value.len() + 1 {
        assert(quoted[end] == value[end - 1]);
        assert(value[end - 1] == '"');
    }
    assert(end == value.len() + 1);
    assert(quoted.subrange(1, end) =~= value);
    let none = Seq::<char>::empty();
    assert(quoted.subrange(end + 1, quoted.len() as int) =~= none);
    lemma_trimmed_already(none);
    // With spaces round the sign.
    text::lemma_find_from(open, '=', 0);
    let e1 = text::find_from(open, '=', 0);
    assert(open[n] == ' ' && open[n + 1] == '=');
    if e1 < n {
        assert(open[e1] == key[e1]);
    }
    assert(e1 == n + 1);
    assert(open.subrange(0, e1) =~= key.push(' '));
    assert(open.subrange(e1 + 1, open.len() as int) =~= seq![' '] + quoted);
    // Without.
    text::lemma_find_from(tight, '=', 0);
    let e2 = text::find_from(tight, '=', 0);
    assert(tight[n] == '=');
    if e2 < n {
        assert(tight[e2] == key[e2]);
    }
    assert(e2 == n);
    assert(tight.subrange(0, e2) =~= key);
    assert(tight.subrange(e2 + 1, tight.len() as int) =~= quoted);
}

/// Before the first quote no position is inside a string.
proof fn lemma_outside_strings(line: Seq<char>, i: int)
    requires
        0 <= i <= line.len(),
        forall|k: int| 0 <= k < i ==> #[trigger] line[k] != '"',
    ensures
        !market_registry::in_string(line, i),
    decreases i,
{
    if i > 0 {
        assert(line[i - 1] != '"');
        lemma_outside_strings(line, i - 1);
    }
}

/// What was looked for is found where it first stands.
proof fn lemma_comment_from(line: Seq<char>, i: int, k: int)
    requires
        0 <= i <= k <= line.len(),
        forall|j: int|
            i <= j < k ==> (#[trigger] line[j] != '#' || market_registry::in_string(line, j)),
        k < line.len() ==> line[k] == '#' && !market_registry::in_string(line, k),
    ensures
        market_registry::comment_from(line, i) == k,
    decreases k - i,
{
    if i < k {
        assert(line[i] != '#' || market_registry::in_string(line, i));
        lemma_comment_from(line, i + 1, k);
    }
}

/// What stands behind a number sign outside quotes is a comment: the line
/// says what stands before it. A line without one says all it holds.
pub proof fn law_comments_are_cut_off(said: Seq<char>, comment: Seq<char>)
    requires
        !said.contains('#'),
        !said.contains('"'),
    ensures
        market_registry::line_content(said.push('#') + comment) == text::trimmed(said),
        market_registry::line_content(said) == text::trimmed(said),
{
    let raw = said.push('#') + comment;
    let n = said.len() as int;
    assert forall|k: int| 0 <= k < n implies #[trigger] raw[k] != '"' && raw[k] != '#' by {
        assert(raw[k] == said[k]);
    }
    assert(raw[n] == '#');
    lemma_outside_strings(raw, n);
    lemma_comment_from(raw, 0, n);
    assert(raw.subrange(0, n) =~= said);
    assert forall|k: int| 0 <= k < n implies #[trigger] said[k] != '#' by {}
    lemma_comment_from(said, 0, n);
    assert(said.subrange(0, n) =~= said);
}

/// A number sign inside a quoted value is part of the value.
pub proof fn law_number_signs_in_quotes_stay(before: Seq<char>, value: Seq<char>)
    requires
        !before.contains('#'),
        !before.contains('"'),
        !value.contains('"'),
        !before.contains('\\'),
    ensures
        market_registry::line_content(before.push('"') + value) == text::trimmed(
            before.push('"') + value,
        ),
{
    let raw = before.push('"') + value;
    let n = before.len() as int;
    assert forall|k: int| 0 <= k < n implies #[trigger] raw[k] != '"' && raw[k] != '#' by {
        assert(raw[k] == before[k]);
    }
    assert(raw[n] == '"');
    if n > 0 {
        assert(raw[n - 1] == before[n - 1]);
        assert(before[n - 1] != '\\');
    }
    lemma_outside_strings(raw, n);
    assert forall|j: int|
        0 <= j < raw.len() implies (#[trigger] raw[j] != '#' || market_registry::in_string(raw, j)) by {
        if j > n {
            lemma_inside_string(raw, n, j);
        }
    }
    lemma_comment_from(raw, 0, raw.len() as int);
    assert(raw.subrange(0, raw.len() as int) =~= raw);
}

/// Behind the first quote, and before another, every position is inside a
/// string.
proof fn lemma_inside_string(line: Seq<char>, n: int, i: int)
    requires
        0 <= n < i <= line.len(),
        line[n] == '"',
        n == 0 || line[n - 1] != '\\',
        !market_registry::in_string(line, n),
        forall|k: int| n < k < line.len() ==> #[trigger] line[k] != '"',
    ensures
        market_registry::in_string(line, i),
    decreases i,
{
    if i > n + 1 {
        assert(line[i - 1] != '"');
        lemma_inside_string(line, n, i - 1);
    }
}

/// What a line adds: one that says nothing adds nothing, a header begins a
/// table under its number, and a row goes behind the rows of the table that
/// was begun last, or is refused where there is none.
pub proof fn law_lines_add_up(
    st: ParseState,
    raw: Seq<char>,
    num: int,
    key: Seq<char>,
    value: Seq<char>,
)
    ensures
        market_registry::line_content(raw).len() == 0 ==> market_registry::after_line(st, raw, num)
            == Ok::<ParseState, RegistryFault>(st),
        market_registry::line_content(raw) == "[[markets]]"@ ==> (market_registry::after_line(
            st,
            raw,
            num,
        ) matches Ok(next) && next.tables == st.closed_tables() && (next.current
            matches Some(t) && t.header_line == num && t.fields.len() == 0)),
        market_registry::line_content(raw) == key.push(' ').push('=').push(' ').push('"')
            + value.push('"') && market_registry::valid_key(key) && !value.contains('"') ==> {
            &&& st.current matches Some(t) ==> (market_registry::after_line(st, raw, num)
                matches Ok(next) && next.tables == st.tables && (next.current
                matches Some(u) && u.header_line == t.header_line && u.fields == t.fields.push(
                (key, value),
            )))
            &&& st.current is None ==> (market_registry::after_line(st, raw, num)
                matches Err(RegistryFault::Toml { line, .. }) && line == num)
        },
{
    let line = market_registry::line_content(raw);
    reveal_strlit("[[markets]]");
    reveal_strlit("markets");
    if line == "[[markets]]"@ {
        assert(line.subrange(2, line.len() - 2) =~= "markets"@);
        lemma_trimmed_already("markets"@);
    }
    if line == key.push(' ').push('=').push(' ').push('"') + value.push('"')
        && market_registry::valid_key(key) && !value.contains('"') {
        law_rows_are_keys_and_quoted_values(key, value);
        assert(market_registry::key_char(key[0]));
        assert(line[0] == key[0]);
    }
}

/// One piece, and those that follow it.
proof fn lemma_then_pieces(piece: PieceModel, rest: Seq<PieceModel>)
    ensures
        market_registry::then_pieces(piece, rest).len() == rest.len() + 1,
        market_registry::then_pieces(piece, rest)[0] == piece,
        forall|k: int|
            #![trigger market_registry::then_pieces(piece, rest)[k]]
            1 <= k <= rest.len() ==> market_registry::then_pieces(piece, rest)[k] == rest[k - 1],
{
    let one = Seq::<PieceModel>::empty().push(piece);
    assert(one.len() == 1);
    assert((one + rest).len() == rest.len() + 1);
}

/// The pieces of a text up to a position before which no dollar sign stands
/// are its characters, and then those from there on.
proof fn lemma_pieces_up_to(s: Seq<char>, i: int, j: int)
    requires
        0 <= i <= j <= s.len(),
        forall|k: int| i <= k < j ==> #[trigger] s[k] != '$',
    ensures
        market_registry::pieces_from(s, i).len() == (j - i) + market_registry::pieces_from(
            s,
            j,
        ).len(),
        forall|k: int|
            #![trigger market_registry::pieces_from(s, i)[k]]
            0 <= k < j - i ==> market_registry::pieces_from(s, i)[k] == PieceModel::Literal(
                s[i + k],
            ),
        forall|k: int|
            #![trigger market_registry::pieces_from(s, j)[k]]
            0 <= k < market_registry::pieces_from(s, j).len() ==> market_registry::pieces_from(
                s,
                i,
            )[(j - i) + k] == market_registry::pieces_from(s, j)[k],
    decreases j - i,
{
    if i < j {
        assert(s[i] != '$');
        lemma_pieces_up_to(s, i + 1, j);
        let ps = market_registry::pieces_from(s, i);
        let rest = market_registry::pieces_from(s, i + 1);
        let tail = market_registry::pieces_from(s, j);
        assert(ps == market_registry::then_pieces(PieceModel::Literal(s[i]), rest));
        lemma_then_pieces(PieceModel::Literal(s[i]), rest);
        assert forall|k: int| #![trigger ps[k]] 0 <= k < j - i implies ps[k]
            == PieceModel::Literal(s[i + k]) by {
            if k > 0 {
                assert(ps[k] == rest[k - 1]);
            }
        }
        assert forall|k: int| #![trigger tail[k]] 0 <= k < tail.len() implies ps[(j - i) + k]
            == tail[k] by {
            assert(ps[(j - i) + k] == rest[(j - i - 1) + k]);
        }
    }
}

/// Characters after what was expanded go behind it.
proof fn lemma_expand_literals(
    ps: Seq<PieceModel>,
    answers: Seq<Option<Seq<char>>>,
    from: int,
    chars: Seq<char>,
)
    requires
        0 <= from <= answers.len() <= ps.len(),
        answers.len() <= from + chars.len(),
        forall|k: int|
            from <= k < answers.len() ==> #[trigger] ps[k] == PieceModel::Literal(chars[k - from]),
    ensures
        market_registry::expanded(ps, answers) == match market_registry::expanded(
            ps,
            answers.take(from),
        ) {
            Err(fault) => Err::<Seq<char>, RegistryFault>(fault),
            Ok(so_far) => Ok(so_far + chars.take(answers.len() - from)),
        },
    decreases answers.len(),
{
    let n = answers.len() as int;
    if n == from {
        assert(answers.take(from) =~= answers);
        if let Ok(so_far) = market_registry::expanded(ps, answers) {
            assert(so_far + chars.take(0) =~= so_far);
        }
    } else {
        lemma_expand_literals(ps, answers.drop_last(), from, chars);
        assert(answers.drop_last().take(from) =~= answers.take(from));
        assert(ps[n - 1] == PieceModel::Literal(chars[n - 1 - from]));
        if let Ok(so_far) = market_registry::expanded(ps, answers.take(from)) {
            assert((so_far + chars.take(n - 1 - from)).push(chars[n - 1 - from]) =~= so_far
                + chars.take(n - from));
        }
    }
}

/// A reference gives way to the value that the lookup has for its name, and
/// what stands round it stays. A name without a value, or with an empty one,
/// is an error that names it.
pub proof fn law_references_give_way_to_values<F: Fn(&str) -> Option<String>>(
    lookup: F,
    before: Seq<char>,
    name: Seq<char>,
    after: Seq<char>,
    r: Result<Seq<char>, RegistryFault>,
)
    requires
        !before.contains('$'),
        !after.contains('$'),
        market_registry::valid_name(name),
        market_registry::expands(lookup, before.push('$').push('{') + name.push('}') + after, r),
    ensures
        r matches Ok(text) ==> exists|value: Seq<char>| #[trigger]
            market_registry::looked_up(lookup, name, Some(value)) && value.len() > 0 && text
                == before + value + after,
        r matches Err(fault) ==> fault == (RegistryFault::EnvVar { name }) && (
        market_registry::looked_up(lookup, name, None) || market_registry::looked_up(
            lookup,
            name,
            Some(Seq::empty()),
        )),
{
    let s = before.push('$').push('{') + name.push('}') + after;
    let n = before.len() as int;
    let m = name.len() as int;
    let ps = market_registry::pieces_from(s, 0);
    let answers = choose|answers: Seq<Option<Seq<char>>>| #[trigger]
        market_registry::answered(lookup, ps, answers) && r == market_registry::expanded(
            ps,
            answers,
        );
    assert forall|k: int| 0 <= k < n implies #[trigger] s[k] != '$' by {
        assert(s[k] == before[k]);
        assert(before.contains(before[k]));
    }
    assert(s[n] == '$' && s[n + 1] == '{' && s[n + 2 + m] == '}');
    text::lemma_find_from(s, '}', n + 2);
    let end = text::find_from(s, '}', n + 2);
    if end < n + 2 + m {
        assert(s[end] == name[end - n - 2]);
        assert(market_registry::name_char(name[end - n - 2]));
    }
    assert(end == n + 2 + m);
    assert(s.subrange(n + 2, end) =~= name);
    let j = n + 3 + m;
    let len = s.len() as int;
    assert(len == j + after.len());
    assert forall|k: int| j <= k < len implies #[trigger] s[k] != '$' by {
        assert(s[k] == after[k - j]);
        assert(after.contains(after[k - j]));
    }
    lemma_pieces_up_to(s, 0, n);
    lemma_pieces_up_to(s, j, len);
    let at = market_registry::pieces_from(s, n);
    let tail = market_registry::pieces_from(s, j);
    assert(market_registry::pieces_from(s, len).len() == 0);
    assert(tail.len() == after.len());
    assert(at == market_registry::then_pieces(PieceModel::Reference(name), tail));
    lemma_then_pieces(PieceModel::Reference(name), tail);
    assert(ps.len() == n + 1 + after.len());
    assert(at[0] == PieceModel::Reference(name));
    assert(ps[n + 0] == at[0]);
    assert forall|k: int| n + 1 <= k < ps.len() implies #[trigger] ps[k] == PieceModel::Literal(
        after[k - (n + 1)],
    ) by {
        assert(ps[n + (k - n)] == at[k - n]);
        assert(at[k - n] == tail[k - n - 1]);
        assert(tail[k - n - 1] == PieceModel::Literal(s[j + (k - n - 1)]));
    }
    assert forall|k: int| 0 <= k < n implies #[trigger] ps[k] == PieceModel::Literal(before[k]) by {
        assert(s[k] == before[k]);
    }
    let total = answers.len() as int;
    let none = Seq::<Option<Seq<char>>>::empty();
    assert(market_registry::expanded(ps, none) == Ok::<Seq<char>, RegistryFault>(Seq::empty()));
    if total <= n {
        assert(answers.take(0) =~= none);
        lemma_expand_literals(ps, answers, 0, before);
        assert(false);
    }
    let first = answers.take(n + 1);
    let lead = answers.take(n);
    assert(lead.take(0) =~= none);
    lemma_expand_literals(ps, lead, 0, before);
    assert(Seq::<char>::empty() + before.take(n) =~= before);
    assert(first.drop_last() =~= lead);
    assert(first.last() == answers[n]);
    assert(market_registry::looked_up(lookup, name, answers[n]));
    lemma_expand_literals(ps, answers, n + 1, after);
    match answers[n] {
        Some(value) => {
            if value.len() > 0 {
                assert(total == ps.len());
                assert(after.take(after.len() as int) =~= after);
            } else {
                assert(value =~= Seq::<char>::empty());
            }
        },
        None => {},
    }
}

/// Two dollar signs stand for one.
pub proof fn law_two_dollar_signs_stand_for_one<F: Fn(&str) -> Option<String>>(
    lookup: F,
    before: Seq<char>,
    after: Seq<char>,
    r: Result<Seq<char>, RegistryFault>,
)
    requires
        !before.contains('$'),
        !after.contains('$'),
        market_registry::expands(lookup, before.push('$').push('$') + after, r),
    ensures
        r == Ok::<Seq<char>, RegistryFault>(before.push('$') + after),
{
    let s = before.push('$').push('$') + after;
    let n = before.len() as int;
    let len = s.len() as int;
    let whole = before.push('$') + after;
    let ps = market_registry::pieces_from(s, 0);
    let answers = choose|answers: Seq<Option<Seq<char>>>| #[trigger]
        market_registry::answered(lookup, ps, answers) && r == market_registry::expanded(
            ps,
            answers,
        );
    assert forall|k: int| 0 <= k < n implies #[trigger] s[k] != '$' by {
        assert(s[k] == before[k]);
        assert(before.contains(before[k]));
    }
    assert(s[n] == '$' && s[n + 1] == '$');
    assert forall|k: int| n + 2 <= k < len implies #[trigger] s[k] != '$' by {
        assert(s[k] == after[k - n - 2]);
        assert(after.contains(after[k - n - 2]));
    }
    lemma_pieces_up_to(s, 0, n);
    lemma_pieces_up_to(s, n + 2, len);
    let at = market_registry::pieces_from(s, n);
    let tail = market_registry::pieces_from(s, n + 2);
    assert(market_registry::pieces_from(s, len).len() == 0);
    assert(at == market_registry::then_pieces(PieceModel::Literal('$'), tail));
    lemma_then_pieces(PieceModel::Literal('$'), tail);
    assert forall|k: int| 0 <= k < ps.len() implies #[trigger] ps[k] == PieceModel::Literal(
        whole[k],
    ) by {
        if k < n {
            assert(s[k] == before[k]);
        } else {
            assert(ps[n + (k - n)] == at[k - n]);
            if k > n {
                assert(at[k - n] == tail[k - n - 1]);
                assert(tail[k - n - 1] == PieceModel::Literal(s[n + 2 + (k - n - 1)]));
            }
        }
    }
    let none = Seq::<Option<Seq<char>>>::empty();
    assert(answers.take(0) =~= none);
    assert(market_registry::expanded(ps, none) == Ok::<Seq<char>, RegistryFault>(Seq::empty()));
    lemma_expand_literals(ps, answers, 0, whole);
    assert(Seq::<char>::empty() + whole.take(answers.len() as int) =~= whole);
}

/// A reference that is not closed, or whose name is none, is an error. It
/// says at which byte of the text the reference begins.
pub proof fn law_malformed_references_are_placed<F: Fn(&str) -> Option<String>>(
    lookup: F,
    before: Seq<char>,
    inside: Seq<char>,
    after: Seq<char>,
    closed: bool,
    r: Result<Seq<char>, RegistryFault>,
)
    requires
        !before.contains('$'),
        !inside.contains('}'),
        closed ==> !market_registry::valid_name(inside),
        market_registry::expands(
            lookup,
            if closed {
                before.push('$').push('{') + inside.push('}') + after
            } else {
                before.push('$').push('{') + inside
            },
            r,
        ),
    ensures
        r matches Err(RegistryFault::MalformedEnvRef { offset, detail }) && offset == encode_utf8(
            before,
        ).len() && (!closed ==> detail == "unclosed `${...}` reference"@) && (closed && inside.len()
            == 0 ==> detail == "empty variable name `${}`"@) && (closed && inside.len() > 0
            ==> detail == "variable name `"@ + inside
            + "` contains invalid characters (must match [A-Za-z_][A-Za-z0-9_]*)"@),
{
    let s = if closed {
        before.push('$').push('{') + inside.push('}') + after
    } else {
        before.push('$').push('{') + inside
    };
    let n = before.len() as int;
    let m = inside.len() as int;
    let ps = market_registry::pieces_from(s, 0);
    let answers = choose|answers: Seq<Option<Seq<char>>>| #[trigger]
        market_registry::answered(lookup, ps, answers) && r == market_registry::expanded(
            ps,
            answers,
        );
    assert forall|k: int| 0 <= k < n implies #[trigger] s[k] != '$' by {
        assert(s[k] == before[k]);
        assert(before.contains(before[k]));
    }
    assert(s[n] == '$' && s[n + 1] == '{');
    text::lemma_find_from(s, '}', n + 2);
    let end = text::find_from(s, '}', n + 2);
    if end < n + 2 + m {
        assert(s[end] == inside[end - n - 2]);
        assert(inside.contains(inside[end - n - 2]));
    }
    if closed {
        assert(s[n + 2 + m] == '}');
        assert(end == n + 2 + m);
        assert(s.subrange(n + 2, end) =~= inside);
    }
    lemma_pieces_up_to(s, 0, n);
    let at = market_registry::pieces_from(s, n);
    let detail = if closed {
        market_registry::bad_name_detail(inside)
    } else {
        "unclosed `${...}` reference"@
    };
    assert(at == market_registry::malformed(s, n, detail));
    assert(s.take(n) =~= before);
    text::lemma_utf8_len(before);
    assert(at.len() == 1);
    assert(ps.len() == n + 1);
    assert(ps[n + 0] == at[0]);
    assert forall|k: int| 0 <= k < n implies #[trigger] ps[k] == PieceModel::Literal(before[k]) by {
        assert(s[k] == before[k]);
    }
    let none = Seq::<Option<Seq<char>>>::empty();
    assert(market_registry::expanded(ps, none) == Ok::<Seq<char>, RegistryFault>(Seq::empty()));
    let total = answers.len() as int;
    if total <= n {
        assert(answers.take(0) =~= none);
        lemma_expand_literals(ps, answers, 0, before);
        assert(false);
    }
    let lead = answers.take(n);
    assert(lead.take(0) =~= none);
    lemma_expand_literals(ps, lead, 0, before);
    assert(answers.drop_last() =~= lead);
}

/// A symbol is accepted if and only if it is ASCII and takes from one to
/// sixteen bytes.
pub proof fn law_symbols_are_short_and_plain(symbol: Seq<char>)
    ensures
        market_registry::symbol_fault(symbol) is None <==> symbol.len() > 0 && encode_utf8(
            symbol,
        ).len() <= 16 && is_ascii_chars(symbol),
        market_registry::symbol_fault(symbol) matches Some(fault) ==> (fault
            matches RegistryFault::InvalidSymbol { symbol: named, .. } && named == symbol),
{
    if symbol.len() == 0 {
        assert(symbol =~= Seq::<char>::empty());
    }
}

/// A quote opens or closes a string, unless a backslash stands before it;
/// nothing else does.
pub proof fn law_quotes_open_and_close_strings(line: Seq<char>, i: int)
    requires
        0 <= i < line.len(),
    ensures
        !market_registry::in_string(line, 0),
        market_registry::in_string(line, i + 1) != market_registry::in_string(line, i) <==> line[i]
            == '"' && !(i > 0 && line[i - 1] == '\\'),
{
}

/// Anything but white space behind the quoted value of a row is refused.
pub proof fn law_nothing_follows_a_value(key: Seq<char>, value: Seq<char>, after: Seq<char>)
    requires
        market_registry::valid_key(key),
        !value.contains('"'),
        after.len() > 0,
        !text::whitespace(after[0]),
        !text::whitespace(after.last()),
    ensures
        market_registry::key_value(
            key.push('=').push('"') + value.push('"') + after,
        ) is Err,
{
    let quoted = seq!['"'] + value.push('"') + after;
    let n = key.len() as int;
    let line = key.push('=').push('"') + value.push('"') + after;
    assert forall|i: int| 0 <= i < n implies #[trigger] key[i] != '=' by {
        assert(market_registry::key_char(key[i]));
    }
    text::lemma_find_from(line, '=', 0);
    let eq = text::find_from(line, '=', 0);
    assert(line[n] == '=');
    if eq < n {
        assert(line[eq] == key[eq]);
    }
    assert(eq == n);
    assert(line.subrange(eq + 1, line.len() as int) =~= quoted);
    assert(quoted[0] == '"' && quoted.last() == after.last());
    lemma_trimmed_already(quoted);
    let end = text::find_from(quoted, '"', 1);
    text::lemma_find_from(quoted, '"', 1);
    assert(quoted[value.len() as int + 1] == '"');
    if end < value.len() + 1 {
        assert(quoted[end] == value[end - 1]);
        assert(value.contains(value[end - 1]));
    }
    assert(end == value.len() + 1);
    assert(quoted.subrange(end + 1, quoted.len() as int) =~= after);
    lemma_trimmed_already(after);
}

/// A value without quotes, or whose quote is not closed, is refused, and so
/// is a row without an equals sign.
pub proof fn law_rows_of_another_form_are_refused(key: Seq<char>, value: Seq<char>)
    requires
        market_registry::valid_key(key),
        !value.contains('"'),
        !value.contains('='),
        value.len() > 0 ==> !text::whitespace(value[0]) && !text::whitespace(value.last()),
    ensures
        market_registry::key_value(key.push('=') + value) is Err,
        market_registry::key_value(key.push('=').push('"') + value) is Err,
        market_registry::key_value(value) is Err,
{
    let n = key.len() as int;
    assert forall|i: int| 0 <= i < n implies #[trigger] key[i] != '=' by {
        assert(market_registry::key_char(key[i]));
    }
    let bare = key.push('=') + value;
    text::lemma_find_from(bare, '=', 0);
    let e1 = text::find_from(bare, '=', 0);
    assert(bare[n] == '=');
    if e1 < n {
        assert(bare[e1] == key[e1]);
    }
    assert(bare.subrange(e1 + 1, bare.len() as int) =~= value);
    lemma_trimmed_already(value);
    if value.len() > 0 {
        assert(value.contains(value[0]));
    }
    let open = key.push('=').push('"') + value;
    text::lemma_find_from(open, '=', 0);
    let e2 = text::find_from(open, '=', 0);
    assert(open[n] == '=');
    if e2 < n {
        assert(open[e2] == key[e2]);
    }
    let rest = seq!['"'] + value;
    assert(open.subrange(e2 + 1, open.len() as int) =~= rest);
    assert(rest.last() == if value.len() > 0 {
        value.last()
    } else {
        '"'
    });
    lemma_trimmed_already(rest);
    text::lemma_find_from(rest, '"', 1);
    let end = text::find_from(rest, '"', 1);
    if end < rest.len() {
        assert(rest[end] == value[end - 1]);
        assert(value.contains(value[end - 1]));
    }
    text::lemma_find_from(value, '=', 0);
    let e3 = text::find_from(value, '=', 0);
    if e3 < value.len() {
        assert(value.contains(value[e3]));
    }
}

/// Every row has a key that a market may have.
pub open spec fn all_known(fields: Seq<(Seq<char>, Seq<char>)>) -> bool {
    forall|i: int|
        #![trigger fields[i]]
        0 <= i < fields.len() ==> fields[i].0 == "symbol"@ || fields[i].0 == "program_id"@
            || fields[i].0 == "market_pda"@ || fields[i].0 == "lock_pda"@ || fields[i].0
            == "expected_leader"@
}

/// Where all keys are known, none is found that is not.
proof fn lemma_no_unknown_rows(fields: Seq<(Seq<char>, Seq<char>)>, i: int)
    requires
        0 <= i <= fields.len(),
        all_known(fields),
    ensures
        market_registry::unknown_from(fields, i) == fields.len(),
    decreases fields.len() - i,
{
    if i < fields.len() {
        assert(market_registry::known_key(fields[i].0));
        lemma_no_unknown_rows(fields, i + 1);
    }
}

/// A market without a symbol, a program or an account is refused with its
/// position in the list, counted from zero, and the key that it lacks.
pub proof fn law_missing_keys_are_named(index: int, table: TableModel, symbol: Seq<char>)
    requires
        all_known(table.fields),
    ensures
        lacking(table.fields, "symbol"@) ==> (market_registry::entry_of(index, table) matches Err(
            RegistryFault::MissingKey { index: at, key },
        ) && at == index && key == "symbol"@),
        given(table.fields, "symbol"@, symbol) && symbol.len() > 0 && encode_utf8(symbol).len() <= 16
            && is_ascii_chars(symbol) && lacking(table.fields, "program_id"@) ==> (
        market_registry::entry_of(index, table) matches Err(
            RegistryFault::MissingKey { index: at, key },
        ) && at == index && key == "program_id"@),
        given(table.fields, "symbol"@, symbol) && symbol.len() > 0 && encode_utf8(symbol).len() <= 16
            && is_ascii_chars(symbol) && !lacking(table.fields, "program_id"@) && lacking(
            table.fields,
            "market_pda"@,
        ) ==> (market_registry::entry_of(index, table) matches Err(
            RegistryFault::MissingKey { index: at, key },
        ) && at == index && key == "market_pda"@),
{
    let fields = table.fields;
    lemma_no_unknown_rows(fields, 0);
    law_last_row_counts(fields, "symbol"@);
    law_last_row_counts(fields, "program_id"@);
    law_last_row_counts(fields, "market_pda"@);
    lemma_given_excludes(fields, "symbol"@);
    lemma_given_excludes(fields, "program_id"@);
    lemma_given_excludes(fields, "market_pda"@);
    if given(fields, "symbol"@, symbol) {
        let other = market_registry::field_value(fields, "symbol"@)->Some_0;
        lemma_given_once(fields, "symbol"@, symbol, other);
        law_symbols_are_short_and_plain(symbol);
    }
}

/// A key that is given has a row.
proof fn lemma_given_excludes(fields: Seq<(Seq<char>, Seq<char>)>, key: Seq<char>)
    ensures
        forall|value: Seq<char>| #[trigger] given(fields, key, value) ==> !lacking(fields, key),
{
    assert forall|value: Seq<char>| #[trigger] given(fields, key, value) implies !lacking(
        fields,
        key,
    ) by {
        let i = choose|i: int|
            {
                &&& 0 <= i < fields.len()
                &&& #[trigger] fields[i] == (key, value)
                &&& forall|j: int| i < j < fields.len() ==> (#[trigger] fields[j]).0 != key
            };
        assert(fields[i].0 == key);
    }
}

/// A key has one value.
proof fn lemma_given_once(
    fields: Seq<(Seq<char>, Seq<char>)>,
    key: Seq<char>,
    a: Seq<char>,
    b: Seq<char>,
)
    requires
        given(fields, key, a),
        given(fields, key, b),
    ensures
        a == b,
{
    let i = choose|i: int|
        {
            &&& 0 <= i < fields.len()
            &&& #[trigger] fields[i] == (key, a)
            &&& forall|j: int| i < j < fields.len() ==> (#[trigger] fields[j]).0 != key
        };
    let k = choose|k: int|
        {
            &&& 0 <= k < fields.len()
            &&& #[trigger] fields[k] == (key, b)
            &&& forall|j: int| k < j < fields.len() ==> (#[trigger] fields[j]).0 != key
        };
    assert(fields[i].0 == key && fields[k].0 == key);
}

/// A line that is no row and no header is refused under its number, counted
/// from one, whatever follows; lines before it were read.
pub proof fn law_bad_lines_are_numbered(
    st: ParseState,
    lines: Seq<Seq<char>>,
    i: int,
    bad: int,
)
    requires
        0 <= i <= bad < lines.len(),
        forall|k: int|
            i <= k < bad ==> market_registry::line_content(#[trigger] lines[k]).len() == 0,
        market_registry::line_content(lines[bad]).len() > 0,
        market_registry::line_content(lines[bad])[0] != '[',
        !market_registry::line_content(lines[bad]).contains('='),
    ensures
        market_registry::tables_from(st, lines, i) matches Err(RegistryFault::Toml { line, .. })
            && line == bad + 1,
    decreases bad - i,
{
    if i < bad {
        assert(market_registry::line_content(lines[i]).len() == 0);
        law_bad_lines_are_numbered(st, lines, i + 1, bad);
    } else {
        let line = market_registry::line_content(lines[bad]);
        text::lemma_find_from(line, '=', 0);
        let e = text::find_from(line, '=', 0);
        if e < line.len() {
            assert(line.contains(line[e]));
        }
    }
}

} // verus!
