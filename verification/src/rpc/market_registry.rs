//! The markets that one process serves, and the file that lists them.
//!
//! The file is a small part of TOML: comments, `[[markets]]` headers, and
//! under each header rows of the form `key = "string"`. Anything else is an
//! error. Before it is read, `${NAME}` is replaced by the value that a lookup
//! has for the name, and `$$` by a dollar sign.
use vstd::prelude::*;
use vstd::seq_lib::*;
use vstd::utf8::*;

use crate::base58;
use crate::base58::base58_decode;
use crate::decoder::Pubkey32;
use crate::text;

verus! {

/// A market.
#[derive(Debug, PartialEq, Eq)]
pub struct MarketEntry {
    /// The market's symbol: ASCII, 16 bytes at most.
    pub symbol: String,
    /// The program.
    pub program_id: Pubkey32,
    /// Address of the `Market` account.
    pub market_pda: Pubkey32,
    /// Address of the `KeeperLeaderLock` account.
    pub lock_pda: Pubkey32,
    /// The keeper that should hold the lock, where that is known.
    pub expected_leader: Option<Pubkey32>,
}

/// The contents of a market's entry.
#[verifier::ext_equal]
pub struct EntryModel {
    /// The market's symbol.
    pub symbol: Seq<char>,
    /// The program.
    pub program_id: Seq<u8>,
    /// Address of the `Market` account.
    pub market_pda: Seq<u8>,
    /// Address of the `KeeperLeaderLock` account.
    pub lock_pda: Seq<u8>,
    /// The keeper that should hold the lock.
    pub expected_leader: Option<Seq<u8>>,
}

impl View for MarketEntry {
    type V = EntryModel;

    open spec fn view(&self) -> EntryModel {
        EntryModel {
            symbol: self.symbol@,
            program_id: self.program_id@,
            market_pda: self.market_pda@,
            lock_pda: self.lock_pda@,
            expected_leader: match self.expected_leader {
                Some(pk) => Some(pk@),
                None => None,
            },
        }
    }
}

impl Clone for MarketEntry {
    fn clone(&self) -> (r: Self)
        ensures
            r == *self,
    {
        MarketEntry {
            symbol: self.symbol.clone(),
            program_id: self.program_id,
            market_pda: self.market_pda,
            lock_pda: self.lock_pda,
            expected_leader: self.expected_leader,
        }
    }
}

/// The first 16 bytes of a text, filled up with zeros.
pub open spec fn padded_symbol(symbol: Seq<char>) -> Seq<u8> {
    let bytes = encode_utf8(symbol);
    if bytes.len() >= 16 {
        bytes.take(16)
    } else {
        bytes + base58::zeros((16 - bytes.len()) as nat)
    }
}

impl MarketEntry {
    /// The symbol as it stands in the `Market` account.
    #[must_use]
    pub fn symbol_bytes(&self) -> (r: [u8; 16])
        ensures
            r@ == padded_symbol(self.symbol@),
    {
        let bytes: &[u8] = self.symbol.as_str().as_bytes();
        let mut out: [u8; 16] = [0u8; 16];
        let mut i: usize = 0;
        while i < 16 && i < bytes.len()
            invariant
                i <= 16,
                i <= bytes.len(),
                forall|j: int| 0 <= j < i ==> out[j] == bytes@[j],
                forall|j: int| i <= j < 16 ==> out[j] == 0,
            decreases 16 - i,
        {
            out[i] = bytes[i];
            i = i + 1;
        }
        proof {
            assert(out@ =~= padded_symbol(self.symbol@));
        }
        out
    }
}

/// The markets that one process serves.
#[derive(Debug, PartialEq, Eq)]
pub struct MarketRegistry {
    /// The markets, in order.
    pub markets: Vec<MarketEntry>,
}

/// The contents of a list of entries.
pub open spec fn entry_models(s: Seq<MarketEntry>) -> Seq<EntryModel> {
    s.map_values(|e: MarketEntry| e@)
}

impl View for MarketRegistry {
    type V = Seq<EntryModel>;

    open spec fn view(&self) -> Seq<EntryModel> {
        entry_models(self.markets@)
    }
}

impl Default for MarketRegistry {
    fn default() -> (r: Self)
        ensures
            r.markets@.len() == 0,
    {
        MarketRegistry { markets: Vec::new() }
    }
}

/// Errors of loading a registry.
#[derive(Debug, Clone, PartialEq, Eq)]
pub enum RegistryError {
    /// The file is not of the form that is read.
    Toml {
        /// The line, counted from 1.
        line: usize,
        /// What is wrong.
        message: String,
    },
    /// A market lacks a key.
    MissingKey {
        /// The market's position, counted from 0.
        index: usize,
        /// The key.
        key: &'static str,
    },
    /// A value is no address.
    InvalidPubkey {
        /// The market's symbol.
        symbol: String,
        /// The key.
        field: &'static str,
        /// What is wrong.
        detail: String,
    },
    /// A symbol is empty, too long or not ASCII.
    InvalidSymbol {
        /// The symbol.
        symbol: String,
        /// What is wrong.
        detail: String,
    },
    /// Two markets have one symbol.
    DuplicateSymbol {
        /// The symbol.
        symbol: String,
    },
    /// There is no market.
    Empty,
    /// A variable has no value.
    EnvVar {
        /// Its name.
        name: String,
    },
    /// A reference to a variable is malformed.
    MalformedEnvRef {
        /// Where it begins: bytes before its dollar sign.
        offset: usize,
        /// What is wrong.
        detail: String,
    },
}

/// The contents of an error of loading a registry.
pub enum RegistryFault {
    /// The file is not of the form that is read.
    Toml {
        /// The line, counted from 1.
        line: int,
        /// What is wrong.
        message: Seq<char>,
    },
    /// A market lacks a key.
    MissingKey {
        /// The market's position, counted from 0.
        index: int,
        /// The key.
        key: Seq<char>,
    },
    /// A value is no address.
    InvalidPubkey {
        /// The market's symbol.
        symbol: Seq<char>,
        /// The key.
        field: Seq<char>,
        /// What is wrong.
        detail: Seq<char>,
    },
    /// A symbol is empty, too long or not ASCII.
    InvalidSymbol {
        /// The symbol.
        symbol: Seq<char>,
        /// What is wrong.
        detail: Seq<char>,
    },
    /// Two markets have one symbol.
    DuplicateSymbol {
        /// The symbol.
        symbol: Seq<char>,
    },
    /// There is no market.
    Empty,
    /// A variable has no value.
    EnvVar {
        /// Its name.
        name: Seq<char>,
    },
    /// A reference to a variable is malformed.
    MalformedEnvRef {
        /// Bytes before its dollar sign.
        offset: int,
        /// What is wrong.
        detail: Seq<char>,
    },
}

impl View for RegistryError {
    type V = RegistryFault;

    open spec fn view(&self) -> RegistryFault {
        match self {
            RegistryError::Toml { line, message } => RegistryFault::Toml {
                line: *line as int,
                message: message@,
            },
            RegistryError::MissingKey { index, key } => RegistryFault::MissingKey {
                index: *index as int,
                key: key@,
            },
            RegistryError::InvalidPubkey { symbol, field, detail } => RegistryFault::InvalidPubkey {
                symbol: symbol@,
                field: field@,
                detail: detail@,
            },
            RegistryError::InvalidSymbol { symbol, detail } => RegistryFault::InvalidSymbol {
                symbol: symbol@,
                detail: detail@,
            },
            RegistryError::DuplicateSymbol { symbol } => RegistryFault::DuplicateSymbol {
                symbol: symbol@,
            },
            RegistryError::Empty => RegistryFault::Empty,
            RegistryError::EnvVar { name } => RegistryFault::EnvVar { name: name@ },
            RegistryError::MalformedEnvRef { offset, detail } => RegistryFault::MalformedEnvRef {
                offset: *offset as int,
                detail: detail@,
            },
        }
    }
}

impl RegistryError {
    /// The text of the error.
    pub open spec fn text(self) -> Seq<char> {
        match self {
            RegistryError::Toml { line, message } => "toml parse error at line "@ + text::decimal(
                line as nat,
            ) + ": "@ + message@,
            RegistryError::MissingKey { index, key } => "market entry #"@ + text::decimal(
                index as nat,
            ) + " missing required key `"@ + key@ + "`"@,
            RegistryError::InvalidPubkey { symbol, field, detail } => "market `"@ + symbol@
                + "` has invalid "@ + field@ + " pubkey: "@ + detail@,
            RegistryError::InvalidSymbol { symbol, detail } => "market `"@ + symbol@
                + "` has an invalid symbol: "@ + detail@,
            RegistryError::DuplicateSymbol { symbol } => "duplicate market symbol `"@ + symbol@
                + "`"@,
            RegistryError::Empty => "market registry is empty"@,
            RegistryError::EnvVar { name } => "environment variable `"@ + name@
                + "` is unset or empty (referenced via ${"@ + name@ + "})"@,
            RegistryError::MalformedEnvRef { offset, detail } =>
            "malformed environment variable reference at byte "@ + text::decimal(offset as nat)
                + ": "@ + detail@,
        }
    }

    /// Renders the error.
    pub fn to_string(&self) -> (r: String)
        ensures
            r@ == self.text(),
    {
        match self {
            RegistryError::Toml { line, message } => {
                let mut out = String::from_str("toml parse error at line ");
                text::push_decimal(&mut out, *line as u128);
                out.append(": ");
                out.append(message.as_str());
                out
            },
            RegistryError::MissingKey { index, key } => {
                let mut out = String::from_str("market entry #");
                text::push_decimal(&mut out, *index as u128);
                out.append(" missing required key `");
                out.append(key);
                out.append("`");
                out
            },
            RegistryError::InvalidPubkey { symbol, field, detail } => {
                let mut out = String::from_str("market `");
                out.append(symbol.as_str());
                out.append("` has invalid ");
                out.append(field);
                out.append(" pubkey: ");
                out.append(detail.as_str());
                out
            },
            RegistryError::InvalidSymbol { symbol, detail } => {
                let mut out = String::from_str("market `");
                out.append(symbol.as_str());
                out.append("` has an invalid symbol: ");
                out.append(detail.as_str());
                out
            },
            RegistryError::DuplicateSymbol { symbol } => {
                let mut out = String::from_str("duplicate market symbol `");
                out.append(symbol.as_str());
                out.append("`");
                out
            },
            RegistryError::Empty => String::from_str("market registry is empty"),
            RegistryError::EnvVar { name } => {
                let mut out = String::from_str("environment variable `");
                out.append(name.as_str());
                out.append("` is unset or empty (referenced via ${");
                out.append(name.as_str());
                out.append("})");
                out
            },
            RegistryError::MalformedEnvRef { offset, detail } => {
                let mut out = String::from_str("malformed environment variable reference at byte ");
                text::push_decimal(&mut out, *offset as u128);
                out.append(": ");
                out.append(detail.as_str());
                out
            },
        }
    }
}

/// A piece of a text with references to variables.
#[derive(Debug, Clone, PartialEq, Eq)]
pub enum EnvPiece {
    /// A character that stands for itself.
    Literal(char),
    /// A reference to a variable.
    Reference(String),
    /// A malformed reference; nothing follows it.
    Malformed {
        /// Bytes before its dollar sign.
        offset: usize,
        /// What is wrong.
        detail: String,
    },
}

/// The contents of a piece.
pub enum PieceModel {
    /// A character that stands for itself.
    Literal(char),
    /// A reference to a variable.
    Reference(Seq<char>),
    /// A malformed reference.
    Malformed(RegistryFault),
}

impl View for EnvPiece {
    type V = PieceModel;

    open spec fn view(&self) -> PieceModel {
        match self {
            EnvPiece::Literal(c) => PieceModel::Literal(*c),
            EnvPiece::Reference(name) => PieceModel::Reference(name@),
            EnvPiece::Malformed { offset, detail } => PieceModel::Malformed(
                RegistryFault::MalformedEnvRef { offset: *offset as int, detail: detail@ },
            ),
        }
    }
}

/// The character may begin a variable's name.
pub open spec fn name_start(c: char) -> bool {
    'a' <= c <= 'z' || 'A' <= c <= 'Z' || c == '_'
}

/// The character may stand in a variable's name.
pub open spec fn name_char(c: char) -> bool {
    name_start(c) || '0' <= c <= '9'
}

/// The text is a variable's name.
pub open spec fn valid_name(s: Seq<char>) -> bool {
    &&& s.len() > 0
    &&& name_start(s[0])
    &&& forall|i: int| 0 <= i < s.len() ==> name_char(#[trigger] s[i])
}

/// What is wrong with a reference to `name`, where its name is no name.
pub open spec fn bad_name_detail(name: Seq<char>) -> Seq<char> {
    if name.len() == 0 {
        "empty variable name `${}`"@
    } else {
        "variable name `"@ + name
            + "` contains invalid characters (must match [A-Za-z_][A-Za-z0-9_]*)"@
    }
}

/// A reference at position `i` of `s` with something wrong.
pub open spec fn malformed(s: Seq<char>, i: int, detail: Seq<char>) -> Seq<PieceModel> {
    Seq::<PieceModel>::empty().push(
        PieceModel::Malformed(
            RegistryFault::MalformedEnvRef { offset: text::utf8_len(s.take(i)) as int, detail },
        ),
    )
}

/// One piece, and what follows it.
pub open spec fn then_pieces(piece: PieceModel, rest: Seq<PieceModel>) -> Seq<PieceModel> {
    Seq::<PieceModel>::empty().push(piece) + rest
}

/// The pieces of a text from the position `i` on.
pub open spec fn pieces_from(s: Seq<char>, i: int) -> Seq<PieceModel>
    decreases s.len() - i,
{
    let end = text::find_from(s, '}', i + 2);
    if i < 0 || i >= s.len() {
        Seq::empty()
    } else if s[i] == '$' && i + 1 < s.len() && s[i + 1] == '$' {
        then_pieces(PieceModel::Literal('$'), pieces_from(s, i + 2))
    } else if s[i] == '$' && i + 1 < s.len() && s[i + 1] == '{' {
        if end >= s.len() || end < i + 2 {
            malformed(s, i, "unclosed `${...}` reference"@)
        } else if !valid_name(s.subrange(i + 2, end)) {
            malformed(s, i, bad_name_detail(s.subrange(i + 2, end)))
        } else {
            then_pieces(
                PieceModel::Reference(s.subrange(i + 2, end)),
                pieces_from(s, end + 1),
            )
        }
    } else {
        then_pieces(PieceModel::Literal(s[i]), pieces_from(s, i + 1))
    }
}

/// The contents of a list of pieces.
pub open spec fn piece_models(s: Seq<EnvPiece>) -> Seq<PieceModel> {
    s.map_values(|p: EnvPiece| p@)
}

/// Whether a text is a variable's name.
fn is_valid_var_name(chars: &Vec<char>) -> (r: bool)
    ensures
        r == valid_name(chars@),
{
    if chars.len() == 0 {
        return false;
    }
    let first: char = chars[0];
    if !(('a' <= first && first <= 'z') || ('A' <= first && first <= 'Z') || first == '_') {
        return false;
    }
    let mut i: usize = 0;
    while i < chars.len()
        invariant
            i <= chars.len(),
            forall|j: int| 0 <= j < i ==> name_char(#[trigger] chars@[j]),
        decreases chars.len() - i,
    {
        let c: char = chars[i];
        if !(('a' <= c && c <= 'z') || ('A' <= c && c <= 'Z') || c == '_' || ('0' <= c && c
            <= '9')) {
            assert(!name_char(chars@[i as int]));
            return false;
        }
        i = i + 1;
    }
    true
}

/// Bytes before a position of a text that is held in memory.
proof fn lemma_prefix_fits(s: Seq<char>, i: int)
    requires
        0 <= i <= s.len(),
    ensures
        text::utf8_len(s.take(i)) <= text::utf8_len(s),
{
    assert(s =~= s.take(i) + s.skip(i));
    text::lemma_utf8_len_concat(s.take(i), s.skip(i));
}

/// Counts the bytes before a position of a text.
fn bytes_before(chars: &Vec<char>, to: usize) -> (r: usize)
    requires
        to <= chars.len(),
        text::utf8_len(chars@) <= usize::MAX,
    ensures
        r == text::utf8_len(chars@.take(to as int)),
{
    let mut i: usize = 0;
    let mut n: usize = 0;
    proof {
        assert(chars@.take(0) =~= Seq::<char>::empty());
    }
    while i < to
        invariant
            i <= to <= chars.len(),
            text::utf8_len(chars@) <= usize::MAX,
            n == text::utf8_len(chars@.take(i as int)),
        decreases to - i,
    {
        proof {
            assert(chars@.take(i + 1).drop_last() =~= chars@.take(i as int));
            lemma_prefix_fits(chars@, i + 1);
        }
        n = n + text::width_of(chars[i]);
        i = i + 1;
    }
    n
}

/// The piece at a position, and the position after it. Nothing follows a
/// malformed reference.
fn next_piece(chars: &Vec<char>, i: usize) -> (r: (EnvPiece, usize))
    requires
        i < chars.len(),
        text::utf8_len(chars@) <= usize::MAX,
    ensures
        i < r.1 <= chars.len(),
        pieces_from(chars@, i as int) == if r.0 is Malformed {
            then_pieces(r.0@, Seq::empty())
        } else {
            then_pieces(r.0@, pieces_from(chars@, r.1 as int))
        },
{
    let c: char = chars[i];
    if c != '$' || i + 1 >= chars.len() || (chars[i + 1] != '$' && chars[i + 1] != '{') {
        return (EnvPiece::Literal(c), i + 1);
    }
    if chars[i + 1] == '$' {
        return (EnvPiece::Literal('$'), i + 2);
    }
    let end: usize = text::find_char(chars, '}', i + 2);
    if end >= chars.len() {
        let offset: usize = bytes_before(chars, i);
        let bad = EnvPiece::Malformed {
            offset,
            detail: String::from_str("unclosed `${...}` reference"),
        };
        proof {
            assert(pieces_from(chars@, i as int) =~= then_pieces(bad@, Seq::empty()));
        }
        return (bad, chars.len());
    }
    let name: Vec<char> = text::part(chars, i + 2, end);
    let copy: String = text::string_of(&name, 0, name.len());
    proof {
        assert(copy@ =~= name@);
    }
    if is_valid_var_name(&name) {
        return (EnvPiece::Reference(copy), end + 1);
    }
    let offset: usize = bytes_before(chars, i);
    let mut detail = String::new();
    if name.len() == 0 {
        detail.append("empty variable name `${}`");
        proof {
            assert(detail@ =~= bad_name_detail(name@));
        }
    } else {
        detail.append("variable name `");
        detail.append(copy.as_str());
        detail.append("` contains invalid characters (must match [A-Za-z_][A-Za-z0-9_]*)");
        proof {
            assert(detail@ =~= bad_name_detail(name@));
        }
    }
    let bad = EnvPiece::Malformed { offset, detail };
    proof {
        assert(pieces_from(chars@, i as int) =~= then_pieces(bad@, Seq::empty()));
    }
    (bad, chars.len())
}

/// Splits a text into its pieces.
pub fn env_pieces(input: &str) -> (r: Vec<EnvPiece>)
    ensures
        piece_models(r@) == pieces_from(input@, 0),
{
    let size: usize = input.as_bytes().len();
    let chars: Vec<char> = text::chars_of(input);
    proof {
        text::lemma_utf8_len(input@);
        assert(text::utf8_len(chars@) == size);
    }
    let mut out: Vec<EnvPiece> = Vec::new();
    let mut i: usize = 0;
    proof {
        assert(piece_models(out@) + pieces_from(chars@, 0) =~= pieces_from(chars@, 0));
    }
    while i < chars.len()
        invariant
            i <= chars.len(),
            text::utf8_len(chars@) <= usize::MAX,
            chars@ == input@,
            piece_models(out@) + pieces_from(chars@, i as int) == pieces_from(chars@, 0),
        decreases chars.len() - i,
    {
        let ghost before = out@;
        let ghost rest = pieces_from(chars@, i as int);
        let (piece, next): (EnvPiece, usize) = next_piece(&chars, i);
        let last: bool = match &piece {
            EnvPiece::Malformed { .. } => true,
            _ => false,
        };
        let ghost model = piece@;
        out.push(piece);
        proof {
            assert(piece_models(out@) =~= piece_models(before).push(model));
        }
        if last {
            proof {
                assert(piece_models(out@) =~= piece_models(before) + rest);
            }
            return out;
        }
        i = next;
        proof {
            assert(piece_models(out@) + pieces_from(chars@, i as int) =~= piece_models(before)
                + rest);
        }
    }
    proof {
        assert(piece_models(out@) + pieces_from(chars@, i as int) =~= piece_models(out@));
    }
    out
}

/// The contents of the answer of a lookup.
pub open spec fn answer_text(a: Option<String>) -> Option<Seq<char>> {
    match a {
        Some(text) => Some(text@),
        None => None,
    }
}

/// The lookup may answer `name` with `answer`.
pub open spec fn looked_up<F: Fn(&str) -> Option<String>>(
    lookup: F,
    name: Seq<char>,
    answer: Option<Seq<char>>,
) -> bool {
    exists|n: &str, a: Option<String>| #[trigger]
        lookup.ensures((n,), a) && n@ == name && answer_text(a) == answer
}

/// What the first pieces of a text come to, with the answers for each: that
/// for a reference counts. A variable without a value, or with an empty one,
/// is an error.
pub open spec fn expanded(ps: Seq<PieceModel>, answers: Seq<Option<Seq<char>>>) -> Result<
    Seq<char>,
    RegistryFault,
>
    decreases answers.len(),
{
    if answers.len() == 0 {
        Ok(Seq::empty())
    } else {
        match expanded(ps, answers.drop_last()) {
            Err(fault) => Err(fault),
            Ok(so_far) => match ps[answers.len() - 1] {
                PieceModel::Literal(c) => Ok(so_far.push(c)),
                PieceModel::Reference(name) => match answers.last() {
                    Some(value) => if value.len() > 0 {
                        Ok(so_far + value)
                    } else {
                        Err(RegistryFault::EnvVar { name })
                    },
                    None => Err(RegistryFault::EnvVar { name }),
                },
                PieceModel::Malformed(fault) => Err(fault),
            },
        }
    }
}

/// The lookup was asked for the references in turn, until there was an error,
/// and may have given these answers.
pub open spec fn answered<F: Fn(&str) -> Option<String>>(
    lookup: F,
    ps: Seq<PieceModel>,
    answers: Seq<Option<Seq<char>>>,
) -> bool {
    &&& answers.len() <= ps.len()
    &&& expanded(ps, answers) is Ok ==> answers.len() == ps.len()
    &&& forall|i: int|
        0 <= i < answers.len() && #[trigger] ps[i] is Reference ==> looked_up(
            lookup,
            ps[i]->Reference_0,
            answers[i],
        )
}

/// `r` is what a text may come to under a lookup.
pub open spec fn expands<F: Fn(&str) -> Option<String>>(
    lookup: F,
    input: Seq<char>,
    r: Result<Seq<char>, RegistryFault>,
) -> bool {
    exists|answers: Seq<Option<Seq<char>>>| #[trigger]
        answered(lookup, pieces_from(input, 0), answers) && r == expanded(
            pieces_from(input, 0),
            answers,
        )
}

/// The contents of a result.
pub open spec fn text_result(r: Result<String, RegistryError>) -> Result<Seq<char>, RegistryFault> {
    match r {
        Ok(text) => Ok(text@),
        Err(e) => Err(e@),
    }
}

/// Replaces each `${NAME}` by the value that the lookup has for it, and
/// `$$` by a dollar sign.
pub fn substitute_env_vars<F: Fn(&str) -> Option<String>>(input: &str, lookup: &F) -> (r: Result<
    String,
    RegistryError,
>)
    requires
        forall|name: &str| lookup.requires((name,)),
    ensures
        expands(*lookup, input@, text_result(r)),
{
    let pieces: Vec<EnvPiece> = env_pieces(input);
    let ghost ps = piece_models(pieces@);
    let ghost mut answers: Seq<Option<Seq<char>>> = Seq::empty();
    let mut out = String::new();
    let mut i: usize = 0;
    while i < pieces.len()
        invariant
            i <= pieces.len(),
            ps == piece_models(pieces@),
            ps == pieces_from(input@, 0),
            answers.len() == i,
            expanded(ps, answers) == Ok::<Seq<char>, RegistryFault>(out@),
            forall|name: &str| lookup.requires((name,)),
            forall|j: int|
                0 <= j < answers.len() && #[trigger] ps[j] is Reference ==> looked_up(
                    *lookup,
                    ps[j]->Reference_0,
                    answers[j],
                ),
        decreases pieces.len() - i,
    {
        proof {
            assert(ps[i as int] == pieces@[i as int]@);
        }
        let ghost before = answers;
        match &pieces[i] {
            EnvPiece::Literal(c) => {
                out.push(*c);
                proof {
                    answers = answers.push(None);
                    assert(answers.drop_last() =~= before);
                }
            },
            EnvPiece::Reference(name) => {
                let answer: Option<String> = lookup(name.as_str());
                proof {
                    let seen = answer_text(answer);
                    assert(looked_up(*lookup, name@, seen));
                    answers = answers.push(seen);
                    assert(answers.drop_last() =~= before);
                    assert(answers.last() == seen);
                }
                let mut found: bool = false;
                if let Some(value) = &answer {
                    if value.as_str().as_bytes().len() > 0 {
                        found = true;
                        out.append(value.as_str());
                    }
                    proof {
                        text::lemma_utf8_len(value@);
                        if value@.len() > 0 {
                            assert(text::char_width(value@.last()) > 0);
                        }
                    }
                }
                if !found {
                    let r: Result<String, RegistryError> = Err(
                        RegistryError::EnvVar { name: name.clone() },
                    );
                    proof {
                        assert(answered(*lookup, ps, answers));
                        assert(text_result(r) == expanded(ps, answers));
                    }
                    return r;
                }
            },
            EnvPiece::Malformed { offset, detail } => {
                let r: Result<String, RegistryError> = Err(
                    RegistryError::MalformedEnvRef { offset: *offset, detail: detail.clone() },
                );
                proof {
                    answers = answers.push(None);
                    assert(answers.drop_last() =~= before);
                    assert(answered(*lookup, ps, answers));
                    assert(text_result(r) == expanded(ps, answers));
                }
                return r;
            },
        }
        i = i + 1;
    }
    proof {
        assert(answered(*lookup, ps, answers));
    }
    Ok(out)
}

/// The position `i` of a line is inside a quoted string: an odd number of
/// quotes without a backslash before them precede it.
pub open spec fn in_string(line: Seq<char>, i: int) -> bool
    decreases i,
{
    if i <= 0 {
        false
    } else if line[i - 1] == '"' && (i == 1 || line[i - 2] != '\\') {
        !in_string(line, i - 1)
    } else {
        in_string(line, i - 1)
    }
}

/// Where the comment of a line begins, at or after `i`; the line's length
/// where there is none.
pub open spec fn comment_from(line: Seq<char>, i: int) -> int
    decreases line.len() - i,
{
    if i < 0 || i >= line.len() {
        line.len() as int
    } else if line[i] == '#' && !in_string(line, i) {
        i
    } else {
        comment_from(line, i + 1)
    }
}

/// What a line says: without its comment and the white space round it.
pub open spec fn line_content(raw: Seq<char>) -> Seq<char> {
    text::trimmed(raw.subrange(0, comment_from(raw, 0)))
}

/// Cuts the comment and the white space off a line.
fn content_of(raw: &Vec<char>) -> (r: Vec<char>)
    ensures
        r@ == line_content(raw@),
{
    let mut in_str: bool = false;
    let mut i: usize = 0;
    while i < raw.len() && !(raw[i] == '#' && !in_str)
        invariant
            i <= raw.len(),
            in_str == in_string(raw@, i as int),
            comment_from(raw@, i as int) == comment_from(raw@, 0),
        decreases raw.len() - i,
    {
        if raw[i] == '"' && (i == 0 || raw[i - 1] != '\\') {
            in_str = !in_str;
        }
        i = i + 1;
    }
    text::trim(raw, 0, i)
}

/// The character may stand in a key.
pub open spec fn key_char(c: char) -> bool {
    'a' <= c <= 'z' || 'A' <= c <= 'Z' || '0' <= c <= '9' || c == '_' || c == '-'
}

/// The text is a key.
pub open spec fn valid_key(s: Seq<char>) -> bool {
    s.len() > 0 && forall|i: int| 0 <= i < s.len() ==> key_char(#[trigger] s[i])
}

/// Whether a text is a key.
fn is_valid_key(chars: &Vec<char>) -> (r: bool)
    ensures
        r == valid_key(chars@),
{
    let mut i: usize = 0;
    while i < chars.len()
        invariant
            i <= chars.len(),
            forall|j: int| 0 <= j < i ==> key_char(#[trigger] chars@[j]),
        decreases chars.len() - i,
    {
        let c: char = chars[i];
        if !(('a' <= c && c <= 'z') || ('A' <= c && c <= 'Z') || ('0' <= c && c <= '9') || c == '_'
            || c == '-') {
            assert(!key_char(chars@[i as int]));
            return false;
        }
        i = i + 1;
    }
    chars.len() > 0
}

/// The key and the value of a row, or what is wrong with it.
pub open spec fn key_value(line: Seq<char>) -> Result<(Seq<char>, Seq<char>), Seq<char>> {
    let eq = text::find_from(line, '=', 0);
    let key = text::trimmed(line.subrange(0, eq));
    let rest = text::trimmed(line.subrange(eq + 1, line.len() as int));
    let end = text::find_from(rest, '"', 1);
    let after = text::trimmed(rest.subrange(end + 1, rest.len() as int));
    if eq >= line.len() {
        Err("expected `key = \"value\"`, got `"@ + line + "`"@)
    } else if !valid_key(key) {
        Err("invalid bare key `"@ + key + "`"@)
    } else if rest.len() == 0 || rest[0] != '"' {
        Err("value for `"@ + key + "` must be a double-quoted string (got `"@ + rest + "`)"@)
    } else if end >= rest.len() {
        Err("unterminated string for `"@ + key + "`"@)
    } else if after.len() > 0 {
        Err("trailing tokens after string value for `"@ + key + "`: `"@ + after + "`"@)
    } else {
        Ok((key, rest.subrange(1, end)))
    }
}

/// The text of all the characters of a list.
fn whole(chars: &Vec<char>) -> (r: String)
    ensures
        r@ == chars@,
{
    let r: String = text::string_of(chars, 0, chars.len());
    proof {
        assert(r@ =~= chars@);
    }
    r
}

/// Three texts, one after the other.
fn joined(first: &str, middle: &str, last: &str) -> (r: String)
    ensures
        r@ == first@ + middle@ + last@,
{
    let mut out = String::from_str(first);
    out.append(middle);
    out.append(last);
    out
}

/// Reads a row.
fn parse_key_value(line: &Vec<char>) -> (r: Result<(String, String), String>)
    ensures
        match key_value(line@) {
            Ok((key, value)) => r matches Ok(kv) && kv.0@ == key && kv.1@ == value,
            Err(message) => r matches Err(e) && e@ == message,
        },
{
    let eq: usize = text::find_char(line, '=', 0);
    if eq >= line.len() {
        return Err(joined("expected `key = \"value\"`, got `", whole(line).as_str(), "`"));
    }
    let key_chars: Vec<char> = text::trim(line, 0, eq);
    let key: String = whole(&key_chars);
    if !is_valid_key(&key_chars) {
        return Err(joined("invalid bare key `", key.as_str(), "`"));
    }
    let rest: Vec<char> = text::trim(line, eq + 1, line.len());
    if rest.len() == 0 || rest[0] != '"' {
        let mut message = joined(
            "value for `",
            key.as_str(),
            "` must be a double-quoted string (got `",
        );
        message.append(whole(&rest).as_str());
        message.append("`)");
        return Err(message);
    }
    let end: usize = text::find_char(&rest, '"', 1);
    if end >= rest.len() {
        return Err(joined("unterminated string for `", key.as_str(), "`"));
    }
    let after: Vec<char> = text::trim(&rest, end + 1, rest.len());
    if after.len() > 0 {
        let mut message = joined(
            "trailing tokens after string value for `",
            key.as_str(),
            "`: `",
        );
        message.append(whole(&after).as_str());
        message.append("`");
        return Err(message);
    }
    Ok((key, text::string_of(&rest, 1, end)))
}

/// The rows under one header.
#[derive(Debug)]
struct RawTable {
    /// Line of the header, counted from 1.
    header_line: usize,
    /// Keys and values, in order.
    fields: Vec<(String, String)>,
}

/// The contents of the rows under one header.
#[verifier::ext_equal]
pub struct TableModel {
    /// Line of the header, counted from 1.
    pub header_line: int,
    /// Keys and values, in order.
    pub fields: Seq<(Seq<char>, Seq<char>)>,
}

/// The contents of a list of rows.
pub open spec fn field_models(s: Seq<(String, String)>) -> Seq<(Seq<char>, Seq<char>)> {
    s.map_values(|f: (String, String)| (f.0@, f.1@))
}

impl RawTable {
    /// The contents.
    spec fn model(self) -> TableModel {
        TableModel { header_line: self.header_line as int, fields: field_models(self.fields@) }
    }
}

/// The contents of a list of tables.
spec fn table_models(s: Seq<RawTable>) -> Seq<TableModel> {
    s.map_values(|t: RawTable| t.model())
}

/// What has been read of a file.
#[verifier::ext_equal]
pub struct ParseState {
    /// The tables that are complete.
    pub tables: Seq<TableModel>,
    /// The table that rows are added to.
    pub current: Option<TableModel>,
}

impl ParseState {
    /// The tables, with the one that rows were added to.
    pub open spec fn closed_tables(self) -> Seq<TableModel> {
        match self.current {
            Some(t) => self.tables.push(t),
            None => self.tables,
        }
    }
}

/// The line is a header of the form `[[...]]`.
pub open spec fn is_array_header(line: Seq<char>) -> bool {
    &&& line.len() >= 4
    &&& line[0] == '[' && line[1] == '['
    &&& line[line.len() - 1] == ']' && line[line.len() - 2] == ']'
}

/// What has been read after one more line, whose number is `num`.
pub open spec fn after_line(st: ParseState, raw: Seq<char>, num: int) -> Result<
    ParseState,
    RegistryFault,
> {
    let line = line_content(raw);
    if line.len() == 0 {
        Ok(st)
    } else if is_array_header(line) {
        let header = line.subrange(2, line.len() - 2);
        if text::trimmed(header) != "markets"@ {
            Err(
                RegistryFault::Toml {
                    line: num,
                    message: "unsupported header `[["@ + header
                        + "]]` (only `[[markets]]` is allowed)"@,
                },
            )
        } else {
            Ok(
                ParseState {
                    tables: st.closed_tables(),
                    current: Some(TableModel { header_line: num, fields: Seq::empty() }),
                },
            )
        }
    } else if line[0] == '[' {
        Err(
            RegistryFault::Toml {
                line: num,
                message: "unsupported header `"@ + line + "` (use `[[markets]]`)"@,
            },
        )
    } else {
        match key_value(line) {
            Err(message) => Err(RegistryFault::Toml { line: num, message }),
            Ok(kv) => match st.current {
                None => Err(
                    RegistryFault::Toml {
                        line: num,
                        message: "orphan key `"@ + kv.0 + "` outside any `[[markets]]` table"@,
                    },
                ),
                Some(t) => Ok(
                    ParseState {
                        tables: st.tables,
                        current: Some(
                            TableModel { header_line: t.header_line, fields: t.fields.push(kv) },
                        ),
                    },
                ),
            },
        }
    }
}

/// The tables of a file whose lines before `i` have been read.
pub open spec fn tables_from(st: ParseState, lines: Seq<Seq<char>>, i: int) -> Result<
    Seq<TableModel>,
    RegistryFault,
>
    decreases lines.len() - i,
{
    if i < 0 || i >= lines.len() {
        Ok(st.closed_tables())
    } else {
        match after_line(st, lines[i], i + 1) {
            Err(fault) => Err(fault),
            Ok(next) => tables_from(next, lines, i + 1),
        }
    }
}

/// The tables of a file.
pub open spec fn tables_of(input: Seq<char>) -> Result<Seq<TableModel>, RegistryFault> {
    tables_from(
        ParseState { tables: Seq::empty(), current: None },
        text::lines_from(input, 0),
        0,
    )
}

/// What has been read so far.
spec fn state_of(tables: Seq<RawTable>, current: Option<RawTable>) -> ParseState {
    ParseState {
        tables: table_models(tables),
        current: match current {
            Some(t) => Some(t.model()),
            None => None,
        },
    }
}

/// Whether a line is a header of the form `[[...]]`.
fn has_array_header(line: &Vec<char>) -> (r: bool)
    ensures
        r == is_array_header(line@),
{
    let n: usize = line.len();
    n >= 4 && line[0] == '[' && line[1] == '[' && line[n - 1] == ']' && line[n - 2] == ']'
}

/// Completes the table that rows were added to.
fn close_table(tables: &mut Vec<RawTable>, current: Option<RawTable>)
    ensures
        table_models(final(tables)@) == state_of(old(tables)@, current).closed_tables(),
{
    if let Some(t) = current {
        let ghost model = t.model();
        tables.push(t);
        proof {
            assert(table_models(tables@) =~= table_models(old(tables)@).push(model));
        }
    }
}

/// Reads the tables of a file.
fn parse_market_tables(input: &str) -> (r: Result<Vec<RawTable>, RegistryError>)
    ensures
        match tables_of(input@) {
            Ok(models) => r matches Ok(tables) && table_models(tables@) == models,
            Err(fault) => r matches Err(e) && e@ == fault,
        },
{
    let chars: Vec<char> = text::chars_of(input);
    let lines: Vec<Vec<char>> = text::lines(&chars);
    let ghost all = text::texts(lines@);
    let mut tables: Vec<RawTable> = Vec::new();
    let mut current: Option<RawTable> = None;
    let mut i: usize = 0;
    proof {
        assert(state_of(tables@, current) =~= ParseState { tables: Seq::empty(), current: None });
    }
    while i < lines.len()
        invariant
            i <= lines.len(),
            all == text::texts(lines@),
            all == text::lines_from(input@, 0),
            tables_from(state_of(tables@, current), all, i as int) == tables_of(input@),
        decreases lines.len() - i,
    {
        let ghost st = state_of(tables@, current);
        let line: Vec<char> = content_of(&lines[i]);
        i = i + 1;
        proof {
            assert(all[i - 1] == lines@[i - 1]@);
            assert(line@ == line_content(all[i - 1]));
        }
        if line.len() == 0 {
            continue ;
        }
        if has_array_header(&line) {
            let header: Vec<char> = text::trim(&line, 2, line.len() - 2);
            let wanted: Vec<char> = text::chars_of("markets");
            if !text::same_chars(&header, &wanted) {
                let shown: String = text::string_of(&line, 2, line.len() - 2);
                return Err(
                    RegistryError::Toml {
                        line: i,
                        message: joined(
                            "unsupported header `[[",
                            shown.as_str(),
                            "]]` (only `[[markets]]` is allowed)",
                        ),
                    },
                );
            }
            close_table(&mut tables, current);
            current = Some(RawTable { header_line: i, fields: Vec::new() });
            proof {
                assert(state_of(tables@, current) =~= ParseState {
                    tables: st.closed_tables(),
                    current: Some(TableModel { header_line: i as int, fields: Seq::empty() }),
                });
            }
            continue ;
        }
        if line[0] == '[' {
            return Err(
                RegistryError::Toml {
                    line: i,
                    message: joined(
                        "unsupported header `",
                        whole(&line).as_str(),
                        "` (use `[[markets]]`)",
                    ),
                },
            );
        }
        let kv: (String, String) = match parse_key_value(&line) {
            Ok(kv) => kv,
            Err(message) => {
                return Err(RegistryError::Toml { line: i, message });
            },
        };
        match current {
            None => {
                return Err(
                    RegistryError::Toml {
                        line: i,
                        message: joined(
                            "orphan key `",
                            kv.0.as_str(),
                            "` outside any `[[markets]]` table",
                        ),
                    },
                );
            },
            Some(t) => {
                let ghost had = t.model();
                let ghost pair = (kv.0@, kv.1@);
                let mut fields: Vec<(String, String)> = t.fields;
                let ghost before = fields@;
                fields.push(kv);
                proof {
                    assert(field_models(fields@) =~= field_models(before).push(pair));
                }
                current = Some(RawTable { header_line: t.header_line, fields });
                proof {
                    assert(state_of(tables@, current) =~= ParseState {
                        tables: st.tables,
                        current: Some(
                            TableModel {
                                header_line: had.header_line,
                                fields: had.fields.push(pair),
                            },
                        ),
                    });
                }
            },
        }
    }
    close_table(&mut tables, current);
    Ok(tables)
}

/// Stands for the address of a lock that the file does not give.
pub const UNKNOWN_LOCK: Pubkey32 = [
    0xfe, 0xfe, 0xfe, 0xfe, 0xfe, 0xfe, 0xfe, 0xfe, 0xfe, 0xfe, 0xfe, 0xfe, 0xfe, 0xfe, 0xfe, 0xfe,
    0xfe, 0xfe, 0xfe, 0xfe, 0xfe, 0xfe, 0xfe, 0xfe, 0xfe, 0xfe, 0xfe, 0xfe, 0xfe, 0xfe, 0xfe, 0xfe,
];

/// The key is one that a market may have.
pub open spec fn known_key(key: Seq<char>) -> bool {
    key == "symbol"@ || key == "program_id"@ || key == "market_pda"@ || key == "lock_pda"@ || key
        == "expected_leader"@
}

/// Position of the first row with an unknown key, at or after `i`; the
/// number of rows where there is none.
pub open spec fn unknown_from(fields: Seq<(Seq<char>, Seq<char>)>, i: int) -> int
    decreases fields.len() - i,
{
    if i < 0 || i >= fields.len() {
        fields.len() as int
    } else if !known_key(fields[i].0) {
        i
    } else {
        unknown_from(fields, i + 1)
    }
}

/// The value of a key: that of the last row with it.
pub open spec fn field_value(fields: Seq<(Seq<char>, Seq<char>)>, key: Seq<char>) -> Option<
    Seq<char>,
>
    decreases fields.len(),
{
    if fields.len() == 0 {
        None
    } else if fields.last().0 == key {
        Some(fields.last().1)
    } else {
        field_value(fields.drop_last(), key)
    }
}

/// What is wrong with a symbol, if anything.
pub open spec fn symbol_fault(symbol: Seq<char>) -> Option<RegistryFault> {
    if symbol.len() == 0 {
        Some(
            RegistryFault::InvalidSymbol {
                symbol: Seq::empty(),
                detail: "symbol must not be empty"@,
            },
        )
    } else if encode_utf8(symbol).len() > 16 {
        Some(
            RegistryFault::InvalidSymbol {
                symbol,
                detail: "symbol exceeds 16-byte cap (got "@ + text::decimal(
                    encode_utf8(symbol).len(),
                ) + " bytes)"@,
            },
        )
    } else if !is_ascii_chars(symbol) {
        Some(RegistryFault::InvalidSymbol { symbol, detail: "symbol must be pure ASCII"@ })
    } else {
        None
    }
}

/// The address that a value gives.
pub open spec fn address(symbol: Seq<char>, field: Seq<char>, raw: Seq<char>) -> Result<
    Seq<u8>,
    RegistryFault,
> {
    match base58::decoded(raw) {
        Err(detail) => Err(RegistryFault::InvalidPubkey { symbol, field, detail }),
        Ok(bytes) => if bytes.len() != 32 {
            Err(
                RegistryFault::InvalidPubkey {
                    symbol,
                    field,
                    detail: "decoded "@ + text::decimal(bytes.len()) + " bytes, expected 32"@,
                },
            )
        } else {
            Ok(bytes)
        },
    }
}

/// The entry that a table describes. Its keys are looked at first, then the
/// symbol, then whether the program and the market are given, and the
/// addresses last.
pub open spec fn entry_of(index: int, table: TableModel) -> Result<EntryModel, RegistryFault> {
    let fields = table.fields;
    let unknown = unknown_from(fields, 0);
    let symbol = field_value(fields, "symbol"@);
    let program_id = field_value(fields, "program_id"@);
    let market_pda = field_value(fields, "market_pda"@);
    if unknown < fields.len() {
        Err(
            RegistryFault::Toml {
                line: table.header_line,
                message: "unknown key `"@ + fields[unknown].0 + "` in `[[markets]]` (entry #"@
                    + text::decimal(index as nat) + ")"@,
            },
        )
    } else if symbol is None {
        Err(RegistryFault::MissingKey { index, key: "symbol"@ })
    } else if symbol_fault(symbol->Some_0) is Some {
        Err(symbol_fault(symbol->Some_0)->Some_0)
    } else if program_id is None {
        Err(RegistryFault::MissingKey { index, key: "program_id"@ })
    } else if market_pda is None {
        Err(RegistryFault::MissingKey { index, key: "market_pda"@ })
    } else {
        addressed_entry(fields, symbol->Some_0, program_id->Some_0, market_pda->Some_0)
    }
}

/// The entry with a symbol, a program and a market, and the addresses that
/// rows give. The lock may be missing; an expected leader may be empty.
pub open spec fn addressed_entry(
    fields: Seq<(Seq<char>, Seq<char>)>,
    symbol: Seq<char>,
    program_id: Seq<char>,
    market_pda: Seq<char>,
) -> Result<EntryModel, RegistryFault> {
    let program = address(symbol, "program_id"@, program_id);
    let market = address(symbol, "market_pda"@, market_pda);
    let lock = match field_value(fields, "lock_pda"@) {
        Some(raw) => address(symbol, "lock_pda"@, raw),
        None => Ok(UNKNOWN_LOCK@),
    };
    let leader = match field_value(fields, "expected_leader"@) {
        Some(raw) => if raw.len() > 0 {
            match address(symbol, "expected_leader"@, raw) {
                Ok(bytes) => Ok(Some(bytes)),
                Err(fault) => Err(fault),
            }
        } else {
            Ok(None)
        },
        None => Ok(None),
    };
    match (program, market, lock, leader) {
        (Err(fault), _, _, _) => Err(fault),
        (_, Err(fault), _, _) => Err(fault),
        (_, _, Err(fault), _) => Err(fault),
        (_, _, _, Err(fault)) => Err(fault),
        (Ok(p), Ok(m), Ok(l), Ok(e)) => Ok(
            EntryModel {
                symbol,
                program_id: p,
                market_pda: m,
                lock_pda: l,
                expected_leader: e,
            },
        ),
    }
}

/// Finds the first row with an unknown key.
fn find_unknown(fields: &Vec<(String, String)>) -> (r: usize)
    ensures
        r == unknown_from(field_models(fields@), 0),
        r <= fields.len(),
{
    let ghost models = field_models(fields@);
    let mut i: usize = 0;
    while i < fields.len()
        invariant
            i <= fields.len(),
            models == field_models(fields@),
            unknown_from(models, i as int) == unknown_from(models, 0),
        decreases fields.len() - i,
    {
        let key: &str = fields[i].0.as_str();
        proof {
            assert(models[i as int].0 == fields@[i as int].0@);
        }
        if !(text::same_text(key, "symbol") || text::same_text(key, "program_id")
            || text::same_text(key, "market_pda") || text::same_text(key, "lock_pda")
            || text::same_text(key, "expected_leader")) {
            return i;
        }
        i = i + 1;
    }
    i
}

/// Looks the value of a key up.
fn value_of<'a>(fields: &'a Vec<(String, String)>, key: &str) -> (r: Option<&'a str>)
    ensures
        match field_value(field_models(fields@), key@) {
            Some(value) => r matches Some(s) && s@ == value,
            None => r is None,
        },
{
    let ghost models = field_models(fields@);
    let mut left: usize = fields.len();
    proof {
        assert(models.take(left as int) =~= models);
    }
    while left > 0
        invariant
            left <= fields.len(),
            models == field_models(fields@),
            field_value(models.take(left as int), key@) == field_value(models, key@),
        decreases left,
    {
        proof {
            let taken = models.take(left as int);
            assert(taken.last() == (fields@[left - 1].0@, fields@[left - 1].1@));
            assert(taken.drop_last() =~= models.take(left - 1));
        }
        left = left - 1;
        if text::same_text(fields[left].0.as_str(), key) {
            return Some(fields[left].1.as_str());
        }
    }
    None
}

/// Refuses a symbol that is empty, too long or not ASCII.
fn validate_symbol(symbol: &str) -> (r: Result<(), RegistryError>)
    ensures
        match symbol_fault(symbol@) {
            None => r is Ok,
            Some(fault) => r matches Err(e) && e@ == fault,
        },
{
    let size: usize = symbol.as_bytes().len();
    proof {
        text::lemma_utf8_len(symbol@);
        if symbol@.len() > 0 {
            assert(text::char_width(symbol@.last()) > 0);
        }
    }
    if size == 0 {
        let none = String::new();
        proof {
            assert(none@ =~= Seq::<char>::empty());
        }
        return Err(
            RegistryError::InvalidSymbol {
                symbol: none,
                detail: String::from_str("symbol must not be empty"),
            },
        );
    }
    if size > 16 {
        let mut detail = String::from_str("symbol exceeds 16-byte cap (got ");
        text::push_decimal(&mut detail, size as u128);
        detail.append(" bytes)");
        return Err(RegistryError::InvalidSymbol { symbol: String::from_str(symbol), detail });
    }
    if !symbol.is_ascii() {
        return Err(
            RegistryError::InvalidSymbol {
                symbol: String::from_str(symbol),
                detail: String::from_str("symbol must be pure ASCII"),
            },
        );
    }
    Ok(())
}

/// Reads an address.
fn decode_pubkey32(symbol: &str, field: &'static str, raw: &str) -> (r: Result<
    Pubkey32,
    RegistryError,
>)
    ensures
        match address(symbol@, field@, raw@) {
            Ok(bytes) => r matches Ok(pk) && pk@ == bytes,
            Err(fault) => r matches Err(e) && e@ == fault,
        },
{
    let bytes: Vec<u8> = match base58_decode(raw) {
        Ok(bytes) => bytes,
        Err(detail) => {
            return Err(
                RegistryError::InvalidPubkey { symbol: String::from_str(symbol), field, detail },
            );
        },
    };
    if bytes.len() != 32 {
        let mut detail = String::from_str("decoded ");
        text::push_decimal(&mut detail, bytes.len() as u128);
        detail.append(" bytes, expected 32");
        return Err(
            RegistryError::InvalidPubkey { symbol: String::from_str(symbol), field, detail },
        );
    }
    let mut out: Pubkey32 = [0u8; 32];
    let mut i: usize = 0;
    while i < 32
        invariant
            i <= 32,
            bytes@.len() == 32,
            forall|j: int| 0 <= j < i ==> out[j] == bytes@[j],
        decreases 32 - i,
    {
        out[i] = bytes[i];
        i = i + 1;
    }
    proof {
        assert(out@ =~= bytes@);
    }
    Ok(out)
}

/// Builds the entry that a table describes.
fn build_entry(index: usize, table: &RawTable) -> (r: Result<MarketEntry, RegistryError>)
    ensures
        match entry_of(index as int, table.model()) {
            Ok(model) => r matches Ok(entry) && entry@ == model,
            Err(fault) => r matches Err(e) && e@ == fault,
        },
{
    let fields: &Vec<(String, String)> = &table.fields;
    let unknown: usize = find_unknown(fields);
    if unknown < fields.len() {
        let mut message = joined(
            "unknown key `",
            fields[unknown].0.as_str(),
            "` in `[[markets]]` (entry #",
        );
        text::push_decimal(&mut message, index as u128);
        message.append(")");
        return Err(RegistryError::Toml { line: table.header_line, message });
    }
    let symbol: &str = match value_of(fields, "symbol") {
        Some(s) => s,
        None => {
            return Err(RegistryError::MissingKey { index, key: "symbol" });
        },
    };
    validate_symbol(symbol)?;
    let program_raw: &str = match value_of(fields, "program_id") {
        Some(s) => s,
        None => {
            return Err(RegistryError::MissingKey { index, key: "program_id" });
        },
    };
    let market_raw: &str = match value_of(fields, "market_pda") {
        Some(s) => s,
        None => {
            return Err(RegistryError::MissingKey { index, key: "market_pda" });
        },
    };
    let program_id: Pubkey32 = decode_pubkey32(symbol, "program_id", program_raw)?;
    let market_pda: Pubkey32 = decode_pubkey32(symbol, "market_pda", market_raw)?;
    let lock_pda: Pubkey32 = match value_of(fields, "lock_pda") {
        Some(raw) => decode_pubkey32(symbol, "lock_pda", raw)?,
        None => UNKNOWN_LOCK,
    };
    let mut expected_leader: Option<Pubkey32> = None;
    if let Some(raw) = value_of(fields, "expected_leader") {
        let chars: Vec<char> = text::chars_of(raw);
        if chars.len() > 0 {
            expected_leader = Some(decode_pubkey32(symbol, "expected_leader", raw)?);
        }
    }
    Ok(
        MarketEntry {
            symbol: String::from_str(symbol),
            program_id,
            market_pda,
            lock_pda,
            expected_leader,
        },
    )
}

/// The entries of tables from the position `i` on.
pub open spec fn entries_from(tables: Seq<TableModel>, i: int) -> Result<
    Seq<EntryModel>,
    RegistryFault,
>
    decreases tables.len() - i,
{
    if i < 0 || i >= tables.len() {
        Ok(Seq::empty())
    } else {
        match entry_of(i, tables[i]) {
            Err(fault) => Err(fault),
            Ok(entry) => match entries_from(tables, i + 1) {
                Err(fault) => Err(fault),
                Ok(rest) => Ok(Seq::<EntryModel>::empty().push(entry) + rest),
            },
        }
    }
}

/// An earlier entry has the symbol of the entry at `j`.
pub open spec fn repeats(entries: Seq<EntryModel>, j: int) -> bool {
    exists|i: int| 0 <= i < j && (#[trigger] entries[i]).symbol == entries[j].symbol
}

/// The first entry, at or after `j`, whose symbol an earlier one has.
pub open spec fn repeat_from(entries: Seq<EntryModel>, j: int) -> Option<Seq<char>>
    decreases entries.len() - j,
{
    if j < 0 || j >= entries.len() {
        None
    } else if repeats(entries, j) {
        Some(entries[j].symbol)
    } else {
        repeat_from(entries, j + 1)
    }
}

/// The markets that a file lists, or the first thing that is wrong with it.
pub open spec fn registry_of(input: Seq<char>) -> Result<Seq<EntryModel>, RegistryFault> {
    match tables_of(input) {
        Err(fault) => Err(fault),
        Ok(tables) => match entries_from(tables, 0) {
            Err(fault) => Err(fault),
            Ok(entries) => match repeat_from(entries, 0) {
                Some(symbol) => Err(RegistryFault::DuplicateSymbol { symbol }),
                None => if entries.len() == 0 {
                    Err(RegistryFault::Empty)
                } else {
                    Ok(entries)
                },
            },
        },
    }
}

/// The contents of a result.
pub open spec fn registry_result(r: Result<MarketRegistry, RegistryError>) -> Result<
    Seq<EntryModel>,
    RegistryFault,
> {
    match r {
        Ok(registry) => Ok(registry@),
        Err(e) => Err(e@),
    }
}

/// `r` is what a file may come to: its references are replaced first, then
/// it is read.
pub open spec fn loads<F: Fn(&str) -> Option<String>>(
    lookup: F,
    input: Seq<char>,
    r: Result<Seq<EntryModel>, RegistryFault>,
) -> bool {
    exists|resolved: Result<Seq<char>, RegistryFault>| #[trigger]
        expands(lookup, input, resolved) && r == match resolved {
            Ok(text) => registry_of(text),
            Err(fault) => Err(fault),
        }
}

/// The entries before a position followed by the rest.
proof fn lemma_entries_step(tables: Seq<TableModel>, done: Seq<EntryModel>, i: int)
    requires
        0 <= i < tables.len(),
        entry_of(i, tables[i]) is Ok,
        entries_from(tables, i + 1) is Ok,
    ensures
        entries_from(tables, i) is Ok,
        done + entries_from(tables, i)->Ok_0 == done.push(entry_of(i, tables[i])->Ok_0)
            + entries_from(tables, i + 1)->Ok_0,
{
    let rest = entries_from(tables, i + 1)->Ok_0;
    let entry = entry_of(i, tables[i])->Ok_0;
    assert(done + (Seq::<EntryModel>::empty().push(entry) + rest) =~= done.push(entry) + rest);
}

/// Where the entries come to, given those before a position.
spec fn entries_after(tables: Seq<TableModel>, done: Seq<EntryModel>, i: int) -> Result<
    Seq<EntryModel>,
    RegistryFault,
> {
    match entries_from(tables, i) {
        Ok(rest) => Ok(done + rest),
        Err(fault) => Err(fault),
    }
}

/// Builds the entries that tables describe.
fn build_entries(tables: &Vec<RawTable>) -> (r: Result<Vec<MarketEntry>, RegistryError>)
    ensures
        match entries_from(table_models(tables@), 0) {
            Ok(models) => r matches Ok(entries) && entry_models(entries@) == models,
            Err(fault) => r matches Err(e) && e@ == fault,
        },
{
    let ghost models = table_models(tables@);
    let mut out: Vec<MarketEntry> = Vec::new();
    let mut i: usize = 0;
    proof {
        if entries_from(models, 0) is Ok {
            assert(entry_models(out@) + entries_from(models, 0)->Ok_0 =~= entries_from(
                models,
                0,
            )->Ok_0);
        }
    }
    while i < tables.len()
        invariant
            i <= tables.len(),
            models == table_models(tables@),
            entries_after(models, entry_models(out@), i as int) == entries_from(models, 0),
        decreases tables.len() - i,
    {
        let ghost done = entry_models(out@);
        proof {
            assert(models[i as int] == tables@[i as int].model());
        }
        let entry: MarketEntry = build_entry(i, &tables[i])?;
        let ghost model = entry@;
        let ghost before = out@;
        out.push(entry);
        proof {
            assert(entry_models(out@) =~= entry_models(before).push(model));
            if entries_from(models, i + 1) is Ok {
                lemma_entries_step(models, done, i as int);
            }
        }
        i = i + 1;
    }
    proof {
        assert(entry_models(out@) + Seq::<EntryModel>::empty() =~= entry_models(out@));
    }
    Ok(out)
}

/// Finds the first entry whose symbol an earlier one has.
fn find_repeat(entries: &Vec<MarketEntry>) -> (r: Option<String>)
    ensures
        match repeat_from(entry_models(entries@), 0) {
            Some(symbol) => r matches Some(s) && s@ == symbol,
            None => r is None,
        },
{
    let ghost models = entry_models(entries@);
    let mut j: usize = 0;
    while j < entries.len()
        invariant
            j <= entries.len(),
            models == entry_models(entries@),
            repeat_from(models, j as int) == repeat_from(models, 0),
        decreases entries.len() - j,
    {
        let mut i: usize = 0;
        while i < j
            invariant
                i <= j < entries.len(),
                models == entry_models(entries@),
                repeat_from(models, j as int) == repeat_from(models, 0),
                forall|k: int| 0 <= k < i ==> (#[trigger] models[k]).symbol != models[j as int].symbol,
            decreases j - i,
        {
            proof {
                assert(models[i as int].symbol == entries@[i as int].symbol@);
                assert(models[j as int].symbol == entries@[j as int].symbol@);
            }
            if entries[i].symbol == entries[j].symbol {
                proof {
                    assert(repeats(models, j as int));
                }
                return Some(entries[j].symbol.clone());
            }
            i = i + 1;
        }
        proof {
            assert(!repeats(models, j as int));
        }
        j = j + 1;
    }
    None
}

impl MarketRegistry {
    /// Reads a file in which no references are left.
    pub fn from_resolved_str(input: &str) -> (r: Result<Self, RegistryError>)
        ensures
            registry_result(r) == registry_of(input@),
    {
        let tables: Vec<RawTable> = parse_market_tables(input)?;
        let markets: Vec<MarketEntry> = build_entries(&tables)?;
        if let Some(symbol) = find_repeat(&markets) {
            return Err(RegistryError::DuplicateSymbol { symbol });
        }
        if markets.len() == 0 {
            return Err(RegistryError::Empty);
        }
        Ok(MarketRegistry { markets })
    }

    /// Reads a file whose references the lookup resolves.
    pub fn from_toml_str_with_env<F: Fn(&str) -> Option<String>>(input: &str, lookup: F) -> (r:
        Result<Self, RegistryError>)
        requires
            forall|name: &str| lookup.requires((name,)),
        ensures
            loads(lookup, input@, registry_result(r)),
    {
        let resolved = substitute_env_vars(input, &lookup);
        proof {
            assert(expands(lookup, input@, text_result(resolved)));
        }
        match resolved {
            Ok(text) => MarketRegistry::from_resolved_str(text.as_str()),
            Err(e) => Err(e),
        }
    }

    /// The first market with a symbol.
    #[must_use]
    pub fn find_by_symbol(&self, symbol: &str) -> (r: Option<&MarketEntry>)
        ensures
            match r {
                Some(entry) => exists|i: int|
                    {
                        &&& 0 <= i < self.markets@.len()
                        &&& #[trigger] self.markets@[i] == *entry
                        &&& entry.symbol@ == symbol@
                        &&& forall|j: int| 0 <= j < i ==> (#[trigger] self.markets@[j]).symbol@ != symbol@
                    },
                None => forall|j: int|
                    0 <= j < self.markets@.len() ==> (#[trigger] self.markets@[j]).symbol@ != symbol@,
            },
    {
        let mut i: usize = 0;
        while i < self.markets.len()
            invariant
                i <= self.markets.len(),
                forall|j: int| 0 <= j < i ==> (#[trigger] self.markets@[j]).symbol@ != symbol@,
            decreases self.markets.len() - i,
        {
            if text::same_text(self.markets[i].symbol.as_str(), symbol) {
                return Some(&self.markets[i]);
            }
            i = i + 1;
        }
        None
    }

    /// Number of markets.
    #[must_use]
    pub fn len(&self) -> (r: usize)
        ensures
            r == self.markets@.len(),
    {
        self.markets.len()
    }

    /// Whether there is no market.
    #[must_use]
    pub fn is_empty(&self) -> (r: bool)
        ensures
            r == (self.markets@.len() == 0),
    {
        self.markets.len() == 0
    }

    /// The markets, in order.
    pub fn iter(&self) -> (r: &[MarketEntry])
        ensures
            r@ == self.markets@,
    {
        self.markets.as_slice()
    }
}

/// No entry before `j` is repeated at or after it.
proof fn lemma_no_repeat(entries: Seq<EntryModel>, j: int, k: int)
    requires
        0 <= j <= k < entries.len(),
        repeat_from(entries, j) is None,
    ensures
        !repeats(entries, k),
    decreases k - j,
{
    if j < k {
        lemma_no_repeat(entries, j + 1, k);
    }
}

/// Each entry is described by its table.
proof fn lemma_entry_at(tables: Seq<TableModel>, i: int, k: int)
    requires
        0 <= i <= k < tables.len(),
        entries_from(tables, i) is Ok,
    ensures
        entries_from(tables, i)->Ok_0.len() == tables.len() - i,
        entry_of(k, tables[k]) == Ok::<EntryModel, RegistryFault>(
            entries_from(tables, i)->Ok_0[k - i],
        ),
    decreases tables.len() - i,
{
    let rest = entries_from(tables, i + 1);
    let list = entries_from(tables, i)->Ok_0;
    assert(list =~= Seq::<EntryModel>::empty().push(entry_of(i, tables[i])->Ok_0) + rest->Ok_0);
    if i + 1 < tables.len() {
        lemma_entry_at(tables, i + 1, if k > i {
            k
        } else {
            i + 1
        });
    } else {
        assert(rest->Ok_0.len() == 0);
    }
}

/// A registry that was loaded has a market, and no two markets have one
/// symbol; each symbol is ASCII of 1 to 16 bytes, and each address has 32.
pub proof fn law_loaded_registry_is_sound(input: Seq<char>, i: int, j: int)
    requires
        registry_of(input) is Ok,
        0 <= i < j < registry_of(input)->Ok_0.len() || i == j && 0 <= i
            < registry_of(input)->Ok_0.len(),
    ensures
        registry_of(input)->Ok_0.len() > 0,
        i < j ==> registry_of(input)->Ok_0[i].symbol != registry_of(input)->Ok_0[j].symbol,
        registry_of(input)->Ok_0[i].symbol.len() > 0,
        encode_utf8(registry_of(input)->Ok_0[i].symbol).len() <= 16,
        is_ascii_chars(registry_of(input)->Ok_0[i].symbol),
        registry_of(input)->Ok_0[i].program_id.len() == 32,
        registry_of(input)->Ok_0[i].market_pda.len() == 32,
        registry_of(input)->Ok_0[i].lock_pda.len() == 32,
{
    let tables = tables_of(input)->Ok_0;
    let entries = registry_of(input)->Ok_0;
    if i < j {
        lemma_no_repeat(entries, 0, j);
        assert(entries[i].symbol != entries[j].symbol);
    }
    if tables.len() == 0 {
        assert(entries.len() == 0);
    } else {
        lemma_entry_at(tables, 0, 0);
        lemma_entry_at(tables, 0, i);
        assert(symbol_fault(entries[i].symbol) is None);
    }
}

/// The pieces are the characters of a text.
pub open spec fn are_literals(ps: Seq<PieceModel>, s: Seq<char>) -> bool {
    &&& ps.len() == s.len()
    &&& forall|k: int| 0 <= k < s.len() ==> #[trigger] ps[k] == PieceModel::Literal(s[k])
}

/// A character before pieces that are characters.
proof fn lemma_literal_before(c: char, ps: Seq<PieceModel>, s: Seq<char>)
    requires
        are_literals(ps, s),
    ensures
        are_literals(
            then_pieces(PieceModel::Literal(c), ps),
            Seq::<char>::empty().push(c) + s,
        ),
{
    let all = then_pieces(PieceModel::Literal(c), ps);
    let text = Seq::<char>::empty().push(c) + s;
    assert forall|k: int| 0 <= k < text.len() implies #[trigger] all[k] == PieceModel::Literal(
        text[k],
    ) by {
        if k > 0 {
            assert(all[k] == ps[k - 1]);
        }
    }
}

/// The pieces of a text without dollar signs are its characters.
proof fn lemma_plain_pieces(s: Seq<char>, i: int)
    requires
        0 <= i <= s.len(),
        forall|k: int| 0 <= k < s.len() ==> #[trigger] s[k] != '$',
    ensures
        are_literals(pieces_from(s, i), s.skip(i)),
    decreases s.len() - i,
{
    if i < s.len() {
        assert(s[i] != '$');
        lemma_plain_pieces(s, i + 1);
        lemma_literal_before(s[i], pieces_from(s, i + 1), s.skip(i + 1));
        assert(s.skip(i) =~= Seq::<char>::empty().push(s[i]) + s.skip(i + 1));
        assert(pieces_from(s, i) == then_pieces(
            PieceModel::Literal(s[i]),
            pieces_from(s, i + 1),
        ));
    }
}

/// What characters come to.
proof fn lemma_literals_expand(s: Seq<char>, ps: Seq<PieceModel>, answers: Seq<Option<Seq<char>>>)
    requires
        answers.len() <= s.len(),
        are_literals(ps, s),
    ensures
        expanded(ps, answers) == Ok::<Seq<char>, RegistryFault>(s.take(answers.len() as int)),
    decreases answers.len(),
{
    if answers.len() > 0 {
        let n = answers.len() as int;
        lemma_literals_expand(s, ps, answers.drop_last());
        assert(ps[n - 1] == PieceModel::Literal(s[n - 1]));
        assert(s.take(n) =~= s.take(n - 1).push(s[n - 1]));
    } else {
        assert(s.take(0) =~= Seq::<char>::empty());
    }
}

/// A text without dollar signs stays as it is, whatever the lookup.
pub proof fn law_plain_text_is_kept<F: Fn(&str) -> Option<String>>(
    lookup: F,
    input: Seq<char>,
    r: Result<Seq<char>, RegistryFault>,
)
    requires
        forall|k: int| 0 <= k < input.len() ==> #[trigger] input[k] != '$',
        expands(lookup, input, r),
    ensures
        r == Ok::<Seq<char>, RegistryFault>(input),
{
    let ps = pieces_from(input, 0);
    let answers = choose|answers: Seq<Option<Seq<char>>>| #[trigger]
        answered(lookup, ps, answers) && r == expanded(ps, answers);
    lemma_plain_pieces(input, 0);
    assert(input.skip(0) =~= input);
    lemma_literals_expand(input, ps, answers);
    assert(input.take(input.len() as int) =~= input);
}

} // verus!
