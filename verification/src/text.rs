//! Building blocks for the texts that the keeper renders: decimal numbers,
//! byte lists, and comparison of strings.
use vstd::prelude::*;
use vstd::utf8::*;

verus! {

/// `String::push` appends one character, as its documentation says.
pub assume_specification[ String::push ](s: &mut String, c: char)
    ensures
        final(s)@ == old(s)@.push(c),
;

/// The decimal digit of a number below ten.
pub open spec fn digit(d: nat) -> char {
    if d == 0 {
        '0'
    } else if d == 1 {
        '1'
    } else if d == 2 {
        '2'
    } else if d == 3 {
        '3'
    } else if d == 4 {
        '4'
    } else if d == 5 {
        '5'
    } else if d == 6 {
        '6'
    } else if d == 7 {
        '7'
    } else if d == 8 {
        '8'
    } else {
        '9'
    }
}

/// The decimal notation of a natural number, without leading zeros.
pub open spec fn decimal(n: nat) -> Seq<char>
    decreases n,
{
    if n < 10 {
        seq![digit(n)]
    } else {
        decimal(n / 10).push(digit(n % 10))
    }
}

/// The decimal notation of an integer: a minus sign before a negative one.
pub open spec fn decimal_int(i: int) -> Seq<char> {
    if i < 0 {
        seq!['-'] + decimal((-i) as nat)
    } else {
        decimal(i as nat)
    }
}

/// The elements of a byte list in decimal, separated by a comma and a space.
pub open spec fn byte_items(bytes: Seq<u8>) -> Seq<char>
    decreases bytes.len(),
{
    if bytes.len() == 0 {
        Seq::empty()
    } else if bytes.len() == 1 {
        decimal(bytes[0] as nat)
    } else {
        byte_items(bytes.drop_last()) + seq![',', ' '] + decimal(bytes.last() as nat)
    }
}

/// A byte list in square brackets, such as `[1, 2, 3]`.
pub open spec fn byte_list(bytes: Seq<u8>) -> Seq<char> {
    seq!['['] + byte_items(bytes) + seq![']']
}

/// The decimal digit character of a number below ten.
fn digit_char(d: u8) -> (c: char)
    requires
        d < 10,
    ensures
        c == digit(d as nat),
{
    if d == 0 {
        '0'
    } else if d == 1 {
        '1'
    } else if d == 2 {
        '2'
    } else if d == 3 {
        '3'
    } else if d == 4 {
        '4'
    } else if d == 5 {
        '5'
    } else if d == 6 {
        '6'
    } else if d == 7 {
        '7'
    } else if d == 8 {
        '8'
    } else {
        '9'
    }
}

/// Appends the decimal notation of `n`.
pub fn push_decimal(out: &mut String, n: u128)
    ensures
        final(out)@ == old(out)@ + decimal(n as nat),
    decreases n,
{
    if n < 10 {
        out.push(digit_char(n as u8));
    } else {
        push_decimal(out, n / 10);
        out.push(digit_char((n % 10) as u8));
    }
    proof {
        assert(out@ =~= old(out)@ + decimal(n as nat));
    }
}

/// Appends the decimal notation of a signed number.
pub fn push_decimal_int(out: &mut String, i: i64)
    ensures
        final(out)@ == old(out)@ + decimal_int(i as int),
{
    if i < 0 {
        out.push('-');
        let magnitude: u128 = (-(i as i128)) as u128;
        push_decimal(out, magnitude);
        proof {
            assert(out@ =~= old(out)@ + decimal_int(i as int));
        }
    } else {
        push_decimal(out, i as u128);
    }
}

/// Appends a byte list in square brackets.
pub fn push_byte_list(out: &mut String, bytes: &[u8])
    ensures
        final(out)@ == old(out)@ + byte_list(bytes@),
{
    out.push('[');
    let mut i: usize = 0;
    while i < bytes.len()
        invariant
            i <= bytes.len(),
            out@ == old(out)@ + seq!['['] + byte_items(bytes@.take(i as int)),
        decreases bytes.len() - i,
    {
        let ghost before = out@;
        if i > 0 {
            out.push(',');
            out.push(' ');
        }
        push_decimal(out, bytes[i] as u128);
        proof {
            let next = bytes@.take(i + 1);
            assert(next.drop_last() =~= bytes@.take(i as int));
            assert(out@ =~= old(out)@ + seq!['['] + byte_items(next));
        }
        i = i + 1;
    }
    out.push(']');
    proof {
        assert(bytes@.take(bytes@.len() as int) =~= bytes@);
        assert(out@ =~= old(out)@ + byte_list(bytes@));
    }
}

/// The characters of a string.
pub fn chars_of(s: &str) -> (r: Vec<char>)
    ensures
        r@ == s@,
{
    let mut out: Vec<char> = Vec::new();
    for c in it: s.chars()
        invariant
            out@ == it.seq().take(it.index()),
    {
        out.push(c);
    }
    out
}

/// The string made of the characters `from..to` of a list.
pub fn string_of(chars: &Vec<char>, from: usize, to: usize) -> (r: String)
    requires
        from <= to <= chars.len(),
    ensures
        r@ == chars@.subrange(from as int, to as int),
{
    let mut out = String::new();
    let mut i: usize = from;
    while i < to
        invariant
            from <= i <= to <= chars.len(),
            out@ == chars@.subrange(from as int, i as int),
        decreases to - i,
    {
        out.push(chars[i]);
        i = i + 1;
        proof {
            assert(out@ =~= chars@.subrange(from as int, i as int));
        }
    }
    out
}

/// Whether two strings hold the same characters.
pub fn same_text(a: &str, b: &str) -> (r: bool)
    ensures
        r == (a@ == b@),
{
    let x = chars_of(a);
    let y = chars_of(b);
    same_chars(&x, &y)
}

/// Whether two character lists are equal.
pub fn same_chars(x: &Vec<char>, y: &Vec<char>) -> (r: bool)
    ensures
        r == (x@ == y@),
{
    if x.len() != y.len() {
        return false;
    }
    let mut i: usize = 0;
    while i < x.len()
        invariant
            i <= x.len(),
            x.len() == y.len(),
            forall|j: int| 0 <= j < i ==> x[j] == y[j],
        decreases x.len() - i,
    {
        if x[i] != y[i] {
            return false;
        }
        i = i + 1;
    }
    proof {
        assert(x@ =~= y@);
    }
    true
}

/// Whether two byte strings are equal.
pub fn same_bytes(x: &[u8], y: &[u8]) -> (r: bool)
    ensures
        r == (x@ == y@),
{
    if x.len() != y.len() {
        return false;
    }
    let mut i: usize = 0;
    while i < x.len()
        invariant
            i <= x.len(),
            x.len() == y.len(),
            forall|j: int| 0 <= j < i ==> x[j] == y[j],
        decreases x.len() - i,
    {
        if x[i] != y[i] {
            return false;
        }
        i = i + 1;
    }
    proof {
        assert(x@ =~= y@);
    }
    true
}

/// The character is white space.
pub open spec fn whitespace(c: char) -> bool {
    let u = c as u32;
    ||| 0x09 <= u <= 0x0d
    ||| u == 0x20
    ||| u == 0x85
    ||| u == 0xa0
    ||| u == 0x1680
    ||| 0x2000 <= u <= 0x200a
    ||| u == 0x2028
    ||| u == 0x2029
    ||| u == 0x202f
    ||| u == 0x205f
    ||| u == 0x3000
}

/// Whether a character is white space.
pub fn is_whitespace(c: char) -> (r: bool)
    ensures
        r == whitespace(c),
{
    let u: u32 = c as u32;
    (0x09 <= u && u <= 0x0d) || u == 0x20 || u == 0x85 || u == 0xa0 || u == 0x1680 || (0x2000 <= u
        && u <= 0x200a) || u == 0x2028 || u == 0x2029 || u == 0x202f || u == 0x205f || u == 0x3000
}

/// The text without white space at its ends.
pub open spec fn trimmed(s: Seq<char>) -> Seq<char>
    decreases s.len(),
{
    if s.len() > 0 && whitespace(s[0]) {
        trimmed(s.drop_first())
    } else if s.len() > 0 && whitespace(s.last()) {
        trimmed(s.drop_last())
    } else {
        s
    }
}

/// The characters `from..to` of a list.
pub fn part(chars: &Vec<char>, from: usize, to: usize) -> (r: Vec<char>)
    requires
        from <= to <= chars.len(),
    ensures
        r@ == chars@.subrange(from as int, to as int),
{
    let mut out: Vec<char> = Vec::new();
    let mut i: usize = from;
    while i < to
        invariant
            from <= i <= to <= chars.len(),
            out@ == chars@.subrange(from as int, i as int),
        decreases to - i,
    {
        out.push(chars[i]);
        i = i + 1;
        proof {
            assert(out@ =~= chars@.subrange(from as int, i as int));
        }
    }
    out
}

/// Cuts white space off the ends of the characters `from..to` of a list.
pub fn trim(chars: &Vec<char>, from: usize, to: usize) -> (r: Vec<char>)
    requires
        from <= to <= chars.len(),
    ensures
        r@ == trimmed(chars@.subrange(from as int, to as int)),
{
    let mut a: usize = from;
    let mut b: usize = to;
    while a < b && is_whitespace(chars[a])
        invariant
            from <= a <= b <= to <= chars.len(),
            b == to,
            trimmed(chars@.subrange(a as int, b as int)) == trimmed(
                chars@.subrange(from as int, to as int),
            ),
        decreases b - a,
    {
        proof {
            assert(chars@.subrange(a as int, b as int).drop_first() =~= chars@.subrange(
                a + 1,
                b as int,
            ));
        }
        a = a + 1;
    }
    while a < b && is_whitespace(chars[b - 1])
        invariant
            from <= a <= b <= to <= chars.len(),
            a < b ==> !whitespace(chars@[a as int]),
            trimmed(chars@.subrange(a as int, b as int)) == trimmed(
                chars@.subrange(from as int, to as int),
            ),
        decreases b - a,
    {
        proof {
            assert(chars@.subrange(a as int, b as int).drop_last() =~= chars@.subrange(
                a as int,
                b - 1,
            ));
        }
        b = b - 1;
    }
    part(chars, a, b)
}

/// Position of the first `c` at or after `i`; the length where there is none.
pub open spec fn find_from(s: Seq<char>, c: char, i: int) -> int
    decreases s.len() - i,
{
    if i < 0 || i >= s.len() {
        s.len() as int
    } else if s[i] == c {
        i
    } else {
        find_from(s, c, i + 1)
    }
}

/// The first `c` at or after `i` is at the position found.
pub proof fn lemma_find_from(s: Seq<char>, c: char, i: int)
    requires
        0 <= i <= s.len(),
    ensures
        i <= find_from(s, c, i) <= s.len(),
        find_from(s, c, i) < s.len() ==> s[find_from(s, c, i)] == c,
        forall|j: int| i <= j < find_from(s, c, i) ==> s[j] != c,
    decreases s.len() - i,
{
    if i < s.len() && s[i] != c {
        lemma_find_from(s, c, i + 1);
    }
}

/// Finds the first `c` at or after `from`.
pub fn find_char(chars: &Vec<char>, c: char, from: usize) -> (r: usize)
    requires
        from <= chars.len(),
    ensures
        r == find_from(chars@, c, from as int),
        from <= r <= chars.len(),
        r < chars.len() ==> chars@[r as int] == c,
{
    let mut i: usize = from;
    while i < chars.len() && chars[i] != c
        invariant
            from <= i <= chars.len(),
            find_from(chars@, c, i as int) == find_from(chars@, c, from as int),
        decreases chars.len() - i,
    {
        i = i + 1;
    }
    i
}

/// A line without the carriage return at its end.
pub open spec fn chomped(line: Seq<char>) -> Seq<char> {
    if line.len() > 0 && line.last() == '\r' {
        line.drop_last()
    } else {
        line
    }
}

/// The lines of a text, from the position `start` on. A line ends at a line
/// feed, which may follow a carriage return; the last line needs no end.
pub open spec fn lines_from(s: Seq<char>, start: int) -> Seq<Seq<char>>
    decreases s.len() - start,
{
    if start < 0 || start >= s.len() {
        Seq::empty()
    } else {
        let end = find_from(s, '\n', start);
        if start <= end < s.len() {
            Seq::<Seq<char>>::empty().push(chomped(s.subrange(start, end))) + lines_from(
                s,
                end + 1,
            )
        } else {
            Seq::<Seq<char>>::empty().push(s.subrange(start, s.len() as int))
        }
    }
}

/// The contents of a list of texts.
pub open spec fn texts(lines: Seq<Vec<char>>) -> Seq<Seq<char>> {
    lines.map_values(|line: Vec<char>| line@)
}

/// Splits a text into lines.
pub fn lines(chars: &Vec<char>) -> (r: Vec<Vec<char>>)
    ensures
        texts(r@) == lines_from(chars@, 0),
{
    let mut out: Vec<Vec<char>> = Vec::new();
    let mut start: usize = 0;
    proof {
        assert(texts(out@) + lines_from(chars@, 0) =~= lines_from(chars@, 0));
    }
    while start < chars.len()
        invariant
            start <= chars.len(),
            texts(out@) + lines_from(chars@, start as int) == lines_from(chars@, 0),
        decreases chars.len() - start,
    {
        let end: usize = find_char(chars, '\n', start);
        let ghost before = out@;
        let ghost rest = lines_from(chars@, start as int);
        let next: usize;
        let stop: usize;
        if end < chars.len() {
            next = end + 1;
            if end > start && chars[end - 1] == '\r' {
                stop = end - 1;
            } else {
                stop = end;
            }
        } else {
            next = end;
            stop = end;
        }
        let line: Vec<char> = part(chars, start, stop);
        proof {
            if end < chars.len() {
                let whole = chars@.subrange(start as int, end as int);
                if end > start && chars@[end - 1] == '\r' {
                    assert(whole.last() == '\r');
                    assert(line@ =~= whole.drop_last());
                } else {
                    assert(end > start ==> whole.last() == chars@[end - 1]);
                }
                assert(line@ =~= chomped(whole));
            }
            assert(rest =~= Seq::<Seq<char>>::empty().push(line@) + lines_from(
                chars@,
                next as int,
            ));
        }
        out.push(line);
        proof {
            assert(texts(out@) =~= texts(before).push(line@));
            assert(texts(out@) + lines_from(chars@, next as int) =~= texts(before) + rest);
        }
        start = next;
    }
    proof {
        assert(texts(out@) + lines_from(chars@, start as int) =~= texts(out@));
    }
    out
}

/// How many bytes a character takes in UTF-8.
pub open spec fn char_width(c: char) -> nat {
    let u = c as u32;
    if u < 0x80 {
        1
    } else if u < 0x800 {
        2
    } else if u < 0x10000 {
        3
    } else {
        4
    }
}

/// How many bytes a text takes in UTF-8.
pub open spec fn utf8_len(s: Seq<char>) -> nat
    decreases s.len(),
{
    if s.len() == 0 {
        0
    } else {
        utf8_len(s.drop_last()) + char_width(s.last())
    }
}

/// The bytes of two texts, one after the other, add up.
pub proof fn lemma_utf8_len_concat(a: Seq<char>, b: Seq<char>)
    ensures
        utf8_len(a + b) == utf8_len(a) + utf8_len(b),
    decreases b.len(),
{
    if b.len() == 0 {
        assert(a + b =~= a);
    } else {
        assert((a + b).drop_last() =~= a + b.drop_last());
        lemma_utf8_len_concat(a, b.drop_last());
    }
}

/// A text takes as many bytes as its encoding has.
pub proof fn lemma_utf8_len(s: Seq<char>)
    ensures
        encode_utf8(s).len() == utf8_len(s),
    decreases s.len(),
{
    if s.len() > 0 {
        let c = s[0];
        let first = Seq::<char>::empty().push(c);
        char_is_scalar(c);
        assert(s =~= first + s.drop_first());
        lemma_utf8_len_concat(first, s.drop_first());
        lemma_utf8_len(s.drop_first());
        assert(first.drop_last() =~= Seq::<char>::empty());
        assert(first.last() == c);
        assert(utf8_len(first.drop_last()) == 0);
        assert(utf8_len(first) == char_width(c));
        assert(encode_scalar(c as u32).len() == char_width(c));
    }
}

/// How many bytes a character takes in UTF-8.
pub fn width_of(c: char) -> (r: usize)
    ensures
        r == char_width(c),
{
    let u: u32 = c as u32;
    if u < 0x80 {
        1
    } else if u < 0x800 {
        2
    } else if u < 0x10000 {
        3
    } else {
        4
    }
}

/// The number that a string of digits stands for.
pub open spec fn number_in(s: Seq<char>) -> int
    decreases s.len(),
{
    if s.len() == 0 {
        0
    } else {
        10 * number_in(s.drop_last()) + (s.last() as int - 48)
    }
}

/// The notation of a number is made of digits, starts with no zero unless it
/// is the number zero, and reads as the number.
pub proof fn law_decimal_reads_as_its_number(n: nat)
    ensures
        number_in(decimal(n)) == n,
        decimal(n).len() > 0,
        forall|i: int|
            0 <= i < decimal(n).len() ==> '0' <= #[trigger] decimal(n)[i] && decimal(n)[i] <= '9',
        n > 0 ==> decimal(n)[0] != '0',
        n == 0 ==> decimal(n).len() == 1,
    decreases n,
{
    if n < 10 {
        let none = Seq::<char>::empty();
        assert(decimal(n).drop_last() =~= none);
        assert(number_in(none) == 0);
        assert(decimal(n).last() as int - 48 == n);
    } else {
        law_decimal_reads_as_its_number(n / 10);
        assert(decimal(n).drop_last() =~= decimal(n / 10));
        assert(decimal(n).last() as int - 48 == n % 10);
        assert(decimal(n)[0] == decimal(n / 10)[0]);
        assert forall|i: int| 0 <= i < decimal(n).len() implies '0' <= #[trigger] decimal(n)[i]
            && decimal(n)[i] <= '9' by {
            if i < decimal(n).len() - 1 {
                assert(decimal(n)[i] == decimal(n / 10)[i]);
            }
        }
    }
}

/// The notation of an integer is that of its size, with a minus sign before
/// it exactly where it is negative.
pub proof fn law_sign_stands_before_the_digits(i: int)
    ensures
        i >= 0 ==> number_in(decimal_int(i)) == i && decimal_int(i)[0] != '-',
        i < 0 ==> decimal_int(i)[0] == '-' && number_in(decimal_int(i).skip(1)) == -i,
{
    law_decimal_reads_as_its_number(if i < 0 {
        (-i) as nat
    } else {
        i as nat
    });
    if i < 0 {
        assert(decimal_int(i).skip(1) =~= decimal((-i) as nat));
    } else {
        assert('0' <= decimal(i as nat)[0]);
    }
}

/// Trimming takes white space off both ends, all of it and nothing else.
pub proof fn law_trimming_takes_the_ends_off(s: Seq<char>) -> (r: (int, int))
    ensures
        0 <= r.0 <= r.1 <= s.len(),
        trimmed(s) == s.subrange(r.0, r.1),
        forall|i: int| 0 <= i < r.0 ==> whitespace(#[trigger] s[i]),
        forall|i: int| r.1 <= i < s.len() ==> whitespace(#[trigger] s[i]),
        trimmed(s).len() > 0 ==> !whitespace(trimmed(s)[0]) && !whitespace(trimmed(s).last()),
    decreases s.len(),
{
    if s.len() > 0 && whitespace(s[0]) {
        let t = s.drop_first();
        let (a, b) = law_trimming_takes_the_ends_off(t);
        assert(s.subrange(a + 1, b + 1) =~= t.subrange(a, b));
        assert forall|i: int| 0 <= i < a + 1 implies whitespace(#[trigger] s[i]) by {
            if i > 0 {
                assert(t[i - 1] == s[i]);
            }
        }
        assert forall|i: int| b + 1 <= i < s.len() implies whitespace(#[trigger] s[i]) by {
            assert(t[i - 1] == s[i]);
        }
        (a + 1, b + 1)
    } else if s.len() > 0 && whitespace(s.last()) {
        let t = s.drop_last();
        let (a, b) = law_trimming_takes_the_ends_off(t);
        assert(s.subrange(a, b) =~= t.subrange(a, b));
        assert forall|i: int| 0 <= i < a implies whitespace(#[trigger] s[i]) by {
            assert(t[i] == s[i]);
        }
        assert forall|i: int| b <= i < s.len() implies whitespace(#[trigger] s[i]) by {
            if i < t.len() {
                assert(t[i] == s[i]);
            }
        }
        (a, b)
    } else {
        assert(s.subrange(0, s.len() as int) =~= s);
        (0, s.len() as int)
    }
}

/// No line holds a line feed; a text with something in it has a line.
pub proof fn law_lines_hold_no_line_feed(s: Seq<char>, start: int)
    requires
        0 <= start <= s.len(),
    ensures
        start < s.len() ==> lines_from(s, start).len() > 0,
        forall|k: int, i: int|
            #![trigger lines_from(s, start)[k][i]]
            0 <= k < lines_from(s, start).len() && 0 <= i < lines_from(s, start)[k].len()
                ==> lines_from(s, start)[k][i] != '\n',
    decreases s.len() - start,
{
    if start < s.len() {
        lemma_find_from(s, '\n', start);
        let end = find_from(s, '\n', start);
        if end < s.len() {
            law_lines_hold_no_line_feed(s, end + 1);
            let first = chomped(s.subrange(start, end));
            let rest = lines_from(s, end + 1);
            let all = lines_from(s, start);
            assert forall|k: int, i: int|
                #![trigger all[k][i]]
                0 <= k < all.len() && 0 <= i < all[k].len() implies all[k][i] != '\n' by {
                if k == 0 {
                    assert(all[0][i] == s[start + i]);
                } else {
                    assert(all[k] == rest[k - 1]);
                    assert(rest[k - 1][i] != '\n');
                }
            }
        }
    }
}

/// What is found behind a prefix is found as far behind it.
pub proof fn lemma_find_behind(prefix: Seq<char>, s: Seq<char>, c: char, i: int)
    requires
        0 <= i <= s.len(),
    ensures
        find_from(prefix + s, c, prefix.len() + i) == prefix.len() + find_from(s, c, i),
    decreases s.len() - i,
{
    if i < s.len() {
        assert((prefix + s)[prefix.len() + i] == s[i]);
        if s[i] != c {
            lemma_find_behind(prefix, s, c, i + 1);
        }
    }
}

/// The lines behind a prefix are those of what stands there.
proof fn lemma_lines_behind(prefix: Seq<char>, s: Seq<char>, start: int)
    requires
        0 <= start <= s.len(),
    ensures
        lines_from(prefix + s, prefix.len() + start) == lines_from(s, start),
    decreases s.len() - start,
{
    if start < s.len() {
        lemma_find_behind(prefix, s, '\n', start);
        lemma_find_from(s, '\n', start);
        let n = prefix.len() as int;
        let end = find_from(s, '\n', start);
        assert((prefix + s).subrange(n + start, n + end) =~= s.subrange(start, end));
        assert((prefix + s).subrange(n + start, n + s.len()) =~= s.subrange(start, s.len() as int));
        if end < s.len() {
            lemma_lines_behind(prefix, s, end + 1);
        }
    }
}

/// A text is cut at its line feeds: what stands before the first is the first
/// line, without a carriage return at its end, and the lines of what stands
/// behind follow. A text without a line feed is one line as it stands.
pub proof fn law_text_is_cut_at_line_feeds(line: Seq<char>, rest: Seq<char>)
    requires
        !line.contains('\n'),
    ensures
        lines_from(line.push('\n') + rest, 0).len() == lines_from(rest, 0).len() + 1,
        line.len() == 0 || line.last() != '\r' ==> lines_from(line.push('\n') + rest, 0)[0] == line,
        line.len() > 0 && line.last() == '\r' ==> lines_from(line.push('\n') + rest, 0)[0]
            == line.drop_last(),
        forall|k: int|
            0 <= k < lines_from(rest, 0).len() ==> #[trigger] lines_from(rest, 0)[k] == lines_from(
                line.push('\n') + rest,
                0,
            )[k + 1],
        line.len() > 0 ==> lines_from(line, 0) == seq![line],
{
    let s = line.push('\n') + rest;
    let n = line.len() as int;
    lemma_find_from(s, '\n', 0);
    assert(s[n] == '\n');
    let end = find_from(s, '\n', 0);
    if end < n {
        assert(s[end] == line[end]);
        assert(line[end] == '\n');
    }
    assert(end == n);
    assert(s.subrange(0, n) =~= line);
    lemma_lines_behind(line.push('\n'), rest, 0);
    if line.len() > 0 {
        lemma_find_from(line, '\n', 0);
        let e = find_from(line, '\n', 0);
        if e < n {
            assert(line[e] == '\n');
        }
        assert(line.subrange(0, n) =~= line);
        assert(lines_from(line, 0) =~= seq![line]);
    }
}

} // verus!
