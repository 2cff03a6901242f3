//! Base58, in which addresses are written.
use vstd::prelude::*;

use crate::text;
use crate::wire;

verus! {

/// The digits, by value.
pub open spec fn alphabet() -> Seq<char> {
    "123456789ABCDEFGHJKLMNPQRSTUVWXYZabcdefghijkmnopqrstuvwxyz"@
}

/// The value of a digit, where the character is one.
pub open spec fn digit_value(c: char) -> Option<nat> {
    if '1' <= c <= '9' {
        Some((c as int - '1' as int) as nat)
    } else if 'A' <= c <= 'H' {
        Some((c as int - 'A' as int + 9) as nat)
    } else if 'J' <= c <= 'N' {
        Some((c as int - 'J' as int + 17) as nat)
    } else if 'P' <= c <= 'Z' {
        Some((c as int - 'P' as int + 22) as nat)
    } else if 'a' <= c <= 'k' {
        Some((c as int - 'a' as int + 33) as nat)
    } else if 'm' <= c <= 'z' {
        Some((c as int - 'm' as int + 44) as nat)
    } else {
        None
    }
}

/// Every digit stands in the alphabet at its value.
pub proof fn law_digits_are_the_alphabet(c: char)
    ensures
        digit_value(c) matches Some(v) ==> v < 58 && alphabet()[v as int] == c,
        digit_value(c) is None ==> !alphabet().contains(c),
{
    reveal_strlit("123456789ABCDEFGHJKLMNPQRSTUVWXYZabcdefghijkmnopqrstuvwxyz");
}

/// The text without its white space.
pub open spec fn dense(s: Seq<char>) -> Seq<char>
    decreases s.len(),
{
    if s.len() == 0 {
        s
    } else if text::whitespace(s.last()) {
        dense(s.drop_last())
    } else {
        dense(s.drop_last()).push(s.last())
    }
}

/// The number that digits write, the first being the most significant.
pub open spec fn number(digits: Seq<char>) -> nat
    decreases digits.len(),
{
    if digits.len() == 0 {
        0
    } else {
        58 * number(digits.drop_last()) + digit_value(digits.last())->Some_0
    }
}

/// The bytes of a number, the first being the most significant and not zero.
pub open spec fn number_bytes(n: nat) -> Seq<u8>
    decreases n,
{
    if n == 0 {
        Seq::empty()
    } else {
        number_bytes(n / 256).push((n % 256) as u8)
    }
}

/// How many ones a text begins with.
pub open spec fn leading_ones(digits: Seq<char>) -> nat
    decreases digits.len(),
{
    if digits.len() > 0 && digits[0] == '1' {
        1 + leading_ones(digits.drop_first())
    } else {
        0
    }
}

/// Position of the first character that is no digit; the length where all are.
pub open spec fn first_foreign(digits: Seq<char>, i: int) -> int
    decreases digits.len() - i,
{
    if i < 0 || i >= digits.len() {
        digits.len() as int
    } else if digit_value(digits[i]) is None {
        i
    } else {
        first_foreign(digits, i + 1)
    }
}

/// `n` zeros.
pub open spec fn zeros(n: nat) -> Seq<u8> {
    Seq::new(n, |i: int| 0u8)
}

/// What a text says in base58. White space is passed over; each leading one
/// is a zero byte; the digits are a number. An error says what went wrong.
pub open spec fn decoded(s: Seq<char>) -> Result<Seq<u8>, Seq<char>> {
    let digits = dense(s);
    let bad = first_foreign(digits, 0);
    if bad < digits.len() {
        Err("non-base58 character `"@.push(digits[bad]) + "`"@)
    } else {
        Ok(zeros(leading_ones(digits)) + number_bytes(number(digits)))
    }
}

/// The bytes, least significant first, of 58 times a number plus a carry.
spec fn scaled(s: Seq<u8>, carry: nat) -> Seq<u8>
    decreases s.len(),
{
    if s.len() == 0 {
        if carry == 0 {
            Seq::empty()
        } else {
            seq![carry as u8]
        }
    } else {
        let t = carry + s[0] as nat * 58;
        seq![(t % 256) as u8] + scaled(s.drop_first(), t / 256)
    }
}

/// What `scaled` says, and that no zero byte comes to the end.
proof fn lemma_scaled(s: Seq<u8>, carry: nat)
    requires
        carry < 58,
        s.len() > 0 ==> s.last() != 0,
    ensures
        wire::le_value(scaled(s, carry)) == carry + 58 * wire::le_value(s),
        scaled(s, carry).len() > 0 ==> scaled(s, carry).last() != 0,
        s.len() > 0 ==> scaled(s, carry).len() > 0,
    decreases s.len(),
{
    let r = scaled(s, carry);
    if s.len() == 0 {
        if carry > 0 {
            assert(r.drop_first() =~= Seq::<u8>::empty());
            assert(wire::le_value(r.drop_first()) == 0);
        }
    } else {
        let t = carry + s[0] as nat * 58;
        let rest = scaled(s.drop_first(), t / 256);
        if s.len() > 1 {
            assert(s.drop_first().last() == s.last());
        }
        lemma_scaled(s.drop_first(), t / 256);
        assert(r.drop_first() =~= rest);
        assert(r[0] == (t % 256) as u8);
        if rest.len() > 0 {
            assert(r.last() == rest.last());
        } else {
            assert(s.len() == 1);
            assert(t / 256 == 0);
            assert(r.last() == r[0]);
        }
    }
}

/// Bytes without a zero at the significant end are the bytes of their number.
proof fn lemma_number_bytes(s: Seq<u8>)
    requires
        s.len() > 0 ==> s.last() != 0,
    ensures
        number_bytes(wire::le_value(s)) == s.reverse(),
        s.len() > 0 ==> wire::le_value(s) > 0,
    decreases s.len(),
{
    if s.len() == 0 {
        assert(s.reverse() =~= Seq::<u8>::empty());
    } else {
        let rest = s.drop_first();
        if s.len() > 1 {
            assert(rest.last() == s.last());
        }
        lemma_number_bytes(rest);
        let n = wire::le_value(s);
        assert(n == s[0] as nat + 256 * wire::le_value(rest));
        assert(n / 256 == wire::le_value(rest));
        assert(n % 256 == s[0] as nat);
        assert(s.reverse() =~= rest.reverse().push(s[0]));
    }
}

/// The first foreign character of a text whose start has none.
proof fn lemma_first_foreign(digits: Seq<char>, i: int, bad: int)
    requires
        0 <= i <= bad <= digits.len(),
        forall|j: int| i <= j < bad ==> digit_value(#[trigger] digits[j]) is Some,
        bad < digits.len() ==> digit_value(digits[bad]) is None,
    ensures
        first_foreign(digits, i) == bad,
    decreases bad - i,
{
    if i < bad {
        lemma_first_foreign(digits, i + 1, bad);
    }
}

/// The ones at the start of a text.
proof fn lemma_leading_ones(digits: Seq<char>, n: nat)
    requires
        n <= digits.len(),
        forall|j: int| 0 <= j < n ==> #[trigger] digits[j] == '1',
        n < digits.len() ==> digits[n as int] != '1',
    ensures
        leading_ones(digits) == n,
    decreases n,
{
    if n > 0 {
        let rest = digits.drop_first();
        assert forall|j: int| 0 <= j < n - 1 implies #[trigger] rest[j] == '1' by {
            assert(rest[j] == digits[j + 1]);
        }
        lemma_leading_ones(rest, (n - 1) as nat);
    }
}

/// The value of a digit.
fn value_of(c: char) -> (r: Option<u8>)
    ensures
        match r {
            Some(v) => digit_value(c) == Some(v as nat) && v < 58,
            None => digit_value(c) is None,
        },
{
    let u: u32 = c as u32;
    if '1' <= c && c <= '9' {
        Some((u - 0x31) as u8)
    } else if 'A' <= c && c <= 'H' {
        Some((u - 0x41 + 9) as u8)
    } else if 'J' <= c && c <= 'N' {
        Some((u - 0x4a + 17) as u8)
    } else if 'P' <= c && c <= 'Z' {
        Some((u - 0x50 + 22) as u8)
    } else if 'a' <= c && c <= 'k' {
        Some((u - 0x61 + 33) as u8)
    } else if 'm' <= c && c <= 'z' {
        Some((u - 0x6d + 44) as u8)
    } else {
        None
    }
}

/// Multiplies a number by 58 and adds a digit.
fn scale(out: &mut Vec<u8>, digit: u8)
    requires
        digit < 58,
    ensures
        final(out)@ == scaled(old(out)@, digit as nat),
{
    let ghost start = out@;
    let mut carry: u32 = digit as u32;
    let mut k: usize = 0;
    proof {
        assert(start.take(0) + scaled(start.skip(0), carry as nat) =~= scaled(
            start,
            carry as nat,
        )) by {
            assert(start.skip(0) =~= start);
        }
    }
    while k < out.len()
        invariant
            k <= out.len(),
            out.len() == start.len(),
            carry < 58,
            out@.skip(k as int) == start.skip(k as int),
            out@.take(k as int) + scaled(start.skip(k as int), carry as nat) == scaled(
                start,
                digit as nat,
            ),
        decreases out.len() - k,
    {
        let ghost before = out@;
        let ghost rest = start.skip(k as int);
        proof {
            assert(before[k as int] == before.skip(k as int)[0]);
            assert(rest[0] == start[k as int]);
            assert(rest.drop_first() =~= start.skip(k + 1));
        }
        let t: u32 = carry + out[k] as u32 * 58;
        out.set(k, (t % 256) as u8);
        carry = t / 256;
        k = k + 1;
        proof {
            assert(out@.skip(k as int) =~= start.skip(k as int)) by {
                assert forall|j: int| k <= j < start.len() implies out@[j] == start[j] by {
                    assert(before.skip(k - 1)[j - (k - 1)] == start.skip(k - 1)[j - (k - 1)]);
                }
            }
            assert(out@.take(k as int) =~= before.take(k - 1).push((t % 256) as u8));
            assert(out@.take(k as int) + scaled(start.skip(k as int), carry as nat)
                =~= before.take(k - 1) + scaled(rest, ((t - start[k - 1] * 58)) as nat));
        }
    }
    proof {
        assert(start.skip(k as int) =~= Seq::<u8>::empty());
        assert(out@.take(k as int) =~= out@);
    }
    if carry > 0 {
        out.push(carry as u8);
    }
    proof {
        assert(out@ =~= scaled(start, digit as nat));
    }
}

/// Decodes a text in base58.
pub fn base58_decode(input: &str) -> (r: Result<Vec<u8>, String>)
    ensures
        match decoded(input@) {
            Ok(bytes) => r matches Ok(v) && v@ == bytes,
            Err(message) => r matches Err(e) && e@ == message,
        },
{
    let all: Vec<char> = text::chars_of(input);
    let mut digits: Vec<char> = Vec::new();
    let mut i: usize = 0;
    proof {
        assert(all@.take(0) =~= Seq::<char>::empty());
    }
    while i < all.len()
        invariant
            i <= all.len(),
            digits@ == dense(all@.take(i as int)),
        decreases all.len() - i,
    {
        let c: char = all[i];
        if !text::is_whitespace(c) {
            digits.push(c);
        }
        i = i + 1;
        proof {
            assert(all@.take(i as int).drop_last() =~= all@.take(i - 1));
            assert(all@.take(i as int).last() == c);
        }
    }
    proof {
        assert(all@.take(all@.len() as int) =~= all@);
    }
    let mut out: Vec<u8> = Vec::new();
    let mut k: usize = 0;
    proof {
        assert(digits@.take(0) =~= Seq::<char>::empty());
    }
    while k < digits.len()
        invariant
            k <= digits.len(),
            digits@ == dense(input@),
            forall|j: int| 0 <= j < k ==> digit_value(#[trigger] digits@[j]) is Some,
            wire::le_value(out@) == number(digits@.take(k as int)),
            out@.len() > 0 ==> out@.last() != 0,
        decreases digits.len() - k,
    {
        let c: char = digits[k];
        let v: u8 = match value_of(c) {
            Some(v) => v,
            None => {
                proof {
                    lemma_first_foreign(digits@, 0, k as int);
                }
                let mut message = String::from_str("non-base58 character `");
                message.push(c);
                message.append("`");
                return Err(message);
            },
        };
        proof {
            lemma_scaled(out@, v as nat);
            assert(digits@.take(k + 1).drop_last() =~= digits@.take(k as int));
            assert(digits@.take(k + 1).last() == c);
        }
        scale(&mut out, v);
        k = k + 1;
    }
    proof {
        lemma_first_foreign(digits@, 0, digits@.len() as int);
        assert(digits@.take(digits@.len() as int) =~= digits@);
        lemma_number_bytes(out@);
    }
    let mut bytes: Vec<u8> = Vec::new();
    let mut ones: usize = 0;
    while ones < digits.len() && digits[ones] == '1'
        invariant
            ones <= digits.len(),
            forall|j: int| 0 <= j < ones ==> #[trigger] digits@[j] == '1',
            bytes@ == zeros(ones as nat),
        decreases digits.len() - ones,
    {
        bytes.push(0);
        ones = ones + 1;
        proof {
            assert(bytes@ =~= zeros(ones as nat));
        }
    }
    proof {
        lemma_leading_ones(digits@, ones as nat);
    }
    let mut left: usize = out.len();
    proof {
        assert(out@.reverse().take(0) =~= Seq::<u8>::empty());
        assert(zeros(ones as nat) + Seq::<u8>::empty() =~= zeros(ones as nat));
    }
    while left > 0
        invariant
            left <= out.len(),
            bytes@ == zeros(ones as nat) + out@.reverse().take(out@.len() - left),
        decreases left,
    {
        left = left - 1;
        bytes.push(out[left]);
        proof {
            let n = out@.len() - left;
            assert(out@.reverse()[n - 1] == out@[left as int]);
            assert(out@.reverse().take(n) =~= out@.reverse().take(n - 1).push(out@[left as int]));
        }
    }
    proof {
        assert(out@.reverse().take(out@.len() as int) =~= out@.reverse());
    }
    Ok(bytes)
}

/// The number that bytes write, the first being the most significant.
pub open spec fn bytes_value(s: Seq<u8>) -> nat
    decreases s.len(),
{
    if s.len() == 0 {
        0
    } else {
        256 * bytes_value(s.drop_last()) + s.last() as nat
    }
}

/// The bytes of a number write it, and waste none on zeros before it.
pub proof fn law_bytes_write_their_number(n: nat)
    ensures
        bytes_value(number_bytes(n)) == n,
        number_bytes(n).len() > 0 ==> number_bytes(n)[0] != 0,
    decreases n,
{
    if n > 0 {
        law_bytes_write_their_number(n / 256);
        assert(number_bytes(n).drop_last() =~= number_bytes(n / 256));
        assert(number_bytes(n).last() == (n % 256) as u8);
        if n >= 256 {
            assert(number_bytes(n / 256).len() > 0);
            assert(number_bytes(n)[0] == number_bytes(n / 256)[0]);
        } else {
            assert(n / 256 == 0);
            assert(number_bytes(n) =~= seq![(n % 256) as u8]);
        }
    }
}

/// Zeros before bytes do not change the number they write.
proof fn lemma_zeros_before(k: nat, s: Seq<u8>)
    ensures
        bytes_value(zeros(k) + s) == bytes_value(s),
    decreases k + s.len(),
{
    let all = zeros(k) + s;
    if s.len() > 0 {
        lemma_zeros_before(k, s.drop_last());
        assert(all.drop_last() =~= zeros(k) + s.drop_last());
        assert(all.last() == s.last());
    } else if k > 0 {
        lemma_zeros_before((k - 1) as nat, s);
        assert(all.drop_last() =~= zeros((k - 1) as nat) + s);
        assert(all.last() == 0);
    } else {
        assert(all =~= s);
    }
}

/// What a text says in base58 writes the number of its digits; it begins
/// with as many zeros as the text with ones, and with no more.
pub proof fn law_decoded_bytes_write_the_number(s: Seq<char>)
    requires
        decoded(s) is Ok,
    ensures
        bytes_value(decoded(s)->Ok_0) == number(dense(s)),
        leading_ones(dense(s)) <= decoded(s)->Ok_0.len(),
        forall|i: int|
            0 <= i < leading_ones(dense(s)) ==> #[trigger] decoded(s)->Ok_0[i] == 0,
        leading_ones(dense(s)) < decoded(s)->Ok_0.len() ==> decoded(s)->Ok_0[leading_ones(
            dense(s),
        ) as int] != 0,
{
    let n = number(dense(s));
    law_bytes_write_their_number(n);
    lemma_zeros_before(leading_ones(dense(s)), number_bytes(n));
}

/// A number in base58 is written digit by digit, the value of each being its
/// place in the alphabet.
pub proof fn law_digits_count_by_their_place(digits: Seq<char>, v: int)
    requires
        0 <= v < 58,
    ensures
        number(digits.push(alphabet()[v])) == 58 * number(digits) + v,
        number(Seq::<char>::empty()) == 0,
{
    reveal_strlit("123456789ABCDEFGHJKLMNPQRSTUVWXYZabcdefghijkmnopqrstuvwxyz");
    let c = alphabet()[v];
    law_digits_are_the_alphabet(c);
    lemma_places(v);
    assert(digits.push(c).drop_last() =~= digits);
    assert(digits.push(c).last() == c);
}

/// The digit at a place of the alphabet has that value.
proof fn lemma_places(v: int)
    requires
        0 <= v < 58,
    ensures
        digit_value(alphabet()[v]) == Some(v as nat),
{
    reveal_strlit("123456789ABCDEFGHJKLMNPQRSTUVWXYZabcdefghijkmnopqrstuvwxyz");
}

/// How many ones a text begins with: all before some place, and none there.
pub proof fn law_leading_ones_are_counted(digits: Seq<char>)
    ensures
        leading_ones(digits) <= digits.len(),
        forall|i: int| 0 <= i < leading_ones(digits) ==> #[trigger] digits[i] == '1',
        leading_ones(digits) < digits.len() ==> digits[leading_ones(digits) as int] != '1',
    decreases digits.len(),
{
    if digits.len() > 0 && digits[0] == '1' {
        let rest = digits.drop_first();
        law_leading_ones_are_counted(rest);
        assert forall|i: int| 0 <= i < leading_ones(digits) implies #[trigger] digits[i] == '1' by {
            if i > 0 {
                assert(rest[i - 1] == '1');
            }
        }
    }
}

/// White space is passed over, and nothing else is.
pub proof fn law_only_white_space_is_passed_over(s: Seq<char>, c: char)
    ensures
        text::whitespace(c) ==> dense(s.push(c)) == dense(s),
        !text::whitespace(c) ==> dense(s.push(c)) == dense(s).push(c),
        dense(Seq::<char>::empty()) == Seq::<char>::empty(),
{
    assert(s.push(c).drop_last() =~= s);
    assert(s.push(c).last() == c);
}

/// A text can be read if and only if every character but white space is a
/// digit; the first that is not is named.
pub proof fn law_first_foreign_character_is_named(digits: Seq<char>, i: int)
    requires
        0 <= i <= digits.len(),
    ensures
        i <= first_foreign(digits, i) <= digits.len(),
        forall|k: int|
            i <= k < first_foreign(digits, i) ==> alphabet().contains(#[trigger] digits[k]),
        first_foreign(digits, i) < digits.len() ==> !alphabet().contains(
            digits[first_foreign(digits, i)],
        ),
    decreases digits.len() - i,
{
    if i < digits.len() {
        let c = digits[i];
        law_digits_are_the_alphabet(c);
        if digit_value(c) is Some {
            assert(alphabet().len() == 58) by {
                reveal_strlit("123456789ABCDEFGHJKLMNPQRSTUVWXYZabcdefghijkmnopqrstuvwxyz");
            }
            assert(alphabet().contains(c));
            law_first_foreign_character_is_named(digits, i + 1);
        }
    }
}

} // verus!
