//! Fixed-point arithmetic for money amounts.
//!
//! - Token amounts are raw `u64` values, scaled by the token's decimals.
//! - Prices are `u64` values scaled by [`PRICE_SCALE`].
//! - Notional and pool equity are `u128`, signed profit deltas are `i128`.
//! - Every product is taken in 256 bits, so only a result that does not fit
//!   is an overflow.
//! - Every division names its rounding direction.
use vstd::prelude::*;
use vstd::arithmetic::power2::*;
use vstd::arithmetic::div_mod::*;
use vstd::bits::*;

verus! {

/// Price scale factor: a price of `1.00` is encoded as `PRICE_SCALE`.
pub const PRICE_SCALE: u64 = 100_000_000;

/// Basis points scale: `10_000` basis points are 100%.
pub const BPS_SCALE: u64 = 10_000;

/// Rate scale for ratios.
pub const RATE_SCALE: u128 = 1_000_000_000_000;

/// Errors returned by the arithmetic primitives.
#[derive(Debug, Clone, Copy, PartialEq, Eq, Structural)]
pub enum MathError {
    /// The result does not fit its type.
    Overflow,
    /// The divisor is zero.
    DivByZero,
    /// A magnitude does not fit the signed type.
    SignOverflow,
}

impl MathError {
    /// The text of the error, as shown to an operator.
    pub open spec fn text(self) -> Seq<char> {
        match self {
            MathError::Overflow => "math overflow"@,
            MathError::DivByZero => "division by zero"@,
            MathError::SignOverflow => "sign conversion overflow"@,
        }
    }

    /// Renders the error.
    pub fn to_string(&self) -> (r: String)
        ensures
            r@ == self.text(),
    {
        match self {
            MathError::Overflow => String::from_str("math overflow"),
            MathError::DivByZero => String::from_str("division by zero"),
            MathError::SignOverflow => String::from_str("sign conversion overflow"),
        }
    }
}

/// `2^128`, the modulus of `u128`.
pub open spec fn two_pow_128() -> int {
    0x1_0000_0000_0000_0000_0000_0000_0000_0000int
}

/// `floor(a * b / d)`.
pub open spec fn floor_quotient(a: int, b: int, d: int) -> int {
    (a * b) / d
}

/// `ceil(a * b / d)`: the floor, and one more where the division leaves a remainder.
pub open spec fn ceil_quotient(a: int, b: int, d: int) -> int {
    if (a * b) % d == 0 {
        (a * b) / d
    } else {
        (a * b) / d + 1
    }
}

/// `q` where it fits `u128`, else an overflow.
pub open spec fn fit_u128(q: int) -> Result<u128, MathError> {
    if 0 <= q <= u128::MAX {
        Ok(q as u128)
    } else {
        Err(MathError::Overflow)
    }
}

/// What [`mul_div_floor`] returns.
pub open spec fn mul_div_floor_spec(a: u128, b: u128, denominator: u128) -> Result<
    u128,
    MathError,
> {
    if denominator == 0 {
        Err(MathError::DivByZero)
    } else {
        fit_u128(floor_quotient(a as int, b as int, denominator as int))
    }
}

/// What [`mul_div_ceil`] returns.
pub open spec fn mul_div_ceil_spec(a: u128, b: u128, denominator: u128) -> Result<
    u128,
    MathError,
> {
    if denominator == 0 {
        Err(MathError::DivByZero)
    } else {
        fit_u128(ceil_quotient(a as int, b as int, denominator as int))
    }
}

/// The distance between two prices.
pub open spec fn price_gap(p: int, q: int) -> int {
    if q >= p {
        q - p
    } else {
        p - q
    }
}

/// The sign of an integer.
pub open spec fn signum(x: int) -> int {
    if x > 0 {
        1
    } else if x == 0 {
        0
    } else {
        -1
    }
}

/// What [`signed_pnl_increment`] returns: the magnitude
/// `floor(notional * |p_now - p_last| / p_last)` with the sign of
/// `direction * (p_now - p_last)`.
pub open spec fn signed_pnl_spec(direction: int, notional: u128, p_last: u64, p_now: u64) -> Result<
    i128,
    MathError,
> {
    if p_last == 0 {
        Err(MathError::DivByZero)
    } else {
        let magnitude = floor_quotient(
            notional as int,
            price_gap(p_last as int, p_now as int),
            p_last as int,
        );
        if magnitude > u128::MAX {
            Err(MathError::Overflow)
        } else if magnitude > i128::MAX {
            Err(MathError::SignOverflow)
        } else {
            Ok((signum(direction) * signum(p_now - p_last) * magnitude) as i128)
        }
    }
}

/// What [`price_move_bps`] returns: `floor(|p_new - p_old| * BPS_SCALE / p_old)`.
pub open spec fn price_move_bps_spec(p_old: u64, p_new: u64) -> Result<u64, MathError> {
    if p_old == 0 {
        Err(MathError::DivByZero)
    } else {
        let bps = floor_quotient(
            price_gap(p_old as int, p_new as int),
            BPS_SCALE as int,
            p_old as int,
        );
        if bps > u64::MAX {
            Err(MathError::Overflow)
        } else {
            Ok(bps as u64)
        }
    }
}

/// Computes `a * b / denominator`, rounded toward zero.
///
/// The product is taken in 256 bits: only a quotient above `u128::MAX` is
/// [`MathError::Overflow`]. A zero denominator is [`MathError::DivByZero`].
pub fn mul_div_floor(a: u128, b: u128, denominator: u128) -> (r: Result<u128, MathError>)
    ensures
        r == mul_div_floor_spec(a, b, denominator),
{
    if denominator == 0 {
        return Err(MathError::DivByZero);
    }
    full_mul_div(a, b, denominator, false)
}

/// Computes `a * b / denominator`, rounded up.
pub fn mul_div_ceil(a: u128, b: u128, denominator: u128) -> (r: Result<u128, MathError>)
    ensures
        r == mul_div_ceil_spec(a, b, denominator),
{
    if denominator == 0 {
        return Err(MathError::DivByZero);
    }
    full_mul_div(a, b, denominator, true)
}

/// Computes `a * b / denominator` with an optional ceiling: the 256-bit
/// product first, then the quotient.
fn full_mul_div(a: u128, b: u128, denominator: u128, ceil: bool) -> (r: Result<u128, MathError>)
    requires
        denominator > 0,
    ensures
        ceil ==> r == mul_div_ceil_spec(a, b, denominator),
        !ceil ==> r == mul_div_floor_spec(a, b, denominator),
{
    let ghost d = denominator as int;
    let ghost product = a * b;
    if a == 0 || b == 0 {
        proof {
            assert(product == 0) by (nonlinear_arith)
                requires
                    a == 0 || b == 0,
                    product == a * b,
            ;
            assert(0int / d == 0 && 0int % d == 0) by (nonlinear_arith)
                requires
                    d > 0,
            ;
        }
        return Ok(0);
    }
    let (lo, hi) = mul_to_u256(a, b);
    if hi == 0 {
        let q: u128 = lo / denominator;
        let r: u128 = lo % denominator;
        if ceil && r > 0 {
            match q.checked_add(1) {
                Some(v) => Ok(v),
                None => Err(MathError::Overflow),
            }
        } else {
            Ok(q)
        }
    } else {
        match div256(hi, lo, denominator) {
            Err(e) => {
                proof {
                    assert(product / d >= two_pow_128()) by (nonlinear_arith)
                        requires
                            product == lo + hi * two_pow_128(),
                            hi >= d,
                            d > 0,
                            lo >= 0,
                    ;
                }
                Err(e)
            },
            Ok((q, r)) => {
                proof {
                    lemma_fundamental_div_mod_converse(product, d, q as int, r as int);
                }
                if ceil && r > 0 {
                    match q.checked_add(1) {
                        Some(v) => Ok(v),
                        None => Err(MathError::Overflow),
                    }
                } else {
                    Ok(q)
                }
            },
        }
    }
}

/// The bit-level facts behind [`mul_to_u256`]: a word splits into its halves.
proof fn lemma_split_halves(x: u128)
    ensures
        (x >> 64) < 0x1_0000_0000_0000_0000,
        (x & 0xffff_ffff_ffff_ffff) < 0x1_0000_0000_0000_0000,
        x == (x >> 64) * 0x1_0000_0000_0000_0000 + (x & 0xffff_ffff_ffff_ffff),
{
    assert((x >> 64) < 0x1_0000_0000_0000_0000 && (x & 0xffff_ffff_ffff_ffff)
        < 0x1_0000_0000_0000_0000 && x == (x >> 64) * 0x1_0000_0000_0000_0000 + (x
        & 0xffff_ffff_ffff_ffff)) by (bit_vector);
}

/// Two halves join into a word.
proof fn lemma_join_halves(high: u128, low: u128)
    requires
        high < 0x1_0000_0000_0000_0000,
        low < 0x1_0000_0000_0000_0000,
    ensures
        ((high << 64) | low) == high * 0x1_0000_0000_0000_0000 + low,
{
    assert(((high << 64) | low) == high * 0x1_0000_0000_0000_0000 + low) by (bit_vector)
        requires
            high < 0x1_0000_0000_0000_0000,
            low < 0x1_0000_0000_0000_0000,
    ;
}

/// A product of two half words fits a word.
proof fn lemma_half_product(x: u128, y: u128)
    requires
        x < 0x1_0000_0000_0000_0000,
        y < 0x1_0000_0000_0000_0000,
    ensures
        0 <= x * y <= 0xffff_ffff_ffff_fffe_0000_0000_0000_0001,
{
    assert(0 <= x * y <= 0xffff_ffff_ffff_ffff * 0xffff_ffff_ffff_ffff) by (nonlinear_arith)
        requires
            0 <= x <= 0xffff_ffff_ffff_ffff,
            0 <= y <= 0xffff_ffff_ffff_ffff,
    ;
}

/// Multiplies two words into a 256-bit number, given as `(low, high)`.
fn mul_to_u256(a: u128, b: u128) -> (r: (u128, u128))
    ensures
        a * b == r.0 + r.1 * two_pow_128(),
{
    let mask: u128 = 0xffff_ffff_ffff_ffff;
    let a_hi: u128 = a >> 64;
    let a_lo: u128 = a & mask;
    let b_hi: u128 = b >> 64;
    let b_lo: u128 = b & mask;
    proof {
        lemma_split_halves(a);
        lemma_split_halves(b);
        lemma_half_product(a_lo, b_lo);
        lemma_half_product(a_lo, b_hi);
        lemma_half_product(a_hi, b_lo);
        lemma_half_product(a_hi, b_hi);
    }
    let ll: u128 = a_lo * b_lo;
    let lh: u128 = a_lo * b_hi;
    let hl: u128 = a_hi * b_lo;
    let hh: u128 = a_hi * b_hi;
    proof {
        lemma_split_halves(ll);
        lemma_split_halves(lh);
        lemma_split_halves(hl);
    }
    let ll_low: u128 = ll & mask;
    let ll_high: u128 = ll >> 64;
    let mid: u128 = ll_high + (lh & mask) + (hl & mask);
    proof {
        lemma_split_halves(mid);
    }
    let mid_low: u128 = mid & mask;
    let mid_high: u128 = mid >> 64;
    proof {
        lemma_join_halves(mid_low, ll_low);
    }
    let low: u128 = (mid_low << 64) | ll_low;
    let ghost high_int = hh + (lh >> 64) + (hl >> 64) + mid_high;
    proof {
        let w = 0x1_0000_0000_0000_0000int;
        assert(a * b == ll + (lh + hl) * w + hh * w * w) by (nonlinear_arith)
            requires
                a == a_hi * w + a_lo,
                b == b_hi * w + b_lo,
                ll == a_lo * b_lo,
                lh == a_lo * b_hi,
                hl == a_hi * b_lo,
                hh == a_hi * b_hi,
        ;
        assert(a * b == low + high_int * two_pow_128());
        assert(a * b < two_pow_128() * two_pow_128()) by (nonlinear_arith)
            requires
                0 <= a < two_pow_128(),
                0 <= b < two_pow_128(),
        ;
        assert(high_int < two_pow_128()) by (nonlinear_arith)
            requires
                a * b == low + high_int * two_pow_128(),
                a * b < two_pow_128() * two_pow_128(),
                low >= 0,
        ;
    }
    let high: u128 = hh + (lh >> 64) + (hl >> 64) + mid_high;
    (low, high)
}

/// One step of the long division: the shifted remainder in exact arithmetic.
proof fn lemma_shift_in(rem: u128, bit: u128)
    requires
        bit <= 1,
    ensures
        (rem >> 127) <= 1,
        2 * rem + bit == ((rem << 1) | bit) + (rem >> 127) * two_pow_128(),
{
    assert((rem >> 127) <= 1) by (bit_vector);
    assert(2 * rem + bit == ((rem << 1) | bit) + (rem >> 127)
        * (0xffff_ffff_ffff_ffff_ffff_ffff_ffff_ffff + 1)) by (bit_vector)
        requires
            bit <= 1,
    ;
}

/// Divides the 256-bit value `hi * 2^128 + lo` by `divisor`, bit by bit.
///
/// The quotient fits `u128` exactly when `hi < divisor`; otherwise
/// [`MathError::Overflow`] is returned.
fn div256(hi: u128, lo: u128, divisor: u128) -> (r: Result<(u128, u128), MathError>)
    requires
        divisor > 0,
    ensures
        match r {
            Ok((quot, rem)) => {
                &&& hi < divisor
                &&& hi * two_pow_128() + lo == quot * divisor + rem
                &&& rem < divisor
            },
            Err(e) => hi >= divisor && e == MathError::Overflow,
        },
{
    if hi >= divisor {
        return Err(MathError::Overflow);
    }
    let mut rem: u128 = hi;
    let mut quot: u128 = 0;
    let mut i: u128 = 128;
    proof {
        lemma2_to64();
        lemma_pow2_adds(64, 64);
        assert(pow2(64) == 0x1_0000_0000_0000_0000) by {
            lemma2_to64_rest();
        }
        assert(pow2(128) == two_pow_128()) by {
            assert(0x1_0000_0000_0000_0000int * 0x1_0000_0000_0000_0000int == two_pow_128())
                by (nonlinear_arith);
        }
        lemma_basic_div(lo as int, two_pow_128());
        assert(quot * divisor == 0) by (nonlinear_arith)
            requires
                quot == 0,
        ;
        assert(hi * pow2(0) == hi);
    }
    while i > 0
        invariant
            i <= 128,
            hi < divisor,
            rem < divisor,
            pow2(128) == two_pow_128(),
            quot * divisor + rem == hi * pow2((128 - i) as nat) + (lo as nat) / pow2(i as nat),
        decreases i,
    {
        i = i - 1;
        let ghost k = (127 - i) as nat;
        let ghost rem0 = rem;
        let ghost quot0 = quot;
        let next_bit: u128 = (lo >> i) & 1;
        let ghost shifted = lo >> i;
        proof {
            assert((shifted & 1) <= 1 && (shifted & 1) == shifted % 2) by (bit_vector);
            lemma_u128_shr_is_div(lo, i);
            lemma_pow2_unfold((i + 1) as nat);
            lemma_pow2_unfold((128 - i) as nat);
            lemma_pow2_pos(i as nat);
            lemma_div_denominator(lo as int, pow2(i as nat) as int, 2);
            assert(pow2((i + 1) as nat) == pow2(i as nat) * 2);
            // The bits above position `i` are twice those above `i + 1`, plus the next bit.
            assert(shifted == 2 * ((lo as nat) / pow2((i + 1) as nat)) + next_bit);
            lemma_shift_in(rem, next_bit);
            let p = pow2(k) as int;
            assert(hi * (2 * p) == 2 * (hi * p)) by (nonlinear_arith);
            assert(quot0 * divisor * 2 == 2 * (quot0 * divisor)) by (nonlinear_arith);
            assert(quot0 * divisor * 2 + 2 * rem0 + next_bit == hi * pow2((128 - i) as nat)
                + shifted);
            // The quotient so far has at most `127 - i` bits, so doubling it cannot overflow.
            lemma_quotient_bound(
                hi as int,
                shifted as int,
                divisor as int,
                quot0 as int,
                2 * rem0 + next_bit,
                (128 - i) as nat,
                lo as int,
                i as nat,
            );
            lemma_pow2_monotone((128 - i) as nat, 128);
        }
        let rem_top: u128 = rem >> 127;
        rem = (rem << 1) | next_bit;
        if rem_top == 1 || rem >= divisor {
            rem = rem.wrapping_sub(divisor);
            quot = quot * 2 + 1;
            proof {
                assert(quot * divisor + rem == quot0 * divisor * 2 + 2 * rem0 + next_bit)
                    by (nonlinear_arith)
                    requires
                        quot == quot0 * 2 + 1,
                        rem == 2 * rem0 + next_bit - divisor,
                ;
            }
        } else {
            quot = quot * 2;
            proof {
                assert(quot * divisor + rem == quot0 * divisor * 2 + 2 * rem0 + next_bit)
                    by (nonlinear_arith)
                    requires
                        quot == quot0 * 2,
                        rem == 2 * rem0 + next_bit,
                ;
            }
        }
    }
    proof {
        lemma2_to64();
        lemma_div_basics(lo as int);
    }
    Ok((quot, rem))
}

/// Powers of two do not shrink as the exponent grows.
proof fn lemma_pow2_monotone(e: nat, f: nat)
    requires
        e <= f,
    ensures
        pow2(e) <= pow2(f),
{
    if e < f {
        lemma_pow2_strictly_increases(e, f);
    }
}

/// A partial quotient over `m` bits is below `2^m / 2` before its last doubling.
proof fn lemma_quotient_bound(
    hi: int,
    shifted: int,
    divisor: int,
    quot: int,
    rem2: int,
    m: nat,
    lo: int,
    i: nat,
)
    requires
        0 <= hi < divisor,
        0 <= quot,
        0 <= rem2,
        m > 0,
        m + i == 128,
        0 <= lo < two_pow_128(),
        pow2(128) == two_pow_128(),
        shifted == lo / (pow2(i) as int),
        quot * divisor * 2 + rem2 == hi * pow2(m) + shifted,
    ensures
        quot * 2 + 1 < pow2(m),
{
    lemma_pow2_pos(i);
    lemma_pow2_adds(m, i);
    let p = pow2(m) as int;
    let w = pow2(i) as int;
    assert(shifted < p) by (nonlinear_arith)
        requires
            shifted == lo / w,
            lo < p * w,
            w > 0,
            lo >= 0,
    ;
    assert(quot * 2 < p) by (nonlinear_arith)
        requires
            quot * divisor * 2 + rem2 == hi * p + shifted,
            rem2 >= 0,
            shifted < p,
            hi <= divisor - 1,
            divisor > 0,
            quot >= 0,
            p > 0,
    ;
    lemma_pow2_unfold(m);
}

/// Computes `a + b`, or reports the overflow.
pub fn checked_add(a: u128, b: u128) -> (r: Result<u128, MathError>)
    ensures
        r == fit_u128(a + b),
{
    match a.checked_add(b) {
        Some(v) => Ok(v),
        None => Err(MathError::Overflow),
    }
}

/// Computes `a - b`, or reports the underflow.
pub fn checked_sub(a: u128, b: u128) -> (r: Result<u128, MathError>)
    ensures
        r == fit_u128(a - b),
{
    match a.checked_sub(b) {
        Some(v) => Ok(v),
        None => Err(MathError::Overflow),
    }
}

/// Computes `a * b`, or reports the overflow.
pub fn checked_mul(a: u128, b: u128) -> (r: Result<u128, MathError>)
    ensures
        r == fit_u128(a * b),
{
    proof {
        assert(a * b >= 0) by (nonlinear_arith)
            requires
                a >= 0,
                b >= 0,
        ;
    }
    match a.checked_mul(b) {
        Some(v) => Ok(v),
        None => Err(MathError::Overflow),
    }
}

/// Computes `direction * notional * (p_now - p_last) / p_last` as a signed
/// amount in raw collateral units.
///
/// `direction` is `1` for a long position and `-1` for a short one.
pub fn signed_pnl_increment(direction: i8, notional: u128, p_last: u64, p_now: u64) -> (r: Result<
    i128,
    MathError,
>)
    ensures
        r == signed_pnl_spec(direction as int, notional, p_last, p_now),
{
    if p_last == 0 {
        return Err(MathError::DivByZero);
    }
    let up: bool = p_now >= p_last;
    let delta_abs: u128 = if up {
        (p_now - p_last) as u128
    } else {
        (p_last - p_now) as u128
    };
    let abs_pnl: u128 = match mul_div_floor(notional, delta_abs, p_last as u128) {
        Ok(v) => v,
        Err(e) => {
            proof {
                lemma_quotient_nonnegative(notional as int, delta_abs as int, p_last as int);
            }
            return Err(e);
        },
    };
    proof {
        lemma_quotient_nonnegative(notional as int, delta_abs as int, p_last as int);
        if p_now == p_last {
            assert(notional * 0int == 0) by (nonlinear_arith);
            assert(0int / (p_last as int) == 0) by (nonlinear_arith)
                requires
                    p_last > 0,
            ;
        }
    }
    if abs_pnl > i128::MAX as u128 {
        return Err(MathError::SignOverflow);
    }
    let magnitude: i128 = abs_pnl as i128;
    let ghost s = signum(direction as int) * signum(p_now - p_last);
    proof {
        assert(s * (magnitude as int) == if s > 0 {
            magnitude as int
        } else if s == 0 {
            0
        } else {
            -(magnitude as int)
        }) by (nonlinear_arith)
            requires
                s == 1 || s == 0 || s == -1,
        ;
    }
    if direction == 0 || magnitude == 0 {
        return Ok(0);
    }
    if (direction > 0) == up {
        Ok(magnitude)
    } else {
        Ok(-magnitude)
    }
}

/// A quotient of non-negative integers is non-negative.
proof fn lemma_quotient_nonnegative(a: int, b: int, d: int)
    requires
        a >= 0,
        b >= 0,
        d > 0,
    ensures
        floor_quotient(a, b, d) >= 0,
{
    assert(a * b >= 0) by (nonlinear_arith)
        requires
            a >= 0,
            b >= 0,
    ;
    lemma_div_pos_is_pos(a * b, d);
}

/// Computes `|p_new - p_old| * BPS_SCALE / p_old` in basis points.
pub fn price_move_bps(p_old: u64, p_new: u64) -> (r: Result<u64, MathError>)
    ensures
        r == price_move_bps_spec(p_old, p_new),
{
    if p_old == 0 {
        return Err(MathError::DivByZero);
    }
    let delta: u128 = if p_new >= p_old {
        (p_new - p_old) as u128
    } else {
        (p_old - p_new) as u128
    };
    proof {
        lemma_quotient_nonnegative(delta as int, BPS_SCALE as int, p_old as int);
    }
    match mul_div_floor(delta, BPS_SCALE as u128, p_old as u128) {
        Ok(scaled) => {
            if scaled > u64::MAX as u128 {
                Err(MathError::Overflow)
            } else {
                Ok(scaled as u64)
            }
        },
        Err(e) => Err(e),
    }
}

/// The rounded-up quotient is the rounded-down one or one more, wherever both fit.
pub proof fn law_ceil_is_floor_or_one_more(a: u128, b: u128, d: u128)
    requires
        mul_div_floor_spec(a, b, d) is Ok,
        mul_div_ceil_spec(a, b, d) is Ok,
    ensures
        ({
            let f = mul_div_floor_spec(a, b, d)->Ok_0;
            let c = mul_div_ceil_spec(a, b, d)->Ok_0;
            f <= c && c - f <= 1
        }),
{
}

/// Multiplying and dividing by the same non-zero amount gives the value back.
pub proof fn law_mul_div_identity(a: u128, d: u128)
    requires
        d > 0,
    ensures
        mul_div_floor_spec(a, d, d) == Ok::<u128, MathError>(a),
        mul_div_ceil_spec(a, d, d) == Ok::<u128, MathError>(a),
{
    lemma_div_multiples_vanish(a as int, d as int);
    assert((a * d) % (d as int) == 0) by {
        lemma_mod_multiples_basic(a as int, d as int);
    }
    assert(d * a == a * d) by (nonlinear_arith);
}

/// Turning the direction round turns the sign of the profit round: the
/// profit of a short position is the loss of a long one.
pub proof fn law_pnl_antisymmetric(direction: int, notional: u128, p_last: u64, p_now: u64)
    ensures
        match signed_pnl_spec(direction, notional, p_last, p_now) {
            Ok(gain) => signed_pnl_spec(-direction, notional, p_last, p_now) == Ok::<
                i128,
                MathError,
            >((-gain) as i128) && -i128::MAX <= gain,
            Err(e) => signed_pnl_spec(-direction, notional, p_last, p_now) == Err::<
                i128,
                MathError,
            >(e),
        },
{
    if p_last > 0 {
        let gap = price_gap(p_last as int, p_now as int);
        lemma_quotient_nonnegative(notional as int, gap, p_last as int);
        let m = floor_quotient(notional as int, gap, p_last as int);
        let t = signum(direction);
        let s = signum(p_now - p_last);
        assert(signum(-direction) == -t);
        assert((t * s) * m == -((-t * s) * m)) by (nonlinear_arith);
        assert(-m <= (t * s) * m <= m) by (nonlinear_arith)
            requires
                s == 1 || s == 0 || s == -1,
                t == 1 || t == 0 || t == -1,
                m >= 0,
        ;
    }
}

/// A price that does not move has moved by zero basis points.
pub proof fn law_no_move_is_zero_bps(p: u64)
    requires
        p > 0,
    ensures
        price_move_bps_spec(p, p) == Ok::<u64, MathError>(0),
{
    assert(0int / (p as int) == 0) by (nonlinear_arith)
        requires
            p > 0,
    ;
}

/// A quotient is the number of whole divisors in the product.
proof fn lemma_quotient_brackets(a: int, b: int, d: int)
    requires
        a >= 0,
        b >= 0,
        d > 0,
    ensures
        floor_quotient(a, b, d) >= 0,
        floor_quotient(a, b, d) * d <= a * b < (floor_quotient(a, b, d) + 1) * d,
        (ceil_quotient(a, b, d) - 1) * d < a * b <= ceil_quotient(a, b, d) * d,
{
    lemma_quotient_nonnegative(a, b, d);
    lemma_fundamental_div_mod(a * b, d);
    lemma_mod_bound(a * b, d);
    let q = floor_quotient(a, b, d);
    let c = ceil_quotient(a, b, d);
    let rest = (a * b) % d;
    assert(q * d <= a * b < (q + 1) * d && (c - 1) * d < a * b <= c * d) by (nonlinear_arith)
        requires
            a * b == d * q + rest,
            0 <= rest < d,
            c == if rest == 0 {
                q
            } else {
                q + 1
            },
            d > 0,
    ;
}

/// The rounded-down quotient is the greatest number of divisors that the
/// product holds; it is refused only where it does not fit.
pub proof fn law_floor_is_the_greatest_that_fits(a: u128, b: u128, d: u128)
    ensures
        match mul_div_floor_spec(a, b, d) {
            Ok(q) => d > 0 && q * d <= a * b < (q + 1) * d,
            Err(MathError::DivByZero) => d == 0,
            Err(MathError::Overflow) => d > 0 && a * b >= two_pow_128() * d,
            Err(MathError::SignOverflow) => false,
        },
{
    if d > 0 {
        lemma_quotient_brackets(a as int, b as int, d as int);
        let q = floor_quotient(a as int, b as int, d as int);
        if q > u128::MAX {
            assert(a * b >= two_pow_128() * d) by (nonlinear_arith)
                requires
                    q * d <= a * b,
                    q >= two_pow_128(),
                    d > 0,
            ;
        }
    }
}

/// The rounded-up quotient is the least number of divisors that covers the
/// product; it is refused only where it does not fit.
pub proof fn law_ceil_is_the_least_that_covers(a: u128, b: u128, d: u128)
    ensures
        match mul_div_ceil_spec(a, b, d) {
            Ok(q) => d > 0 && (q - 1) * d < a * b <= q * d,
            Err(MathError::DivByZero) => d == 0,
            Err(MathError::Overflow) => d > 0 && a * b > u128::MAX * d,
            Err(MathError::SignOverflow) => false,
        },
{
    if d > 0 {
        lemma_quotient_brackets(a as int, b as int, d as int);
        let q = ceil_quotient(a as int, b as int, d as int);
        assert(q >= 0);
        if q > u128::MAX {
            assert(a * b > u128::MAX * d) by (nonlinear_arith)
                requires
                    (q - 1) * d < a * b,
                    q - 1 >= u128::MAX,
                    d > 0,
            ;
        }
    }
}

/// A long position gains where the price rises and loses where it falls, a
/// short one the other way round; the amount is the part of the notional by
/// which the price moved against the old price, rounded toward zero.
pub proof fn law_pnl_follows_the_price(direction: int, notional: u128, p_last: u64, p_now: u64)
    ensures
        match signed_pnl_spec(direction, notional, p_last, p_now) {
            Ok(gain) => {
                let size = if gain >= 0 {
                    gain as int
                } else {
                    -gain
                };
                let gap = if p_now >= p_last {
                    p_now - p_last
                } else {
                    p_last - p_now
                };
                &&& p_last > 0
                &&& gain > 0 ==> (direction > 0 && p_now > p_last) || (direction < 0 && p_now
                    < p_last)
                &&& gain < 0 ==> (direction > 0 && p_now < p_last) || (direction < 0 && p_now
                    > p_last)
                &&& direction != 0 ==> size * p_last <= notional * gap < (size + 1) * p_last
                &&& direction == 0 ==> gain == 0
            },
            Err(MathError::DivByZero) => p_last == 0,
            Err(MathError::SignOverflow) => p_last > 0,
            Err(MathError::Overflow) => p_last > 0,
        },
{
    if p_last > 0 {
        let gap = price_gap(p_last as int, p_now as int);
        lemma_quotient_brackets(notional as int, gap, p_last as int);
        let m = floor_quotient(notional as int, gap, p_last as int);
        let t = signum(direction);
        let s = signum(p_now - p_last);
        assert((t * s) * m == if t * s > 0 {
            m
        } else if t * s == 0 {
            0
        } else {
            -m
        }) by (nonlinear_arith)
            requires
                s == 1 || s == 0 || s == -1,
                t == 1 || t == 0 || t == -1,
        ;
        if s == 0 {
            assert(notional * 0int == 0) by (nonlinear_arith);
            assert(m == 0) by (nonlinear_arith)
                requires
                    m * p_last <= 0,
                    m >= 0,
                    p_last > 0,
            ;
        }
    }
}

/// A move of the price in basis points: as many ten-thousandths of the old
/// price as the gap holds.
pub proof fn law_bps_measure_the_gap(p_old: u64, p_new: u64)
    ensures
        match price_move_bps_spec(p_old, p_new) {
            Ok(bps) => {
                let gap = if p_new >= p_old {
                    p_new - p_old
                } else {
                    p_old - p_new
                };
                p_old > 0 && bps * p_old <= gap * 10_000 < (bps + 1) * p_old
            },
            Err(MathError::DivByZero) => p_old == 0,
            Err(MathError::Overflow) => p_old > 0,
            Err(MathError::SignOverflow) => false,
        },
{
    if p_old > 0 {
        lemma_quotient_brackets(
            price_gap(p_old as int, p_new as int),
            BPS_SCALE as int,
            p_old as int,
        );
    }
}

} // verus!
