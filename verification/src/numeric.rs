//! Fixed-point arithmetic helpers.
//!
//! Odds are integers at a fixed scale of `10^3` ("thousandths"): the decimal
//! price `1.95` is carried as `1950`.  Handicap and totals lines use the same
//! scale.  Conversions between scales round half to even.

use vstd::prelude::*;

verus! {

/// Scale of the canonical fixed-point encoding: three decimal places.
pub const SCALE: i64 = 1000;

/// `num / den` rounded to the nearest integer, ties to the even neighbour,
/// as a mathematical function on unbounded integers (`den > 0`).
pub open spec fn spec_round_half_even(num: int, den: int) -> int
    recommends
        den > 0,
{
    let q = num / den;
    let r = num % den;
    if 2 * r < den {
        q
    } else if 2 * r > den {
        q + 1
    } else if q % 2 == 0 {
        q
    } else {
        q + 1
    }
}

/// Floor division and remainder of `num` by `den > 0`, computed through
/// unsigned division to sidestep the truncating `/` of signed machine types.
fn floor_div_mod(num: i128, den: i128) -> (qr: (i128, i128))
    requires
        0 < den <= 0x1_0000_0000_0000_0000_0000_0000_0000,
        -0x4000_0000_0000_0000_0000_0000_0000_0000 <= num <= 0x4000_0000_0000_0000_0000_0000_0000_0000,
    ensures
        qr.0 == num as int / den as int,
        qr.1 == num as int % den as int,
        -0x4000_0000_0000_0000_0000_0000_0000_0001 <= qr.0 <= 0x4000_0000_0000_0000_0000_0000_0000_0000,
{
    if num >= 0 {
        let a: u128 = num as u128;
        let d: u128 = den as u128;
        proof {
            vstd::arithmetic::div_mod::lemma_div_nonincreasing(a as int, d as int);
            vstd::arithmetic::div_mod::lemma_div_pos_is_pos(a as int, d as int);
        }
        let q: u128 = a / d;
        let r: u128 = a % d;
        (q as i128, r as i128)
    } else {
        let a: u128 = (-num) as u128;
        let d: u128 = den as u128;
        proof {
            vstd::arithmetic::div_mod::lemma_div_nonincreasing(a as int, d as int);
            vstd::arithmetic::div_mod::lemma_div_pos_is_pos(a as int, d as int);
            vstd::arithmetic::div_mod::lemma_fundamental_div_mod(a as int, d as int);
        }
        let qa: u128 = a / d;
        let ra: u128 = a % d;
        if ra == 0 {
            let q: i128 = -(qa as i128);
            proof {
                assert(num == q * den + 0) by (nonlinear_arith)
                    requires
                        num == -(a as int),
                        a == d * (a as int / d as int) + (a as int % d as int),
                        qa == a as int / d as int,
                        a as int % d as int == 0,
                        q == -(qa as int),
                        d == den,
                ;
                vstd::arithmetic::div_mod::lemma_fundamental_div_mod_converse(
                    num as int,
                    den as int,
                    q as int,
                    0,
                );
            }
            (q, 0)
        } else {
            let q: i128 = -(qa as i128) - 1;
            let r: i128 = den - (ra as i128);
            proof {
                assert(num == q * den + r) by (nonlinear_arith)
                    requires
                        num == -(a as int),
                        a == d * (a as int / d as int) + (a as int % d as int),
                        qa == a as int / d as int,
                        ra == a as int % d as int,
                        q == -(qa as int) - 1,
                        r == den - ra,
                        d == den,
                ;
                vstd::arithmetic::div_mod::lemma_fundamental_div_mod_converse(
                    num as int,
                    den as int,
                    q as int,
                    r as int,
                );
            }
            (q, r)
        }
    }
}

/// Floor division and remainder, for callers outside this module.
pub fn floor_div_mod_pub(num: i128, den: i128) -> (qr: (i128, i128))
    requires
        0 < den <= 0x1_0000_0000_0000_0000_0000_0000_0000,
        -0x4000_0000_0000_0000_0000_0000_0000_0000 <= num <= 0x4000_0000_0000_0000_0000_0000_0000_0000,
    ensures
        qr.0 == num as int / den as int,
        qr.1 == num as int % den as int,
        -0x4000_0000_0000_0000_0000_0000_0000_0001 <= qr.0 <= 0x4000_0000_0000_0000_0000_0000_0000_0000,
{
    floor_div_mod(num, den)
}

/// Rounds `num / den` to the nearest integer with ties to even.
pub fn round_half_even_div(num: i128, den: i128) -> (r: i128)
    requires
        0 < den <= 0x1_0000_0000_0000_0000_0000_0000_0000,
        -0x4000_0000_0000_0000_0000_0000_0000_0000 <= num <= 0x4000_0000_0000_0000_0000_0000_0000_0000,
    ensures
        r == spec_round_half_even(num as int, den as int),
{
    let (q, r) = floor_div_mod(num, den);
    if 2 * r < den {
        q
    } else if 2 * r > den {
        q + 1
    } else if q % 2 == 0 {
        q
    } else {
        q + 1
    }
}

/// `num / den` rounded to the nearest integer, ties away from zero,
/// as a mathematical function on unbounded integers (`den > 0`).
pub open spec fn spec_round_half_away(num: int, den: int) -> int
    recommends
        den > 0,
{
    let q = num / den;
    let r = num % den;
    if 2 * r < den {
        q
    } else if 2 * r > den {
        q + 1
    } else if q >= 0 {
        q + 1
    } else {
        q
    }
}

/// Rounds `num / den` to the nearest integer with ties away from zero.
pub fn round_half_away_div(num: i128, den: i128) -> (r: i128)
    requires
        0 < den <= 0x1_0000_0000_0000_0000_0000_0000_0000,
        -0x4000_0000_0000_0000_0000_0000_0000_0000 <= num <= 0x4000_0000_0000_0000_0000_0000_0000_0000,
    ensures
        r == spec_round_half_away(num as int, den as int),
{
    let (q, r) = floor_div_mod(num, den);
    if 2 * r < den {
        q
    } else if 2 * r > den {
        q + 1
    } else if q >= 0 {
        q + 1
    } else {
        q
    }
}

/// `10^e` as a mathematical integer.
pub open spec fn spec_pow10(e: nat) -> int
    decreases e,
{
    if e == 0 {
        1
    } else {
        10 * spec_pow10((e - 1) as nat)
    }
}

/// Computes `10^e` for exponents that fit in an `i64` (`e <= 18`).
pub fn pow10_i64(e: u32) -> (r: i64)
    requires
        e <= 18,
    ensures
        r == spec_pow10(e as nat),
        1 <= r <= 1_000_000_000_000_000_000,
{
    let mut r: i64 = 1;
    let mut i: u32 = 0;
    while i < e
        invariant
            i <= e <= 18,
            r == spec_pow10(i as nat),
        decreases e - i,
    {
        proof {
            lemma_pow10_le(i as nat, 17);
            lemma_pow10_concrete();
        }
        r = r * 10;
        i = i + 1;
    }
    proof {
        lemma_pow10_le(0, e as nat);
        lemma_pow10_le(e as nat, 18);
        lemma_pow10_concrete();
    }
    r
}

/// Concrete values of a few often-needed powers of ten.
pub proof fn lemma_pow10_concrete()
    ensures
        spec_pow10(3) == 1000,
        spec_pow10(9) == 1_000_000_000,
        spec_pow10(17) == 100_000_000_000_000_000,
        spec_pow10(18) == 1_000_000_000_000_000_000,
{
    reveal_with_fuel(spec_pow10, 20);
}

/// `10^a <= 10^b` whenever `a <= b`.
pub proof fn lemma_pow10_le(a: nat, b: nat)
    requires
        a <= b,
    ensures
        spec_pow10(a) <= spec_pow10(b),
        spec_pow10(a) >= 1,
    decreases b,
{
    if a < b {
        lemma_pow10_le(a, (b - 1) as nat);
    } else if a > 0 {
        lemma_pow10_le((a - 1) as nat, (b - 1) as nat);
    }
}

/// The one-percent margin transform applied to Monaco prices before
/// encoding: a decimal price `p` becomes `round(((p - 1) * 0.99 + 1) * 1000)`
/// with ties to even.  Over prices in thousandths this is
/// `round((pm - 1000) * 99 / 100) + 1000`.
pub open spec fn spec_monaco_encode(price_milli: int) -> int {
    spec_round_half_even((price_milli - 1000) * 99 + 100_000, 100)
}

/// Applies the Monaco margin transform to a price in thousandths.
pub fn monaco_encode(price_milli: i64) -> (r: i64)
    ensures
        r == spec_monaco_encode(price_milli as int),
{
    let num: i128 = (price_milli as i128 - 1000) * 99 + 100_000;
    let q = round_half_even_div(num, 100);
    proof {
        lemma_rounding_near(num as int, 100);
    }
    q as i64
}

/// Both roundings of `num / den` lie within one of the true quotient's
/// floor and ceiling, so they stay in `i64` range whenever `num / den` does.
proof fn lemma_rounding_near(num: int, den: int)
    requires
        den > 0,
    ensures
        num / den <= spec_round_half_even(num, den) <= num / den + 1,
        num / den <= spec_round_half_away(num, den) <= num / den + 1,
        den * (num / den) <= num < den * (num / den) + den,
{
    vstd::arithmetic::div_mod::lemma_fundamental_div_mod(num, den);
    vstd::arithmetic::div_mod::lemma_mod_bound(num, den);
}

/// Rescales an integer-encoded odds value from `from_decimals` places to the
/// canonical three, rounding half to even on a downscale and saturating to
/// the `i32` range.
pub open spec fn spec_rescale_odds(val: int, from_decimals: nat) -> int {
    let exact = if from_decimals <= 3 {
        val * spec_pow10((3 - from_decimals) as nat)
    } else {
        spec_round_half_even(val, spec_pow10((from_decimals - 3) as nat))
    };
    if exact > i32::MAX as int {
        i32::MAX as int
    } else if exact < i32::MIN as int {
        i32::MIN as int
    } else {
        exact
    }
}

/// Rescales an odds value to three decimal places.
pub fn rescale_odds(val: i64, from_decimals: u32) -> (r: i32)
    requires
        from_decimals <= 18,
    ensures
        r == spec_rescale_odds(val as int, from_decimals as nat),
{
    if from_decimals <= 3 {
        let factor = pow10_i64(3 - from_decimals);
        proof {
            assert(-0x4000_0000_0000_0000_0000_0000_0000_0000 <= (val as int) * (factor as int)
                <= 0x4000_0000_0000_0000_0000_0000_0000_0000) by (nonlinear_arith)
                requires
                    -0x8000_0000_0000_0000 <= val as int <= 0x7fff_ffff_ffff_ffff,
                    1 <= factor as int <= 1_000_000_000_000_000_000,
            ;
        }
        let exact: i128 = (val as i128) * (factor as i128);
        clamp_i32(exact)
    } else {
        let factor = pow10_i64(from_decimals - 3);
        let q = round_half_even_div(val as i128, factor as i128);
        proof {
            lemma_rounding_near(val as int, factor as int);
        }
        clamp_i32(q)
    }
}

/// Saturates a wide integer to the `i32` range.
fn clamp_i32(v: i128) -> (r: i32)
    ensures
        v > i32::MAX ==> r == i32::MAX,
        v < i32::MIN ==> r == i32::MIN,
        i32::MIN <= v <= i32::MAX ==> r == v,
{
    if v > i32::MAX as i128 {
        i32::MAX
    } else if v < i32::MIN as i128 {
        i32::MIN
    } else {
        v as i32
    }
}

} // verus!
