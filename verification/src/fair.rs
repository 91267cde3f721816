//! Fair odds: margin-proportional de-vigorish.
//!
//! Given a vector of `n` integer-encoded odds `o_i` at scale `S = 10^decimals`
//! the decimal odds are `d_i = o_i / S`, the bookmaker's margin is
//! `M = sum(1 / d_i) - 1`, and each fair decimal value is
//! `f_i = (n * d_i) / (n - M * d_i)`, re-encoded as `round(f_i * S)` with
//! ties away from zero.  Inputs are rejected when any odds value is
//! non-positive, when `M` exceeds `12%`, or when any denominator
//! `n - M * d_i` is non-positive.
//!
//! All arithmetic here is exact over integers: with `P` the product of the
//! odds and `Q = sum_j(P / o_j)`, the margin satisfies `M = (S*Q - P) / P`,
//! `M > 0.12` is `25*S*Q > 28*P`, and `f_i * S` is the exact fraction
//! `n*S*P / E_i` with `E_i = n*S*prod_except(i) - S*Q + P`.

use vstd::prelude::*;

use crate::numeric::{pow10_i64, round_half_away_div, spec_pow10, spec_round_half_away};

verus! {

/// Product of a sequence of integers.
pub open spec fn spec_prod(s: Seq<int>) -> int
    decreases s.len(),
{
    if s.len() == 0 {
        1
    } else {
        s[0] * spec_prod(s.drop_first())
    }
}

/// `sum_j(prod_except(s, j))`: the numerator of `sum_j(1 / s[j])` over the
/// common denominator `spec_prod(s)`.
pub open spec fn spec_coprod_sum(s: Seq<int>) -> int
    decreases s.len(),
{
    if s.len() == 0 {
        0
    } else {
        spec_prod(s.drop_first()) + s[0] * spec_coprod_sum(s.drop_first())
    }
}

/// The odds sequence as unbounded integers.
pub open spec fn spec_ints(s: Seq<i32>) -> Seq<int> {
    s.map_values(|x: i32| x as int)
}

/// All odds strictly positive.
pub open spec fn spec_all_positive(o: Seq<int>) -> bool {
    forall|i: int| 0 <= i < o.len() ==> o[i] > 0
}

/// The margin `(S*Q - P) / P` exceeds `12%` (`P > 0`).
pub open spec fn spec_margin_high(o: Seq<int>, s: int) -> bool {
    25 * s * spec_coprod_sum(o) > 28 * spec_prod(o)
}

/// Exact denominator of `f_i * S`, scaled by `prod(o) / o[i]`.
pub open spec fn spec_fair_denom(o: Seq<int>, s: int, i: int) -> int {
    o.len() * s * spec_prod(o.remove(i)) - s * spec_coprod_sum(o) + spec_prod(o)
}

/// The fair-odds computation succeeds on `o` at scale `s`.
pub open spec fn spec_fair_ok(o: Seq<int>, s: int) -> bool {
    &&& spec_all_positive(o)
    &&& !spec_margin_high(o, s)
    &&& forall|i: int| 0 <= i < o.len() ==> spec_fair_denom(o, s, i) > 0
}

/// The re-encoded fair value at position `i`: `round(n*S*P / E_i)` with ties
/// away from zero.
pub open spec fn spec_fair_value(o: Seq<int>, s: int, i: int) -> int {
    spec_round_half_away(o.len() * s * spec_prod(o), spec_fair_denom(o, s, i))
}

/// Saturation of an unbounded integer to the `i32` range.
pub open spec fn spec_clamp_i32(v: int) -> int {
    if v > i32::MAX as int {
        i32::MAX as int
    } else if v < i32::MIN as int {
        i32::MIN as int
    } else {
        v
    }
}

/// Unfolds product and co-product for a two-element sequence.
proof fn lemma_prod2(o: Seq<int>)
    requires
        o.len() == 2,
    ensures
        spec_prod(o) == o[0] * o[1],
        spec_coprod_sum(o) == o[1] + o[0],
        spec_prod(o.remove(0)) == o[1],
        spec_prod(o.remove(1)) == o[0],
{
    let t = o.drop_first();
    assert(t.len() == 1);
    assert(t.drop_first().len() == 0);
    assert(spec_prod(t.drop_first()) == 1);
    assert(spec_coprod_sum(t.drop_first()) == 0);
    assert(spec_prod(t) == t[0] * 1);
    assert(spec_coprod_sum(t) == 1 + t[0] * 0);
    assert(o.remove(0) =~= seq![o[1]]);
    assert(o.remove(1) =~= seq![o[0]]);
    assert(spec_prod(seq![o[1]]) == o[1] * spec_prod(seq![o[1]].drop_first()));
    assert(seq![o[1]].drop_first().len() == 0);
    assert(spec_prod(seq![o[0]]) == o[0] * spec_prod(seq![o[0]].drop_first()));
    assert(seq![o[0]].drop_first().len() == 0);
}

/// Unfolds product and co-product for a three-element sequence.
proof fn lemma_prod3(o: Seq<int>)
    requires
        o.len() == 3,
    ensures
        spec_prod(o) == o[0] * (o[1] * o[2]),
        spec_coprod_sum(o) == o[1] * o[2] + o[0] * (o[2] + o[1]),
        spec_prod(o.remove(0)) == o[1] * o[2],
        spec_prod(o.remove(1)) == o[0] * o[2],
        spec_prod(o.remove(2)) == o[0] * o[1],
{
    let t = o.drop_first();
    assert(t =~= seq![o[1], o[2]]);
    lemma_prod2(t);
    assert(spec_prod(o) == o[0] * (o[1] * o[2]));
    assert(spec_coprod_sum(o) == o[1] * o[2] + o[0] * (o[2] + o[1]));
    assert(o.remove(0) =~= seq![o[1], o[2]]);
    lemma_prod2(seq![o[1], o[2]]);
    assert(o.remove(1) =~= seq![o[0], o[2]]);
    lemma_prod2(seq![o[0], o[2]]);
    assert(o.remove(2) =~= seq![o[0], o[1]]);
    lemma_prod2(seq![o[0], o[1]]);
}

/// Calculates fair odds with the margin-weights-proportional-to-odds method.
///
/// Returns `None` when the slice length disagrees with `n`, when any odds
/// value is non-positive, when the margin exceeds `12%`, or when a fair-value
/// denominator is non-positive; otherwise every position carries the exact
/// re-encoded fair value, saturated to the `i32` range.
pub fn calculate_fair_odds(odds: &[i32], decimals: i32, n: usize) -> (r: Option<Vec<i32>>)
    requires
        0 <= decimals <= 9,
        n <= 3,
    ensures
        r.is_some() <==> (odds@.len() == n && spec_fair_ok(
            spec_ints(odds@),
            spec_pow10(decimals as nat),
        )),
        r.is_some() ==> r.unwrap()@.len() == n,
        r.is_some() ==> forall|i: int|
            0 <= i < n ==> r.unwrap()@[i] == spec_clamp_i32(
                spec_fair_value(spec_ints(odds@), spec_pow10(decimals as nat), i),
            ),
{
    let ghost o = spec_ints(odds@);
    if odds.len() != n {
        return None;
    }
    let s: i128 = pow10_i64(decimals as u32) as i128;
    proof {
        crate::numeric::lemma_pow10_le(decimals as nat, 9);
        crate::numeric::lemma_pow10_concrete();
        assert(1 <= s <= 1_000_000_000);
    }
    if n == 0 {
        proof {
            assert(spec_prod(o) == 1);
            assert(spec_coprod_sum(o) == 0);
            assert(spec_fair_ok(o, s as int));
        }
        return Some(Vec::new());
    }
    if n == 1 {
        let a: i128 = odds[0] as i128;
        proof {
            assert(o.len() == 1);
            assert(o[0] == odds@[0] as int);
            assert(o.drop_first().len() == 0);
            assert(spec_prod(o.drop_first()) == 1);
            assert(spec_coprod_sum(o.drop_first()) == 0);
            assert(spec_prod(o) == o[0] * 1);
            assert(spec_coprod_sum(o) == 1 + o[0] * 0);
            assert(o.remove(0) =~= Seq::<int>::empty());
        }
        if a <= 0 {
            proof {
                assert(o[0] <= 0);
            }
            return None;
        }
        // margin: 25*s*1 > 28*a; denominator: 1*s*1 - s*1 + a == a > 0.
        if 25 * s > 28 * a {
            proof {
                assert(25 * (s as int) * spec_coprod_sum(o) == 25 * (s as int))
                    by (nonlinear_arith)
                    requires
                        spec_coprod_sum(o) == 1,
                ;
                assert(28 * spec_prod(o) == 28 * o[0]);
                assert(spec_margin_high(o, s as int));
            }
            return None;
        }
        proof {
            assert(0 <= s * a <= 0x1000_0000_0000_0000_0000_0000) by (nonlinear_arith)
                requires
                    1 <= a <= 0x8000_0000,
                    1 <= s <= 1_000_000_000,
            ;
        }
        let e: i128 = a;
        let num: i128 = s * a;
        let v = round_half_away_div(num, e);
        let enc = clamp_to_i32(v);
        let mut out: Vec<i32> = Vec::new();
        out.push(enc);
        proof {
            assert(spec_fair_denom(o, s as int, 0) == 1 * (s as int) * 1 - (s as int) * 1 + o[0]);
            assert(spec_fair_ok(o, s as int));
            assert(out@[0] == spec_clamp_i32(spec_fair_value(o, s as int, 0)));
        }
        return Some(out);
    }
    if n == 2 {
        let a: i128 = odds[0] as i128;
        let b: i128 = odds[1] as i128;
        proof {
            assert(o.len() == 2);
            assert(o[0] == odds@[0] as int && o[1] == odds@[1] as int);
            lemma_prod2(o);
        }
        if a <= 0 || b <= 0 {
            proof {
                assert(o[0] <= 0 || o[1] <= 0);
            }
            return None;
        }
        proof {
            assert(1 <= a * b <= 0x4000_0000_0000_0000 && 0 <= 25 * s * (a + b)
                <= 1_000_000_000_000_000_000_000 && 0 <= 2 * s * (a * b)
                <= 10_000_000_000_000_000_000_000_000_000 && 0 <= s * (a + b)
                <= 10_000_000_000_000_000_000 && 0 <= 2 * s * b <= 10_000_000_000_000_000_000 && 0
                <= 2 * s * a <= 10_000_000_000_000_000_000) by (nonlinear_arith)
                requires
                    1 <= a <= 0x8000_0000,
                    1 <= b <= 0x8000_0000,
                    1 <= s <= 1_000_000_000,
            ;
        }
        let p: i128 = a * b;
        let q: i128 = a + b;
        if 25 * s * q > 28 * p {
            return None;
        }
        let num: i128 = 2 * s * p;
        let e0: i128 = 2 * s * b - s * q + p;
        let e1: i128 = 2 * s * a - s * q + p;
        proof {
            assert(spec_fair_denom(o, s as int, 0) == e0 as int);
            assert(spec_fair_denom(o, s as int, 1) == e1 as int);
            assert(o.len() * (s as int) * spec_prod(o) == num as int);
        }
        if e0 <= 0 || e1 <= 0 {
            proof {
                assert(!spec_fair_ok(o, s as int));
            }
            return None;
        }
        let v0 = clamp_to_i32(round_half_away_div(num, e0));
        let v1 = clamp_to_i32(round_half_away_div(num, e1));
        let mut out: Vec<i32> = Vec::new();
        out.push(v0);
        out.push(v1);
        proof {
            assert(spec_fair_ok(o, s as int));
            assert(out@[0] == spec_clamp_i32(spec_fair_value(o, s as int, 0)));
            assert(out@[1] == spec_clamp_i32(spec_fair_value(o, s as int, 1)));
        }
        return Some(out);
    }
    let a: i128 = odds[0] as i128;
    let b: i128 = odds[1] as i128;
    let c: i128 = odds[2] as i128;
    proof {
        assert(o.len() == 3);
        assert(o[0] == odds@[0] as int && o[1] == odds@[1] as int && o[2] == odds@[2] as int);
        lemma_prod3(o);
    }
    if a <= 0 || b <= 0 || c <= 0 {
        proof {
            assert(o[0] <= 0 || o[1] <= 0 || o[2] <= 0);
        }
        return None;
    }
    proof {
        assert(1 <= a * b <= 0x4000_0000_0000_0000 && 1 <= b * c <= 0x4000_0000_0000_0000 && 1
            <= a * c <= 0x4000_0000_0000_0000) by (nonlinear_arith)
            requires
                1 <= a <= 0x8000_0000,
                1 <= b <= 0x8000_0000,
                1 <= c <= 0x8000_0000,
        ;
        assert(1 <= a * (b * c) <= 0x2000_0000_0000_0000_0000_0000) by (nonlinear_arith)
            requires
                1 <= a <= 0x8000_0000,
                1 <= b * c <= 0x4000_0000_0000_0000,
        ;
    }
    let bc: i128 = b * c;
    let ac: i128 = a * c;
    let ab: i128 = a * b;
    let p: i128 = a * bc;
    let q: i128 = bc + ac + ab;
    proof {
        assert(spec_prod(o) == p && spec_coprod_sum(o) == q) by {
            lemma_prod3(o);
            assert(a * (c + b) == a * c + a * b) by (nonlinear_arith);
        }
    }
    proof {
        assert(0 <= 25 * s * q <= 1_000_000_000_000_000_000_000_000_000_000 && 0 <= 3 * s * p
            <= 0x4000_0000_0000_0000_0000_0000_0000_0000 && 0 <= 3 * s * bc
            <= 100_000_000_000_000_000_000_000_000_000 && 0 <= 3 * s * ac
            <= 100_000_000_000_000_000_000_000_000_000 && 0 <= 3 * s * ab
            <= 100_000_000_000_000_000_000_000_000_000 && 0 <= s * q
            <= 100_000_000_000_000_000_000_000_000_000) by (nonlinear_arith)
            requires
                1 <= s <= 1_000_000_000,
                0 <= q <= 0xC000_0000_0000_0000,
                0 <= bc <= 0x4000_0000_0000_0000,
                0 <= ac <= 0x4000_0000_0000_0000,
                0 <= ab <= 0x4000_0000_0000_0000,
                0 <= p <= 0x2000_0000_0000_0000_0000_0000,
        ;
    }
    if 25 * s * q > 28 * p {
        return None;
    }
    let num: i128 = 3 * s * p;
    let e0: i128 = 3 * s * bc - s * q + p;
    let e1: i128 = 3 * s * ac - s * q + p;
    let e2: i128 = 3 * s * ab - s * q + p;
    proof {
        assert(spec_fair_denom(o, s as int, 0) == e0 as int);
        assert(spec_fair_denom(o, s as int, 1) == e1 as int);
        assert(spec_fair_denom(o, s as int, 2) == e2 as int);
        assert(o.len() * (s as int) * spec_prod(o) == num as int);
    }
    if e0 <= 0 || e1 <= 0 || e2 <= 0 {
        proof {
            assert(!spec_fair_ok(o, s as int));
        }
        return None;
    }
    let v0 = clamp_to_i32(round_half_away_div(num, e0));
    let v1 = clamp_to_i32(round_half_away_div(num, e1));
    let v2 = clamp_to_i32(round_half_away_div(num, e2));
    let mut out: Vec<i32> = Vec::new();
    out.push(v0);
    out.push(v1);
    out.push(v2);
    proof {
        assert(spec_fair_ok(o, s as int));
        assert(out@[0] == spec_clamp_i32(spec_fair_value(o, s as int, 0)));
        assert(out@[1] == spec_clamp_i32(spec_fair_value(o, s as int, 1)));
        assert(out@[2] == spec_clamp_i32(spec_fair_value(o, s as int, 2)));
    }
    Some(out)
}

/// Saturates a wide value to `i32`, mirroring `spec_clamp_i32`.
fn clamp_to_i32(v: i128) -> (r: i32)
    ensures
        r == spec_clamp_i32(v as int),
{
    if v > i32::MAX as i128 {
        i32::MAX
    } else if v < i32::MIN as i128 {
        i32::MIN
    } else {
        v as i32
    }
}

/// A fair odds vector has no margin left: feeding it back through the
/// algorithm returns exactly the same vector (well within the one-unit
/// round-trip allowance).  "No margin" is `sum(1 / d_i) == 1`, that is
/// `S * Q == P`.
pub proof fn lemma_fair_odds_round_trip(o: Seq<int>, s: int, i: int)
    requires
        0 <= i < o.len(),
        s >= 1,
        spec_all_positive(o),
        s * spec_coprod_sum(o) == spec_prod(o),
        spec_fair_denom(o, s, i) > 0,
    ensures
        spec_fair_value(o, s, i) == o[i],
{
    let p = spec_prod(o);
    let q = spec_coprod_sum(o);
    let pi = spec_prod(o.remove(i));
    lemma_prod_remove(o, i);
    assert(spec_fair_denom(o, s, i) == o.len() * s * pi);
    assert(o.len() * s * p == (o.len() * s * pi) * o[i]) by (nonlinear_arith)
        requires
            p == o[i] * pi,
    ;
    lemma_round_exact(o.len() * s * p, o.len() * s * pi, o[i]);
}

/// With the margin above `12%` the computation rejects the input.
pub proof fn lemma_fair_odds_rejected(o: Seq<int>, s: int)
    requires
        25 * s * spec_coprod_sum(o) > 28 * spec_prod(o),
    ensures
        !spec_fair_ok(o, s),
{
}

/// `prod(o) == o[i] * prod(o.remove(i))` for sequences of positive length.
proof fn lemma_prod_remove(o: Seq<int>, i: int)
    requires
        0 <= i < o.len(),
    ensures
        spec_prod(o) == o[i] * spec_prod(o.remove(i)),
    decreases o.len(),
{
    if i == 0 {
        assert(o.remove(0) =~= o.drop_first());
    } else {
        let t = o.drop_first();
        lemma_prod_remove(t, i - 1);
        assert(o.remove(i).drop_first() =~= t.remove(i - 1));
        assert(o.remove(i)[0] == o[0]);
        assert(spec_prod(o.remove(i)) == o[0] * spec_prod(t.remove(i - 1)));
        assert(spec_prod(o) == o[0] * spec_prod(t));
        assert(spec_prod(t) == t[i - 1] * spec_prod(t.remove(i - 1)));
        assert(o[i] == t[i - 1]);
        assert(o[0] * (o[i] * spec_prod(t.remove(i - 1))) == o[i] * (o[0] * spec_prod(
            t.remove(i - 1),
        ))) by (nonlinear_arith);
    }
}

/// Rounding an exact multiple returns the quotient itself.
proof fn lemma_round_exact(num: int, den: int, v: int)
    requires
        den > 0,
        num == den * v,
    ensures
        spec_round_half_away(num, den) == v,
{
    assert(num == v * den + 0) by (nonlinear_arith)
        requires
            num == den * v,
    ;
    vstd::arithmetic::div_mod::lemma_fundamental_div_mod_converse(num, den, v, 0);
}

} // verus!
