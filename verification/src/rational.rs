//! Exact rational values for filter evaluation.
//!
//! A value is a fraction `num / den` with a positive denominator, both
//! bounded so that every cross product and tolerance comparison fits in
//! `i128`.  Arithmetic is exact; a result that cannot be represented within
//! the bounds is absent, and the filter combinators treat absence as a
//! non-match.

use vstd::prelude::*;

verus! {

/// Bound on numerators and denominators: `2^50`.
pub const Q_BOUND: i64 = 0x4_0000_0000_0000;

/// A rational number `num / den`.
#[derive(Debug, Clone, Copy, PartialEq, Eq, Structural)]
pub struct Q {
    pub num: i64,
    pub den: i64,
}

/// Well-formed: positive denominator, both parts within the bound.
pub open spec fn q_wf(a: Q) -> bool {
    0 < a.den <= Q_BOUND && -Q_BOUND <= a.num <= Q_BOUND
}

/// `a <= b` as rationals.
pub open spec fn q_le(a: Q, b: Q) -> bool {
    a.num * b.den <= b.num * a.den
}

/// `a < b` as rationals.
pub open spec fn q_lt(a: Q, b: Q) -> bool {
    a.num * b.den < b.num * a.den
}

/// `|a - b| < 10^-5`: the tolerance under which filter values compare equal.
pub open spec fn q_approx_eq(a: Q, b: Q) -> bool {
    let d = a.num * b.den - b.num * a.den;
    100_000 * (if d < 0 {
        -d
    } else {
        d
    }) < a.den * b.den
}

/// The integer `v` as a rational.
pub open spec fn spec_q_int(v: i64) -> Q {
    Q { num: v, den: 1 }
}

/// A value in thousandths as a rational.
pub open spec fn spec_q_milli(v: i64) -> Q {
    Q { num: v, den: 1000 }
}

impl Q {
    /// The integer `v` as a rational (within the bound).
    pub fn from_int(v: i64) -> (r: Option<Q>)
        ensures
            -Q_BOUND <= v <= Q_BOUND ==> r == Some(spec_q_int(v)),
            !(-Q_BOUND <= v <= Q_BOUND) ==> r is None,
    {
        if -Q_BOUND <= v && v <= Q_BOUND {
            Some(Q { num: v, den: 1 })
        } else {
            None
        }
    }

    /// A value carried in thousandths as a rational (within the bound).
    pub fn from_milli(v: i64) -> (r: Option<Q>)
        ensures
            -Q_BOUND <= v <= Q_BOUND ==> r == Some(spec_q_milli(v)),
            !(-Q_BOUND <= v <= Q_BOUND) ==> r is None,
    {
        if -Q_BOUND <= v && v <= Q_BOUND {
            Some(Q { num: v, den: 1000 })
        } else {
            None
        }
    }

    /// `self <= other` as rationals.
    pub fn le(self, other: Q) -> (r: bool)
        requires
            q_wf(self),
            q_wf(other),
        ensures
            r == q_le(self, other),
    {
        proof {
            lemma_q_products(self, other);
        }
        (self.num as i128) * (other.den as i128) <= (other.num as i128) * (self.den as i128)
    }

    /// `self < other` as rationals.
    pub fn lt(self, other: Q) -> (r: bool)
        requires
            q_wf(self),
            q_wf(other),
        ensures
            r == q_lt(self, other),
    {
        proof {
            lemma_q_products(self, other);
        }
        (self.num as i128) * (other.den as i128) < (other.num as i128) * (self.den as i128)
    }

    /// `|self - other| < 10^-5`.
    pub fn approx_eq(self, other: Q) -> (r: bool)
        requires
            q_wf(self),
            q_wf(other),
        ensures
            r == q_approx_eq(self, other),
    {
        proof {
            lemma_q_products(self, other);
        }
        let d: i128 = (self.num as i128) * (other.den as i128) - (other.num as i128)
            * (self.den as i128);
        let ad: i128 = if d < 0 {
            -d
        } else {
            d
        };
        100_000 * ad < (self.den as i128) * (other.den as i128)
    }

    /// The exact sum, when it stays within the bounds.
    pub fn add(self, other: Q) -> (r: Option<Q>)
        requires
            q_wf(self),
            q_wf(other),
        ensures
            match r {
                Some(v) => q_wf(v) && v.num == self.num * other.den + other.num * self.den
                    && v.den == self.den * other.den,
                None => !(-Q_BOUND <= self.num * other.den + other.num * self.den <= Q_BOUND)
                    || self.den * other.den > Q_BOUND,
            },
    {
        proof {
            lemma_q_products(self, other);
        }
        let n: i128 = (self.num as i128) * (other.den as i128) + (other.num as i128)
            * (self.den as i128);
        let d: i128 = (self.den as i128) * (other.den as i128);
        pack_q(n, d)
    }

    /// The exact difference, when it stays within the bounds.
    pub fn sub(self, other: Q) -> (r: Option<Q>)
        requires
            q_wf(self),
            q_wf(other),
        ensures
            match r {
                Some(v) => q_wf(v) && v.num == self.num * other.den - other.num * self.den
                    && v.den == self.den * other.den,
                None => !(-Q_BOUND <= self.num * other.den - other.num * self.den <= Q_BOUND)
                    || self.den * other.den > Q_BOUND,
            },
    {
        proof {
            lemma_q_products(self, other);
        }
        let n: i128 = (self.num as i128) * (other.den as i128) - (other.num as i128)
            * (self.den as i128);
        let d: i128 = (self.den as i128) * (other.den as i128);
        pack_q(n, d)
    }

    /// The exact product, when it stays within the bounds.
    pub fn mul(self, other: Q) -> (r: Option<Q>)
        requires
            q_wf(self),
            q_wf(other),
        ensures
            match r {
                Some(v) => q_wf(v) && v.num == self.num * other.num && v.den == self.den
                    * other.den,
                None => !(-Q_BOUND <= self.num * other.num <= Q_BOUND) || self.den * other.den
                    > Q_BOUND,
            },
    {
        proof {
            lemma_q_products(self, other);
        }
        let n: i128 = (self.num as i128) * (other.num as i128);
        let d: i128 = (self.den as i128) * (other.den as i128);
        pack_q(n, d)
    }

    /// The exact quotient; absent when the divisor is zero or the result
    /// leaves the bounds.
    pub fn div(self, other: Q) -> (r: Option<Q>)
        requires
            q_wf(self),
            q_wf(other),
        ensures
            other.num == 0 ==> r is None,
            other.num != 0 ==> match r {
                Some(v) => {
                    &&& q_wf(v)
                    &&& v.num == if other.num > 0 {
                        self.num * other.den
                    } else {
                        -(self.num * other.den)
                    }
                    &&& v.den == if other.num > 0 {
                        self.den * other.num
                    } else {
                        -(self.den * other.num)
                    }
                },
                None => !(-Q_BOUND <= self.num * other.den <= Q_BOUND) || !(-Q_BOUND <= self.den
                    * other.num <= Q_BOUND),
            },
    {
        proof {
            lemma_q_products(self, other);
        }
        if other.num == 0 {
            return None;
        }
        let mut n: i128 = (self.num as i128) * (other.den as i128);
        let mut d: i128 = (self.den as i128) * (other.num as i128);
        proof {
            assert((other.num > 0 ==> (self.den as int) * (other.num as int) > 0) && (other.num
                < 0 ==> (self.den as int) * (other.num as int) < 0)) by (nonlinear_arith)
                requires
                    self.den > 0,
            ;
        }
        if d < 0 {
            n = -n;
            d = -d;
        }
        pack_q(n, d)
    }
}

/// Packs an exact `i128` fraction back into the bounded form.
fn pack_q(n: i128, d: i128) -> (r: Option<Q>)
    requires
        d != 0,
        -0x4000_0000_0000_0000_0000_0000_0000_0000 <= n <= 0x4000_0000_0000_0000_0000_0000_0000_0000,
        -0x4000_0000_0000_0000_0000_0000_0000_0000 <= d <= 0x4000_0000_0000_0000_0000_0000_0000_0000,
    ensures
        match r {
            Some(v) => 0 < d && q_wf(v) && v.num == n && v.den == d,
            None => d < 0 || !(-Q_BOUND <= n <= Q_BOUND) || d > Q_BOUND,
        },
{
    if d < 0 {
        return None;
    }
    if n < -Q_BOUND as i128 || n > Q_BOUND as i128 || d > Q_BOUND as i128 {
        return None;
    }
    Some(Q { num: n as i64, den: d as i64 })
}

/// All cross products of two well-formed rationals fit comfortably in
/// `i128`.
proof fn lemma_q_products(a: Q, b: Q)
    requires
        q_wf(a),
        q_wf(b),
    ensures
        -0x1000_0000_0000_0000_0000_0000_0000 <= a.num * b.den
            <= 0x1000_0000_0000_0000_0000_0000_0000,
        -0x1000_0000_0000_0000_0000_0000_0000 <= b.num * a.den
            <= 0x1000_0000_0000_0000_0000_0000_0000,
        -0x1000_0000_0000_0000_0000_0000_0000 <= a.num * b.num
            <= 0x1000_0000_0000_0000_0000_0000_0000,
        0 < a.den * b.den <= 0x1000_0000_0000_0000_0000_0000_0000,
        -0x1000_0000_0000_0000_0000_0000_0000 <= a.den * b.num
            <= 0x1000_0000_0000_0000_0000_0000_0000,
{
    assert(-0x1000_0000_0000_0000_0000_0000_0000 <= a.num * b.den
        <= 0x1000_0000_0000_0000_0000_0000_0000 && -0x1000_0000_0000_0000_0000_0000_0000 <= b.num
        * a.den <= 0x1000_0000_0000_0000_0000_0000_0000
        && -0x1000_0000_0000_0000_0000_0000_0000 <= a.num * b.num
        <= 0x1000_0000_0000_0000_0000_0000_0000 && 0 < a.den * b.den
        <= 0x1000_0000_0000_0000_0000_0000_0000 && -0x1000_0000_0000_0000_0000_0000_0000 <= a.den
        * b.num <= 0x1000_0000_0000_0000_0000_0000_0000) by (nonlinear_arith)
        requires
            0 < a.den <= 0x4_0000_0000_0000,
            -0x4_0000_0000_0000 <= a.num <= 0x4_0000_0000_0000,
            0 < b.den <= 0x4_0000_0000_0000,
            -0x4_0000_0000_0000 <= b.num <= 0x4_0000_0000_0000,
    ;
}

/// Order on rationals is transitive.
pub proof fn lemma_q_le_trans(a: Q, b: Q, c: Q)
    requires
        q_wf(a),
        q_wf(b),
        q_wf(c),
        q_le(a, b),
        q_le(b, c),
    ensures
        q_le(a, c),
{
    assert(a.num * c.den <= c.num * a.den) by (nonlinear_arith)
        requires
            a.num * b.den <= b.num * a.den,
            b.num * c.den <= c.num * b.den,
            a.den > 0,
            b.den > 0,
            c.den > 0,
    ;
}

} // verus!
