//! Exact rational arithmetic for the tableau.
//!
//! A `Rat` is a fraction `num / den` with a positive denominator.  Fractions
//! are not reduced; every operation computes the exact numerator and
//! denominator in 128-bit intermediates and reports `None` when the exact
//! result does not fit back into the 64-bit representation.

use vstd::prelude::*;

verus! {

/// An exact rational number `num / den`; the denominator is always positive.
#[derive(Clone, Copy, Debug, PartialEq, Eq, Structural)]
pub struct Rat {
    pub num: i64,
    pub den: i64,
}

/// `a <= b` as rational values (valid when both denominators are positive).
pub open spec fn rat_le(a: Rat, b: Rat) -> bool {
    a.num * b.den <= b.num * a.den
}

/// `a < b` as rational values (valid when both denominators are positive).
pub open spec fn rat_lt(a: Rat, b: Rat) -> bool {
    a.num * b.den < b.num * a.den
}

/// Exact numerator of `a + b` before any reduction.
pub open spec fn add_num(a: Rat, b: Rat) -> int {
    a.num * b.den + b.num * a.den
}

/// Exact numerator of `a - b` before any reduction.
pub open spec fn sub_num(a: Rat, b: Rat) -> int {
    a.num * b.den - b.num * a.den
}

/// Exact denominator of `a + b` and `a - b`.
pub open spec fn addsub_den(a: Rat, b: Rat) -> int {
    a.den * b.den
}

/// Exact numerator of `a * b`.
pub open spec fn mul_num(a: Rat, b: Rat) -> int {
    a.num * b.num
}

/// Exact denominator of `a * b`.
pub open spec fn mul_den(a: Rat, b: Rat) -> int {
    a.den * b.den
}

/// Exact numerator of `a / b`, sign-adjusted so the denominator stays positive.
pub open spec fn div_num(a: Rat, b: Rat) -> int {
    if b.num > 0 {
        a.num * b.den
    } else {
        -(a.num * b.den)
    }
}

/// Exact denominator of `a / b`, sign-adjusted so it stays positive.
pub open spec fn div_den(a: Rat, b: Rat) -> int {
    if b.num > 0 {
        a.den * b.num
    } else {
        -(a.den * b.num)
    }
}

/// Exact numerator of `a - f * s` (one row-reduction step) before any
/// reduction, written over the factors of the product.
pub open spec fn elim_num(a: Rat, f: Rat, s: Rat) -> int {
    a.num * (f.den * s.den) - (f.num * s.num) * a.den
}

/// Exact denominator of `a - f * s`.
pub open spec fn elim_den(a: Rat, f: Rat, s: Rat) -> int {
    a.den * (f.den * s.den)
}

/// The exact value fits the 64-bit representation.
pub open spec fn fits(n: int, d: int) -> bool {
    &&& i64::MIN <= n <= i64::MAX
    &&& d <= i64::MAX
}

/// Bound on a product from bounds on its factors.
proof fn lemma_mul_bound(x: int, y: int, a: int, c: int)
    by (nonlinear_arith)
    requires
        0 <= a,
        0 <= c,
        -a <= x <= a,
        -c <= y <= c,
    ensures
        -(a * c) <= x * y <= a * c,
{
}

/// Products of two `i64` factors stay well inside `i128`.
proof fn lemma_i64_product_bound(x: int, y: int)
    requires
        i64::MIN <= x <= i64::MAX,
        i64::MIN <= y <= i64::MAX,
    ensures
        -0x4000_0000_0000_0000_0000_0000_0000_0000 <= x * y
            <= 0x4000_0000_0000_0000_0000_0000_0000_0000,
{
    lemma_mul_bound(x, y, 0x8000_0000_0000_0000, 0x8000_0000_0000_0000);
}

/// A product of an `i64` with a positive `i64` denominator is bounded a bit
/// more tightly, so that a sum of two such products still fits `i128`.
proof fn lemma_i64_posden_product_bound(x: int, d: int)
    requires
        i64::MIN <= x <= i64::MAX,
        0 < d <= i64::MAX,
    ensures
        -0x3fff_ffff_ffff_ffff_8000_0000_0000_0000 <= x * d
            <= 0x3fff_ffff_ffff_ffff_8000_0000_0000_0000,
{
    lemma_mul_bound(x, d, 0x8000_0000_0000_0000, 0x7fff_ffff_ffff_ffff);
}

/// A product of two positive factors is positive.
pub(crate) proof fn lemma_pos_product(x: int, y: int)
    by (nonlinear_arith)
    requires
        0 < x,
        0 < y,
    ensures
        0 < x * y,
{
}

/// A product of a positive and a negative factor is negative.
pub(crate) proof fn lemma_neg_product(x: int, y: int)
    by (nonlinear_arith)
    requires
        0 < x,
        y < 0,
    ensures
        x * y < 0,
{
}

/// Strict-then-weak transitivity of the rational order: `a < b <= c` gives
/// `a < c` (all denominators positive).
pub(crate) proof fn lemma_rat_lt_le_trans(a: Rat, b: Rat, c: Rat)
    by (nonlinear_arith)
    requires
        a.wf(),
        b.wf(),
        c.wf(),
        rat_lt(a, b),
        !rat_lt(c, b),
    ensures
        rat_lt(a, c),
        !rat_lt(c, a),
{
}

/// Weak-then-strict transitivity of the rational order: `a <= b < c` gives
/// `a < c` (all denominators positive).
pub(crate) proof fn lemma_rat_le_lt_trans(a: Rat, b: Rat, c: Rat)
    by (nonlinear_arith)
    requires
        a.wf(),
        b.wf(),
        c.wf(),
        !rat_lt(b, a),
        rat_lt(b, c),
    ensures
        rat_lt(a, c),
        !rat_lt(c, a),
{
}

/// Dividing a nonzero rational by itself gives numerator equal to
/// denominator, both positive: an exact one.
pub proof fn lemma_div_self_is_one(a: Rat)
    requires
        a.wf(),
        a.num != 0,
    ensures
        div_num(a, a) == div_den(a, a),
        0 < div_den(a, a),
{
    assert(a.num * a.den == a.den * a.num) by (nonlinear_arith);
    if a.num > 0 {
        lemma_pos_product(a.den as int, a.num as int);
    } else {
        lemma_neg_product(a.den as int, a.num as int);
    }
}

/// Packs an exact 128-bit numerator/denominator pair back into a `Rat`,
/// reporting exactly when the pair is out of range.
fn fit(n: i128, d: i128) -> (r: Option<Rat>)
    requires
        1 <= d,
    ensures
        match r {
            Some(c) => c.num == n && c.den == d && c.wf(),
            None => !fits(n as int, d as int),
        },
        r is Some <==> fits(n as int, d as int),
{
    if n >= i64::MIN as i128 && n <= i64::MAX as i128 && d <= i64::MAX as i128 {
        Some(Rat { num: n as i64, den: d as i64 })
    } else {
        None
    }
}

impl Rat {
    /// The representation is valid: the denominator is positive.
    pub open spec fn wf(self) -> bool {
        0 < self.den
    }

    /// The value is `>= 0`.
    pub open spec fn is_nonneg(self) -> bool {
        0 <= self.num
    }

    /// The value is exactly zero.
    pub open spec fn is_zero(self) -> bool {
        self.num == 0
    }

    /// The value is exactly one.
    pub open spec fn is_one(self) -> bool {
        self.num == self.den
    }

    /// The rational with integer value `v`.
    pub fn from_int(v: i64) -> (r: Rat)
        ensures
            r.num == v,
            r.den == 1,
            r.wf(),
    {
        Rat { num: v, den: 1 }
    }

    /// The fraction `num / den` for a positive denominator.
    pub fn new(num: i64, den: i64) -> (r: Rat)
        requires
            0 < den,
        ensures
            r.num == num,
            r.den == den,
            r.wf(),
    {
        Rat { num, den }
    }

    /// Exact addition; `None` exactly when the unreduced result is out of range.
    pub fn checked_add(self, other: Rat) -> (r: Option<Rat>)
        requires
            self.wf(),
            other.wf(),
        ensures
            match r {
                Some(c) => c.num == add_num(self, other) && c.den == addsub_den(self, other)
                    && c.wf(),
                None => !fits(add_num(self, other), addsub_den(self, other)),
            },
    {
        proof {
            lemma_i64_posden_product_bound(self.num as int, other.den as int);
            lemma_i64_posden_product_bound(other.num as int, self.den as int);
            lemma_i64_posden_product_bound(self.den as int, other.den as int);
            lemma_pos_product(self.den as int, other.den as int);
        }
        let n: i128 = (self.num as i128) * (other.den as i128)
            + (other.num as i128) * (self.den as i128);
        let d: i128 = (self.den as i128) * (other.den as i128);
        fit(n, d)
    }

    /// Exact subtraction; `None` exactly when the unreduced result is out of range.
    pub fn checked_sub(self, other: Rat) -> (r: Option<Rat>)
        requires
            self.wf(),
            other.wf(),
        ensures
            match r {
                Some(c) => c.num == sub_num(self, other) && c.den == addsub_den(self, other)
                    && c.wf(),
                None => !fits(sub_num(self, other), addsub_den(self, other)),
            },
    {
        proof {
            lemma_i64_posden_product_bound(self.num as int, other.den as int);
            lemma_i64_posden_product_bound(other.num as int, self.den as int);
            lemma_i64_posden_product_bound(self.den as int, other.den as int);
            lemma_pos_product(self.den as int, other.den as int);
        }
        let n: i128 = (self.num as i128) * (other.den as i128)
            - (other.num as i128) * (self.den as i128);
        let d: i128 = (self.den as i128) * (other.den as i128);
        fit(n, d)
    }

    /// Exact multiplication; `None` exactly when the unreduced result is out of range.
    pub fn checked_mul(self, other: Rat) -> (r: Option<Rat>)
        requires
            self.wf(),
            other.wf(),
        ensures
            match r {
                Some(c) => c.num == mul_num(self, other) && c.den == mul_den(self, other)
                    && c.wf(),
                None => !fits(mul_num(self, other), mul_den(self, other)),
            },
    {
        proof {
            lemma_i64_product_bound(self.num as int, other.num as int);
            lemma_i64_posden_product_bound(self.den as int, other.den as int);
            lemma_pos_product(self.den as int, other.den as int);
        }
        let n: i128 = (self.num as i128) * (other.num as i128);
        let d: i128 = (self.den as i128) * (other.den as i128);
        fit(n, d)
    }

    /// Exact division by a nonzero rational; the result's denominator is kept
    /// positive.  `None` exactly when the unreduced result is out of range.
    pub fn checked_div(self, other: Rat) -> (r: Option<Rat>)
        requires
            self.wf(),
            other.wf(),
            other.num != 0,
        ensures
            match r {
                Some(c) => c.num == div_num(self, other) && c.den == div_den(self, other)
                    && c.wf(),
                None => !fits(div_num(self, other), div_den(self, other)),
            },
    {
        proof {
            lemma_i64_posden_product_bound(self.num as int, other.den as int);
            lemma_i64_posden_product_bound(self.den as int, other.den as int);
            lemma_i64_product_bound(self.den as int, other.num as int);
            if other.num > 0 {
                lemma_pos_product(self.den as int, other.num as int);
            } else {
                lemma_neg_product(self.den as int, other.num as int);
            }
        }
        let n: i128 = (self.num as i128) * (other.den as i128);
        let d: i128 = (self.den as i128) * (other.num as i128);
        if d < 0 {
            fit(-n, -d)
        } else {
            fit(n, d)
        }
    }

    /// Exact comparison `self < other` by cross-multiplication.
    pub fn lt(self, other: Rat) -> (r: bool)
        requires
            self.wf(),
            other.wf(),
        ensures
            r <==> rat_lt(self, other),
    {
        proof {
            lemma_i64_posden_product_bound(self.num as int, other.den as int);
            lemma_i64_posden_product_bound(other.num as int, self.den as int);
        }
        (self.num as i128) * (other.den as i128) < (other.num as i128) * (self.den as i128)
    }

    /// Exact comparison `self <= other` by cross-multiplication.
    pub fn le(self, other: Rat) -> (r: bool)
        requires
            self.wf(),
            other.wf(),
        ensures
            r <==> rat_le(self, other),
    {
        proof {
            lemma_i64_posden_product_bound(self.num as int, other.den as int);
            lemma_i64_posden_product_bound(other.num as int, self.den as int);
        }
        (self.num as i128) * (other.den as i128) <= (other.num as i128) * (self.den as i128)
    }
}

} // verus!
