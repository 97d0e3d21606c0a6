//! Exact rational scalars.
//!
//! Every coordinate, offset and resolution in this crate is an exact
//! fraction of two machine integers. All arithmetic on them is exact, so
//! the coordinate transforms of the map are lossless and their round-trip
//! laws hold as mathematical identities rather than approximately.

use vstd::prelude::*;

verus! {


/// Absolute value as an `int`.
pub open spec fn iabs(x: int) -> int {
    if x < 0 {
        -x
    } else {
        x
    }
}

/// Mathematical value of a fraction: numerator and denominator as
/// unbounded integers. Well-formed values have a positive denominator.
pub ghost struct Rat {
    pub num: int,
    pub den: int,
}

/// Two fractions denote the same rational number (cross multiplication).
pub open spec fn rat_eq(a: Rat, b: Rat) -> bool {
    a.num * b.den == b.num * a.den
}

/// `a <= b` as rational numbers; meaningful when both denominators are
/// positive.
pub open spec fn rat_le(a: Rat, b: Rat) -> bool {
    a.num * b.den <= b.num * a.den
}

/// `a < b` as rational numbers; meaningful when both denominators are
/// positive.
pub open spec fn rat_lt(a: Rat, b: Rat) -> bool {
    a.num * b.den < b.num * a.den
}

pub open spec fn rat_add(a: Rat, b: Rat) -> Rat {
    Rat { num: a.num * b.den + b.num * a.den, den: a.den * b.den }
}

pub open spec fn rat_sub(a: Rat, b: Rat) -> Rat {
    Rat { num: a.num * b.den - b.num * a.den, den: a.den * b.den }
}

pub open spec fn rat_mul(a: Rat, b: Rat) -> Rat {
    Rat { num: a.num * b.num, den: a.den * b.den }
}

/// Division by `b`; meaningful when `b.num > 0`.
pub open spec fn rat_div(a: Rat, b: Rat) -> Rat {
    Rat { num: a.num * b.den, den: a.den * b.num }
}

pub open spec fn rat_abs(a: Rat) -> Rat {
    Rat { num: iabs(a.num), den: a.den }
}

pub open spec fn rat_from_int(n: int) -> Rat {
    Rat { num: n, den: 1 }
}

/// The greatest integer at most `a` (the denominator being positive,
/// Euclidean division is floor division).
pub open spec fn rat_floor(a: Rat) -> int {
    a.num / a.den
}

/// The least integer at least `a`, for a positive denominator.
pub open spec fn rat_ceil(a: Rat) -> int {
    -((-a.num) / a.den)
}

/// The floor of a rational depends only on its value: value-equal
/// fractions have equal floors.
pub proof fn lemma_rat_floor_eq(a: Rat, b: Rat)
    requires
        rat_eq(a, b),
        a.den > 0,
        b.den > 0,
    ensures
        rat_floor(a) == rat_floor(b),
{
    let q = rat_floor(a);
    vstd::arithmetic::div_mod::lemma_fundamental_div_mod(a.num, a.den);
    vstd::arithmetic::div_mod::lemma_mod_division_less_than_divisor(a.num, a.den);
    assert(a.den * q <= a.num < a.den * (q + 1)) by (nonlinear_arith)
        requires
            a.num == a.den * q + a.num % a.den,
            0 <= a.num % a.den < a.den,
    ;
    assert(b.den * q <= b.num < b.den * (q + 1)) by (nonlinear_arith)
        requires
            a.den * q <= a.num < a.den * (q + 1),
            a.num * b.den == b.num * a.den,
            a.den > 0,
            b.den > 0,
    ;
    let rr = b.num - b.den * q;
    assert(b.num == q * b.den + rr && 0 <= rr < b.den) by (nonlinear_arith)
        requires
            b.den * q <= b.num < b.den * (q + 1),
            rr == b.num - b.den * q,
    ;
    vstd::arithmetic::div_mod::lemma_fundamental_div_mod_converse_div(b.num, b.den, q, rr);
}

/// The ceiling of a rational depends only on its value.
pub proof fn lemma_rat_ceil_eq(a: Rat, b: Rat)
    requires
        rat_eq(a, b),
        a.den > 0,
        b.den > 0,
    ensures
        rat_ceil(a) == rat_ceil(b),
{
    assert((-a.num) * b.den == (-b.num) * a.den) by (nonlinear_arith)
        requires
            a.num * b.den == b.num * a.den,
    ;
    lemma_rat_floor_eq(Rat { num: -a.num, den: a.den }, Rat { num: -b.num, den: b.den });
}

/// An exact rational scalar held as a fraction of two `i128` values.
#[derive(Clone, Copy, Debug, PartialEq)]
pub struct Real {
    num: i128,
    den: i128,
}

impl View for Real {
    type V = Rat;

    closed spec fn view(&self) -> Rat {
        Rat { num: self.num as int, den: self.den as int }
    }
}

impl Real {
    /// Well-formed: positive denominator, and the numerator avoids the one
    /// `i128` value whose magnitude has no `i128` representation.
    pub open spec fn wf(&self) -> bool {
        self@.den > 0 && self@.num > i128::MIN
    }

    /// All components no larger in magnitude than `b`, with a positive
    /// denominator. Arithmetic preconditions are stated with this.
    pub open spec fn bounded(&self, b: int) -> bool {
        iabs(self@.num) <= b && 0 < self@.den <= b
    }

    /// Numerator magnitude at most `bn`, denominator positive and at
    /// most `bd`. Implies well-formedness for any in-range bound.
    pub open spec fn sized(&self, bn: int, bd: int) -> bool {
        iabs(self@.num) <= bn && 0 < self@.den <= bd && self@.num > i128::MIN
    }
}

pub(crate) proof fn lemma_mul_abs_bound(x: int, y: int, a: int, b: int)
    by (nonlinear_arith)
    requires
        iabs(x) <= a,
        iabs(y) <= b,
    ensures
        iabs(x * y) <= a * b,
        iabs(x) * iabs(y) <= a * b,
        x * y <= a * b,
        -(a * b) <= x * y,
{
}

pub(crate) proof fn lemma_mul_pos(x: int, y: int)
    by (nonlinear_arith)
    requires
        x > 0,
        y > 0,
    ensures
        x * y > 0,
{
}

/// `d` divides `y` and the remainder of `x` by `y`, hence `d` divides `x`.
proof fn lemma_divides_through_mod(x: int, y: int, d: int)
    requires
        d >= 1,
        y >= 1,
        y % d == 0,
        (x % y) % d == 0,
    ensures
        x % d == 0,
{
    vstd::arithmetic::div_mod::lemma_fundamental_div_mod(x, y);
    vstd::arithmetic::div_mod::lemma_fundamental_div_mod(y, d);
    vstd::arithmetic::div_mod::lemma_fundamental_div_mod(x % y, d);
    let qy = y / d;
    let qr = (x % y) / d;
    assert(x == d * (qy * (x / y) + qr)) by (nonlinear_arith)
        requires
            x == y * (x / y) + x % y,
            y == d * qy,
            x % y == d * qr,
    ;
    vstd::arithmetic::div_mod::lemma_mod_multiples_basic(qy * (x / y) + qr, d);
    assert((d * (qy * (x / y) + qr)) % d == ((qy * (x / y) + qr) * d) % d) by (nonlinear_arith);
}

/// Greatest common divisor by Euclid's algorithm. The contract states
/// that the result is a positive common divisor, which is what reduction
/// needs to preserve a fraction's value.
fn gcd_u(a: u128, b: u128) -> (g: u128)
    requires
        a > 0 || b > 0,
    ensures
        g > 0,
        (a as int) % (g as int) == 0,
        (b as int) % (g as int) == 0,
{
    let mut x: u128 = a;
    let mut y: u128 = b;
    while y != 0
        invariant
            x > 0 || y > 0,
            forall|d: int|
                1 <= d && #[trigger] ((x as int) % d) == 0 && (y as int) % d == 0 ==> (
                a as int) % d == 0 && (b as int) % d == 0,
        decreases y,
    {
        let r: u128 = x % y;
        proof {
            assert forall|d: int|
                1 <= d && #[trigger] ((y as int) % d) == 0 && (r as int) % d == 0 implies (
            a as int) % d == 0 && (b as int) % d == 0 by {
                lemma_divides_through_mod(x as int, y as int, d);
            }
        }
        x = y;
        y = r;
    }
    proof {
        vstd::arithmetic::div_mod::lemma_mod_self_0(x as int);
        assert(0int % (x as int) == 0);
    }
    x
}

/// Divide out a known common divisor; exact, and the value is unchanged.
fn divide_exact(m: u128, g: u128) -> (q: u128)
    requires
        g > 0,
        (m as int) % (g as int) == 0,
    ensures
        q <= m,
        m as int == q as int * g as int,
        m > 0 ==> q > 0,
{
    let q: u128 = m / g;
    proof {
        vstd::arithmetic::div_mod::lemma_fundamental_div_mod(m as int, g as int);
        assert(m as int == q as int * g as int) by (nonlinear_arith)
            requires
                m as int == g as int * ((m as int) / (g as int)) + (m as int) % (g as int),
                (m as int) % (g as int) == 0,
                q as int == (m as int) / (g as int),
        ;
        assert(q <= m) by (nonlinear_arith)
            requires
                m as int == q as int * g as int,
                g >= 1,
                q >= 0,
        ;
        if m > 0 {
            assert(q > 0) by (nonlinear_arith)
                requires
                    m as int == q as int * g as int,
                    m > 0,
                    g > 0,
                    q >= 0,
            ;
        }
    }
    q
}

/// Build the scalar `n / d` in lowest terms, for `d > 0`.
fn reduced(n: i128, d: i128) -> (r: Real)
    requires
        d > 0,
        n > i128::MIN,
    ensures
        r.wf(),
        rat_eq(r@, Rat { num: n as int, den: d as int }),
        iabs(r@.num) <= iabs(n as int),
        r@.den <= d,
{
    let neg: bool = n < 0;
    let mag: u128 = if neg {
        (-n) as u128
    } else {
        n as u128
    };
    let g: u128 = gcd_u(mag, d as u128);
    let qm: u128 = divide_exact(mag, g);
    let qd: u128 = divide_exact(d as u128, g);
    let rn: i128 = if neg {
        -(qm as i128)
    } else {
        qm as i128
    };
    let r = Real { num: rn, den: qd as i128 };
    proof {
        if neg {
            assert(rn as int * d as int == n as int * qd as int) by (nonlinear_arith)
                requires
                    n as int == -(mag as int),
                    rn as int == -(qm as int),
                    mag as int == qm as int * g as int,
                    d as int == qd as int * g as int,
            ;
        } else {
            assert(rn as int * d as int == n as int * qd as int) by (nonlinear_arith)
                requires
                    n as int == mag as int,
                    rn as int == qm as int,
                    mag as int == qm as int * g as int,
                    d as int == qd as int * g as int,
            ;
        }
    }
    r
}

impl Real {
    /// The scalar `num / den`. The denominator may be negative; the value
    /// is stored in lowest terms with a positive denominator.
    pub fn new(num: i128, den: i128) -> (r: Real)
        requires
            den != 0,
            num > i128::MIN,
            den > i128::MIN,
        ensures
            r.wf(),
            rat_eq(r@, Rat { num: num as int, den: den as int }),
            iabs(r@.num) <= iabs(num as int),
            r@.den <= iabs(den as int),
    {
        if den < 0 {
            let r = reduced(-num, -den);
            proof {
                assert(rat_eq(r@, Rat { num: num as int, den: den as int })) by (nonlinear_arith)
                    requires
                        rat_eq(r@, Rat { num: -num as int, den: -den as int }),
                        r@.den > 0,
                        den < 0,
                ;
            }
            r
        } else {
            reduced(num, den)
        }
    }

    /// The scalar `num / den` stored with exactly these components,
    /// for a positive denominator. Unlike `new`, no reduction happens:
    /// the stored representation is the given one.
    pub(crate) fn from_parts(num: i128, den: i128) -> (r: Real)
        requires
            den > 0,
            num > i128::MIN,
        ensures
            r.wf(),
            r@ == (Rat { num: num as int, den: den as int }),
    {
        Real { num, den }
    }

    /// The integer `n` as a scalar.
    pub fn from_int(n: i128) -> (r: Real)
        requires
            n > i128::MIN,
        ensures
            r.wf(),
            r@ == rat_from_int(n as int),
    {
        Real { num: n, den: 1 }
    }

    /// Numerator of the stored (lowest-terms) fraction.
    pub fn num(&self) -> (n: i128)
        ensures
            n as int == self@.num,
    {
        self.num
    }

    /// Denominator of the stored (lowest-terms) fraction.
    pub fn den(&self) -> (d: i128)
        ensures
            d as int == self@.den,
    {
        self.den
    }

    pub fn add(&self, other: &Real) -> (r: Real)
        requires
            self.wf(),
            other.wf(),
            iabs(self@.num) * other@.den + iabs(other@.num) * self@.den <= i128::MAX,
            self@.den * other@.den <= i128::MAX,
        ensures
            r.wf(),
            rat_eq(r@, rat_add(self@, other@)),
            iabs(r@.num) <= iabs(self@.num) * other@.den + iabs(other@.num) * self@.den,
            r@.den <= self@.den * other@.den,
    {
        proof {
            lemma_mul_abs_bound(self@.num, other@.den, iabs(self@.num), other@.den);
            lemma_mul_abs_bound(other@.num, self@.den, iabs(other@.num), self@.den);
            lemma_mul_abs_bound(self@.den, other@.den, self@.den, other@.den);
            lemma_mul_pos(self@.den, other@.den);
        }
        let n: i128 = self.num * other.den + other.num * self.den;
        let d: i128 = self.den * other.den;
        let r = reduced(n, d);
        r
    }

    pub fn sub(&self, other: &Real) -> (r: Real)
        requires
            self.wf(),
            other.wf(),
            iabs(self@.num) * other@.den + iabs(other@.num) * self@.den <= i128::MAX,
            self@.den * other@.den <= i128::MAX,
        ensures
            r.wf(),
            rat_eq(r@, rat_sub(self@, other@)),
            iabs(r@.num) <= iabs(self@.num) * other@.den + iabs(other@.num) * self@.den,
            r@.den <= self@.den * other@.den,
    {
        proof {
            lemma_mul_abs_bound(self@.num, other@.den, iabs(self@.num), other@.den);
            lemma_mul_abs_bound(other@.num, self@.den, iabs(other@.num), self@.den);
            lemma_mul_abs_bound(self@.den, other@.den, self@.den, other@.den);
            lemma_mul_pos(self@.den, other@.den);
        }
        let n: i128 = self.num * other.den - other.num * self.den;
        let d: i128 = self.den * other.den;
        let r = reduced(n, d);
        r
    }

    pub fn mul(&self, other: &Real) -> (r: Real)
        requires
            self.wf(),
            other.wf(),
            iabs(self@.num) * iabs(other@.num) <= i128::MAX,
            self@.den * other@.den <= i128::MAX,
        ensures
            r.wf(),
            rat_eq(r@, rat_mul(self@, other@)),
            iabs(r@.num) <= iabs(self@.num) * iabs(other@.num),
            r@.den <= self@.den * other@.den,
    {
        proof {
            lemma_mul_abs_bound(self@.num, other@.num, iabs(self@.num), iabs(other@.num));
            lemma_mul_abs_bound(self@.den, other@.den, self@.den, other@.den);
            lemma_mul_pos(self@.den, other@.den);
        }
        let n: i128 = self.num * other.num;
        let d: i128 = self.den * other.den;
        let r = reduced(n, d);
        r
    }

    /// Exact division; the divisor must be a positive scalar.
    pub fn div(&self, other: &Real) -> (r: Real)
        requires
            self.wf(),
            other.wf(),
            other@.num > 0,
            iabs(self@.num) * other@.den <= i128::MAX,
            self@.den * other@.num <= i128::MAX,
        ensures
            r.wf(),
            rat_eq(r@, rat_div(self@, other@)),
            iabs(r@.num) <= iabs(self@.num) * other@.den,
            r@.den <= self@.den * other@.num,
    {
        proof {
            lemma_mul_abs_bound(self@.num, other@.den, iabs(self@.num), other@.den);
            lemma_mul_abs_bound(self@.den, other@.num, self@.den, other@.num);
            lemma_mul_pos(self@.den, other@.num);
        }
        let n: i128 = self.num * other.den;
        let d: i128 = self.den * other.num;
        let r = reduced(n, d);
        r
    }

    /// Absolute value.
    pub fn abs_val(&self) -> (r: Real)
        requires
            self.wf(),
        ensures
            r.wf(),
            r@ == rat_abs(self@),
            r@.den == self@.den,
    {
        if self.num < 0 {
            Real { num: -self.num, den: self.den }
        } else {
            Real { num: self.num, den: self.den }
        }
    }

    /// Comparison of the rational values.
    pub fn le(&self, other: &Real) -> (r: bool)
        requires
            self.wf(),
            other.wf(),
            iabs(self@.num) * other@.den <= i128::MAX,
            iabs(other@.num) * self@.den <= i128::MAX,
        ensures
            r == rat_le(self@, other@),
    {
        proof {
            lemma_mul_abs_bound(self@.num, other@.den, iabs(self@.num), other@.den);
            lemma_mul_abs_bound(other@.num, self@.den, iabs(other@.num), self@.den);
        }
        self.num * other.den <= other.num * self.den
    }

    /// Strict comparison of the rational values.
    pub fn lt(&self, other: &Real) -> (r: bool)
        requires
            self.wf(),
            other.wf(),
            iabs(self@.num) * other@.den <= i128::MAX,
            iabs(other@.num) * self@.den <= i128::MAX,
        ensures
            r == rat_lt(self@, other@),
    {
        proof {
            lemma_mul_abs_bound(self@.num, other@.den, iabs(self@.num), other@.den);
            lemma_mul_abs_bound(other@.num, self@.den, iabs(other@.num), self@.den);
        }
        self.num * other.den < other.num * self.den
    }

    /// The smaller of the two values (the first on ties).
    pub fn min_val(&self, other: &Real) -> (r: Real)
        requires
            self.wf(),
            other.wf(),
            iabs(self@.num) * other@.den <= i128::MAX,
            iabs(other@.num) * self@.den <= i128::MAX,
        ensures
            r.wf(),
            r@ == if rat_le(self@, other@) {
                self@
            } else {
                other@
            },
    {
        if self.le(other) {
            *self
        } else {
            *other
        }
    }

    /// The larger of the two values (the first on ties).
    pub fn max_val(&self, other: &Real) -> (r: Real)
        requires
            self.wf(),
            other.wf(),
            iabs(self@.num) * other@.den <= i128::MAX,
            iabs(other@.num) * self@.den <= i128::MAX,
        ensures
            r.wf(),
            r@ == if rat_le(other@, self@) {
                self@
            } else {
                other@
            },
    {
        if other.le(self) {
            *self
        } else {
            *other
        }
    }

    /// The ceiling of the value, as an integer.
    pub fn ceil_int(&self) -> (r: i128)
        requires
            self.wf(),
            self@.num < i128::MAX,
        ensures
            r as int == rat_ceil(self@),
    {
        proof {
            vstd::arithmetic::div_mod::lemma_fundamental_div_mod(-self@.num, self@.den);
            vstd::arithmetic::div_mod::lemma_mod_division_less_than_divisor(
                -self@.num,
                self@.den,
            );
            assert(i128::MIN < (-self@.num) / self@.den <= i128::MAX) by (nonlinear_arith)
                requires
                    self@.den > 0,
                    -self@.num > i128::MIN,
                    -self@.num <= i128::MAX,
                    -self@.num == self@.den * ((-self@.num) / self@.den) + (-self@.num)
                        % self@.den,
                    0 <= (-self@.num) % self@.den < self@.den,
            ;
        }
        let m: i128 = -self.num;
        let q: i128 = match m.checked_div_euclid(self.den) {
            Some(q) => q,
            None => 0,  // unreachable: the quotient always fits
        };
        -q
    }

    /// The floor of the value, as an integer.
    pub fn floor_int(&self) -> (r: i128)
        requires
            self.wf(),
        ensures
            r as int == rat_floor(self@),
    {
        proof {
            vstd::arithmetic::div_mod::lemma_fundamental_div_mod(self@.num, self@.den);
            vstd::arithmetic::div_mod::lemma_mod_division_less_than_divisor(self@.num, self@.den);
            assert(i128::MIN <= self@.num / self@.den <= i128::MAX) by (nonlinear_arith)
                requires
                    self@.den > 0,
                    self@.num > i128::MIN,
                    self@.num == self@.den * (self@.num / self@.den) + self@.num % self@.den,
                    0 <= self@.num % self@.den < self@.den,
            ;
        }
        match self.num.checked_div_euclid(self.den) {
            Some(q) => q,
            None => 0,  // unreachable: the quotient always fits
        }
    }
}

} // verus!
