//! Exact rational numbers used for allocation fractions, together with the
//! spec-level fraction arithmetic that the sum-to-one laws are stated over.

use vstd::prelude::*;

verus! {

/// An exact rational number `num / den`. Well formed when `den > 0`.
#[derive(Clone, Copy, Debug)]
pub struct Rational {
    pub num: i128,
    pub den: i128,
}

impl Rational {
    /// A rational is well formed when its denominator is positive.
    pub open spec fn valid(self) -> bool {
        self.den > 0
    }

    /// The rational value of `self` as a spec-level fraction.
    pub open spec fn frac(self) -> (int, int) {
        (self.num as int, self.den as int)
    }
}

/// Spec-level fraction equality: `a` and `b` denote the same rational value.
/// Meaningful when both denominators are nonzero.
pub open spec fn frac_eq(a: (int, int), b: (int, int)) -> bool {
    a.0 * b.1 == b.0 * a.1
}

/// Spec-level fraction order: `a < b` as rational values, for positive
/// denominators.
pub open spec fn frac_lt(a: (int, int), b: (int, int)) -> bool {
    a.0 * b.1 < b.0 * a.1
}

/// Fraction equality is transitive through a fraction with nonzero
/// denominator.
pub proof fn lemma_frac_eq_trans(a: (int, int), b: (int, int), c: (int, int))
    requires
        frac_eq(a, b),
        frac_eq(b, c),
        b.1 != 0,
    ensures
        frac_eq(a, c),
{
    assert(a.0 * c.1 == c.0 * a.1) by (nonlinear_arith)
        requires
            a.0 * b.1 == b.0 * a.1,
            b.0 * c.1 == c.0 * b.1,
            b.1 != 0,
    ;
}

/// Spec-level fraction addition.
pub open spec fn frac_add(a: (int, int), b: (int, int)) -> (int, int) {
    (a.0 * b.1 + b.0 * a.1, a.1 * b.1)
}

/// The exact sum of a sequence of fractions, folded from the left.
pub open spec fn frac_sum(s: Seq<(int, int)>) -> (int, int)
    decreases s.len(),
{
    if s.len() == 0 {
        (0int, 1int)
    } else {
        frac_add(frac_sum(s.drop_last()), s.last())
    }
}

/// The sum of the numerators of a sequence of fractions.
pub open spec fn numerator_sum(s: Seq<(int, int)>) -> int
    decreases s.len(),
{
    if s.len() == 0 {
        0int
    } else {
        numerator_sum(s.drop_last()) + s.last().0
    }
}

/// Summing fractions that share one positive denominator `d` gives a fraction
/// equal in value to (sum of numerators) / d, and the sum's denominator stays
/// positive.
pub proof fn lemma_frac_sum_common_den(s: Seq<(int, int)>, d: int)
    requires
        d > 0,
        forall|i: int| 0 <= i < s.len() ==> (#[trigger] s[i]).1 == d,
    ensures
        frac_sum(s).1 > 0,
        frac_sum(s).0 * d == numerator_sum(s) * frac_sum(s).1,
    decreases s.len(),
{
    if s.len() == 0 {
        let p = frac_sum(s);
        assert(p.0 * d == numerator_sum(s) * p.1) by (nonlinear_arith)
            requires
                p.0 == 0,
                p.1 == 1,
                numerator_sum(s) == 0,
        ;
    } else {
        let t = s.drop_last();
        lemma_frac_sum_common_den(t, d);
        let p = frac_sum(t);
        let np = numerator_sum(t);
        let n = s.last().0;
        assert(s.last().1 == d);
        assert(frac_sum(s) == (p.0 * d + n * p.1, p.1 * d));
        assert(numerator_sum(s) == np + n);
        assert(p.1 * d > 0) by (nonlinear_arith)
            requires
                p.1 > 0,
                d > 0,
        ;
        assert((p.0 * d + n * p.1) * d == (np + n) * (p.1 * d)) by (nonlinear_arith)
            requires
                p.0 * d == np * p.1,
        ;
        assert(frac_sum(s).0 * d == numerator_sum(s) * frac_sum(s).1);
    }
}

/// A family of fractions over one positive denominator whose numerators sum to
/// that denominator sums to exactly one.
pub proof fn lemma_frac_sum_to_one(s: Seq<(int, int)>, d: int)
    requires
        d > 0,
        forall|i: int| 0 <= i < s.len() ==> (#[trigger] s[i]).1 == d,
        numerator_sum(s) == d,
    ensures
        frac_sum(s).1 > 0,
        frac_eq(frac_sum(s), (1int, 1int)),
{
    lemma_frac_sum_common_den(s, d);
    let p = frac_sum(s);
    assert(p.0 == p.1) by (nonlinear_arith)
        requires
            p.0 * d == d * p.1,
            d > 0,
    ;
}

} // verus!
