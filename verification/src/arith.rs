//! Products and sums over integer sequences: the mathematical model behind the
//! inverse-volatility weights, together with the bound lemmas that rule
//! machine-arithmetic overflow in or out.

use vstd::prelude::*;

verus! {

/// Product of a sequence of integers, folded from the left.
pub open spec fn seq_prod(s: Seq<int>) -> int
    decreases s.len(),
{
    if s.len() == 0 {
        1int
    } else {
        seq_prod(s.drop_last()) * s.last()
    }
}

/// Product of the first `j` elements of `s` with the element at `i` skipped.
pub open spec fn prefix_prod_except(s: Seq<int>, i: int, j: int) -> int {
    if j <= i {
        seq_prod(s.subrange(0, j))
    } else {
        seq_prod(s.subrange(0, i)) * seq_prod(s.subrange(i + 1, j))
    }
}

/// Product of all elements of `s` except the one at index `i`.
pub open spec fn prod_except(s: Seq<int>, i: int) -> int {
    prefix_prod_except(s, i, s.len() as int)
}

/// Sum of `prod_except(s, i)` over the first `k` indices.
pub open spec fn partial_weight_sum(s: Seq<int>, k: int) -> int
    decreases k,
{
    if k <= 0 {
        0int
    } else {
        partial_weight_sum(s, k - 1) + prod_except(s, k - 1)
    }
}

/// Sum of `prod_except(s, i)` over all indices: the common denominator of the
/// inverse-volatility weights.
pub open spec fn weight_sum(s: Seq<int>) -> int {
    partial_weight_sum(s, s.len() as int)
}

/// Every element of `s` is at least one.
pub open spec fn all_at_least_one(s: Seq<int>) -> bool {
    forall|i: int| 0 <= i < s.len() ==> #[trigger] s[i] >= 1
}

/// A product of elements that are all at least one is at least one.
pub proof fn lemma_seq_prod_at_least_one(s: Seq<int>)
    requires
        all_at_least_one(s),
    ensures
        seq_prod(s) >= 1,
    decreases s.len(),
{
    if s.len() == 0 {
    } else {
        let t = s.drop_last();
        assert(all_at_least_one(t));
        lemma_seq_prod_at_least_one(t);
        assert(s.last() >= 1);
        assert(seq_prod(t) * s.last() >= 1) by (nonlinear_arith)
            requires
                seq_prod(t) >= 1,
                s.last() >= 1,
        ;
    }
}

/// Extending a subrange product by one more element multiplies it in.
pub proof fn lemma_seq_prod_extend(s: Seq<int>, a: int, j: int)
    requires
        0 <= a <= j < s.len(),
    ensures
        seq_prod(s.subrange(a, j + 1)) == seq_prod(s.subrange(a, j)) * s[j],
{
    let ext = s.subrange(a, j + 1);
    assert(ext.drop_last() =~= s.subrange(a, j));
    assert(ext.last() == s[j]);
}

/// A partial except-one product is at least one when all elements are.
pub proof fn lemma_prefix_prod_at_least_one(s: Seq<int>, i: int, j: int)
    requires
        all_at_least_one(s),
        0 <= i < s.len(),
        0 <= j <= s.len(),
    ensures
        prefix_prod_except(s, i, j) >= 1,
{
    if j <= i {
        let a = s.subrange(0, j);
        assert(all_at_least_one(a));
        lemma_seq_prod_at_least_one(a);
    } else {
        let a = s.subrange(0, i);
        let b = s.subrange(i + 1, j);
        assert(all_at_least_one(a));
        assert(all_at_least_one(b));
        lemma_seq_prod_at_least_one(a);
        lemma_seq_prod_at_least_one(b);
        assert(seq_prod(a) * seq_prod(b) >= 1) by (nonlinear_arith)
            requires
                seq_prod(a) >= 1,
                seq_prod(b) >= 1,
        ;
    }
}

/// Taking one more factor into a partial except-one product never shrinks it.
pub proof fn lemma_prefix_prod_step(s: Seq<int>, i: int, j: int)
    requires
        all_at_least_one(s),
        0 <= i < s.len(),
        0 <= j < s.len(),
    ensures
        prefix_prod_except(s, i, j) <= prefix_prod_except(s, i, j + 1),
        j != i ==> prefix_prod_except(s, i, j + 1) == prefix_prod_except(s, i, j) * s[j],
        j == i ==> prefix_prod_except(s, i, j + 1) == prefix_prod_except(s, i, j),
{
    lemma_prefix_prod_at_least_one(s, i, j);
    if j < i {
        lemma_seq_prod_extend(s, 0, j);
        assert(prefix_prod_except(s, i, j + 1) == prefix_prod_except(s, i, j) * s[j]);
    } else if j == i {
        assert(s.subrange(i + 1, i + 1) =~= Seq::<int>::empty());
        assert(prefix_prod_except(s, i, j + 1) == seq_prod(s.subrange(0, i)) * 1int);
    } else {
        lemma_seq_prod_extend(s, i + 1, j);
        let a = seq_prod(s.subrange(0, i));
        let b = seq_prod(s.subrange(i + 1, j));
        assert(a * (b * s[j]) == (a * b) * s[j]) by (nonlinear_arith);
    }
    if j != i {
        assert(prefix_prod_except(s, i, j) * s[j] >= prefix_prod_except(s, i, j) * 1) by (nonlinear_arith)
            requires
                prefix_prod_except(s, i, j) >= 1,
                s[j] >= 1,
        ;
    }
}

/// A partial except-one product never exceeds the full except-one product.
pub proof fn lemma_prefix_prod_le_full(s: Seq<int>, i: int, j: int)
    requires
        all_at_least_one(s),
        0 <= i < s.len(),
        0 <= j <= s.len(),
    ensures
        prefix_prod_except(s, i, j) <= prod_except(s, i),
    decreases s.len() - j,
{
    if j == s.len() {
    } else {
        lemma_prefix_prod_step(s, i, j);
        lemma_prefix_prod_le_full(s, i, j + 1);
    }
}

/// Partial weight sums grow with the index, and each term is at least one.
pub proof fn lemma_partial_weight_sum_monotone(s: Seq<int>, k1: int, k2: int)
    requires
        all_at_least_one(s),
        0 <= k1 <= k2 <= s.len(),
    ensures
        partial_weight_sum(s, k1) <= partial_weight_sum(s, k2),
        partial_weight_sum(s, k1) >= 0,
    decreases k2,
{
    if k2 > 0 {
        lemma_prefix_prod_at_least_one(s, k2 - 1, s.len() as int);
        if k1 == k2 {
            lemma_partial_weight_sum_monotone(s, k1 - 1, k2 - 1);
        } else {
            lemma_partial_weight_sum_monotone(s, k1, k2 - 1);
        }
    }
}

/// Each except-one product is bounded by the full weight sum.
pub proof fn lemma_prod_except_le_weight_sum(s: Seq<int>, i: int)
    requires
        all_at_least_one(s),
        0 <= i < s.len(),
    ensures
        prod_except(s, i) <= weight_sum(s),
{
    lemma_partial_weight_sum_monotone(s, 0, i);
    lemma_partial_weight_sum_monotone(s, i + 1, s.len() as int);
    assert(partial_weight_sum(s, i + 1) == partial_weight_sum(s, i) + prod_except(s, i));
    lemma_partial_weight_sum_monotone(s, 0, i + 1);
}

/// Concatenation multiplies sequence products.
pub proof fn lemma_seq_prod_concat(x: Seq<int>, y: Seq<int>)
    ensures
        seq_prod(x + y) == seq_prod(x) * seq_prod(y),
    decreases y.len(),
{
    if y.len() == 0 {
        assert(x + y =~= x);
    } else {
        let t = y.drop_last();
        assert((x + y).drop_last() =~= x + t);
        assert((x + y).last() == y.last());
        lemma_seq_prod_concat(x, t);
        assert((seq_prod(x) * seq_prod(t)) * y.last() == seq_prod(x) * (seq_prod(t) * y.last()))
            by (nonlinear_arith);
    }
}

/// The except-one product times the skipped element gives the full product.
pub proof fn lemma_prod_except_times_elem(s: Seq<int>, i: int)
    requires
        0 <= i < s.len(),
    ensures
        prod_except(s, i) * s[i] == seq_prod(s),
{
    let a = s.subrange(0, i);
    let b = s.subrange(i + 1, s.len() as int);
    let m = s.subrange(i, i + 1);
    assert(s =~= a + m + b);
    lemma_seq_prod_concat(a + m, b);
    lemma_seq_prod_concat(a, m);
    assert(m.drop_last() =~= Seq::<int>::empty());
    assert(m.last() == s[i]);
    assert(seq_prod(Seq::<int>::empty()) == 1);
    assert(seq_prod(m) == s[i]);
    assert((seq_prod(a) * s[i]) * seq_prod(b) == (seq_prod(a) * seq_prod(b)) * s[i])
        by (nonlinear_arith);
}

/// The magnitude (absolute value) of an integer.
pub open spec fn mag(x: int) -> int {
    if x < 0 {
        -x
    } else {
        x
    }
}

/// Magnitudes multiply.
pub proof fn lemma_mag_mul(a: int, b: int)
    ensures
        mag(a * b) == mag(a) * mag(b),
{
    assert(mag(a * b) == mag(a) * mag(b)) by (nonlinear_arith);
}

/// The magnitude of `t` times a partial except-one product is bounded by the
/// magnitude of `t` times the full except-one product.
pub proof fn lemma_mag_times_prefix_le(t: int, s: Seq<int>, i: int, j: int)
    requires
        all_at_least_one(s),
        0 <= i < s.len(),
        0 <= j <= s.len(),
    ensures
        mag(t * prefix_prod_except(s, i, j)) <= mag(t * prod_except(s, i)),
{
    lemma_prefix_prod_le_full(s, i, j);
    lemma_prefix_prod_at_least_one(s, i, j);
    lemma_mag_mul(t, prefix_prod_except(s, i, j));
    lemma_mag_mul(t, prod_except(s, i));
    let a = prefix_prod_except(s, i, j);
    let b = prod_except(s, i);
    assert(mag(a) == a && mag(b) == b);
    assert(mag(t) * a <= mag(t) * b) by (nonlinear_arith)
        requires
            mag(t) >= 0,
            a <= b,
    ;
}

/// Multiplying by a factor of magnitude at least one never shrinks magnitude.
pub proof fn lemma_mag_mul_grows(a: int, b: int)
    requires
        mag(b) >= 1,
    ensures
        mag(a * b) >= mag(a),
{
    lemma_mag_mul(a, b);
    assert(mag(a) * mag(b) >= mag(a) * 1) by (nonlinear_arith)
        requires
            mag(a) >= 0,
            mag(b) >= 1,
    ;
}

} // verus!
