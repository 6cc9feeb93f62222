//! The allocation engine: the fixed asset catalog, the inverse-volatility
//! risk-parity baseline, and the macro-driven adjustment with renormalization.
//!
//! Baseline weights are exact rationals: asset `i` gets
//! `prod_except(vols, i) / weight_sum(vols)`, which equals the classic
//! `(1/vol_i) / sum_j (1/vol_j)` inverse-volatility weight with every division
//! cleared. All arithmetic is checked; inputs whose exact weights do not fit
//! in 128-bit integers are reported as an arithmetic overflow error.

use vstd::prelude::*;
use crate::arith::{
    all_at_least_one, lemma_mag_mul_grows, lemma_mag_times_prefix_le,
    lemma_partial_weight_sum_monotone, lemma_prefix_prod_at_least_one, lemma_prefix_prod_le_full,
    lemma_prefix_prod_step, lemma_prod_except_le_weight_sum, lemma_prod_except_times_elem, mag,
    partial_weight_sum, prefix_prod_except, prod_except, weight_sum,
};
use crate::models::{lookup_entry, AssetClass, EnvironmentSnapshot, InvestmentDecision};
use crate::rational::{
    frac_eq, frac_lt, frac_sum, lemma_frac_sum_to_one, numerator_sum, Rational,
};

verus! {

/// Why an allocation computation was rejected.
#[derive(Clone, Copy, Debug, PartialEq, Eq, Structural)]
pub enum AllocationError {
    /// An asset class has volatility zero: its inverse-volatility weight is
    /// undefined.
    ZeroVolatility,
    /// The exact weights do not fit in 128-bit machine integers.
    ArithmeticOverflow,
    /// The post-tilt allocations sum to zero, so they cannot be renormalized.
    DegenerateTotal,
}

/// The volatilities of a catalog as a sequence of integers.
pub open spec fn vols_of(s: Seq<AssetClass>) -> Seq<int> {
    Seq::new(s.len(), |i: int| s[i].volatility as int)
}

/// Every volatility in the catalog is strictly positive.
pub open spec fn all_volatilities_positive(s: Seq<AssetClass>) -> bool {
    all_at_least_one(vols_of(s))
}

/// The exact baseline weights fit in 128-bit integers.
pub open spec fn baseline_fits(s: Seq<AssetClass>) -> bool {
    weight_sum(vols_of(s)) <= i128::MAX as int
}

/// What `calculate_risk_parity` returns on success: one decision per asset
/// class, same names in the same order, and the exact inverse-volatility
/// weight `prod_except(vols, i) / weight_sum(vols)` for asset `i`.
pub open spec fn is_baseline_output(out: Seq<InvestmentDecision>, input: Seq<AssetClass>) -> bool {
    &&& out.len() == input.len()
    &&& forall|i: int|
        0 <= i < out.len() ==> (#[trigger] out[i]).asset == input[i].name
    &&& forall|i: int|
        0 <= i < out.len() ==> (#[trigger] out[i]).allocation.num == prod_except(
            vols_of(input),
            i,
        )
    &&& forall|i: int|
        0 <= i < out.len() ==> (#[trigger] out[i]).allocation.den == weight_sum(vols_of(input))
    &&& forall|i: int| 0 <= i < out.len() ==> (#[trigger] out[i]).allocation.valid()
}

/// Risk-parity baseline: weight each asset inversely to its volatility and
/// normalize, as exact fractions over the common denominator
/// `weight_sum(vols)`.
///
/// Fails with `ZeroVolatility` exactly when some volatility is zero, and with
/// `ArithmeticOverflow` exactly when the volatilities are positive but the
/// exact common denominator exceeds `i128::MAX`.
pub fn calculate_risk_parity(asset_classes: &Vec<AssetClass>) -> (r: Result<
    Vec<InvestmentDecision>,
    AllocationError,
>)
    ensures
        r is Ok <==> all_volatilities_positive(asset_classes@) && baseline_fits(asset_classes@),
        (r is Err && r->Err_0 == AllocationError::ZeroVolatility) <==> !all_volatilities_positive(
            asset_classes@,
        ),
        (r is Err && r->Err_0 == AllocationError::ArithmeticOverflow) <==> (
        all_volatilities_positive(asset_classes@) && !baseline_fits(asset_classes@)),
        r is Ok ==> is_baseline_output(r->Ok_0@, asset_classes@),
{
    let n = asset_classes.len();
    for i in 0..n
        invariant
            n == asset_classes@.len(),
            forall|k: int| 0 <= k < i ==> #[trigger] vols_of(asset_classes@)[k] >= 1,
    {
        if asset_classes[i].volatility == 0 {
            assert(vols_of(asset_classes@)[i as int] == 0);
            return Err(AllocationError::ZeroVolatility);
        }
        assert(vols_of(asset_classes@)[i as int] >= 1);
    }
    assert(all_volatilities_positive(asset_classes@));

    let mut nums: Vec<i128> = Vec::new();
    for i in 0..n
        invariant
            n == asset_classes@.len(),
            all_volatilities_positive(asset_classes@),
            nums@.len() == i,
            forall|k: int|
                0 <= k < i ==> nums@[k] == prod_except(vols_of(asset_classes@), k),
    {
        let ghost vols = vols_of(asset_classes@);
        let mut p: i128 = 1;
        assert(vols.subrange(0, 0) =~= Seq::<int>::empty());
        assert(p as int == prefix_prod_except(vols, i as int, 0));
        for j in 0..n
            invariant
                n == asset_classes@.len(),
                i < n,
                vols == vols_of(asset_classes@),
                all_volatilities_positive(asset_classes@),
                p as int == prefix_prod_except(vols, i as int, j as int),
                p >= 1,
        {
            proof {
                lemma_prefix_prod_step(vols, i as int, j as int);
                lemma_prefix_prod_at_least_one(vols, i as int, j + 1);
            }
            if j != i {
                let v = asset_classes[j].volatility;
                assert(v as int == vols[j as int]);
                match p.checked_mul(v as i128) {
                    Some(q) => {
                        p = q;
                    },
                    None => {
                        proof {
                            assert(p * (v as i128) >= 1) by (nonlinear_arith)
                                requires
                                    p >= 1,
                                    v as i128 >= 1,
                            ;
                            assert(prefix_prod_except(vols, i as int, j + 1) > i128::MAX as int);
                            lemma_prefix_prod_le_full(vols, i as int, j + 1);
                            lemma_prod_except_le_weight_sum(vols, i as int);
                        }
                        return Err(AllocationError::ArithmeticOverflow);
                    },
                }
            }
        }
        assert(p as int == prod_except(vols, i as int));
        nums.push(p);
    }

    let ghost vols = vols_of(asset_classes@);
    let mut total: i128 = 0;
    assert(total as int == partial_weight_sum(vols, 0));
    for i in 0..n
        invariant
            n == asset_classes@.len(),
            vols == vols_of(asset_classes@),
            all_volatilities_positive(asset_classes@),
            nums@.len() == n,
            forall|k: int| 0 <= k < n ==> nums@[k] == prod_except(vols, k),
            total as int == partial_weight_sum(vols, i as int),
            total >= 0,
    {
        proof {
            lemma_prefix_prod_at_least_one(vols, i as int, vols.len() as int);
        }
        match total.checked_add(nums[i]) {
            Some(t) => {
                total = t;
            },
            None => {
                proof {
                    assert(partial_weight_sum(vols, i + 1) > i128::MAX as int);
                    lemma_partial_weight_sum_monotone(vols, i + 1, n as int);
                }
                return Err(AllocationError::ArithmeticOverflow);
            },
        }
    }
    assert(total as int == weight_sum(vols));

    let mut out: Vec<InvestmentDecision> = Vec::new();
    for i in 0..n
        invariant
            n == asset_classes@.len(),
            vols == vols_of(asset_classes@),
            all_volatilities_positive(asset_classes@),
            nums@.len() == n,
            forall|k: int| 0 <= k < n ==> nums@[k] == prod_except(vols, k),
            total as int == weight_sum(vols),
            out@.len() == i,
            forall|k: int| 0 <= k < i ==> (#[trigger] out@[k]).asset == asset_classes@[k].name,
            forall|k: int|
                0 <= k < i ==> (#[trigger] out@[k]).allocation.num == prod_except(vols, k),
            forall|k: int| 0 <= k < i ==> (#[trigger] out@[k]).allocation.den == total,
            forall|k: int| 0 <= k < i ==> (#[trigger] out@[k]).allocation.valid(),
    {
        proof {
            lemma_prefix_prod_at_least_one(vols, i as int, vols.len() as int);
            lemma_partial_weight_sum_monotone(vols, 0, i as int);
            lemma_partial_weight_sum_monotone(vols, i + 1, n as int);
            assert(partial_weight_sum(vols, i + 1) == partial_weight_sum(vols, i as int)
                + prod_except(vols, i as int));
        }
        let name = asset_classes[i].name.clone();
        let num = nums[i];
        let d = InvestmentDecision { asset: name, allocation: Rational { num, den: total } };
        out.push(d);
    }
    Ok(out)
}

/// Fixed identity and fixed-point scalars of one catalog record.
pub open spec fn catalog_entry(a: AssetClass, name: Seq<char>, ret: int, vol: int) -> bool {
    &&& a.name@ == name
    &&& a.expected_return == ret
    &&& a.volatility == vol
    &&& a.correlation@.len() == 4
}

/// One pairwise correlation entry of a catalog record.
pub open spec fn corr_pair(a: AssetClass, k: int, name: Seq<char>, v: int) -> bool {
    &&& a.correlation@[k].0@ == name
    &&& a.correlation@[k].1 == v
}

/// The fixed five-asset reference catalog, byte for byte.
pub open spec fn is_fixed_catalog(s: Seq<AssetClass>) -> bool {
    &&& s.len() == 5
    &&& catalog_entry(s[0], "US Equities"@, 7, 15)
    &&& corr_pair(s[0], 0, "US Bonds"@, -20)
    &&& corr_pair(s[0], 1, "International Equities"@, 80)
    &&& corr_pair(s[0], 2, "Commodities"@, 30)
    &&& corr_pair(s[0], 3, "Real Estate"@, 60)
    &&& catalog_entry(s[1], "US Bonds"@, 3, 5)
    &&& corr_pair(s[1], 0, "US Equities"@, -20)
    &&& corr_pair(s[1], 1, "International Equities"@, -10)
    &&& corr_pair(s[1], 2, "Commodities"@, 0)
    &&& corr_pair(s[1], 3, "Real Estate"@, 20)
    &&& catalog_entry(s[2], "International Equities"@, 8, 18)
    &&& corr_pair(s[2], 0, "US Equities"@, 80)
    &&& corr_pair(s[2], 1, "US Bonds"@, -10)
    &&& corr_pair(s[2], 2, "Commodities"@, 40)
    &&& corr_pair(s[2], 3, "Real Estate"@, 50)
    &&& catalog_entry(s[3], "Commodities"@, 5, 20)
    &&& corr_pair(s[3], 0, "US Equities"@, 30)
    &&& corr_pair(s[3], 1, "US Bonds"@, 0)
    &&& corr_pair(s[3], 2, "International Equities"@, 40)
    &&& corr_pair(s[3], 3, "Real Estate"@, 20)
    &&& catalog_entry(s[4], "Real Estate"@, 6, 12)
    &&& corr_pair(s[4], 0, "US Equities"@, 60)
    &&& corr_pair(s[4], 1, "US Bonds"@, 20)
    &&& corr_pair(s[4], 2, "International Equities"@, 50)
    &&& corr_pair(s[4], 3, "Commodities"@, 20)
}

/// The immutable five-asset reference data set: name, annualized expected
/// return, volatility, and pairwise correlations, all fixed-point with two
/// decimals (volatility `15` stands for 0.15).
pub fn create_asset_classes() -> (r: Vec<AssetClass>)
    ensures
        is_fixed_catalog(r@),
        all_volatilities_positive(r@),
{
    let mut c0: Vec<(String, i64)> = Vec::new();
    c0.push(("US Bonds".to_owned(), -20));
    c0.push(("International Equities".to_owned(), 80));
    c0.push(("Commodities".to_owned(), 30));
    c0.push(("Real Estate".to_owned(), 60));
    let a0 = AssetClass {
        name: "US Equities".to_owned(),
        expected_return: 7,
        volatility: 15,
        correlation: c0,
    };

    let mut c1: Vec<(String, i64)> = Vec::new();
    c1.push(("US Equities".to_owned(), -20));
    c1.push(("International Equities".to_owned(), -10));
    c1.push(("Commodities".to_owned(), 0));
    c1.push(("Real Estate".to_owned(), 20));
    let a1 = AssetClass {
        name: "US Bonds".to_owned(),
        expected_return: 3,
        volatility: 5,
        correlation: c1,
    };

    let mut c2: Vec<(String, i64)> = Vec::new();
    c2.push(("US Equities".to_owned(), 80));
    c2.push(("US Bonds".to_owned(), -10));
    c2.push(("Commodities".to_owned(), 40));
    c2.push(("Real Estate".to_owned(), 50));
    let a2 = AssetClass {
        name: "International Equities".to_owned(),
        expected_return: 8,
        volatility: 18,
        correlation: c2,
    };

    let mut c3: Vec<(String, i64)> = Vec::new();
    c3.push(("US Equities".to_owned(), 30));
    c3.push(("US Bonds".to_owned(), 0));
    c3.push(("International Equities".to_owned(), 40));
    c3.push(("Real Estate".to_owned(), 20));
    let a3 = AssetClass {
        name: "Commodities".to_owned(),
        expected_return: 5,
        volatility: 20,
        correlation: c3,
    };

    let mut c4: Vec<(String, i64)> = Vec::new();
    c4.push(("US Equities".to_owned(), 60));
    c4.push(("US Bonds".to_owned(), 20));
    c4.push(("International Equities".to_owned(), 50));
    c4.push(("Commodities".to_owned(), 20));
    let a4 = AssetClass {
        name: "Real Estate".to_owned(),
        expected_return: 6,
        volatility: 12,
        correlation: c4,
    };

    let mut catalog: Vec<AssetClass> = Vec::new();
    catalog.push(a0);
    catalog.push(a1);
    catalog.push(a2);
    catalog.push(a3);
    catalog.push(a4);
    assert forall|k: int| 0 <= k < vols_of(catalog@).len() implies #[trigger] vols_of(
        catalog@,
    )[k] >= 1 by {
        assert(vols_of(catalog@)[k] == catalog@[k].volatility as int);
    }
    catalog
}

/// The allocation fractions of a decision sequence, as spec-level pairs.
pub open spec fn alloc_fracs(ds: Seq<InvestmentDecision>) -> Seq<(int, int)> {
    Seq::new(ds.len(), |i: int| (ds[i].allocation.num as int, ds[i].allocation.den as int))
}

proof fn lemma_baseline_numerator_sum(out: Seq<InvestmentDecision>, input: Seq<AssetClass>, k: int)
    requires
        is_baseline_output(out, input),
        0 <= k <= out.len(),
    ensures
        numerator_sum(alloc_fracs(out).subrange(0, k)) == partial_weight_sum(vols_of(input), k),
    decreases k,
{
    let fr = alloc_fracs(out);
    if k == 0 {
        assert(fr.subrange(0, 0) =~= Seq::<(int, int)>::empty());
    } else {
        lemma_baseline_numerator_sum(out, input, k - 1);
        assert(fr.subrange(0, k).drop_last() =~= fr.subrange(0, k - 1));
        assert(fr.subrange(0, k).last() == fr[k - 1]);
    }
}

/// Law: a risk-parity baseline is a complete allocation — over a nonempty
/// catalog the output fractions sum to exactly one.
pub proof fn lemma_baseline_sums_to_one(out: Seq<InvestmentDecision>, input: Seq<AssetClass>)
    requires
        is_baseline_output(out, input),
        out.len() > 0,
    ensures
        frac_eq(frac_sum(alloc_fracs(out)), (1int, 1int)),
{
    let vols = vols_of(input);
    let d = weight_sum(vols);
    assert(out[0].allocation.valid());
    assert(d > 0);
    lemma_baseline_numerator_sum(out, input, out.len() as int);
    assert(alloc_fracs(out).subrange(0, out.len() as int) =~= alloc_fracs(out));
    lemma_frac_sum_to_one(alloc_fracs(out), d);
}

/// Law: the baseline weighting is inverse in volatility — of two assets, the
/// one with strictly lower volatility receives the strictly larger allocation.
pub proof fn lemma_lower_volatility_larger_weight(
    out: Seq<InvestmentDecision>,
    input: Seq<AssetClass>,
    i: int,
    j: int,
)
    requires
        is_baseline_output(out, input),
        all_volatilities_positive(input),
        0 <= i < out.len(),
        0 <= j < out.len(),
        input[i].volatility < input[j].volatility,
    ensures
        frac_lt(out[j].allocation.frac(), out[i].allocation.frac()),
{
    let vols = vols_of(input);
    let pi = prod_except(vols, i);
    let pj = prod_except(vols, j);
    lemma_prod_except_times_elem(vols, i);
    lemma_prod_except_times_elem(vols, j);
    lemma_prefix_prod_at_least_one(vols, i, vols.len() as int);
    lemma_prefix_prod_at_least_one(vols, j, vols.len() as int);
    assert(pi > pj) by (nonlinear_arith)
        requires
            pi * vols[i] == pj * vols[j],
            vols[i] < vols[j],
            pi >= 1,
            pj >= 1,
            vols[i] >= 1,
    ;
    let d = weight_sum(vols);
    assert(out[i].allocation.valid());
    assert(pj * d < pi * d) by (nonlinear_arith)
        requires
            pj < pi,
            d > 0,
    ;
}

/// Category of an asset under the tilt rules: a closed set keyed by exact
/// name match; any name outside the set is left untilted.
pub enum AssetCategory {
    Equity,
    Bond,
    Commodity,
    Other,
}

pub open spec fn category_of(name: Seq<char>) -> AssetCategory {
    if name == "US Equities"@ || name == "International Equities"@ {
        AssetCategory::Equity
    } else if name == "US Bonds"@ {
        AssetCategory::Bond
    } else if name == "Commodities"@ {
        AssetCategory::Commodity
    } else {
        AssetCategory::Other
    }
}

/// The GDP-growth signal of an environment, defaulting to the neutral 200
/// (a fixed-point 2.00) when the indicator is absent.
pub open spec fn gdp_signal(env: Seq<(String, i64)>) -> int {
    match lookup_entry(env, "GDP Growth"@) {
        Some(v) => v as int,
        None => 200int,
    }
}

/// The inflation signal of an environment, defaulting to the neutral 200.
pub open spec fn inflation_signal(env: Seq<(String, i64)>) -> int {
    match lookup_entry(env, "Inflation Rate"@) {
        Some(v) => v as int,
        None => 200int,
    }
}

/// Tilt multiplier numerator over the fixed denominator 1000: with a signal
/// `g` standing for `g/100`, an equity multiplier `1 + (g/100 - 2) * 0.1`
/// clears to `(800 + g) / 1000`.
pub open spec fn multiplier_num(cat: AssetCategory, gdp: int, infl: int) -> int {
    match cat {
        AssetCategory::Equity => 800 + gdp,
        AssetCategory::Bond => 1200 - infl,
        AssetCategory::Commodity => 800 + infl,
        AssetCategory::Other => 1000int,
    }
}

/// The tilt multiplier numerator applied to decision `i`.
pub open spec fn decision_multiplier(
    ds: Seq<InvestmentDecision>,
    env: Seq<(String, i64)>,
    i: int,
) -> int {
    multiplier_num(category_of(ds[i].asset@), gdp_signal(env), inflation_signal(env))
}

/// The allocation denominators of a decision sequence.
pub open spec fn dens_of(ds: Seq<InvestmentDecision>) -> Seq<int> {
    Seq::new(ds.len(), |i: int| ds[i].allocation.den as int)
}

/// Every decision carries a well-formed allocation fraction.
pub open spec fn all_decisions_valid(ds: Seq<InvestmentDecision>) -> bool {
    forall|i: int| 0 <= i < ds.len() ==> (#[trigger] ds[i]).allocation.valid()
}

/// The tilted numerator of decision `i` over the common denominator
/// `1000 * prod(all dens)`: numerator times multiplier times the other
/// denominators.
pub open spec fn adjusted_num(
    ds: Seq<InvestmentDecision>,
    env: Seq<(String, i64)>,
    i: int,
) -> int {
    (ds[i].allocation.num * decision_multiplier(ds, env, i)) * prod_except(dens_of(ds), i)
}

/// Sum of the first `k` tilted numerators.
pub open spec fn partial_adjusted_total(
    ds: Seq<InvestmentDecision>,
    env: Seq<(String, i64)>,
    k: int,
) -> int
    decreases k,
{
    if k <= 0 {
        0int
    } else {
        partial_adjusted_total(ds, env, k - 1) + adjusted_num(ds, env, k - 1)
    }
}

/// The total tilted numerator: the renormalization divisor.
pub open spec fn adjusted_total(ds: Seq<InvestmentDecision>, env: Seq<(String, i64)>) -> int {
    partial_adjusted_total(ds, env, ds.len() as int)
}

/// The exact tilted numerators and all their running sums fit in 128-bit
/// machine integers.
pub open spec fn adjust_fits(ds: Seq<InvestmentDecision>, env: Seq<(String, i64)>) -> bool {
    &&& forall|i: int|
        0 <= i < ds.len() ==> mag(#[trigger] adjusted_num(ds, env, i)) <= i128::MAX as int
    &&& forall|k: int|
        0 <= k <= ds.len() ==> mag(#[trigger] partial_adjusted_total(ds, env, k))
            <= i128::MAX as int
}

/// What `adjust_allocations` returns on success: the same assets in order,
/// each allocation the exact fraction `adjusted_num(i) / adjusted_total`,
/// with the sign normalized into the numerator.
pub open spec fn is_adjusted_output(
    out: Seq<InvestmentDecision>,
    base: Seq<InvestmentDecision>,
    env: Seq<(String, i64)>,
) -> bool {
    let total = adjusted_total(base, env);
    &&& out.len() == base.len()
    &&& forall|i: int| 0 <= i < out.len() ==> (#[trigger] out[i]).asset == base[i].asset
    &&& forall|i: int|
        0 <= i < out.len() ==> (#[trigger] out[i]).allocation.num == if total >= 0 {
            adjusted_num(base, env, i)
        } else {
            -adjusted_num(base, env, i)
        }
    &&& forall|i: int| 0 <= i < out.len() ==> (#[trigger] out[i]).allocation.den == mag(total)
    &&& forall|i: int| 0 <= i < out.len() ==> (#[trigger] out[i]).allocation.valid()
}

/// The tilt multiplier numerator for one asset name, from fixed-point signals.
fn multiplier_for(name: &String, gdp: i64, infl: i64) -> (m: i128)
    ensures
        m as int == multiplier_num(category_of(name@), gdp as int, infl as int),
{
    let us_equities = "US Equities".to_owned();
    let intl_equities = "International Equities".to_owned();
    let us_bonds = "US Bonds".to_owned();
    let commodities = "Commodities".to_owned();
    if *name == us_equities || *name == intl_equities {
        800 + (gdp as i128)
    } else if *name == us_bonds {
        1200 - (infl as i128)
    } else if *name == commodities {
        800 + (infl as i128)
    } else {
        1000
    }
}

/// Tilt each baseline allocation by its macro multiplier (computed from the
/// pre-adjustment values in a single pass), then renormalize so the final
/// allocations sum to one.
///
/// Signals absent from the environment default to the neutral 200. Fails with
/// `ArithmeticOverflow` exactly when an exact tilted numerator or a running
/// total leaves the 128-bit range, and with `DegenerateTotal` exactly when the
/// post-tilt total is zero over a nonempty portfolio, which makes
/// renormalization impossible. An empty portfolio is returned unchanged.
pub fn adjust_allocations(
    base_allocations: Vec<InvestmentDecision>,
    environment: &EnvironmentSnapshot,
) -> (r: Result<Vec<InvestmentDecision>, AllocationError>)
    requires
        all_decisions_valid(base_allocations@),
    ensures
        r is Ok <==> (base_allocations@.len() == 0 || (adjust_fits(
            base_allocations@,
            environment.entries@,
        ) && adjusted_total(base_allocations@, environment.entries@) != 0)),
        (r is Err && r->Err_0 == AllocationError::ArithmeticOverflow) <==> !adjust_fits(
            base_allocations@,
            environment.entries@,
        ),
        (r is Err && r->Err_0 == AllocationError::DegenerateTotal) <==> (base_allocations@.len()
            > 0 && adjust_fits(base_allocations@, environment.entries@) && adjusted_total(
            base_allocations@,
            environment.entries@,
        ) == 0),
        r is Ok ==> is_adjusted_output(r->Ok_0@, base_allocations@, environment.entries@),
{
    let ghost env = environment.entries@;
    let n = base_allocations.len();
    if n == 0 {
        assert(partial_adjusted_total(base_allocations@, env, 0) == 0);
        assert(adjust_fits(base_allocations@, env));
        return Ok(base_allocations);
    }
    assert(all_at_least_one(dens_of(base_allocations@))) by {
        assert forall|k: int| 0 <= k < dens_of(base_allocations@).len() implies #[trigger] dens_of(
            base_allocations@,
        )[k] >= 1 by {
            assert(base_allocations@[k].allocation.valid());
        }
    }

    let gdp_key = "GDP Growth".to_owned();
    let infl_key = "Inflation Rate".to_owned();
    let gdp: i64 = match environment.get(&gdp_key) {
        Some(v) => v,
        None => 200,
    };
    let infl: i64 = match environment.get(&infl_key) {
        Some(v) => v,
        None => 200,
    };
    assert(gdp as int == gdp_signal(env));
    assert(infl as int == inflation_signal(env));

    let mut qs: Vec<i128> = Vec::new();
    for i in 0..n
        invariant
            n == base_allocations@.len(),
            n > 0,
            env == environment.entries@,
            all_decisions_valid(base_allocations@),
            all_at_least_one(dens_of(base_allocations@)),
            gdp as int == gdp_signal(env),
            infl as int == inflation_signal(env),
            qs@.len() == i,
            forall|k: int|
                0 <= k < i ==> qs@[k] as int == adjusted_num(base_allocations@, env, k),
            forall|k: int|
                0 <= k < i ==> mag(#[trigger] adjusted_num(base_allocations@, env, k))
                    <= i128::MAX as int,
    {
        let ghost dens = dens_of(base_allocations@);
        let m = multiplier_for(&base_allocations[i].asset, gdp, infl);
        assert(m as int == decision_multiplier(base_allocations@, env, i as int));
        let num = base_allocations[i].allocation.num;
        proof {
            lemma_prefix_prod_at_least_one(dens, i as int, dens.len() as int);
        }
        let t: i128 = match num.checked_mul(m) {
            Some(t) => t,
            None => {
                proof {
                    lemma_mag_mul_grows(num * m, prod_except(dens, i as int));
                    assert(mag(adjusted_num(base_allocations@, env, i as int))
                        > i128::MAX as int);
                }
                return Err(AllocationError::ArithmeticOverflow);
            },
        };
        if t == i128::MIN {
            proof {
                lemma_mag_mul_grows(num * m, prod_except(dens, i as int));
                assert(mag(adjusted_num(base_allocations@, env, i as int)) > i128::MAX as int);
            }
            return Err(AllocationError::ArithmeticOverflow);
        }
        let mut q: i128 = t;
        assert(dens.subrange(0, 0) =~= Seq::<int>::empty());
        assert(q as int == (t as int) * prefix_prod_except(dens, i as int, 0));
        for j in 0..n
            invariant
                n == base_allocations@.len(),
                i < n,
                env == environment.entries@,
                all_decisions_valid(base_allocations@),
                all_at_least_one(dens_of(base_allocations@)),
                dens == dens_of(base_allocations@),
                t as int == base_allocations@[i as int].allocation.num
                    * decision_multiplier(base_allocations@, env, i as int),
                q as int == (t as int) * prefix_prod_except(dens, i as int, j as int),
                mag(q as int) <= i128::MAX as int,
        {
            proof {
                lemma_prefix_prod_step(dens, i as int, j as int);
            }
            if j != i {
                let den_j = base_allocations[j].allocation.den;
                assert(den_j as int == dens[j as int]);
                let ghost extended = (t as int) * prefix_prod_except(dens, i as int, j + 1);
                proof {
                    assert((q as int) * (den_j as int) == (t as int) * prefix_prod_except(
                        dens,
                        i as int,
                        j + 1,
                    )) by (nonlinear_arith)
                        requires
                            q as int == (t as int) * prefix_prod_except(dens, i as int, j as int),
                            prefix_prod_except(dens, i as int, j + 1) == prefix_prod_except(
                                dens,
                                i as int,
                                j as int,
                            ) * dens[j as int],
                            den_j as int == dens[j as int],
                    ;
                    assert((q as int) * (den_j as int) == extended);
                    lemma_mag_times_prefix_le(t as int, dens, i as int, j + 1);
                }
                match q.checked_mul(den_j) {
                    Some(q2) => {
                        if q2 == i128::MIN {
                            proof {
                                assert(mag(adjusted_num(base_allocations@, env, i as int))
                                    > i128::MAX as int);
                            }
                            return Err(AllocationError::ArithmeticOverflow);
                        }
                        q = q2;
                    },
                    None => {
                        proof {
                            assert(mag(extended) > i128::MAX as int);
                            assert(mag(adjusted_num(base_allocations@, env, i as int))
                                > i128::MAX as int);
                        }
                        return Err(AllocationError::ArithmeticOverflow);
                    },
                }
            }
        }
        assert(q as int == adjusted_num(base_allocations@, env, i as int));
        qs.push(q);
    }

    let mut total: i128 = 0;
    assert(total as int == partial_adjusted_total(base_allocations@, env, 0));
    for i in 0..n
        invariant
            n == base_allocations@.len(),
            n > 0,
            env == environment.entries@,
            all_decisions_valid(base_allocations@),
            qs@.len() == n,
            forall|k: int|
                0 <= k < n ==> qs@[k] as int == adjusted_num(base_allocations@, env, k),
            forall|k: int|
                0 <= k < n ==> mag(#[trigger] adjusted_num(base_allocations@, env, k))
                    <= i128::MAX as int,
            total as int == partial_adjusted_total(base_allocations@, env, i as int),
            forall|k: int|
                0 <= k <= i ==> mag(#[trigger] partial_adjusted_total(base_allocations@, env, k))
                    <= i128::MAX as int,
    {
        match total.checked_add(qs[i]) {
            Some(t2) => {
                if t2 == i128::MIN {
                    proof {
                        assert(mag(partial_adjusted_total(base_allocations@, env, i + 1))
                            > i128::MAX as int);
                    }
                    return Err(AllocationError::ArithmeticOverflow);
                }
                total = t2;
            },
            None => {
                proof {
                    assert(mag(partial_adjusted_total(base_allocations@, env, i + 1))
                        > i128::MAX as int);
                }
                return Err(AllocationError::ArithmeticOverflow);
            },
        }
    }
    assert(total as int == adjusted_total(base_allocations@, env));
    assert(adjust_fits(base_allocations@, env));

    if total == 0 {
        return Err(AllocationError::DegenerateTotal);
    }

    let mut out: Vec<InvestmentDecision> = Vec::new();
    for i in 0..n
        invariant
            n == base_allocations@.len(),
            env == environment.entries@,
            qs@.len() == n,
            forall|k: int|
                0 <= k < n ==> qs@[k] as int == adjusted_num(base_allocations@, env, k),
            forall|k: int|
                0 <= k < n ==> mag(#[trigger] adjusted_num(base_allocations@, env, k))
                    <= i128::MAX as int,
            total as int == adjusted_total(base_allocations@, env),
            total != 0,
            mag(total as int) <= i128::MAX as int,
            out@.len() == i,
            forall|k: int|
                0 <= k < i ==> (#[trigger] out@[k]).asset == base_allocations@[k].asset,
            forall|k: int|
                0 <= k < i ==> (#[trigger] out@[k]).allocation.num == if adjusted_total(
                    base_allocations@,
                    env,
                ) >= 0 {
                    adjusted_num(base_allocations@, env, k)
                } else {
                    -adjusted_num(base_allocations@, env, k)
                },
            forall|k: int|
                0 <= k < i ==> (#[trigger] out@[k]).allocation.den == mag(
                    adjusted_total(base_allocations@, env),
                ),
            forall|k: int| 0 <= k < i ==> (#[trigger] out@[k]).allocation.valid(),
    {
        let name = base_allocations[i].asset.clone();
        let q = qs[i];
        let allocation: Rational = if total > 0 {
            Rational { num: q, den: total }
        } else {
            Rational { num: -q, den: -total }
        };
        out.push(InvestmentDecision { asset: name, allocation });
    }
    Ok(out)
}

proof fn lemma_adjusted_numerator_sum(
    out: Seq<InvestmentDecision>,
    base: Seq<InvestmentDecision>,
    env: Seq<(String, i64)>,
    k: int,
)
    requires
        is_adjusted_output(out, base, env),
        0 <= k <= out.len(),
    ensures
        numerator_sum(alloc_fracs(out).subrange(0, k)) == if adjusted_total(base, env) >= 0 {
            partial_adjusted_total(base, env, k)
        } else {
            -partial_adjusted_total(base, env, k)
        },
    decreases k,
{
    let fr = alloc_fracs(out);
    if k == 0 {
        assert(fr.subrange(0, 0) =~= Seq::<(int, int)>::empty());
    } else {
        lemma_adjusted_numerator_sum(out, base, env, k - 1);
        assert(fr.subrange(0, k).drop_last() =~= fr.subrange(0, k - 1));
        assert(fr.subrange(0, k).last() == fr[k - 1]);
    }
}

/// Law: a non-degenerate adjustment is a complete allocation — over a
/// nonempty portfolio the adjusted fractions sum to exactly one.
pub proof fn lemma_adjusted_sums_to_one(
    out: Seq<InvestmentDecision>,
    base: Seq<InvestmentDecision>,
    env: Seq<(String, i64)>,
)
    requires
        is_adjusted_output(out, base, env),
        adjusted_total(base, env) != 0,
        base.len() > 0,
    ensures
        frac_eq(frac_sum(alloc_fracs(out)), (1int, 1int)),
{
    let total = adjusted_total(base, env);
    let d = mag(total);
    assert(d > 0);
    lemma_adjusted_numerator_sum(out, base, env, out.len() as int);
    assert(alloc_fracs(out).subrange(0, out.len() as int) =~= alloc_fracs(out));
    assert(numerator_sum(alloc_fracs(out)) == d);
    lemma_frac_sum_to_one(alloc_fracs(out), d);
}

/// The numerator of decision `i` under a plain renormalization of `base`
/// (no tilt), over the common denominator `prod(all dens)`.
pub open spec fn renorm_num(base: Seq<InvestmentDecision>, i: int) -> int {
    base[i].allocation.num * prod_except(dens_of(base), i)
}

/// Sum of the first `k` renormalization numerators.
pub open spec fn partial_renorm_total(base: Seq<InvestmentDecision>, k: int) -> int
    decreases k,
{
    if k <= 0 {
        0int
    } else {
        partial_renorm_total(base, k - 1) + renorm_num(base, k - 1)
    }
}

/// The renormalization divisor of a plain renormalization of `base`.
pub open spec fn renorm_total(base: Seq<InvestmentDecision>) -> int {
    partial_renorm_total(base, base.len() as int)
}

proof fn lemma_neutral_partial_total(
    base: Seq<InvestmentDecision>,
    env: Seq<(String, i64)>,
    k: int,
)
    requires
        gdp_signal(env) == 200,
        inflation_signal(env) == 200,
        0 <= k <= base.len(),
    ensures
        partial_adjusted_total(base, env, k) == 1000 * partial_renorm_total(base, k),
    decreases k,
{
    if k > 0 {
        lemma_neutral_partial_total(base, env, k - 1);
        let num = base[k - 1].allocation.num as int;
        let pe = prod_except(dens_of(base), k - 1);
        assert(decision_multiplier(base, env, k - 1) == 1000);
        assert((num * 1000) * pe == 1000 * (num * pe)) by (nonlinear_arith);
    }
}

/// Law: under the neutral environment (both signals at the 2.00 default) the
/// adjustment is exactly a renormalization of the base allocations — every
/// output fraction equals `base_num_i * prod_except(dens, i)` over the sum of
/// those products, so relative proportions are unchanged.
pub proof fn lemma_neutral_environment_renormalizes(
    out: Seq<InvestmentDecision>,
    base: Seq<InvestmentDecision>,
    env: Seq<(String, i64)>,
)
    requires
        is_adjusted_output(out, base, env),
        gdp_signal(env) == 200,
        inflation_signal(env) == 200,
        adjusted_total(base, env) != 0,
    ensures
        forall|i: int|
            0 <= i < out.len() ==> frac_eq(
                (#[trigger] out[i]).allocation.frac(),
                (renorm_num(base, i), renorm_total(base)),
            ),
{
    let total = adjusted_total(base, env);
    lemma_neutral_partial_total(base, env, base.len() as int);
    let rt = renorm_total(base);
    assert(total == 1000 * rt);
    assert forall|i: int| 0 <= i < out.len() implies frac_eq(
        (#[trigger] out[i]).allocation.frac(),
        (renorm_num(base, i), renorm_total(base)),
    ) by {
        let rn = renorm_num(base, i);
        let num = base[i].allocation.num as int;
        let pe = prod_except(dens_of(base), i);
        assert(decision_multiplier(base, env, i) == 1000);
        assert(adjusted_num(base, env, i) == (num * 1000) * pe);
        assert((num * 1000) * pe == 1000 * rn) by (nonlinear_arith)
            requires
                rn == num * pe,
        ;
        if total >= 0 {
            assert((1000 * rn) * rt == rn * mag(1000 * rt)) by (nonlinear_arith)
                requires
                    mag(1000 * rt) == 1000 * rt,
            ;
        } else {
            assert((-(1000 * rn)) * rt == rn * mag(1000 * rt)) by (nonlinear_arith)
                requires
                    mag(1000 * rt) == -(1000 * rt),
            ;
        }
    }
}

proof fn lemma_renorm_total_common_except(
    base: Seq<InvestmentDecision>,
    pe: int,
    k: int,
)
    requires
        0 <= k <= base.len(),
        forall|i: int|
            0 <= i < base.len() ==> #[trigger] prod_except(dens_of(base), i) == pe,
    ensures
        partial_renorm_total(base, k) == pe * numerator_sum(alloc_fracs(base).subrange(0, k)),
    decreases k,
{
    let fr = alloc_fracs(base);
    if k == 0 {
        assert(fr.subrange(0, 0) =~= Seq::<(int, int)>::empty());
    } else {
        lemma_renorm_total_common_except(base, pe, k - 1);
        assert(fr.subrange(0, k).drop_last() =~= fr.subrange(0, k - 1));
        assert(fr.subrange(0, k).last() == fr[k - 1]);
        let ns = numerator_sum(fr.subrange(0, k - 1));
        let num = base[k - 1].allocation.num as int;
        assert(renorm_num(base, k - 1) == num * pe);
        assert(pe * ns + num * pe == pe * (ns + num)) by (nonlinear_arith);
    }
}

/// Law: the neutral environment is an identity — adjusting a complete
/// common-denominator allocation (such as a risk-parity baseline) with both
/// signals at the 2.00 default leaves every allocation value unchanged.
pub proof fn lemma_neutral_adjustment_preserves_allocations(
    out: Seq<InvestmentDecision>,
    base: Seq<InvestmentDecision>,
    env: Seq<(String, i64)>,
    d: int,
)
    requires
        is_adjusted_output(out, base, env),
        all_decisions_valid(base),
        gdp_signal(env) == 200,
        inflation_signal(env) == 200,
        adjusted_total(base, env) != 0,
        base.len() > 0,
        forall|i: int| 0 <= i < base.len() ==> (#[trigger] base[i]).allocation.den == d,
        numerator_sum(alloc_fracs(base)) == d,
    ensures
        forall|i: int|
            0 <= i < out.len() ==> frac_eq(
                (#[trigger] out[i]).allocation.frac(),
                base[i].allocation.frac(),
            ),
{
    lemma_neutral_environment_renormalizes(out, base, env);
    let dens = dens_of(base);
    assert(all_at_least_one(dens)) by {
        assert forall|k: int| 0 <= k < dens.len() implies #[trigger] dens[k] >= 1 by {
            assert(base[k].allocation.valid());
        }
    }
    assert(base[0].allocation.valid());
    assert(d >= 1);
    let pe = prod_except(dens, 0);
    lemma_prefix_prod_at_least_one(dens, 0, dens.len() as int);
    assert forall|i: int| 0 <= i < base.len() implies #[trigger] prod_except(dens, i) == pe by {
        lemma_prod_except_times_elem(dens, i);
        lemma_prod_except_times_elem(dens, 0);
        assert(prod_except(dens, i) == pe) by (nonlinear_arith)
            requires
                prod_except(dens, i) * d == pe * d,
                d >= 1,
        ;
    }
    lemma_renorm_total_common_except(base, pe, base.len() as int);
    assert(alloc_fracs(base).subrange(0, base.len() as int) =~= alloc_fracs(base));
    assert(renorm_total(base) == pe * d);
    assert forall|i: int| 0 <= i < out.len() implies frac_eq(
        (#[trigger] out[i]).allocation.frac(),
        base[i].allocation.frac(),
    ) by {
        let num = base[i].allocation.num as int;
        assert(renorm_num(base, i) == num * pe);
        assert(frac_eq((num * pe, pe * d), (num, d))) by (nonlinear_arith);
        assert(pe * d >= 1) by (nonlinear_arith)
            requires
                pe >= 1,
                d >= 1,
        ;
        crate::rational::lemma_frac_eq_trans(
            out[i].allocation.frac(),
            (renorm_num(base, i), renorm_total(base)),
            base[i].allocation.frac(),
        );
    }
}

/// Law: raising the GDP-growth signal strictly raises the equity tilt
/// multiplier and leaves every other category's multiplier unchanged; above
/// the neutral 200 the equity multiplier strictly exceeds the untilted 1000.
pub proof fn lemma_gdp_directionality(g1: int, g2: int, infl: int)
    requires
        g1 < g2,
    ensures
        multiplier_num(AssetCategory::Equity, g1, infl) < multiplier_num(
            AssetCategory::Equity,
            g2,
            infl,
        ),
        multiplier_num(AssetCategory::Bond, g1, infl) == multiplier_num(
            AssetCategory::Bond,
            g2,
            infl,
        ),
        multiplier_num(AssetCategory::Commodity, g1, infl) == multiplier_num(
            AssetCategory::Commodity,
            g2,
            infl,
        ),
        multiplier_num(AssetCategory::Other, g1, infl) == multiplier_num(
            AssetCategory::Other,
            g2,
            infl,
        ),
        g2 > 200 ==> multiplier_num(AssetCategory::Equity, g2, infl) > 1000,
        category_of("US Equities"@) == AssetCategory::Equity,
        category_of("International Equities"@) == AssetCategory::Equity,
        category_of("Real Estate"@) == AssetCategory::Other,
{
    reveal_strlit("US Equities");
    reveal_strlit("International Equities");
    reveal_strlit("US Bonds");
    reveal_strlit("Commodities");
    reveal_strlit("Real Estate");
    assert("Real Estate"@.len() == 11);
    assert("International Equities"@.len() == 22);
    assert("US Bonds"@.len() == 8);
    assert("Real Estate"@ != "US Equities"@) by {
        assert("Real Estate"@[0] != "US Equities"@[0]);
    }
    assert("Real Estate"@ != "Commodities"@) by {
        assert("Real Estate"@[0] != "Commodities"@[0]);
    }
}

/// Law: with the inflation signal held fixed, a strictly higher GDP-growth
/// signal strictly raises the pre-normalization tilted numerator of a
/// positively held equity position and leaves every non-equity position's
/// tilted numerator unchanged.
pub proof fn lemma_gdp_raises_equity_raw_weight(
    ds: Seq<InvestmentDecision>,
    e1: Seq<(String, i64)>,
    e2: Seq<(String, i64)>,
    i: int,
)
    requires
        all_decisions_valid(ds),
        0 <= i < ds.len(),
        category_of(ds[i].asset@) == AssetCategory::Equity,
        ds[i].allocation.num > 0,
        gdp_signal(e1) < gdp_signal(e2),
        inflation_signal(e1) == inflation_signal(e2),
    ensures
        adjusted_num(ds, e1, i) < adjusted_num(ds, e2, i),
        forall|j: int|
            0 <= j < ds.len() && category_of((#[trigger] ds[j]).asset@) != AssetCategory::Equity
                ==> adjusted_num(ds, e1, j) == adjusted_num(ds, e2, j),
{
    assert(all_at_least_one(dens_of(ds))) by {
        assert forall|k: int| 0 <= k < dens_of(ds).len() implies #[trigger] dens_of(ds)[k]
            >= 1 by {
            assert(ds[k].allocation.valid());
        }
    }
    let num = ds[i].allocation.num as int;
    let m1 = decision_multiplier(ds, e1, i);
    let m2 = decision_multiplier(ds, e2, i);
    let pe = prod_except(dens_of(ds), i);
    lemma_prefix_prod_at_least_one(dens_of(ds), i, dens_of(ds).len() as int);
    assert((num * m1) * pe < (num * m2) * pe) by (nonlinear_arith)
        requires
            num >= 1,
            m1 < m2,
            pe >= 1,
    ;
    assert forall|j: int|
        0 <= j < ds.len() && category_of((#[trigger] ds[j]).asset@) != AssetCategory::Equity
            implies adjusted_num(ds, e1, j) == adjusted_num(ds, e2, j) by {
        assert(decision_multiplier(ds, e1, j) == decision_multiplier(ds, e2, j));
    }
}

proof fn lemma_signals_determine_adjustment(
    ds: Seq<InvestmentDecision>,
    e: Seq<(String, i64)>,
    f: Seq<(String, i64)>,
    k: int,
)
    requires
        gdp_signal(e) == gdp_signal(f),
        inflation_signal(e) == inflation_signal(f),
        k >= 0,
    ensures
        forall|i: int| #[trigger] adjusted_num(ds, e, i) == adjusted_num(ds, f, i),
        partial_adjusted_total(ds, e, k) == partial_adjusted_total(ds, f, k),
    decreases k,
{
    assert forall|i: int| #[trigger] adjusted_num(ds, e, i) == adjusted_num(ds, f, i) by {
        assert(decision_multiplier(ds, e, i) == decision_multiplier(ds, f, i));
    }
    if k > 0 {
        lemma_signals_determine_adjustment(ds, e, f, k - 1);
    }
}

/// Law: an empty environment behaves exactly like one that spells out the
/// neutral 200 for both signals — the defaults apply, and every tilted
/// numerator and total of the adjustment agrees between the two.
pub proof fn lemma_missing_indicators_default(e: Seq<(String, i64)>, f: Seq<(String, i64)>)
    requires
        e.len() == 0,
        f.len() == 2,
        f[0].0@ == "GDP Growth"@,
        f[0].1 == 200,
        f[1].0@ == "Inflation Rate"@,
        f[1].1 == 200,
    ensures
        gdp_signal(e) == 200 && inflation_signal(e) == 200,
        gdp_signal(f) == 200 && inflation_signal(f) == 200,
        forall|ds: Seq<InvestmentDecision>, i: int| #[trigger] adjusted_num(ds, e, i)
            == adjusted_num(ds, f, i),
        forall|ds: Seq<InvestmentDecision>| #[trigger] adjusted_total(ds, e) == adjusted_total(
            ds,
            f,
        ),
{
    reveal_strlit("GDP Growth");
    reveal_strlit("Inflation Rate");
    assert("GDP Growth"@.len() == 10);
    assert("Inflation Rate"@.len() == 14);
    assert(f.last() == f[1]);
    assert(lookup_entry(f, "Inflation Rate"@) == Some(f[1].1));
    let head = f.drop_last();
    assert(head.last() == f[0]);
    assert(f[1].0@ != "GDP Growth"@);
    assert(lookup_entry(head, "GDP Growth"@) == Some(f[0].1));
    assert(lookup_entry(f, "GDP Growth"@) == Some(f[0].1));
    assert forall|ds: Seq<InvestmentDecision>, i: int| #[trigger] adjusted_num(ds, e, i)
        == adjusted_num(ds, f, i) by {
        lemma_signals_determine_adjustment(ds, e, f, 0);
    }
    assert forall|ds: Seq<InvestmentDecision>| #[trigger] adjusted_total(ds, e)
        == adjusted_total(ds, f) by {
        lemma_signals_determine_adjustment(ds, e, f, ds.len() as int);
    }
}

} // verus!
