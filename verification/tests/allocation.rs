use portfolio_allocation::asset_allocation::{
    adjust_allocations, calculate_risk_parity, create_asset_classes, AllocationError,
};
use portfolio_allocation::models::{AssetClass, EnvironmentSnapshot, InvestmentDecision};
use portfolio_allocation::rational::Rational;

fn asset(name: &str, volatility: u64) -> AssetClass {
    AssetClass {
        name: name.to_string(),
        expected_return: 0,
        volatility,
        correlation: Vec::new(),
    }
}

fn snapshot(entries: &[(&str, i64)]) -> EnvironmentSnapshot {
    let mut env = EnvironmentSnapshot::new();
    for (name, value) in entries {
        env.insert(name.to_string(), *value);
    }
    env
}

/// Exact fraction equality by cross multiplication.
fn same_fraction(a: &Rational, b_num: i128, b_den: i128) -> bool {
    a.num * b_den == b_num * a.den
}

#[test]
fn fixed_catalog_data() {
    let catalog = create_asset_classes();
    assert_eq!(catalog.len(), 5);
    let names: Vec<&str> = catalog.iter().map(|a| a.name.as_str()).collect();
    assert_eq!(
        names,
        vec![
            "US Equities",
            "US Bonds",
            "International Equities",
            "Commodities",
            "Real Estate"
        ]
    );
    let vols: Vec<u64> = catalog.iter().map(|a| a.volatility).collect();
    assert_eq!(vols, vec![15, 5, 18, 20, 12]);
    let rets: Vec<i64> = catalog.iter().map(|a| a.expected_return).collect();
    assert_eq!(rets, vec![7, 3, 8, 5, 6]);
    assert_eq!(catalog[0].correlation.len(), 4);
    assert_eq!(catalog[0].correlation[0].0, "US Bonds");
    assert_eq!(catalog[0].correlation[0].1, -20);
    assert_eq!(catalog[1].correlation[2], ("Commodities".to_string(), 0));
    assert_eq!(catalog[4].correlation[3], ("Commodities".to_string(), 20));
}

#[test]
fn baseline_on_fixed_catalog() {
    // Weights proportional to 1/0.15 : 1/0.05 : 1/0.18 : 1/0.20 : 1/0.12,
    // cleared over the common denominator: 21600 : 64800 : 18000 : 16200 : 27000.
    let catalog = create_asset_classes();
    let decisions = calculate_risk_parity(&catalog).unwrap();
    assert_eq!(decisions.len(), 5);
    let expected_nums: [i128; 5] = [21600, 64800, 18000, 16200, 27000];
    let expected_den: i128 = 147600;
    for (d, want) in decisions.iter().zip(expected_nums.iter()) {
        assert_eq!(d.allocation.num, *want);
        assert_eq!(d.allocation.den, expected_den);
    }
    // US Bonds receives the largest share, Commodities the smallest.
    let largest = decisions.iter().max_by_key(|d| d.allocation.num).unwrap();
    assert_eq!(largest.asset, "US Bonds");
    let smallest = decisions.iter().min_by_key(|d| d.allocation.num).unwrap();
    assert_eq!(smallest.asset, "Commodities");
}

#[test]
fn baseline_sums_to_one() {
    let catalog = create_asset_classes();
    let decisions = calculate_risk_parity(&catalog).unwrap();
    let num_sum: i128 = decisions.iter().map(|d| d.allocation.num).sum();
    assert_eq!(num_sum, decisions[0].allocation.den);
}

#[test]
fn baseline_inverse_volatility_order() {
    let assets = vec![asset("A", 7), asset("B", 21), asset("C", 14)];
    let decisions = calculate_risk_parity(&assets).unwrap();
    // volatility(A) < volatility(C) < volatility(B), so allocation(A) >
    // allocation(C) > allocation(B); one shared denominator, compare numerators.
    assert!(decisions[0].allocation.num > decisions[2].allocation.num);
    assert!(decisions[2].allocation.num > decisions[1].allocation.num);
    // Exact 3:1:1.5 clearing: products of the other two volatilities.
    assert_eq!(decisions[0].allocation.num, 21 * 14);
    assert_eq!(decisions[1].allocation.num, 7 * 14);
    assert_eq!(decisions[2].allocation.num, 7 * 21);
}

#[test]
fn baseline_rejects_zero_volatility() {
    let assets = vec![asset("A", 10), asset("B", 0)];
    assert!(matches!(
        calculate_risk_parity(&assets),
        Err(AllocationError::ZeroVolatility)
    ));
}

#[test]
fn baseline_reports_overflow() {
    let assets: Vec<AssetClass> = (0..8).map(|i| asset(&format!("A{}", i), u64::MAX)).collect();
    assert!(matches!(
        calculate_risk_parity(&assets),
        Err(AllocationError::ArithmeticOverflow)
    ));
}

#[test]
fn baseline_of_empty_catalog_is_empty() {
    let assets: Vec<AssetClass> = Vec::new();
    let decisions = calculate_risk_parity(&assets).unwrap();
    assert!(decisions.is_empty());
}

#[test]
fn growth_scenario_tilts_equities_only() {
    // GDP Growth 3.0 with Inflation Rate 2.0 multiplies both equity
    // allocations by 1.1 and leaves the other three untouched, then
    // renormalizes.
    let catalog = create_asset_classes();
    let base = calculate_risk_parity(&catalog).unwrap();
    let env = snapshot(&[("GDP Growth", 300), ("Inflation Rate", 200)]);
    let adjusted = adjust_allocations(base, &env).unwrap();

    let tilted: [i128; 5] = [
        21600 * 1100,
        64800 * 1000,
        18000 * 1100,
        16200 * 1000,
        27000 * 1000,
    ];
    let tilted_sum: i128 = tilted.iter().sum();
    for (d, want) in adjusted.iter().zip(tilted.iter()) {
        assert!(same_fraction(&d.allocation, *want, tilted_sum));
    }
    // The adjusted allocations still sum to exactly one.
    let num_sum: i128 = adjusted.iter().map(|d| d.allocation.num).sum();
    assert_eq!(num_sum, adjusted[0].allocation.den);
}

#[test]
fn adjusted_sums_to_one_under_mixed_signals() {
    let catalog = create_asset_classes();
    let base = calculate_risk_parity(&catalog).unwrap();
    let env = snapshot(&[("GDP Growth", 350), ("Inflation Rate", 410)]);
    let adjusted = adjust_allocations(base, &env).unwrap();
    let num_sum: i128 = adjusted.iter().map(|d| d.allocation.num).sum();
    assert_eq!(num_sum, adjusted[0].allocation.den);
}

#[test]
fn neutral_environment_keeps_proportions() {
    let catalog = create_asset_classes();
    let base = calculate_risk_parity(&catalog).unwrap();
    let baseline: Vec<(String, i128, i128)> = base
        .iter()
        .map(|d| (d.asset.clone(), d.allocation.num, d.allocation.den))
        .collect();
    let env = snapshot(&[("GDP Growth", 200), ("Inflation Rate", 200)]);
    let adjusted = adjust_allocations(base, &env).unwrap();
    for (d, (name, num, den)) in adjusted.iter().zip(baseline.iter()) {
        assert_eq!(&d.asset, name);
        assert!(same_fraction(&d.allocation, *num, *den));
    }
}

#[test]
fn empty_environment_equals_explicit_neutral() {
    let catalog = create_asset_classes();
    let base = calculate_risk_parity(&catalog).unwrap();
    let base_copy: Vec<InvestmentDecision> = base
        .iter()
        .map(|d| InvestmentDecision {
            asset: d.asset.clone(),
            allocation: d.allocation,
        })
        .collect();
    let defaulted = adjust_allocations(base, &snapshot(&[])).unwrap();
    let explicit = adjust_allocations(
        base_copy,
        &snapshot(&[("GDP Growth", 200), ("Inflation Rate", 200)]),
    )
    .unwrap();
    assert_eq!(defaulted.len(), explicit.len());
    for (a, b) in defaulted.iter().zip(explicit.iter()) {
        assert_eq!(a.asset, b.asset);
        assert_eq!(a.allocation.num, b.allocation.num);
        assert_eq!(a.allocation.den, b.allocation.den);
    }
}

#[test]
fn rising_gdp_raises_equity_share() {
    let catalog = create_asset_classes();
    let base_low = calculate_risk_parity(&catalog).unwrap();
    let base_high = calculate_risk_parity(&catalog).unwrap();
    let low = adjust_allocations(base_low, &snapshot(&[("GDP Growth", 200)])).unwrap();
    let high = adjust_allocations(base_high, &snapshot(&[("GDP Growth", 300)])).unwrap();
    // allocation("US Equities") strictly larger under the higher GDP signal:
    // compare fractions by cross multiplication.
    assert!(high[0].allocation.num * low[0].allocation.den > low[0].allocation.num * high[0].allocation.den);
    // Real Estate takes no GDP tilt, so its share can only shrink.
    assert!(high[4].allocation.num * low[4].allocation.den < low[4].allocation.num * high[4].allocation.den);
}

#[test]
fn unknown_assets_are_left_untilted() {
    let decisions = vec![
        InvestmentDecision {
            asset: "Real Estate".to_string(),
            allocation: Rational { num: 3, den: 10 },
        },
        InvestmentDecision {
            asset: "Cash".to_string(),
            allocation: Rational { num: 7, den: 10 },
        },
    ];
    let env = snapshot(&[("GDP Growth", 999), ("Inflation Rate", 999)]);
    let adjusted = adjust_allocations(decisions, &env).unwrap();
    assert!(same_fraction(&adjusted[0].allocation, 3, 10));
    assert!(same_fraction(&adjusted[1].allocation, 7, 10));
}

#[test]
fn degenerate_total_is_reported() {
    // Inflation at 12.00 drives the US Bonds multiplier to exactly zero; with
    // bonds as the only asset the post-tilt total is zero.
    let decisions = vec![InvestmentDecision {
        asset: "US Bonds".to_string(),
        allocation: Rational { num: 1, den: 1 },
    }];
    let env = snapshot(&[("Inflation Rate", 1200)]);
    assert!(matches!(
        adjust_allocations(decisions, &env),
        Err(AllocationError::DegenerateTotal)
    ));
}

#[test]
fn adjustment_overflow_is_reported() {
    let decisions = vec![
        InvestmentDecision {
            asset: "US Equities".to_string(),
            allocation: Rational { num: i128::MAX / 2, den: i128::MAX / 2 },
        },
        InvestmentDecision {
            asset: "US Bonds".to_string(),
            allocation: Rational { num: i128::MAX / 2, den: i128::MAX / 2 },
        },
    ];
    let env = snapshot(&[]);
    assert!(matches!(
        adjust_allocations(decisions, &env),
        Err(AllocationError::ArithmeticOverflow)
    ));
}

#[test]
fn empty_portfolio_adjusts_to_itself() {
    let adjusted = adjust_allocations(Vec::new(), &snapshot(&[("GDP Growth", 300)])).unwrap();
    assert!(adjusted.is_empty());
}

#[test]
fn negative_total_normalizes_sign() {
    // A single equity position with a deeply negative growth signal gets a
    // negative multiplier; renormalization still yields exactly one.
    let decisions = vec![InvestmentDecision {
        asset: "US Equities".to_string(),
        allocation: Rational { num: 1, den: 2 },
    }];
    let env = snapshot(&[("GDP Growth", -2000)]);
    let adjusted = adjust_allocations(decisions, &env).unwrap();
    assert!(adjusted[0].allocation.den > 0);
    assert!(same_fraction(&adjusted[0].allocation, 1, 1));
}
