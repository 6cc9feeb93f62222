use portfolio_allocation::economic_data::analyze_economic_environment;
use portfolio_allocation::models::{Date, EconomicIndicator, EnvironmentSnapshot};

fn date(year: i32, month: u8, day: u8) -> Date {
    Date { year, month, day }
}

fn indicator(name: &str, data: Vec<(Date, i64)>) -> EconomicIndicator {
    EconomicIndicator {
        name: name.to_string(),
        data,
        weight: 20,
    }
}

#[test]
fn snapshot_picks_values_for_the_date() {
    let indicators = vec![
        indicator(
            "GDP Growth",
            vec![(date(2020, 1, 1), 250), (date(2020, 2, 1), 310)],
        ),
        indicator("Inflation Rate", vec![(date(2020, 2, 1), 180)]),
    ];
    let env = analyze_economic_environment(&indicators, date(2020, 2, 1));
    assert_eq!(env.entries.len(), 2);
    assert_eq!(env.entries[0], ("GDP Growth".to_string(), 310));
    assert_eq!(env.entries[1], ("Inflation Rate".to_string(), 180));
}

#[test]
fn snapshot_omits_indicators_without_observation() {
    let indicators = vec![
        indicator("GDP Growth", vec![(date(2020, 1, 1), 250)]),
        indicator("Inflation Rate", vec![(date(2020, 3, 1), 180)]),
    ];
    let env = analyze_economic_environment(&indicators, date(2020, 1, 1));
    assert_eq!(env.entries.len(), 1);
    assert_eq!(env.entries[0], ("GDP Growth".to_string(), 250));
    assert_eq!(env.get(&"Inflation Rate".to_string()), None);
}

#[test]
fn snapshot_first_duplicate_date_wins() {
    let indicators = vec![indicator(
        "GDP Growth",
        vec![
            (date(2021, 6, 1), 111),
            (date(2021, 6, 1), 222),
            (date(2021, 6, 1), 333),
        ],
    )];
    let env = analyze_economic_environment(&indicators, date(2021, 6, 1));
    assert_eq!(env.entries, vec![("GDP Growth".to_string(), 111)]);
}

#[test]
fn snapshot_of_no_indicators_is_empty() {
    let indicators: Vec<EconomicIndicator> = Vec::new();
    let env = analyze_economic_environment(&indicators, date(2022, 5, 4));
    assert!(env.entries.is_empty());
}

#[test]
fn lookup_returns_last_matching_entry() {
    // A later binding of the same name overwrites an earlier one, as map
    // insertion would.
    let mut env = EnvironmentSnapshot::new();
    env.insert("GDP Growth".to_string(), 300);
    env.insert("GDP Growth".to_string(), 999);
    env.insert("Inflation Rate".to_string(), 150);
    assert_eq!(env.get(&"GDP Growth".to_string()), Some(999));
    assert_eq!(env.get(&"Inflation Rate".to_string()), Some(150));
    assert_eq!(env.get(&"Unemployment Rate".to_string()), None);
}

#[test]
fn later_duplicate_indicator_overwrites_earlier() {
    // Two indicators sharing a name, both observed on the date: the later
    // one in slice order wins the lookup.
    let indicators = vec![
        indicator("GDP Growth", vec![(date(2020, 1, 1), 111)]),
        indicator("GDP Growth", vec![(date(2020, 1, 1), 222)]),
    ];
    let env = analyze_economic_environment(&indicators, date(2020, 1, 1));
    assert_eq!(env.get(&"GDP Growth".to_string()), Some(222));
}

#[test]
fn dates_compare_by_fields() {
    assert_eq!(date(2020, 1, 1), date(2020, 1, 1));
    assert_ne!(date(2020, 1, 1), date(2020, 1, 2));
    assert_ne!(date(2020, 1, 1), date(2021, 1, 1));
}
