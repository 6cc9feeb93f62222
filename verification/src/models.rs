//! Data model: the asset catalog entry, investment decisions, economic
//! indicators and the per-date environment snapshot.
//!
//! Scalar quantities are fixed-point integers with two decimal places
//! (a stored `v` stands for `v / 100`): a volatility of `15` stands for 0.15,
//! an indicator signal of `200` stands for 2.0, a correlation of `-20` stands
//! for -0.2.

use vstd::prelude::*;
use crate::rational::Rational;

verus! {

/// A plain calendar date. Observations are matched by exact date equality.
#[derive(Clone, Copy, Debug, PartialEq, Eq, Structural)]
pub struct Date {
    pub year: i32,
    pub month: u8,
    pub day: u8,
}

/// Immutable reference data for one asset class.
///
/// `expected_return` and `volatility` are fixed-point (two decimals);
/// `correlation` maps other asset names to pairwise correlation coefficients
/// in [-100, 100] (fixed-point for [-1.0, 1.0]). The correlation table is
/// plain data, unused by the current computation.
pub struct AssetClass {
    pub name: String,
    pub expected_return: i64,
    pub volatility: u64,
    pub correlation: Vec<(String, i64)>,
}

/// A target allocation for one asset: an exact fraction of the portfolio.
pub struct InvestmentDecision {
    pub asset: String,
    pub allocation: Rational,
}

/// A named economic time series: (date, value) observations, not necessarily
/// sorted or unique by date, and a composite weight (plain data, unused by the
/// current computation).
pub struct EconomicIndicator {
    pub name: String,
    pub data: Vec<(Date, i64)>,
    pub weight: i64,
}

/// Shape of the data provider's reply: a list of raw data points.
/// The driver that does the fetching owns the deserializing twin of this type.
pub struct AlphaVantageResponse {
    pub data: Vec<EconomicDataPoint>,
}

/// One raw observation as the provider sends it: both fields still text.
pub struct EconomicDataPoint {
    pub date: String,
    pub value: String,
}

/// The macro signals valid for one date: indicator name -> fixed-point value.
/// Indicators with no observation on that date are simply absent. Lookup
/// returns the last entry whose name matches, so a later binding of the same
/// name overwrites an earlier one, as map insertion would.
pub struct EnvironmentSnapshot {
    pub entries: Vec<(String, i64)>,
}

/// The value of the latest binding of `key` in an association list, if any.
pub open spec fn lookup_entry(entries: Seq<(String, i64)>, key: Seq<char>) -> Option<i64>
    decreases entries.len(),
{
    if entries.len() == 0 {
        None
    } else if entries.last().0@ == key {
        Some(entries.last().1)
    } else {
        lookup_entry(entries.drop_last(), key)
    }
}

impl EnvironmentSnapshot {
    /// The value this snapshot binds to `key`, if any.
    pub open spec fn spec_get(self, key: Seq<char>) -> Option<i64> {
        lookup_entry(self.entries@, key)
    }

    pub fn new() -> (r: EnvironmentSnapshot)
        ensures
            r.entries@ =~= Seq::<(String, i64)>::empty(),
    {
        EnvironmentSnapshot { entries: Vec::new() }
    }

    pub fn insert(&mut self, name: String, value: i64)
        ensures
            final(self).entries@ == old(self).entries@.push((name, value)),
    {
        self.entries.push((name, value));
    }

    /// Linear search, from the newest entry back, for one named `key`.
    pub fn get(&self, key: &String) -> (r: Option<i64>)
        ensures
            r == self.spec_get(key@),
    {
        let mut j = self.entries.len();
        assert(self.entries@.subrange(0, j as int) =~= self.entries@);
        while j > 0
            invariant
                j <= self.entries@.len(),
                lookup_entry(self.entries@.subrange(0, j as int), key@) == lookup_entry(
                    self.entries@,
                    key@,
                ),
            decreases j,
        {
            j = j - 1;
            let prefix = Ghost(self.entries@.subrange(0, j + 1));
            assert(prefix@.last() == self.entries@[j as int]);
            if self.entries[j].0 == *key {
                return Some(self.entries[j].1);
            }
            assert(prefix@.drop_last() =~= self.entries@.subrange(0, j as int));
        }
        assert(self.entries@.subrange(0, 0) =~= Seq::<(String, i64)>::empty());
        None
    }
}

} // verus!
