//! Environment snapshot builder: reduces indicator time series to the flat
//! name -> value mapping valid for one date.

use vstd::prelude::*;
use crate::models::{Date, EconomicIndicator, EnvironmentSnapshot};

verus! {

/// The first observed value on `date` in a series, scanning in order.
/// Duplicate dates resolve to the earliest entry; no interpolation.
pub open spec fn first_value_on(data: Seq<(Date, i64)>, date: Date) -> Option<i64>
    decreases data.len(),
{
    if data.len() == 0 {
        None
    } else if data[0].0 == date {
        Some(data[0].1)
    } else {
        first_value_on(data.subrange(1, data.len() as int), date)
    }
}

/// The snapshot entries for `date`: one entry per indicator that has an
/// observation on that date, in indicator order; indicators without one are
/// simply absent.
pub open spec fn snapshot_entries(inds: Seq<EconomicIndicator>, date: Date) -> Seq<(String, i64)>
    decreases inds.len(),
{
    if inds.len() == 0 {
        Seq::<(String, i64)>::empty()
    } else {
        let head = snapshot_entries(inds.drop_last(), date);
        match first_value_on(inds.last().data@, date) {
            Some(v) => head.push((inds.last().name, v)),
            None => head,
        }
    }
}

/// Linear search for the first observation dated `date`.
fn find_value_on(data: &Vec<(Date, i64)>, date: Date) -> (r: Option<i64>)
    ensures
        r == first_value_on(data@, date),
{
    let n = data.len();
    assert(data@.skip(0) =~= data@);
    for j in 0..n
        invariant
            n == data@.len(),
            first_value_on(data@.skip(j as int), date) == first_value_on(data@, date),
    {
        let tail = Ghost(data@.skip(j as int));
        assert(tail@[0] == data@[j as int]);
        if data[j].0 == date {
            return Some(data[j].1);
        }
        assert(tail@.subrange(1, tail@.len() as int) =~= data@.skip(j + 1));
    }
    assert(data@.skip(n as int) =~= Seq::<(Date, i64)>::empty());
    None
}

/// Build the environment snapshot for `date`: for each indicator, the first
/// observation equal to `date` contributes `name -> value`; indicators with no
/// such observation are omitted. Should two indicators share a name, snapshot
/// lookup resolves to the later one, as map insertion would.
pub fn analyze_economic_environment(indicators: &Vec<EconomicIndicator>, date: Date) -> (r:
    EnvironmentSnapshot)
    ensures
        r.entries@ == snapshot_entries(indicators@, date),
{
    let mut env = EnvironmentSnapshot::new();
    let n = indicators.len();
    assert(indicators@.subrange(0, 0) =~= Seq::<EconomicIndicator>::empty());
    for i in 0..n
        invariant
            n == indicators@.len(),
            env.entries@ == snapshot_entries(indicators@.subrange(0, i as int), date),
    {
        let ghost prefix = indicators@.subrange(0, i + 1);
        assert(prefix.drop_last() =~= indicators@.subrange(0, i as int));
        assert(prefix.last() == indicators@[i as int]);
        match find_value_on(&indicators[i].data, date) {
            Some(v) => {
                env.insert(indicators[i].name.clone(), v);
            },
            None => {},
        }
    }
    assert(indicators@.subrange(0, n as int) =~= indicators@);
    env
}

} // verus!
