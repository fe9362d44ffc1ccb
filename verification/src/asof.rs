//! As-of lookup: the value in effect at a date, from samples ordered by date.
//!
//! A series knows nothing before its first sample and carries its last
//! sample forward indefinitely. Between samples the most recent one not
//! later than the queried date is in effect.

use vstd::prelude::*;
use crate::error::CacheError;

verus! {

/// A dated observation. `value` holds the bits of a 64-bit float.
#[derive(Clone, Copy, Debug, PartialEq, Eq, Structural)]
pub struct DateValue {
    /// The day of the observation, counted from the epoch.
    pub date: i32,
    /// The bits of the value observed.
    pub value: u64,
}

/// Dates never decrease from one position to the next.
pub open spec fn ascending(dates: Seq<i32>) -> bool {
    forall|i: int, j: int| 0 <= i <= j < dates.len() ==> dates[i] <= dates[j]
}

/// The largest position whose date is not later than `date`, if there is one.
pub open spec fn last_not_after(dates: Seq<i32>, date: i32) -> Option<int>
    decreases dates.len(),
{
    if dates.len() == 0 {
        None
    } else if dates.last() <= date {
        Some(dates.len() - 1)
    } else {
        last_not_after(dates.drop_last(), date)
    }
}

/// The value in effect at `date`: that of the latest sample not later than
/// `date`, or `default` where no sample is that early.
pub open spec fn value_as_of(
    dates: Seq<i32>,
    values: Seq<u64>,
    date: i32,
    default: Option<u64>,
) -> Option<u64> {
    match last_not_after(dates, date) {
        Some(p) => Some(values[p]),
        None => default,
    }
}

/// Position `p` holds a date not later than `date`, and the position after
/// it, if there is one, holds a later date.
pub open spec fn in_effect_at(dates: Seq<i32>, date: i32, p: int) -> bool {
    &&& 0 <= p < dates.len()
    &&& dates[p] <= date
    &&& p + 1 < dates.len() ==> date < dates[p + 1]
}

/// What a lookup may answer whatever the order of the dates: the default
/// where the series is empty or starts after `date`; the last value where
/// the last date is not later than `date`; else the value at a position
/// that is in effect at `date`.
pub open spec fn answers(
    dates: Seq<i32>,
    values: Seq<u64>,
    date: i32,
    default: Option<u64>,
    found: Option<u64>,
) -> bool {
    if dates.len() == 0 || date < dates[0] {
        found == default
    } else if dates.last() <= date {
        found == Some(values[dates.len() - 1])
    } else {
        exists|p: int| in_effect_at(dates, date, p) && found == Some(#[trigger] values[p])
    }
}

/// The dates of a sequence of dated observations, in order.
pub open spec fn pair_dates(pairs: Seq<DateValue>) -> Seq<i32> {
    pairs.map_values(|p: DateValue| p.date)
}

/// The values of a sequence of dated observations, in order.
pub open spec fn pair_values(pairs: Seq<DateValue>) -> Seq<u64> {
    pairs.map_values(|p: DateValue| p.value)
}

/// `last_not_after` is `Some(p)` exactly for the position `p` that holds a
/// date not later than `date` and has only later dates behind it.
pub proof fn lemma_last_not_after_some(dates: Seq<i32>, date: i32, p: int)
    ensures
        last_not_after(dates, date) == Some(p) <==> (0 <= p < dates.len() && dates[p] <= date
            && forall|j: int| p < j < dates.len() ==> dates[j] > date),
    decreases dates.len(),
{
    if dates.len() > 0 && dates.last() > date {
        let front = dates.drop_last();
        lemma_last_not_after_some(front, date, p);
        assert(forall|j: int| 0 <= j < front.len() ==> front[j] == dates[j]);
    }
}

/// `last_not_after` is `None` exactly when every date is later than `date`.
pub proof fn lemma_last_not_after_none(dates: Seq<i32>, date: i32)
    ensures
        last_not_after(dates, date) is None <==> forall|j: int|
            0 <= j < dates.len() ==> dates[j] > date,
    decreases dates.len(),
{
    if dates.len() > 0 && dates.last() > date {
        let front = dates.drop_last();
        lemma_last_not_after_none(front, date);
        assert(forall|j: int| 0 <= j < front.len() ==> front[j] == dates[j]);
    }
}

/// On ascending dates the position in effect at a date is the largest
/// position whose date is not later, so that `answers` admits one result
/// only: the value in effect.
pub proof fn lemma_answers_on_ascending(
    dates: Seq<i32>,
    values: Seq<u64>,
    date: i32,
    default: Option<u64>,
    found: Option<u64>,
)
    requires
        ascending(dates),
    ensures
        forall|p: int| in_effect_at(dates, date, p) <==> last_not_after(dates, date) == Some(p),
        answers(dates, values, date, default, found) <==> found == value_as_of(
            dates,
            values,
            date,
            default,
        ),
{
    assert forall|p: int| in_effect_at(dates, date, p) <==> last_not_after(dates, date) == Some(
        p,
    ) by {
        lemma_last_not_after_some(dates, date, p);
    }
    lemma_last_not_after_none(dates, date);
    if dates.len() > 0 && dates[0] <= date {
        let p = last_not_after(dates, date)->Some_0;
        lemma_last_not_after_some(dates, date, p);
        assert(in_effect_at(dates, date, p));
        if dates.last() <= date {
            assert(p == dates.len() - 1);
        }
    }
}

/// An empty series answers every date with the default.
pub proof fn lemma_empty_series(values: Seq<u64>, date: i32, default: Option<u64>)
    ensures
        value_as_of(Seq::<i32>::empty(), values, date, default) == default,
{
}

/// A date before the first sample of an ascending series is answered with
/// the default.
pub proof fn lemma_before_range(
    dates: Seq<i32>,
    values: Seq<u64>,
    date: i32,
    default: Option<u64>,
)
    requires
        ascending(dates),
        dates.len() > 0,
        date < dates[0],
    ensures
        value_as_of(dates, values, date, default) == default,
{
    lemma_last_not_after_none(dates, date);
}

/// A date on or after the last sample is answered with the last value.
pub proof fn lemma_after_range(
    dates: Seq<i32>,
    values: Seq<u64>,
    date: i32,
    default: Option<u64>,
)
    requires
        dates.len() > 0,
        date >= dates.last(),
    ensures
        value_as_of(dates, values, date, default) == Some(values[dates.len() - 1]),
{
}

/// The date of a sample of an ascending series is answered with that
/// sample's value, provided that no later sample of the same date carries
/// another value.
pub proof fn lemma_exact_match(
    dates: Seq<i32>,
    values: Seq<u64>,
    i: int,
    default: Option<u64>,
)
    requires
        ascending(dates),
        0 <= i < dates.len(),
        forall|j: int| i < j < dates.len() && dates[j] == dates[i] ==> values[j] == values[i],
    ensures
        value_as_of(dates, values, dates[i], default) == Some(values[i]),
{
    lemma_last_not_after_none(dates, dates[i]);
    let p = last_not_after(dates, dates[i])->Some_0;
    lemma_last_not_after_some(dates, dates[i], p);
}

/// A later date is never answered from an earlier sample: on an ascending
/// series, where `earlier` is answered from position `p`, any date
/// `later >= earlier` is answered from a position that is not before `p`
/// and whose date is not before that of `p`.
pub proof fn lemma_as_of_monotonic(dates: Seq<i32>, earlier: i32, later: i32, p: int)
    requires
        ascending(dates),
        earlier <= later,
        last_not_after(dates, earlier) == Some(p),
    ensures
        last_not_after(dates, later) is Some,
        p <= last_not_after(dates, later)->Some_0 < dates.len(),
        dates[p] <= dates[last_not_after(dates, later)->Some_0],
{
    lemma_last_not_after_some(dates, earlier, p);
    lemma_last_not_after_none(dates, later);
    let q = last_not_after(dates, later)->Some_0;
    lemma_last_not_after_some(dates, later, q);
}

/// A sequence that can be read by position and yields a date at each.
pub trait DatedSeq {
    /// The dates, in the order of their positions.
    spec fn dates(&self) -> Seq<i32>;

    /// The number of positions.
    fn count(&self) -> (n: usize)
        ensures
            n == self.dates().len(),
    ;

    /// The date at position `i`.
    fn date_at(&self, i: usize) -> (d: i32)
        requires
            i < self.dates().len(),
        ensures
            d == self.dates()[i as int],
    ;
}

impl DatedSeq for Vec<i32> {
    open spec fn dates(&self) -> Seq<i32> {
        self@
    }

    fn count(&self) -> (n: usize) {
        self.len()
    }

    fn date_at(&self, i: usize) -> (d: i32) {
        self[i]
    }
}

impl DatedSeq for Vec<DateValue> {
    open spec fn dates(&self) -> Seq<i32> {
        pair_dates(self@)
    }

    fn count(&self) -> (n: usize) {
        self.len()
    }

    fn date_at(&self, i: usize) -> (d: i32) {
        self[i].date
    }
}

/// Finds the position of the sample in effect at `date`.
///
/// An empty series, or one that starts after `date`, has none. A series
/// whose last date is not later than `date` answers with its last position.
/// Otherwise the position is located by bisection, in logarithmic time.
///
/// Whatever the order of the dates, a position that is returned is in
/// effect at `date`. Where the dates are ascending, it is the largest
/// position whose date is not later than `date`.
pub fn as_of_position<S: DatedSeq>(series: &S, date: i32) -> (r: Option<usize>)
    ensures
        r is None <==> series.dates().len() == 0 || date < series.dates()[0],
        r matches Some(p) ==> in_effect_at(series.dates(), date, p as int),
        r matches Some(p) ==> series.dates().last() <= date ==> p == series.dates().len() - 1,
        ascending(series.dates()) ==> (match r {
            Some(p) => last_not_after(series.dates(), date) == Some(p as int),
            None => last_not_after(series.dates(), date) is None,
        }),
{
    let n: usize = series.count();
    if n == 0 {
        return None;
    }
    if date < series.date_at(0) {
        proof {
            lemma_last_not_after_none(series.dates(), date);
        }
        return None;
    }
    if date >= series.date_at(n - 1) {
        proof {
            lemma_last_not_after_some(series.dates(), date, n - 1);
        }
        return Some(n - 1);
    }
    let mut lo: usize = 0;
    let mut hi: usize = n - 1;
    while hi - lo > 1
        invariant
            n == series.dates().len(),
            lo < hi < n,
            series.dates()[lo as int] <= date < series.dates()[hi as int],
        decreases hi - lo,
    {
        let mid: usize = lo + (hi - lo) / 2;
        if series.date_at(mid) <= date {
            lo = mid;
        } else {
            hi = mid;
        }
    }
    proof {
        lemma_last_not_after_some(series.dates(), date, lo as int);
    }
    Some(lo)
}

/// Looks a value up in parallel sequences of dates and values.
///
/// Fails exactly where the two sequences differ in length. Otherwise the
/// result is one that `answers` admits; on ascending dates that is the
/// value in effect at `date`.
pub fn get_value_as_of(
    dates: &Vec<i32>,
    values: &Vec<u64>,
    date: i32,
    default_value: Option<u64>,
) -> (r: Result<Option<u64>, CacheError>)
    ensures
        dates@.len() != values@.len() <==> r is Err,
        r matches Err(e) ==> e == CacheError::LengthMismatch,
        r matches Ok(found) ==> answers(dates@, values@, date, default_value, found),
        r matches Ok(found) ==> ascending(dates@) ==> found == value_as_of(
            dates@,
            values@,
            date,
            default_value,
        ),
{
    if dates.len() != values.len() {
        return Err(CacheError::LengthMismatch);
    }
    match as_of_position(dates, date) {
        Some(p) => Ok(Some(values[p])),
        None => Ok(default_value),
    }
}

/// Looks a value up in a sequence of dated observations.
///
/// The result is one that `answers` admits; on ascending dates that is the
/// value in effect at `date`.
pub fn get_value_as_of_pairs(
    pairs: &Vec<DateValue>,
    date: i32,
    default_value: Option<u64>,
) -> (found: Option<u64>)
    ensures
        answers(pair_dates(pairs@), pair_values(pairs@), date, default_value, found),
        ascending(pair_dates(pairs@)) ==> found == value_as_of(
            pair_dates(pairs@),
            pair_values(pairs@),
            date,
            default_value,
        ),
{
    match as_of_position(pairs, date) {
        Some(p) => {
            assert(pair_values(pairs@)[p as int] == pairs@[p as int].value);
            Some(pairs[p].value)
        },
        None => default_value,
    }
}

} // verus!
