//! Rate histories: one bounded, date-ordered series per currency pair.

use vstd::prelude::*;
use crate::asof::{answers, as_of_position, ascending, value_as_of, DatedSeq};
use crate::error::CacheError;
use vstd::seq_lib::to_multiset_build;
use crate::fixed::{
    is_stable_sort_of, on_date, sample_dates, taken_on, sample_rates, series_as_slice, series_new, series_push,
    series_samples, series_sort, slot_entries, slot_map_clear, slot_map_get, slot_map_insert,
    slot_map_new, SampleVec, SlotMap, MAX_ENTRIES, MAX_ID_PAIRS,
};

verus! {

/// The history of one currency pair: at most `MAX_ENTRIES` samples, each a
/// date and the bits of a rate.
pub struct RateSeries {
    samples: SampleVec,
}

impl View for RateSeries {
    type V = Seq<(i32, u64)>;

    closed spec fn view(&self) -> Seq<(i32, u64)> {
        series_samples(self.samples)
    }
}

impl DatedSeq for RateSeries {
    open spec fn dates(&self) -> Seq<i32> {
        sample_dates(self@)
    }

    fn count(&self) -> (n: usize) {
        series_as_slice(&self.samples).len()
    }

    fn date_at(&self, i: usize) -> (d: i32) {
        series_as_slice(&self.samples)[i].0
    }
}

impl RateSeries {
    /// No more than `MAX_ENTRIES` samples are held.
    pub open spec fn wf(&self) -> bool {
        self@.len() <= MAX_ENTRIES
    }

    /// A series without samples.
    pub fn new() -> (series: Self)
        ensures
            series.wf(),
            series@ == Seq::<(i32, u64)>::empty(),
    {
        RateSeries { samples: series_new() }
    }

    /// The number of samples held.
    pub fn len(&self) -> (n: usize)
        ensures
            n == self@.len(),
    {
        series_as_slice(&self.samples).len()
    }

    /// The sample at position `i`.
    pub fn get(&self, i: usize) -> (sample: (i32, u64))
        requires
            i < self@.len(),
        ensures
            sample == self@[i as int],
    {
        series_as_slice(&self.samples)[i]
    }

    /// Appends a sample. Fails with `CapacityExceeded`, leaving the series as
    /// it was, exactly where `MAX_ENTRIES` samples are held already.
    pub fn push(&mut self, date: i32, rate: u64) -> (r: Result<(), CacheError>)
        requires
            old(self).wf(),
        ensures
            final(self).wf(),
            old(self)@.len() < MAX_ENTRIES ==> r is Ok && final(self)@ == old(self)@.push(
                (date, rate),
            ),
            old(self)@.len() >= MAX_ENTRIES ==> r == Err::<(), CacheError>(
                CacheError::CapacityExceeded,
            ) && final(self)@ == old(self)@,
    {
        match series_push(&mut self.samples, (date, rate)) {
            Ok(_) => Ok(()),
            Err(_) => Err(CacheError::CapacityExceeded),
        }
    }

    /// Puts the samples in ascending order of date, keeping samples of one
    /// date in the order they had. A series that ascends already is left as
    /// it is.
    pub fn sort_by_date(&mut self)
        requires
            old(self).wf(),
        ensures
            final(self).wf(),
            is_stable_sort_of(final(self)@, old(self)@),
            ascending(sample_dates(old(self)@)) ==> final(self)@ == old(self)@,
    {
        series_sort(&mut self.samples);
        proof {
            if ascending(sample_dates(old(self)@)) {
                lemma_sort_keeps_ascending(self@, old(self)@);
            }
        }
    }

    /// The rate in effect at `date`.
    ///
    /// The result is one that `answers` admits, with no rate as the
    /// default. Where the dates are ascending, it is the rate of the latest
    /// sample not later than `date`, and `None` only where the series starts
    /// after `date` or is empty.
    pub fn rate_as_of(&self, date: i32) -> (found: Option<u64>)
        ensures
            answers(sample_dates(self@), sample_rates(self@), date, None, found),
            ascending(sample_dates(self@)) ==> found == value_as_of(
                sample_dates(self@),
                sample_rates(self@),
                date,
                None,
            ),
    {
        match as_of_position(self, date) {
            Some(p) => {
                assert(sample_rates(self@)[p as int] == self@[p as int].1);
                Some(self.get(p).1)
            },
            None => None,
        }
    }
}

/// The histories after `sample` is appended to the series of `pair`, or
/// `None` where the store cannot take it: the pair's series holds
/// `MAX_ENTRIES` samples already, or the pair is new and `MAX_ID_PAIRS` pairs
/// are held already.
pub open spec fn appended(
    histories: Map<(i64, i64), Seq<(i32, u64)>>,
    pair: (i64, i64),
    sample: (i32, u64),
) -> Option<Map<(i64, i64), Seq<(i32, u64)>>> {
    if histories.contains_key(pair) {
        if histories[pair].len() < MAX_ENTRIES {
            Some(histories.insert(pair, histories[pair].push(sample)))
        } else {
            None
        }
    } else if histories.dom().len() < MAX_ID_PAIRS {
        Some(histories.insert(pair, seq![sample]))
    } else {
        None
    }
}

/// The pairs after a sample is appended for `pair`: a new pair goes last.
pub open spec fn pairs_with(pairs: Seq<(i64, i64)>, pair: (i64, i64)) -> Seq<(i64, i64)> {
    if pairs.contains(pair) {
        pairs
    } else {
        pairs.push(pair)
    }
}

/// The samples of one pair as rows `(from_id, to_id, date, rate bits)`.
pub open spec fn rows_of_pair(pair: (i64, i64), samples: Seq<(i32, u64)>) -> Seq<
    (i64, i64, i32, u64),
> {
    samples.map_values(|s: (i32, u64)| (pair.0, pair.1, s.0, s.1))
}

/// Every stored sample as a row, pair after pair in the order of `pairs`,
/// each pair's samples in the order of its series.
pub open spec fn rows_of(
    pairs: Seq<(i64, i64)>,
    histories: Map<(i64, i64), Seq<(i32, u64)>>,
) -> Seq<(i64, i64, i32, u64)>
    decreases pairs.len(),
{
    if pairs.len() == 0 {
        Seq::empty()
    } else {
        rows_of(pairs.drop_last(), histories) + rows_of_pair(pairs.last(), histories[pairs.last()])
    }
}

/// Sorting is idempotent: samples whose dates ascend already are their own
/// stable sort, and no other sequence is.
pub proof fn lemma_sort_keeps_ascending(sorted: Seq<(i32, u64)>, samples: Seq<(i32, u64)>)
    requires
        is_stable_sort_of(sorted, samples),
        ascending(sample_dates(samples)),
    ensures
        sorted == samples,
    decreases samples.len(),
{
    if samples.len() == 0 {
        assert(sorted =~= samples);
    } else {
        let n = samples.len() as int;
        let last = samples.last();
        let top = sorted.last();
        let front = samples.drop_last();
        let low = sorted.drop_last();
        reveal(Seq::filter);
        // the last sample of either sequence occurs in the other
        assert(on_date(sorted, last.0) == on_date(samples, last.0));
        assert(on_date(sorted, top.0) == on_date(samples, top.0));
        assert(taken_on(last.0)(samples[n - 1]));
        assert(taken_on(top.0)(sorted[n - 1]));
        samples.lemma_filter_contains(taken_on(last.0), n - 1);
        sorted.lemma_filter_contains_rev(taken_on(last.0), last);
        sorted.lemma_filter_contains(taken_on(top.0), n - 1);
        samples.lemma_filter_contains_rev(taken_on(top.0), top);
        let i = choose|i: int| 0 <= i < n && sorted[i] == last;
        let j = choose|j: int| 0 <= j < n && samples[j] == top;
        assert(sample_dates(sorted)[i] <= sample_dates(sorted)[n - 1]);
        assert(sample_dates(samples)[j] <= sample_dates(samples)[n - 1]);
        assert(top.0 == last.0);
        assert(on_date(samples, last.0) == on_date(front, last.0).push(last));
        assert(on_date(sorted, last.0) == on_date(low, last.0).push(top));
        assert(on_date(samples, last.0).last() == last);
        assert(top == last);
        assert forall|date: i32| on_date(low, date) == on_date(front, date) by {
            if date == last.0 {
                assert(on_date(low, date) =~= on_date(sorted, date).drop_last());
                assert(on_date(front, date) =~= on_date(samples, date).drop_last());
            } else {
                assert(on_date(low, date) == on_date(sorted, date));
                assert(on_date(front, date) == on_date(samples, date));
            }
        }
        assert(low.push(top) =~= sorted);
        assert(front.push(last) =~= samples);
        to_multiset_build(low, top);
        to_multiset_build(front, last);
        assert(low.to_multiset() =~= front.to_multiset()) by {
            assert forall|v: (i32, u64)| low.to_multiset().count(v) == front.to_multiset().count(
                v,
            ) by {
                assert(low.to_multiset().insert(top).count(v) == front.to_multiset().insert(
                    last,
                ).count(v));
            }
        }
        assert(ascending(sample_dates(low))) by {
            assert forall|a: int, b: int| 0 <= a <= b < low.len() implies sample_dates(low)[a]
                <= sample_dates(low)[b] by {
                assert(sample_dates(sorted)[a] <= sample_dates(sorted)[b]);
            }
        }
        assert(ascending(sample_dates(front))) by {
            assert forall|a: int, b: int| 0 <= a <= b < front.len() implies sample_dates(front)[a]
                <= sample_dates(front)[b] by {
                assert(sample_dates(samples)[a] <= sample_dates(samples)[b]);
            }
        }
        lemma_sort_keeps_ascending(low, front);
        assert(sorted =~= samples);
    }
}

/// A bounded map from currency pairs to their rate series.
///
/// The pair `(a, b)` and the pair `(b, a)` are different keys. Each pair has
/// a slot, given out in the order in which the pairs first appear; the
/// series stand in slot order. The fixed-capacity map holds the slots only:
/// with the series inside it, the map would be one value of several
/// megabytes, too large for a stack.
pub struct RateSeriesStore {
    slots: SlotMap,
    keys: Vec<(i64, i64)>,
    series: Vec<RateSeries>,
}

impl View for RateSeriesStore {
    type V = Map<(i64, i64), Seq<(i32, u64)>>;

    closed spec fn view(&self) -> Map<(i64, i64), Seq<(i32, u64)>> {
        Map::new(
            |pair: (i64, i64)| slot_entries(self.slots).contains_key(pair),
            |pair: (i64, i64)| self.series@[slot_entries(self.slots)[pair] as int]@,
        )
    }
}

impl RateSeriesStore {
    /// The pairs held, in the order in which they first appeared.
    pub closed spec fn pairs(&self) -> Seq<(i64, i64)> {
        self.keys@
    }

    /// Slots and pairs correspond one to one, and no more than
    /// `MAX_ID_PAIRS` pairs are held.
    pub closed spec fn wf(&self) -> bool {
        let slots = slot_entries(self.slots);
        &&& slots.dom().finite()
        &&& slots.dom().len() == self.keys@.len()
        &&& self.series@.len() == self.keys@.len()
        &&& self.keys@.len() <= MAX_ID_PAIRS
        &&& forall|pair: (i64, i64)| #[trigger]
            slots.contains_key(pair) ==> slots[pair] < self.keys@.len()
                && self.keys@[slots[pair] as int] == pair
        &&& forall|i: int|
            0 <= i < self.keys@.len() ==> slots.contains_key(#[trigger] self.keys@[i])
                && slots[self.keys@[i]] == i
        &&& forall|i: int|
            0 <= i < self.series@.len() ==> 0 < (#[trigger] self.series@[i])@.len() <= MAX_ENTRIES
    }

    /// In a well-formed store the pairs listed are the pairs held, each
    /// listed once, and there are no more than `MAX_ID_PAIRS` of them; the
    /// series of each holds at least one sample and no more than
    /// `MAX_ENTRIES`.
    pub proof fn lemma_pairs(&self)
        requires
            self.wf(),
        ensures
            self@.dom().finite(),
            self@.dom().len() == self.pairs().len(),
            self.pairs().len() <= MAX_ID_PAIRS,
            self.pairs().no_duplicates(),
            forall|pair: (i64, i64)| self@.contains_key(pair) <==> self.pairs().contains(pair),
            forall|pair: (i64, i64)| #[trigger]
                self@.contains_key(pair) ==> 0 < self@[pair].len() <= MAX_ENTRIES,
    {
        assert(self@.dom() =~= slot_entries(self.slots).dom());
        assert forall|pair: (i64, i64)| self@.contains_key(pair) implies self.pairs().contains(
            pair,
        ) by {
            assert(self.keys@[slot_entries(self.slots)[pair] as int] == pair);
        }
    }

    /// A store without pairs.
    pub fn new() -> (store: Self)
        ensures
            store.wf(),
            store@ == Map::<(i64, i64), Seq<(i32, u64)>>::empty(),
            store.pairs() == Seq::<(i64, i64)>::empty(),
    {
        let store = RateSeriesStore { slots: slot_map_new(), keys: Vec::new(), series: Vec::new() };
        assert(store@ =~= Map::<(i64, i64), Seq<(i32, u64)>>::empty());
        store
    }

    /// Appends the sample `(date, rate)` to the series of the pair
    /// `(from_id, to_id)`, creating the series where the pair is new. Fails
    /// with `CapacityExceeded`, leaving the store as it was, exactly where
    /// `appended` has no result.
    pub fn append(&mut self, from_id: i64, to_id: i64, date: i32, rate: u64) -> (r: Result<
        (),
        CacheError,
    >)
        requires
            old(self).wf(),
        ensures
            final(self).wf(),
            match appended(old(self)@, (from_id, to_id), (date, rate)) {
                Some(histories) => r is Ok && final(self)@ == histories && final(self).pairs()
                    == pairs_with(old(self).pairs(), (from_id, to_id)),
                None => r == Err::<(), CacheError>(CacheError::CapacityExceeded) && final(self)@
                    == old(self)@ && final(self).pairs() == old(self).pairs(),
            },
    {
        proof {
            self.lemma_pairs();
        }
        let pair = (from_id, to_id);
        match slot_map_get(&self.slots, &pair) {
            Some(slot) => {
                let r = self.series[slot].push(date, rate);
                proof {
                    if r is Ok {
                        assert(self@ =~= old(self)@.insert(
                            pair,
                            old(self)@[pair].push((date, rate)),
                        ));
                    } else {
                        assert(self@ =~= old(self)@);
                    }
                }
                r
            },
            None => {
                let slot: usize = self.keys.len();
                match slot_map_insert(&mut self.slots, pair, slot) {
                    Ok(_) => {
                        let mut fresh = RateSeries::new();
                        let _ = fresh.push(date, rate);
                        self.keys.push(pair);
                        self.series.push(fresh);
                        proof {
                            assert(fresh@ =~= seq![(date, rate)]);
                            assert(self@ =~= old(self)@.insert(pair, seq![(date, rate)]));
                        }
                        Ok(())
                    },
                    Err(_) => {
                        proof {
                            assert(self@ =~= old(self)@);
                        }
                        Err(CacheError::CapacityExceeded)
                    },
                }
            },
        }
    }

    /// The rate in effect at `date` for the pair `(from_id, to_id)`.
    ///
    /// A pair that is not held has no rate. For a pair that is held the
    /// answer is that of `RateSeries::rate_as_of` on its series.
    pub fn rate_as_of(&self, from_id: i64, to_id: i64, date: i32) -> (found: Option<u64>)
        requires
            self.wf(),
        ensures
            !self@.contains_key((from_id, to_id)) ==> found is None,
            self@.contains_key((from_id, to_id)) ==> answers(
                sample_dates(self@[(from_id, to_id)]),
                sample_rates(self@[(from_id, to_id)]),
                date,
                None,
                found,
            ),
            self@.contains_key((from_id, to_id)) && ascending(
                sample_dates(self@[(from_id, to_id)]),
            ) ==> found == value_as_of(
                sample_dates(self@[(from_id, to_id)]),
                sample_rates(self@[(from_id, to_id)]),
                date,
                None,
            ),
    {
        let pair = (from_id, to_id);
        match slot_map_get(&self.slots, &pair) {
            Some(slot) => self.series[slot].rate_as_of(date),
            None => None,
        }
    }

    /// Sorts every series by date, keeping samples of one date in the order
    /// they had. The pairs held and their order stay as they were, and so
    /// does every series that ascends already.
    pub fn sort_all(&mut self)
        requires
            old(self).wf(),
        ensures
            final(self).wf(),
            final(self).pairs() == old(self).pairs(),
            final(self)@.dom() == old(self)@.dom(),
            forall|pair: (i64, i64)| #[trigger]
                final(self)@.contains_key(pair) ==> is_stable_sort_of(
                    final(self)@[pair],
                    old(self)@[pair],
                ),
            forall|pair: (i64, i64)| #[trigger]
                final(self)@.contains_key(pair) && ascending(sample_dates(old(self)@[pair]))
                    ==> final(self)@[pair] == old(self)@[pair],
    {
        let n: usize = self.series.len();
        let mut i: usize = 0;
        while i < n
            invariant
                i <= n,
                n == self.series@.len(),
                old(self).wf(),
                self.keys@ == old(self).keys@,
                slot_entries(self.slots) == slot_entries(old(self).slots),
                forall|j: int|
                    0 <= j < i ==> is_stable_sort_of(
                        (#[trigger] self.series@[j])@,
                        old(self).series@[j]@,
                    ),
                forall|j: int| i <= j < n ==> (#[trigger] self.series@[j])@ == old(self).series@[j]@,
                forall|j: int| 0 <= j < n ==> 0 < (#[trigger] old(self).series@[j])@.len() <= MAX_ENTRIES,
            decreases n - i,
        {
            self.series[i].sort_by_date();
            i += 1;
        }
        assert(self@.dom() =~= old(self)@.dom());
        assert forall|pair: (i64, i64)| #[trigger]
            self@.contains_key(pair) && ascending(
                sample_dates(old(self)@[pair]),
            ) implies self@[pair] == old(self)@[pair] by {
            lemma_sort_keeps_ascending(self@[pair], old(self)@[pair]);
        }
    }

    /// Every stored sample as a row `(from_id, to_id, date, rate bits)`,
    /// pair after pair in the order of `pairs`, each pair's samples in the
    /// order of its series.
    pub fn dump(&self) -> (rows: Vec<(i64, i64, i32, u64)>)
        requires
            self.wf(),
        ensures
            rows@ == rows_of(self.pairs(), self@),
    {
        let mut rows: Vec<(i64, i64, i32, u64)> = Vec::new();
        let n: usize = self.keys.len();
        let mut i: usize = 0;
        assert(self.keys@.take(0) =~= Seq::<(i64, i64)>::empty());
        while i < n
            invariant
                i <= n,
                n == self.keys@.len(),
                self.wf(),
                rows@ == rows_of(self.keys@.take(i as int), self@),
            decreases n - i,
        {
            let pair = self.keys[i];
            let series = &self.series[i];
            let count: usize = series.len();
            let mut j: usize = 0;
            assert(rows_of_pair(pair, series@.take(0)) =~= Seq::<(i64, i64, i32, u64)>::empty());
            while j < count
                invariant
                    j <= count,
                    count == series@.len(),
                    rows@ == rows_of(self.keys@.take(i as int), self@) + rows_of_pair(
                        pair,
                        series@.take(j as int),
                    ),
                decreases count - j,
            {
                let sample = series.get(j);
                rows.push((pair.0, pair.1, sample.0, sample.1));
                proof {
                    assert(series@.take(j + 1) =~= series@.take(j as int).push(sample));
                    assert(rows_of_pair(pair, series@.take(j + 1)) =~= rows_of_pair(
                        pair,
                        series@.take(j as int),
                    ).push((pair.0, pair.1, sample.0, sample.1)));
                }
                j += 1;
            }
            proof {
                let upto = self.keys@.take(i + 1);
                assert(series@.take(count as int) =~= series@);
                assert(upto.drop_last() =~= self.keys@.take(i as int));
                assert(upto.last() == pair);
                assert(self@[pair] == series@);
            }
            i += 1;
        }
        assert(self.keys@.take(n as int) =~= self.keys@);
        rows
    }

    /// Removes every pair and its series.
    pub fn clear(&mut self)
        ensures
            final(self).wf(),
            final(self)@ == Map::<(i64, i64), Seq<(i32, u64)>>::empty(),
            final(self).pairs() == Seq::<(i64, i64)>::empty(),
    {
        slot_map_clear(&mut self.slots);
        self.keys.clear();
        self.series.clear();
        assert(self@ =~= Map::<(i64, i64), Seq<(i32, u64)>>::empty());
    }
}

} // verus!
