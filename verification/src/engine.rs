//! The cache engine: identities, rate histories and the population state,
//! loaded together and read together.
//!
//! The engine never reads the backing store itself. A caller polls, claims
//! the load where the cache is idle, reads the rows and hands them to
//! `populate`; from then on rates are served from memory.

use vstd::prelude::*;
use crate::asof::{ascending, value_as_of};
use crate::control::{claimed, polled, CacheState, Claim, CurrencyControl, Readiness};
use crate::error::CacheError;
use crate::fixed::{
    is_stable_sort_of, sample_dates, sample_rates, MAX_CURRENCIES, MAX_ENTRIES, MAX_ID_PAIRS,
};
use crate::load::{
    identities_loaded, lemma_identities_fail_early, lemma_rates_fail_early, pairs_loaded,
    rates_loaded,
};
use crate::series::{rows_of, RateSeriesStore};
use crate::xuid::{fits, normalized, resolved, same_xuid, XuidIndex};

verus! {

/// The bits of the rate `1.0`, the rate of every currency against itself.
pub const UNIT_RATE: u64 = 0x3FF0_0000_0000_0000;

/// The rate of `from_id` against `to_id` at `date`: `1.0` for a currency
/// against itself, else the rate in effect in the pair's history, if the
/// pair has one that reaches back to `date`.
pub open spec fn rate_of(
    histories: Map<(i64, i64), Seq<(i32, u64)>>,
    from_id: i64,
    to_id: i64,
    date: i32,
) -> Option<u64> {
    if from_id == to_id {
        Some(UNIT_RATE)
    } else if histories.contains_key((from_id, to_id)) {
        value_as_of(
            sample_dates(histories[(from_id, to_id)]),
            sample_rates(histories[(from_id, to_id)]),
            date,
            None,
        )
    } else {
        None
    }
}

/// The rate between two currencies named by text: `1.0` where both texts
/// normalize to the same identifier, whether or not it is known; else both
/// must resolve, the first that does not being reported.
pub open spec fn rate_of_xuids(
    identities: Map<Seq<char>, i64>,
    histories: Map<(i64, i64), Seq<(i32, u64)>>,
    from_xuid: Seq<char>,
    to_xuid: Seq<char>,
    date: i32,
) -> Result<Option<u64>, CacheError> {
    if normalized(from_xuid) == normalized(to_xuid) {
        Ok(Some(UNIT_RATE))
    } else {
        match (resolved(identities, from_xuid), resolved(identities, to_xuid)) {
            (Ok(from_id), Ok(to_id)) => Ok(rate_of(histories, from_id, to_id, date)),
            _ => Err(CacheError::UnknownCurrency),
        }
    }
}

/// A currency has the rate `1.0` against itself at every date, whether or
/// not anything is held for it.
pub proof fn lemma_identity_rate(
    histories: Map<(i64, i64), Seq<(i32, u64)>>,
    identities: Map<Seq<char>, i64>,
    id: i64,
    xuid: Seq<char>,
    date: i32,
)
    ensures
        rate_of(histories, id, id, date) == Some(UNIT_RATE),
        rate_of_xuids(identities, histories, xuid, xuid, date) == Ok::<Option<u64>, CacheError>(
            Some(UNIT_RATE),
        ),
{
}

/// The verdict on the backing store: it is compatible exactly where the
/// schema check answered, and answered yes.
pub fn check_compatibility(answer: Option<bool>) -> (r: Result<(), CacheError>)
    ensures
        r is Ok <==> answer == Some(true),
        r matches Err(e) ==> e == CacheError::SchemaIncompatible,
{
    match answer {
        Some(true) => Ok(()),
        _ => Err(CacheError::SchemaIncompatible),
    }
}

/// One cache: the identifier index, the rate histories and the control
/// block.
pub struct CacheEngine {
    control: CurrencyControl,
    xuids: XuidIndex,
    store: RateSeriesStore,
}

impl CacheEngine {
    /// The population state.
    pub closed spec fn state(&self) -> CacheState {
        self.control.state()
    }

    /// The currency id held for each normalized identifier.
    pub closed spec fn identities(&self) -> Map<Seq<char>, i64> {
        self.xuids@
    }

    /// The samples held for each currency pair, in series order.
    pub closed spec fn histories(&self) -> Map<(i64, i64), Seq<(i32, u64)>> {
        self.store@
    }

    /// The pairs held, in the order in which they first appeared.
    pub closed spec fn pairs(&self) -> Seq<(i64, i64)> {
        self.store.pairs()
    }

    /// Both collections are well formed and every series is in ascending
    /// order of date.
    pub closed spec fn wf(&self) -> bool {
        &&& self.xuids.wf()
        &&& self.store.wf()
        &&& forall|pair: (i64, i64)| #[trigger]
            self.store@.contains_key(pair) ==> ascending(sample_dates(self.store@[pair]))
    }

    /// In a well-formed engine every history is in ascending order of date.
    pub proof fn lemma_histories_ascend(&self, pair: (i64, i64))
        requires
            self.wf(),
            self.histories().contains_key(pair),
        ensures
            ascending(sample_dates(self.histories()[pair])),
    {
    }

    /// In a well-formed engine no collection exceeds its capacity: at most
    /// `MAX_CURRENCIES` identifiers are held, each short enough to be a key;
    /// at most `MAX_ID_PAIRS` pairs, each listed once; and every history
    /// holds at least one sample and at most `MAX_ENTRIES`.
    pub proof fn lemma_bounds(&self)
        requires
            self.wf(),
        ensures
            self.identities().dom().finite(),
            self.identities().dom().len() <= MAX_CURRENCIES,
            forall|key: Seq<char>| self.identities().contains_key(key) ==> fits(key),
            self.histories().dom().finite(),
            self.histories().dom().len() == self.pairs().len(),
            self.pairs().len() <= MAX_ID_PAIRS,
            self.pairs().no_duplicates(),
            forall|pair: (i64, i64)|
                self.histories().contains_key(pair) <==> self.pairs().contains(pair),
            forall|pair: (i64, i64)| #[trigger]
                self.histories().contains_key(pair) ==> 0 < self.histories()[pair].len()
                    <= MAX_ENTRIES,
    {
        self.store.lemma_pairs();
    }

    /// An empty cache.
    pub fn new() -> (engine: Self)
        ensures
            engine.wf(),
            engine.state() == CacheState::Empty,
            engine.identities() == Map::<Seq<char>, i64>::empty(),
            engine.histories() == Map::<(i64, i64), Seq<(i32, u64)>>::empty(),
            engine.pairs() == Seq::<(i64, i64)>::empty(),
    {
        CacheEngine {
            control: CurrencyControl::new(),
            xuids: XuidIndex::new(),
            store: RateSeriesStore::new(),
        }
    }

    /// The current population state.
    pub fn current(&self) -> (state: CacheState)
        ensures
            state == self.state(),
    {
        self.control.current()
    }

    /// Tells a caller that wants to read what to do next.
    pub fn poll(&self) -> (readiness: Readiness)
        ensures
            readiness == polled(self.state()),
    {
        self.control.poll()
    }

    /// Asks for the right to load the cache. Only the state can change, and
    /// it changes as `claimed` says.
    pub fn claim(&mut self) -> (claim: Claim)
        requires
            old(self).wf(),
        ensures
            final(self).wf(),
            (final(self).state(), claim) == claimed(old(self).state()),
            final(self).identities() == old(self).identities(),
            final(self).histories() == old(self).histories(),
            final(self).pairs() == old(self).pairs(),
    {
        self.control.claim()
    }

    /// Empties the cache and resets it to `Empty`, whatever its state.
    pub fn invalidate(&mut self)
        ensures
            final(self).wf(),
            final(self).state() == CacheState::Empty,
            final(self).identities() == Map::<Seq<char>, i64>::empty(),
            final(self).histories() == Map::<(i64, i64), Seq<(i32, u64)>>::empty(),
            final(self).pairs() == Seq::<(i64, i64)>::empty(),
    {
        self.xuids.clear();
        self.store.clear();
        self.control.reset();
    }

    /// Gives up a load whose rows could not be read: the cache is emptied
    /// and `Empty` again, so that the load can be tried anew, and the failure
    /// to report is returned.
    pub fn source_failed(&mut self) -> (e: CacheError)
        ensures
            e == CacheError::SourceReadFailure,
            final(self).wf(),
            final(self).state() == CacheState::Empty,
            final(self).identities() == Map::<Seq<char>, i64>::empty(),
            final(self).histories() == Map::<(i64, i64), Seq<(i32, u64)>>::empty(),
            final(self).pairs() == Seq::<(i64, i64)>::empty(),
    {
        self.invalidate();
        CacheError::SourceReadFailure
    }

    /// Loads the cache from identity rows `(currency id, identifier)` and
    /// rate rows `(from_id, to_id, date, rate bits)`.
    ///
    /// What was held before is dropped. The identity rows are recorded in
    /// order, the rate rows appended in order, and every series is then
    /// sorted by date, which changes nothing where the rows of each pair
    /// came in ascending order. Where all rows can be taken the cache is `Filled`
    /// and the numbers of identity rows and of rate rows are returned; where
    /// one cannot, the load fails with `CapacityExceeded` and leaves the
    /// cache empty and `Empty`.
    pub fn populate(
        &mut self,
        currencies: &Vec<(i64, String)>,
        rates: &Vec<(i64, i64, i32, u64)>,
    ) -> (r: Result<(usize, usize), CacheError>)
        ensures
            final(self).wf(),
            match (identities_loaded(currencies@), rates_loaded(rates@)) {
                (Some(entries), Some(loaded)) => {
                    &&& r == Ok::<(usize, usize), CacheError>((currencies.len(), rates.len()))
                    &&& final(self).state() == CacheState::Filled
                    &&& final(self).identities() == entries
                    &&& final(self).pairs() == pairs_loaded(rates@)
                    &&& final(self).histories().dom() == loaded.dom()
                    &&& forall|pair: (i64, i64)| #[trigger]
                        loaded.contains_key(pair) ==> is_stable_sort_of(
                            final(self).histories()[pair],
                            loaded[pair],
                        )
                    &&& forall|pair: (i64, i64)| #[trigger]
                        loaded.contains_key(pair) && ascending(sample_dates(loaded[pair]))
                            ==> final(self).histories()[pair] == loaded[pair]
                },
                _ => {
                    &&& r == Err::<(usize, usize), CacheError>(CacheError::CapacityExceeded)
                    &&& final(self).state() == CacheState::Empty
                    &&& final(self).identities() == Map::<Seq<char>, i64>::empty()
                    &&& final(self).histories() == Map::<(i64, i64), Seq<(i32, u64)>>::empty()
                    &&& final(self).pairs() == Seq::<(i64, i64)>::empty()
                },
            },
    {
        self.invalidate();
        let n: usize = currencies.len();
        let mut i: usize = 0;
        assert(currencies@.take(0) =~= Seq::<(i64, String)>::empty());
        while i < n
            invariant
                i <= n,
                n == currencies@.len(),
                self.xuids.wf(),
                self.store.wf(),
                self.store@ == Map::<(i64, i64), Seq<(i32, u64)>>::empty(),
                self.store.pairs() == Seq::<(i64, i64)>::empty(),
                self.control.state() == CacheState::Empty,
                identities_loaded(currencies@.take(i as int)) == Some(self.xuids@),
            decreases n - i,
        {
            let row = &currencies[i];
            proof {
                assert(currencies@.take(i + 1).drop_last() =~= currencies@.take(i as int));
            }
            match self.xuids.insert(row.1.as_str(), row.0) {
                Ok(_) => {},
                Err(_) => {
                    proof {
                        lemma_identities_fail_early(currencies@, i + 1);
                    }
                    self.invalidate();
                    return Err(CacheError::CapacityExceeded);
                },
            }
            i += 1;
        }
        assert(currencies@.take(n as int) =~= currencies@);
        let m: usize = rates.len();
        let mut j: usize = 0;
        assert(rates@.take(0) =~= Seq::<(i64, i64, i32, u64)>::empty());
        while j < m
            invariant
                j <= m,
                m == rates@.len(),
                self.xuids.wf(),
                self.store.wf(),
                self.control.state() == CacheState::Empty,
                identities_loaded(currencies@) == Some(self.xuids@),
                rates_loaded(rates@.take(j as int)) == Some(self.store@),
                self.store.pairs() == pairs_loaded(rates@.take(j as int)),
            decreases m - j,
        {
            let row = rates[j];
            proof {
                assert(rates@.take(j + 1).drop_last() =~= rates@.take(j as int));
            }
            match self.store.append(row.0, row.1, row.2, row.3) {
                Ok(_) => {},
                Err(_) => {
                    proof {
                        lemma_rates_fail_early(rates@, j + 1);
                    }
                    self.invalidate();
                    return Err(CacheError::CapacityExceeded);
                },
            }
            j += 1;
        }
        assert(rates@.take(m as int) =~= rates@);
        self.store.sort_all();
        self.control.complete();
        Ok((n, m))
    }

    /// The rate of `from_id` against `to_id` in effect at `date`, as bits:
    /// `1.0` for a currency against itself, known or not; else the rate of
    /// the pair's latest sample not later than `date`; `None` where the pair
    /// is not held or its first sample is later than `date`.
    pub fn get_rate(&self, from_id: i64, to_id: i64, date: i32) -> (rate: Option<u64>)
        requires
            self.wf(),
        ensures
            rate == rate_of(self.histories(), from_id, to_id, date),
    {
        if from_id == to_id {
            return Some(UNIT_RATE);
        }
        self.store.rate_as_of(from_id, to_id, date)
    }

    /// The rate between two currencies named by text, in effect at `date`.
    /// Both names are compared in lower case. The same name on both sides
    /// gives `1.0` without a lookup; else a name that is not held fails the
    /// call with `UnknownCurrency`.
    pub fn get_rate_by_xuid(&self, from_xuid: &str, to_xuid: &str, date: i32) -> (r: Result<
        Option<u64>,
        CacheError,
    >)
        requires
            self.wf(),
        ensures
            r == rate_of_xuids(self.identities(), self.histories(), from_xuid@, to_xuid@, date),
    {
        if same_xuid(from_xuid, to_xuid) {
            return Ok(Some(UNIT_RATE));
        }
        let from_id = match self.xuids.resolve(from_xuid) {
            Ok(id) => id,
            Err(e) => {
                return Err(e);
            },
        };
        let to_id = match self.xuids.resolve(to_xuid) {
            Ok(id) => id,
            Err(e) => {
                return Err(e);
            },
        };
        Ok(self.get_rate(from_id, to_id, date))
    }

    /// The currency id held for a textual identifier, compared in lower
    /// case, or `UnknownCurrency`.
    pub fn resolve(&self, xuid: &str) -> (r: Result<i64, CacheError>)
        requires
            self.wf(),
        ensures
            r == resolved(self.identities(), xuid@),
    {
        self.xuids.resolve(xuid)
    }

    /// Every stored sample as a row `(from_id, to_id, date, rate bits)`,
    /// pair after pair in the order of `pairs`, each pair's samples in
    /// ascending order of date.
    pub fn display_cache(&self) -> (rows: Vec<(i64, i64, i32, u64)>)
        requires
            self.wf(),
        ensures
            rows@ == rows_of(self.pairs(), self.histories()),
    {
        self.store.dump()
    }
}

} // verus!
