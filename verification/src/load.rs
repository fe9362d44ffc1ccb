//! The population pipeline as a model: what a load of identity rows and of
//! rate rows leaves in the cache, and on which rows it succeeds.
//!
//! A load takes the rows one by one, in order, and fails at the first row
//! that does not fit. The laws below say the same without the order: which
//! rows fit, and what is held once they are in.

use vstd::prelude::*;
use crate::fixed::{MAX_CURRENCIES, MAX_ENTRIES, MAX_ID_PAIRS};
use crate::series::{appended, pairs_with};
use crate::xuid::{fits, normalized, recorded};

verus! {

/// The identifier index after the identity rows are recorded in order, or
/// `None` where one of them cannot be recorded.
pub open spec fn identities_loaded(rows: Seq<(i64, String)>) -> Option<Map<Seq<char>, i64>>
    decreases rows.len(),
{
    if rows.len() == 0 {
        Some(Map::empty())
    } else {
        match identities_loaded(rows.drop_last()) {
            Some(entries) => recorded(entries, rows.last().1@, rows.last().0),
            None => None,
        }
    }
}

/// The histories after the rate rows are appended in order, or `None` where
/// one of them cannot be appended.
pub open spec fn rates_loaded(rows: Seq<(i64, i64, i32, u64)>) -> Option<
    Map<(i64, i64), Seq<(i32, u64)>>,
>
    decreases rows.len(),
{
    if rows.len() == 0 {
        Some(Map::empty())
    } else {
        match rates_loaded(rows.drop_last()) {
            Some(histories) => appended(
                histories,
                (rows.last().0, rows.last().1),
                (rows.last().2, rows.last().3),
            ),
            None => None,
        }
    }
}

/// The pairs of the rate rows, each once, in the order of first appearance.
pub open spec fn pairs_loaded(rows: Seq<(i64, i64, i32, u64)>) -> Seq<(i64, i64)>
    decreases rows.len(),
{
    if rows.len() == 0 {
        Seq::empty()
    } else {
        pairs_with(pairs_loaded(rows.drop_last()), (rows.last().0, rows.last().1))
    }
}

/// Where a prefix of the identity rows cannot be recorded, neither can the
/// whole.
pub proof fn lemma_identities_fail_early(rows: Seq<(i64, String)>, n: int)
    requires
        0 <= n <= rows.len(),
        identities_loaded(rows.take(n)) is None,
    ensures
        identities_loaded(rows) is None,
    decreases rows.len() - n,
{
    if n < rows.len() {
        assert(rows.take(n + 1).drop_last() =~= rows.take(n));
        lemma_identities_fail_early(rows, n + 1);
    } else {
        assert(rows.take(n) =~= rows);
    }
}

/// Where a prefix of the rate rows cannot be appended, neither can the whole.
pub proof fn lemma_rates_fail_early(rows: Seq<(i64, i64, i32, u64)>, n: int)
    requires
        0 <= n <= rows.len(),
        rates_loaded(rows.take(n)) is None,
    ensures
        rates_loaded(rows) is None,
    decreases rows.len() - n,
{
    if n < rows.len() {
        assert(rows.take(n + 1).drop_last() =~= rows.take(n));
        lemma_rates_fail_early(rows, n + 1);
    } else {
        assert(rows.take(n) =~= rows);
    }
}

/// The test whether a rate row belongs to `pair`.
pub open spec fn of_pair(pair: (i64, i64)) -> spec_fn((i64, i64, i32, u64)) -> bool {
    |row: (i64, i64, i32, u64)| (row.0, row.1) == pair
}

/// The samples that the rate rows hold for `pair`, in the order of the rows.
pub open spec fn samples_of(rows: Seq<(i64, i64, i32, u64)>, pair: (i64, i64)) -> Seq<(i32, u64)> {
    rows.filter(of_pair(pair)).map_values(|row: (i64, i64, i32, u64)| (row.2, row.3))
}

/// What a load that succeeds holds before sorting: a history for exactly the
/// pairs that occur in the rate rows, each made of the pair's samples in the
/// order of the rows, none longer than `MAX_ENTRIES`, for no more than
/// `MAX_ID_PAIRS` pairs.
pub proof fn lemma_loaded_histories(rows: Seq<(i64, i64, i32, u64)>, pair: (i64, i64))
    requires
        rates_loaded(rows) is Some,
    ensures
        rates_loaded(rows)->Some_0.dom().finite(),
        rates_loaded(rows)->Some_0.dom().len() <= MAX_ID_PAIRS,
        rates_loaded(rows)->Some_0.contains_key(pair) <==> samples_of(rows, pair).len() > 0,
        rates_loaded(rows)->Some_0.contains_key(pair) ==> rates_loaded(rows)->Some_0[pair]
            == samples_of(rows, pair),
        samples_of(rows, pair).len() <= MAX_ENTRIES,
    decreases rows.len(),
{
    reveal(Seq::filter);
    if rows.len() > 0 {
        let front = rows.drop_last();
        let row = rows.last();
        lemma_loaded_histories(front, pair);
        lemma_loaded_histories(front, (row.0, row.1));
        if (row.0, row.1) == pair {
            assert(rows.filter(of_pair(pair)) == front.filter(of_pair(pair)).push(row));
            assert(samples_of(rows, pair) =~= samples_of(front, pair).push((row.2, row.3)));
        } else {
            assert(rows.filter(of_pair(pair)) == front.filter(of_pair(pair)));
        }
    } else {
        assert(samples_of(rows, pair) =~= Seq::<(i32, u64)>::empty());
    }
}

/// The rate rows fit: no pair has more than `MAX_ENTRIES` samples, and no
/// more than `MAX_ID_PAIRS` different pairs occur.
pub open spec fn rates_fit(rows: Seq<(i64, i64, i32, u64)>) -> bool {
    &&& forall|pair: (i64, i64)| #[trigger] samples_of(rows, pair).len() <= MAX_ENTRIES
    &&& pairs_loaded(rows).len() <= MAX_ID_PAIRS
}

/// The pairs listed for a load that succeeds are the pairs that have a
/// history, each listed once.
pub proof fn lemma_loaded_pairs(rows: Seq<(i64, i64, i32, u64)>)
    requires
        rates_loaded(rows) is Some,
    ensures
        pairs_loaded(rows).no_duplicates(),
        pairs_loaded(rows).len() == rates_loaded(rows)->Some_0.dom().len(),
        forall|pair: (i64, i64)|
            pairs_loaded(rows).contains(pair) <==> rates_loaded(rows)->Some_0.contains_key(pair),
    decreases rows.len(),
{
    if rows.len() > 0 {
        let front = rows.drop_last();
        let key = (rows.last().0, rows.last().1);
        lemma_loaded_pairs(front);
        lemma_loaded_histories(front, key);
        let before = pairs_loaded(front);
        let held = rates_loaded(front)->Some_0;
        let after = rates_loaded(rows)->Some_0;
        assert(before.contains(key) <==> held.contains_key(key));
        assert forall|pair: (i64, i64)|
            pairs_loaded(rows).contains(pair) <==> after.contains_key(pair) by {
            assert(before.contains(pair) <==> held.contains_key(pair));
            assert(after.contains_key(pair) <==> (pair == key || held.contains_key(pair)));
            if !before.contains(key) {
                if before.contains(pair) {
                    let i = choose|i: int| 0 <= i < before.len() && before[i] == pair;
                    assert(before.push(key)[i] == pair);
                }
                if pair == key {
                    assert(before.push(key)[before.len() as int] == key);
                }
            }
        }
    }
}

/// Adding rows adds no room: the samples of a pair and the pairs listed
/// only grow with the rows.
pub proof fn lemma_rows_grow(rows: Seq<(i64, i64, i32, u64)>, pair: (i64, i64))
    requires
        rows.len() > 0,
    ensures
        samples_of(rows.drop_last(), pair).len() <= samples_of(rows, pair).len(),
        (rows.last().0, rows.last().1) == pair ==> samples_of(rows.drop_last(), pair).len() + 1
            == samples_of(rows, pair).len(),
        pairs_loaded(rows.drop_last()).len() <= pairs_loaded(rows).len(),
{
    reveal(Seq::filter);
    let front = rows.drop_last();
    if (rows.last().0, rows.last().1) == pair {
        assert(rows.filter(of_pair(pair)) == front.filter(of_pair(pair)).push(rows.last()));
    } else {
        assert(rows.filter(of_pair(pair)) == front.filter(of_pair(pair)));
    }
}

/// A load of rate rows succeeds exactly where the rows fit.
pub proof fn lemma_rates_load_iff_fit(rows: Seq<(i64, i64, i32, u64)>)
    ensures
        rates_loaded(rows) is Some <==> rates_fit(rows),
    decreases rows.len(),
{
    if rows.len() == 0 {
        assert forall|pair: (i64, i64)| #[trigger] samples_of(rows, pair).len() == 0 by {
            assert(rows.filter(of_pair(pair)).len() <= rows.len()) by {
                rows.lemma_filter_len(of_pair(pair));
            }
        }
    } else {
        let front = rows.drop_last();
        let key = (rows.last().0, rows.last().1);
        lemma_rates_load_iff_fit(front);
        if rates_loaded(rows) is Some {
            assert forall|pair: (i64, i64)| #[trigger]
                samples_of(rows, pair).len() <= MAX_ENTRIES by {
                lemma_loaded_histories(rows, pair);
            }
            lemma_loaded_histories(rows, key);
            lemma_loaded_pairs(rows);
        }
        if rates_fit(rows) {
            assert forall|pair: (i64, i64)| #[trigger]
                samples_of(front, pair).len() <= MAX_ENTRIES by {
                lemma_rows_grow(rows, pair);
                assert(samples_of(rows, pair).len() <= MAX_ENTRIES);
            }
            lemma_rows_grow(rows, key);
            assert(rates_fit(front));
            lemma_loaded_histories(front, key);
            lemma_loaded_pairs(front);
            assert(samples_of(rows, key).len() <= MAX_ENTRIES);
        }
    }
}

/// What a load that succeeds holds for an identifier: the currency id of
/// the last identity row whose text normalizes to it, and nothing where no
/// row does. No more than `MAX_CURRENCIES` identifiers are held.
pub proof fn lemma_loaded_identities(rows: Seq<(i64, String)>, key: Seq<char>)
    requires
        identities_loaded(rows) is Some,
    ensures
        identities_loaded(rows)->Some_0.dom().finite(),
        identities_loaded(rows)->Some_0.dom().len() <= MAX_CURRENCIES,
        identities_loaded(rows)->Some_0.contains_key(key) <==> exists|i: int|
            0 <= i < rows.len() && normalized(#[trigger] rows[i].1@) == key,
        identities_loaded(rows)->Some_0.contains_key(key) ==> exists|i: int|
            0 <= i < rows.len() && normalized(#[trigger] rows[i].1@) == key && identities_loaded(
                rows,
            )->Some_0[key] == rows[i].0 && forall|j: int|
                i < j < rows.len() ==> normalized(#[trigger] rows[j].1@) != key,
    decreases rows.len(),
{
    if rows.len() > 0 {
        let front = rows.drop_last();
        let row = rows.last();
        let entries = identities_loaded(rows)->Some_0;
        lemma_loaded_identities(front, key);
        lemma_loaded_identities(front, normalized(row.1@));
        if normalized(row.1@) == key {
            assert(normalized(rows[rows.len() - 1].1@) == key);
        } else if entries.contains_key(key) {
            let i = choose|i: int|
                0 <= i < front.len() && normalized(#[trigger] front[i].1@) == key
                    && identities_loaded(front)->Some_0[key] == front[i].0 && forall|j: int|
                    i < j < front.len() ==> normalized(#[trigger] front[j].1@) != key;
            assert(normalized(rows[i].1@) == key);
            assert forall|j: int| i < j < rows.len() implies normalized(#[trigger] rows[j].1@)
                != key by {
                if j < front.len() {
                    assert(front[j] == rows[j]);
                }
            }
        } else {
            assert forall|i: int| 0 <= i < rows.len() implies normalized(#[trigger] rows[i].1@)
                != key by {
                if i < front.len() {
                    assert(front[i] == rows[i]);
                }
            }
        }
    }
}

/// The normalized identifiers of the identity rows, each once, in the order
/// of first appearance.
pub open spec fn xuids_loaded(rows: Seq<(i64, String)>) -> Seq<Seq<char>>
    decreases rows.len(),
{
    if rows.len() == 0 {
        Seq::empty()
    } else if xuids_loaded(rows.drop_last()).contains(normalized(rows.last().1@)) {
        xuids_loaded(rows.drop_last())
    } else {
        xuids_loaded(rows.drop_last()).push(normalized(rows.last().1@))
    }
}

/// The identity rows fit: every identifier is short enough to be a key, and
/// no more than `MAX_CURRENCIES` different identifiers occur.
pub open spec fn identities_fit(rows: Seq<(i64, String)>) -> bool {
    &&& forall|i: int| 0 <= i < rows.len() ==> fits(normalized(#[trigger] rows[i].1@))
    &&& xuids_loaded(rows).len() <= MAX_CURRENCIES
}

/// The identifiers listed for a load that succeeds are the identifiers
/// held, each listed once.
pub proof fn lemma_loaded_xuids(rows: Seq<(i64, String)>)
    requires
        identities_loaded(rows) is Some,
    ensures
        xuids_loaded(rows).no_duplicates(),
        xuids_loaded(rows).len() == identities_loaded(rows)->Some_0.dom().len(),
        forall|key: Seq<char>|
            xuids_loaded(rows).contains(key) <==> identities_loaded(rows)->Some_0.contains_key(
                key,
            ),
    decreases rows.len(),
{
    if rows.len() > 0 {
        let front = rows.drop_last();
        let xuid = normalized(rows.last().1@);
        lemma_loaded_xuids(front);
        lemma_loaded_identities(front, xuid);
        let before = xuids_loaded(front);
        let held = identities_loaded(front)->Some_0;
        let after = identities_loaded(rows)->Some_0;
        assert(before.contains(xuid) <==> held.contains_key(xuid));
        assert forall|key: Seq<char>|
            xuids_loaded(rows).contains(key) <==> after.contains_key(key) by {
            assert(before.contains(key) <==> held.contains_key(key));
            assert(after.contains_key(key) <==> (key == xuid || held.contains_key(key)));
            if !before.contains(xuid) {
                if before.contains(key) {
                    let i = choose|i: int| 0 <= i < before.len() && before[i] == key;
                    assert(before.push(xuid)[i] == key);
                }
                if key == xuid {
                    assert(before.push(xuid)[before.len() as int] == xuid);
                }
            }
        }
    }
}

/// A load of identity rows succeeds exactly where the rows fit.
pub proof fn lemma_identities_load_iff_fit(rows: Seq<(i64, String)>)
    ensures
        identities_loaded(rows) is Some <==> identities_fit(rows),
    decreases rows.len(),
{
    if rows.len() > 0 {
        let front = rows.drop_last();
        let xuid = normalized(rows.last().1@);
        lemma_identities_load_iff_fit(front);
        assert forall|i: int| 0 <= i < front.len() implies front[i] == rows[i] by {}
        if identities_loaded(rows) is Some {
            lemma_loaded_xuids(rows);
            lemma_loaded_identities(rows, xuid);
            assert forall|i: int| 0 <= i < rows.len() implies fits(
                normalized(#[trigger] rows[i].1@),
            ) by {
                if i < front.len() {
                    assert(fits(normalized(front[i].1@)));
                }
            }
        }
        if identities_fit(rows) {
            assert forall|i: int| 0 <= i < front.len() implies fits(
                normalized(#[trigger] front[i].1@),
            ) by {
                assert(fits(normalized(rows[i].1@)));
            }
            assert(identities_fit(front));
            assert(fits(normalized(rows[rows.len() - 1].1@)));
            lemma_loaded_xuids(front);
            lemma_loaded_identities(front, xuid);
        }
    }
}

} // verus!
