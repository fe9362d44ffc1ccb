//! Fixed-capacity collections.
//!
//! The cache keeps its data in the fixed-capacity collections of the
//! `heapless` crate. Their code is not verified here. This module declares
//! the types, names what each collection holds, and states for every
//! operation the cache uses what `heapless` does to those contents. These
//! statements are assumptions: everything proved elsewhere rests on them.

use vstd::prelude::*;
use vstd::utf8::encode_utf8;
use crate::asof::ascending;

verus! {

/// Most textual currency identifiers the cache can hold.
pub const MAX_CURRENCIES: usize = 64;

/// Most currency pairs the cache can hold.
pub const MAX_ID_PAIRS: usize = 1024;

/// Most samples a single pair's series can hold.
pub const MAX_ENTRIES: usize = 512;

/// Most bytes of UTF-8 a textual currency identifier can take.
pub const CURRENCY_XUID_MAX_LEN: usize = 16;

/// `heapless::IndexMap`: a hash map with room for `N` entries, stored
/// inline. Nothing inside it is visible to the verifier.
#[verifier::external_type_specification]
#[verifier::external_body]
#[verifier::reject_recursive_types(K)]
#[verifier::reject_recursive_types(V)]
#[verifier::reject_recursive_types(S)]
pub struct ExIndexMap<K, V, S, const N: usize>(heapless::IndexMap<K, V, S, N>);

/// `heapless::Vec`: a vector with room for `N` elements, stored inline.
#[verifier::external_type_specification]
#[verifier::external_body]
#[verifier::reject_recursive_types(T)]
pub struct ExFixedVec<T, const N: usize>(heapless::Vec<T, N>);

/// `heapless::String`: a string with room for `N` bytes of UTF-8.
#[verifier::external_type_specification]
#[verifier::external_body]
pub struct ExFixedString<const N: usize>(heapless::String<N>);

/// `hash32::BuildHasherDefault`: the hasher factory in the type of the maps.
#[verifier::external_type_specification]
#[verifier::external_body]
#[verifier::reject_recursive_types(H)]
pub struct ExBuildHasherDefault<H>(hash32::BuildHasherDefault<H>);

/// `hash32::FnvHasher`: the hash function in the type of the maps.
#[verifier::external_type_specification]
#[verifier::external_body]
pub struct ExFnvHasher(hash32::FnvHasher);

/// A series of `(date, rate bits)` samples with room for `MAX_ENTRIES`.
pub type SampleVec = heapless::Vec<(i32, u64), MAX_ENTRIES>;

/// A textual currency identifier of at most `CURRENCY_XUID_MAX_LEN` bytes.
pub type XuidKey = heapless::String<CURRENCY_XUID_MAX_LEN>;

/// Currency ids by textual identifier, with room for `MAX_CURRENCIES`.
pub type XuidMap = heapless::FnvIndexMap<XuidKey, i64, MAX_CURRENCIES>;

/// Series slots by currency pair, with room for `MAX_ID_PAIRS`.
pub type SlotMap = heapless::FnvIndexMap<(i64, i64), usize, MAX_ID_PAIRS>;

/// The samples a fixed-capacity series holds, in order.
pub uninterp spec fn series_samples(v: SampleVec) -> Seq<(i32, u64)>;

/// The characters a fixed-capacity string holds, in order.
pub uninterp spec fn xuid_text(s: XuidKey) -> Seq<char>;

/// The currency id that an identifier map holds for each text.
pub uninterp spec fn xuid_entries(m: XuidMap) -> Map<Seq<char>, i64>;

/// The slot that a slot map holds for each currency pair.
pub uninterp spec fn slot_entries(m: SlotMap) -> Map<(i64, i64), usize>;

/// The dates of a sequence of samples, in order.
pub open spec fn sample_dates(samples: Seq<(i32, u64)>) -> Seq<i32> {
    samples.map_values(|s: (i32, u64)| s.0)
}

/// The rates of a sequence of samples, in order.
pub open spec fn sample_rates(samples: Seq<(i32, u64)>) -> Seq<u64> {
    samples.map_values(|s: (i32, u64)| s.1)
}

/// The test whether a sample was taken on `date`.
pub open spec fn taken_on(date: i32) -> spec_fn((i32, u64)) -> bool {
    |s: (i32, u64)| s.0 == date
}

/// The samples taken on `date`, in the order in which they stand.
pub open spec fn on_date(samples: Seq<(i32, u64)>, date: i32) -> Seq<(i32, u64)> {
    samples.filter(taken_on(date))
}

/// `sorted` holds the samples of `samples` in ascending order of date, those
/// of one date in the order they had.
pub open spec fn is_stable_sort_of(sorted: Seq<(i32, u64)>, samples: Seq<(i32, u64)>) -> bool {
    &&& sorted.len() == samples.len()
    &&& ascending(sample_dates(sorted))
    &&& sorted.to_multiset() == samples.to_multiset()
    &&& forall|date: i32| on_date(sorted, date) == on_date(samples, date)
}

/// `heapless::Vec::new`: the new series holds nothing.
#[verifier::external_body]
pub(crate) fn series_new() -> (v: SampleVec)
    ensures
        series_samples(v) == Seq::<(i32, u64)>::empty(),
{
    heapless::Vec::new()
}

/// `heapless::Vec::push`: below capacity the sample is appended; at capacity
/// the series is left as it was and the sample is handed back.
#[verifier::external_body]
pub(crate) fn series_push(
    v: &mut SampleVec,
    sample: (i32, u64),
) -> (r: Result<(), (i32, u64)>)
    ensures
        match r {
            Ok(_) => series_samples(*old(v)).len() < MAX_ENTRIES && series_samples(*final(v))
                == series_samples(*old(v)).push(sample),
            Err(back) => series_samples(*old(v)).len() >= MAX_ENTRIES && back == sample
                && series_samples(*final(v)) == series_samples(*old(v)),
        },
{
    v.push(sample)
}

/// `heapless::Vec::as_slice`: the slice shows the samples held, in order.
#[verifier::external_body]
pub(crate) fn series_as_slice(v: &SampleVec) -> (s: &[(i32, u64)])
    ensures
        s@ == series_samples(*v),
{
    v.as_slice()
}

/// `slice::sort_by_key` on the samples, keyed by date: afterwards the dates
/// ascend, and samples of one date keep their order (the sort is stable).
#[verifier::external_body]
pub(crate) fn series_sort(v: &mut SampleVec)
    ensures
        is_stable_sort_of(series_samples(*final(v)), series_samples(*old(v))),
{
    v.sort_by_key(|sample| sample.0)
}

/// `heapless::String::try_from`: a text of at most `CURRENCY_XUID_MAX_LEN`
/// bytes of UTF-8 is copied into a fixed-capacity string; a longer one is
/// refused.
#[verifier::external_body]
pub(crate) fn xuid_key(text: &str) -> (r: Option<XuidKey>)
    ensures
        match r {
            Some(key) => encode_utf8(text@).len() <= CURRENCY_XUID_MAX_LEN && xuid_text(key)
                == text@,
            None => encode_utf8(text@).len() > CURRENCY_XUID_MAX_LEN,
        },
{
    heapless::String::try_from(text).ok()
}

/// `heapless::IndexMap::new`: the new map holds nothing.
#[verifier::external_body]
pub(crate) fn xuid_map_new() -> (m: XuidMap)
    ensures
        xuid_entries(m).dom() == Set::<Seq<char>>::empty(),
{
    heapless::IndexMap::new()
}

/// `heapless::IndexMap::insert`: a key that is present gets the new value
/// and the one it had is returned; a new key is added while fewer than
/// `MAX_CURRENCIES` keys are held; otherwise the map is left as it was and
/// the pair is handed back.
#[verifier::external_body]
pub(crate) fn xuid_map_insert(m: &mut XuidMap, key: XuidKey, id: i64) -> (r: Result<
    Option<i64>,
    (XuidKey, i64),
>)
    ensures
        match r {
            Ok(Some(prior)) => xuid_entries(*old(m)).contains_key(xuid_text(key)) && prior
                == xuid_entries(*old(m))[xuid_text(key)] && xuid_entries(*final(m))
                == xuid_entries(*old(m)).insert(xuid_text(key), id),
            Ok(None) => !xuid_entries(*old(m)).contains_key(xuid_text(key)) && xuid_entries(
                *old(m),
            ).dom().len() < MAX_CURRENCIES && xuid_entries(*final(m)) == xuid_entries(
                *old(m),
            ).insert(xuid_text(key), id),
            Err(back) => !xuid_entries(*old(m)).contains_key(xuid_text(key)) && xuid_entries(
                *old(m),
            ).dom().len() >= MAX_CURRENCIES && xuid_entries(*final(m)) == xuid_entries(*old(m))
                && back.1 == id && xuid_text(back.0) == xuid_text(key),
        },
{
    m.insert(key, id)
}

/// `heapless::IndexMap::get`: the value held for the key, if it is present.
#[verifier::external_body]
pub(crate) fn xuid_map_get(m: &XuidMap, key: &XuidKey) -> (r: Option<i64>)
    ensures
        r == (if xuid_entries(*m).contains_key(xuid_text(*key)) {
            Some(xuid_entries(*m)[xuid_text(*key)])
        } else {
            None
        }),
{
    m.get(key).copied()
}

/// `heapless::IndexMap::clear`: afterwards the map holds nothing.
#[verifier::external_body]
pub(crate) fn xuid_map_clear(m: &mut XuidMap)
    ensures
        xuid_entries(*final(m)).dom() == Set::<Seq<char>>::empty(),
{
    m.clear()
}

/// `heapless::IndexMap::new`: the new map holds nothing.
#[verifier::external_body]
pub(crate) fn slot_map_new() -> (m: SlotMap)
    ensures
        slot_entries(m).dom() == Set::<(i64, i64)>::empty(),
{
    heapless::IndexMap::new()
}

/// `heapless::IndexMap::insert`: a key that is present gets the new value
/// and the one it had is returned; a new key is added while fewer than
/// `MAX_ID_PAIRS` keys are held; otherwise the map is left as it was and the
/// pair is handed back.
#[verifier::external_body]
pub(crate) fn slot_map_insert(m: &mut SlotMap, key: (i64, i64), slot: usize) -> (r: Result<
    Option<usize>,
    ((i64, i64), usize),
>)
    ensures
        match r {
            Ok(Some(prior)) => slot_entries(*old(m)).contains_key(key) && prior == slot_entries(
                *old(m),
            )[key] && slot_entries(*final(m)) == slot_entries(*old(m)).insert(key, slot),
            Ok(None) => !slot_entries(*old(m)).contains_key(key) && slot_entries(
                *old(m),
            ).dom().len() < MAX_ID_PAIRS && slot_entries(*final(m)) == slot_entries(
                *old(m),
            ).insert(key, slot),
            Err(back) => !slot_entries(*old(m)).contains_key(key) && slot_entries(
                *old(m),
            ).dom().len() >= MAX_ID_PAIRS && slot_entries(*final(m)) == slot_entries(*old(m))
                && back == (key, slot),
        },
{
    m.insert(key, slot)
}

/// `heapless::IndexMap::get`: the value held for the key, if it is present.
#[verifier::external_body]
pub(crate) fn slot_map_get(m: &SlotMap, key: &(i64, i64)) -> (r: Option<usize>)
    ensures
        r == (if slot_entries(*m).contains_key(*key) {
            Some(slot_entries(*m)[*key])
        } else {
            None
        }),
{
    m.get(key).copied()
}

/// `heapless::IndexMap::clear`: afterwards the map holds nothing.
#[verifier::external_body]
pub(crate) fn slot_map_clear(m: &mut SlotMap)
    ensures
        slot_entries(*final(m)).dom() == Set::<(i64, i64)>::empty(),
{
    m.clear()
}

} // verus!
