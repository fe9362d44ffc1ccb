//! The index from textual currency identifiers to currency ids.
//!
//! Identifiers are stored and looked up in lower case, so that `USD` and
//! `usd` name one currency.

use vstd::prelude::*;
use vstd::utf8::encode_utf8;
use crate::error::CacheError;
use crate::fixed::{
    xuid_entries, xuid_key, xuid_map_clear, xuid_map_get, xuid_map_insert, xuid_map_new, xuid_text,
    XuidMap, CURRENCY_XUID_MAX_LEN, MAX_CURRENCIES,
};

verus! {

/// The lower-case form of an ASCII capital; any other character unchanged.
pub open spec fn lower(c: char) -> char {
    if 'A' <= c && c <= 'Z' {
        ((c as u8) + 32) as char
    } else {
        c
    }
}

/// An identifier as the index keeps it: every ASCII capital in lower case.
pub open spec fn normalized(text: Seq<char>) -> Seq<char> {
    text.map_values(|c: char| lower(c))
}

/// The text is short enough to be a key: its UTF-8 form takes at most
/// `CURRENCY_XUID_MAX_LEN` bytes.
pub open spec fn fits(text: Seq<char>) -> bool {
    encode_utf8(text).len() <= CURRENCY_XUID_MAX_LEN
}

/// The entries after `id` is recorded for `text`, or `None` where the index
/// cannot take it: the normalized text is too long, or it is new and
/// `MAX_CURRENCIES` identifiers are held already.
pub open spec fn recorded(entries: Map<Seq<char>, i64>, text: Seq<char>, id: i64) -> Option<
    Map<Seq<char>, i64>,
> {
    let key = normalized(text);
    if fits(key) && (entries.contains_key(key) || entries.dom().len() < MAX_CURRENCIES) {
        Some(entries.insert(key, id))
    } else {
        None
    }
}

/// The currency id held for `text`, or the failure to report where none is.
pub open spec fn resolved(entries: Map<Seq<char>, i64>, text: Seq<char>) -> Result<
    i64,
    CacheError,
> {
    if entries.contains_key(normalized(text)) {
        Ok(entries[normalized(text)])
    } else {
        Err(CacheError::UnknownCurrency)
    }
}

/// `str::to_ascii_lowercase`: the text with each of the letters `A` to `Z`
/// replaced by its lower-case form and every other character kept.
#[verifier::external_body]
pub(crate) fn ascii_lowercase(text: &str) -> (lowered: String)
    ensures
        lowered@ == normalized(text@),
{
    text.to_ascii_lowercase()
}

/// Whether two texts name the same currency: they do where they are equal
/// in lower case, whether or not any index holds them.
pub fn same_xuid(left: &str, right: &str) -> (same: bool)
    ensures
        same == (normalized(left@) == normalized(right@)),
{
    let left_lowered = ascii_lowercase(left);
    let right_lowered = ascii_lowercase(right);
    left_lowered == right_lowered
}

/// A bounded map from normalized textual identifiers to currency ids.
pub struct XuidIndex {
    entries: XuidMap,
}

impl View for XuidIndex {
    type V = Map<Seq<char>, i64>;

    closed spec fn view(&self) -> Map<Seq<char>, i64> {
        xuid_entries(self.entries)
    }
}

impl XuidIndex {
    /// The index holds finitely many identifiers, no more than
    /// `MAX_CURRENCIES`, each short enough to be a key.
    pub open spec fn wf(&self) -> bool {
        &&& self@.dom().finite()
        &&& self@.dom().len() <= MAX_CURRENCIES
        &&& forall|key: Seq<char>| self@.contains_key(key) ==> fits(key)
    }

    /// An index without entries.
    pub fn new() -> (index: Self)
        ensures
            index.wf(),
            index@ == Map::<Seq<char>, i64>::empty(),
    {
        let index = XuidIndex { entries: xuid_map_new() };
        assert(index@ =~= Map::<Seq<char>, i64>::empty());
        index
    }

    /// Records `id` for the identifier `xuid`, replacing what was recorded
    /// for it before. Fails with `CapacityExceeded`, leaving the index as it
    /// was, exactly where `recorded` has no result.
    pub fn insert(&mut self, xuid: &str, id: i64) -> (r: Result<(), CacheError>)
        requires
            old(self).wf(),
        ensures
            final(self).wf(),
            match recorded(old(self)@, xuid@, id) {
                Some(entries) => r is Ok && final(self)@ == entries,
                None => r == Err::<(), CacheError>(CacheError::CapacityExceeded) && final(self)@
                    == old(self)@,
            },
    {
        let lowered = ascii_lowercase(xuid);
        match xuid_key(lowered.as_str()) {
            None => Err(CacheError::CapacityExceeded),
            Some(key) => {
                match xuid_map_insert(&mut self.entries, key, id) {
                    Ok(_) => Ok(()),
                    Err(_) => Err(CacheError::CapacityExceeded),
                }
            },
        }
    }

    /// The currency id recorded for `xuid`, compared in lower case, or
    /// `UnknownCurrency` where none is.
    pub fn resolve(&self, xuid: &str) -> (r: Result<i64, CacheError>)
        requires
            self.wf(),
        ensures
            r == resolved(self@, xuid@),
    {
        let lowered = ascii_lowercase(xuid);
        match xuid_key(lowered.as_str()) {
            None => {
                assert(!fits(normalized(xuid@)));
                Err(CacheError::UnknownCurrency)
            },
            Some(key) => {
                match xuid_map_get(&self.entries, &key) {
                    Some(id) => Ok(id),
                    None => Err(CacheError::UnknownCurrency),
                }
            },
        }
    }

    /// Removes every entry.
    pub fn clear(&mut self)
        ensures
            final(self).wf(),
            final(self)@ == Map::<Seq<char>, i64>::empty(),
    {
        xuid_map_clear(&mut self.entries);
        assert(self@ =~= Map::<Seq<char>, i64>::empty());
    }
}

} // verus!
