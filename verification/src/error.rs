//! Failures that cache operations report to their callers.

use vstd::prelude::*;

verus! {

/// Every way in which a cache operation can fail.
#[derive(Clone, Copy, Debug, PartialEq, Eq, Structural)]
pub enum CacheError {
    /// A bounded collection would have to grow past its fixed limit.
    CapacityExceeded,
    /// A textual currency identifier has no mapping in the cache.
    UnknownCurrency,
    /// The backing store does not hold the schema the cache is built from.
    SchemaIncompatible,
    /// The backing store failed while rows were read from it.
    SourceReadFailure,
    /// Parallel date and value sequences differ in length.
    LengthMismatch,
}

impl CacheError {
    /// The text that `message` gives for each failure.
    pub open spec fn message_text(&self) -> Seq<char> {
        match self {
            CacheError::CapacityExceeded => "a bounded collection of the currency cache is full"@,
            CacheError::UnknownCurrency => "currency xuid not found"@,
            CacheError::SchemaIncompatible =>
                "The current database is not compatible with the ketteQ FX extension."@,
            CacheError::SourceReadFailure => "cannot load the currency cache from the database"@,
            CacheError::LengthMismatch =>
                "dates and values arrays does not have the same quantity of elements"@,
        }
    }

    /// A sentence for the user that names the failure.
    pub fn message(&self) -> (text: &'static str)
        ensures
            text@ == self.message_text(),
    {
        match self {
            CacheError::CapacityExceeded => "a bounded collection of the currency cache is full",
            CacheError::UnknownCurrency => "currency xuid not found",
            CacheError::SchemaIncompatible =>
                "The current database is not compatible with the ketteQ FX extension.",
            CacheError::SourceReadFailure => "cannot load the currency cache from the database",
            CacheError::LengthMismatch =>
                "dates and values arrays does not have the same quantity of elements",
        }
    }
}

} // verus!
