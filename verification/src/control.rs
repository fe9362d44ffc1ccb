//! The population state of the cache and the single-flight protocol.
//!
//! A cache is `Empty` until someone claims the right to populate it, is
//! `Populating` while that one caller loads it, and is `Filled` afterwards.
//! Whoever wants to read polls first; only a caller that found the cache
//! idle and was then granted the claim may load it. Everything that takes
//! time (waiting, reading the backing store) happens between these calls,
//! outside this module.

use vstd::prelude::*;

verus! {

/// Where the cache stands.
#[derive(Clone, Copy, Debug, PartialEq, Eq, Structural)]
pub enum CacheState {
    /// Nothing is loaded and nobody is loading.
    Empty,
    /// One caller is loading.
    Populating,
    /// The cache is loaded and may be read.
    Filled,
}

/// What a caller that wants to read has to do next.
#[derive(Clone, Copy, Debug, PartialEq, Eq, Structural)]
pub enum Readiness {
    /// The cache may be read.
    Ready,
    /// Another caller is loading: wait until polling answers otherwise.
    Busy,
    /// Nobody has loaded the cache: try to claim the load.
    Idle,
}

/// The answer to a caller that asked to load the cache.
#[derive(Clone, Copy, Debug, PartialEq, Eq, Structural)]
pub enum Claim {
    /// The caller is now the one that loads.
    Granted,
    /// Another caller is loading already.
    Busy,
    /// The cache was loaded in the meantime.
    NotNeeded,
}

/// What `poll` answers in each state.
pub open spec fn polled(state: CacheState) -> Readiness {
    match state {
        CacheState::Filled => Readiness::Ready,
        CacheState::Populating => Readiness::Busy,
        CacheState::Empty => Readiness::Idle,
    }
}

/// The state after a claim, and the answer to it: only an empty cache is
/// handed over.
pub open spec fn claimed(state: CacheState) -> (CacheState, Claim) {
    match state {
        CacheState::Empty => (CacheState::Populating, Claim::Granted),
        CacheState::Populating => (CacheState::Populating, Claim::Busy),
        CacheState::Filled => (CacheState::Filled, Claim::NotNeeded),
    }
}

/// The control block that all users of one cache share.
#[derive(Clone, Copy, Debug)]
pub struct CurrencyControl {
    cache_filled: bool,
    cache_being_filled: bool,
}

impl CurrencyControl {
    /// The state the two flags stand for. A cache that is filled counts as
    /// filled whatever the other flag says.
    pub closed spec fn state(&self) -> CacheState {
        if self.cache_filled {
            CacheState::Filled
        } else if self.cache_being_filled {
            CacheState::Populating
        } else {
            CacheState::Empty
        }
    }

    /// The control block of an empty cache.
    pub fn new() -> (control: Self)
        ensures
            control.state() == CacheState::Empty,
    {
        CurrencyControl { cache_filled: false, cache_being_filled: false }
    }

    /// The current state.
    pub fn current(&self) -> (state: CacheState)
        ensures
            state == self.state(),
    {
        if self.cache_filled {
            CacheState::Filled
        } else if self.cache_being_filled {
            CacheState::Populating
        } else {
            CacheState::Empty
        }
    }

    /// Tells a caller that wants to read what to do next.
    pub fn poll(&self) -> (readiness: Readiness)
        ensures
            readiness == polled(self.state()),
    {
        if self.cache_filled {
            Readiness::Ready
        } else if self.cache_being_filled {
            Readiness::Busy
        } else {
            Readiness::Idle
        }
    }

    /// Asks for the right to load the cache. It is granted exactly where the
    /// cache is empty, and the cache is `Populating` from then on; in every
    /// other state nothing changes.
    pub fn claim(&mut self) -> (claim: Claim)
        ensures
            (final(self).state(), claim) == claimed(old(self).state()),
    {
        if self.cache_filled {
            Claim::NotNeeded
        } else if self.cache_being_filled {
            Claim::Busy
        } else {
            self.cache_being_filled = true;
            Claim::Granted
        }
    }

    /// Marks the load as finished: the cache is `Filled`.
    pub fn complete(&mut self)
        ensures
            final(self).state() == CacheState::Filled,
    {
        self.cache_filled = true;
        self.cache_being_filled = false;
    }

    /// Resets to `Empty`, whatever the state was.
    pub fn reset(&mut self)
        ensures
            final(self).state() == CacheState::Empty,
    {
        self.cache_filled = false;
        self.cache_being_filled = false;
    }
}

impl Default for CurrencyControl {
    fn default() -> (control: Self)
        ensures
            control.state() == CacheState::Empty,
    {
        CurrencyControl::new()
    }
}

/// Only a filled cache may be read, and a filled cache asks for no load:
/// polling answers `Ready` exactly where the cache is filled, a claim is
/// answered `NotNeeded` exactly there, and that claim changes nothing.
pub proof fn lemma_ready_iff_filled(state: CacheState)
    ensures
        polled(state) == Readiness::Ready <==> state == CacheState::Filled,
        claimed(state).1 == Claim::NotNeeded <==> state == CacheState::Filled,
        state == CacheState::Filled ==> claimed(state).0 == state,
{
}

/// At most one load is in flight: whatever the state, the claim that follows
/// another claim is not granted, and neither claim disturbs a load under way.
pub proof fn lemma_single_flight(state: CacheState)
    ensures
        claimed(claimed(state).0).1 != Claim::Granted,
        claimed(state).0 != CacheState::Empty,
        state == CacheState::Populating ==> claimed(state) == (CacheState::Populating, Claim::Busy),
{
}

/// A claim is granted exactly on an empty cache, which is exactly where
/// polling answers `Idle`.
pub proof fn lemma_granted_iff_idle(state: CacheState)
    ensures
        claimed(state).1 == Claim::Granted <==> state == CacheState::Empty,
        polled(state) == Readiness::Idle <==> state == CacheState::Empty,
{
}

} // verus!
