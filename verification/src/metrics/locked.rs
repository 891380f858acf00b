//! Counters behind one lock, shared by every clone.
use std::sync::Arc;

use vstd::prelude::*;
use vstd::rwlock::{RwLock, RwLockPredicate};

use crate::metrics::counters::{self, Counters};
use crate::metrics::share;

verus! {

/// The lock of `LockedMetrics` admits any counters: `Counters` keeps its
/// own order.
pub struct AnyCounters;

impl RwLockPredicate<Counters> for AnyCounters {
    open spec fn inv(self, v: Counters) -> bool {
        true
    }
}

/// Counters by name behind one lock; clones share the counters.
pub struct LockedMetrics {
    data: Arc<RwLock<Counters, AnyCounters>>,
}

impl LockedMetrics {
    /// Metrics with no counters. That they start empty is not covered by
    /// this contract: what the lock holds is not visible to contracts.
    pub fn new() -> (m: Self) {
        LockedMetrics { data: Arc::new(RwLock::new(Counters::new(), Ghost(AnyCounters))) }
    }

    /// Adds one to the counter named `key`, creating it at zero first where
    /// it does not exist; the count wraps at `i64::MAX`.
    ///
    /// The ghost result records the counters this call took from the lock
    /// and the counters it put back: their counts differ by one increment of
    /// `key` and nothing else. Other threads may change the counters before
    /// and after the call; what the lock holds is not visible to contracts,
    /// so the record is tied to the lock by this body, not by the contract.
    pub fn inc(&self, key: String) -> (step: Ghost<(Seq<(Seq<char>, i64)>, Seq<(Seq<char>, i64)>)>)
        ensures
            counters::keys_ascending(step@.0),
            counters::keys_ascending(step@.1),
            counters::count_map(step@.1) == counters::bumped(counters::count_map(step@.0), key@),
    {
        let (mut counters, handle) = self.data.acquire_write();
        let ghost before = counters@;
        counters.increment(key);
        let ghost after = counters@;
        handle.release_write(counters);
        Ghost((before, after))
    }

    /// The lines `name: count` of all counters at one moment, in ascending
    /// order of the names, each name once. Which counts are shown is not
    /// covered by this contract: only that they form well-ordered counters.
    pub fn to_string(&self) -> (s: String)
        ensures
            exists|e: Seq<(Seq<char>, i64)>|
                counters::keys_ascending(e) && s@ == counters::counters_text(e),
    {
        let handle = self.data.acquire_read();
        let s = handle.borrow().to_string();
        handle.release_read();
        s
    }
}

impl Clone for LockedMetrics {
    /// Another handle on the same counters.
    fn clone(&self) -> (r: Self)
        ensures
            r == *self,
    {
        LockedMetrics { data: share(&self.data) }
    }
}

impl Default for LockedMetrics {
    /// The same as `new`: no counters, which, as there, is not covered by a
    /// contract because what the lock holds is not visible to contracts.
    fn default() -> Self {
        Self::new()
    }
}

} // verus!
