//! Shared counters in three flavours: fixed names with atomic counts, one
//! map behind one lock, and maps spread over locked shards.
use std::sync::Arc;

use vstd::prelude::*;

pub mod atomic;
pub mod counters;
pub mod locked;
pub mod sharded;

verus! {

/// `Arc::clone`: another pointer to the same allocation, so the pointee
/// that Verus sees is the same value.
#[verifier::external_body]
pub(crate) fn share<T>(a: &Arc<T>) -> (r: Arc<T>)
    ensures
        *r == **a,
{
    Arc::clone(a)
}

} // verus!
