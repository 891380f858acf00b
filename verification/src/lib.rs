//! Small concurrency exercises: greeting, vectors and matrices, and three
//! flavours of shared counters.
use vstd::prelude::*;

pub mod error;
pub mod matrix;
pub mod metrics;
pub mod text;
pub mod vector;

pub use crate::error::{Error, Result};
pub use crate::matrix::{multiply, Matrix};
pub use crate::metrics::atomic::AtomicMetrics;
pub use crate::metrics::counters::Counters;
pub use crate::metrics::locked::LockedMetrics;
pub use crate::metrics::sharded::{shard_index, ShardedMetrics};
pub use crate::vector::{dot_product, dot_product_fits, Vector};

use crate::text::is_blank_str;

verus! {

/// Adds two numbers.
pub fn add(left: u64, right: u64) -> (sum: u64)
    requires
        left + right <= u64::MAX,
    ensures
        sum == left + right,
{
    left + right
}

/// The greeting for `name`: `Hello, {name}!`.
pub open spec fn greeting(name: Seq<char>) -> Seq<char> {
    "Hello, "@ + name + "!"@
}

/// Greets `name`, which must hold something besides white space.
pub fn greet(name: &str) -> (r: Result<String>)
    ensures
        text::is_blank(name@) ==> r == Err::<String, Error>(Error::EmptyName),
        !text::is_blank(name@) ==> (r matches Ok(s) && s@ == greeting(name@)),
{
    if is_blank_str(name) {
        return Err(Error::EmptyName);
    }
    let mut s = String::from_str("Hello, ");
    s.append(name);
    s.append("!");
    Ok(s)
}

} // verus!
