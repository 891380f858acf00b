//! Counters under a fixed set of names, each an atomic integer, shared by
//! every clone.
use std::sync::atomic::AtomicI64;
use std::sync::Arc;

use vstd::prelude::*;

use crate::error::{Error, Result};
use crate::metrics::counters;
use crate::metrics::share;
use crate::text::{chars_of, compare_text, TextOrder};

verus! {

/// No text occurs twice in `s`.
pub open spec fn distinct(s: Seq<Seq<char>>) -> bool {
    forall|i: int, j: int| 0 <= i < j < s.len() ==> #[trigger] s[i] != #[trigger] s[j]
}

/// The texts of `s`, each once, in the order of their first occurrence.
pub open spec fn dedup(s: Seq<Seq<char>>) -> Seq<Seq<char>>
    decreases s.len(),
{
    if s.len() == 0 {
        Seq::empty()
    } else {
        let r = dedup(s.drop_last());
        if r.contains(s.last()) {
            r
        } else {
            r.push(s.last())
        }
    }
}

/// The texts of the names in `names`.
pub open spec fn name_texts(names: Seq<&str>) -> Seq<Seq<char>> {
    names.map_values(|n: &str| n@)
}

/// Counters under the names given when the metrics were made; clones share
/// the counters.
#[derive(Debug)]
pub struct AtomicMetrics {
    data: Arc<Vec<(&'static str, AtomicI64)>>,
}

/// Adds one to `counter`, wrapping at `i64::MAX`.
fn bump(counter: &AtomicI64) {
    counter.fetch_add(1, std::sync::atomic::Ordering::Relaxed);
}

/// The value of `counter` at some moment.
fn read(counter: &AtomicI64) -> i64 {
    counter.load(std::sync::atomic::Ordering::Relaxed)
}

/// Where in `names` the text `key` stands, if it does.
fn position_of(names: &Vec<(&'static str, AtomicI64)>, key: &Vec<char>) -> (r: Option<usize>)
    ensures
        match r {
            Some(i) => i < names@.len() && names@[i as int].0@ == key@,
            None => forall|i: int| 0 <= i < names@.len() ==> (#[trigger] names@[i]).0@ != key@,
        },
{
    let n = names.len();
    let mut i: usize = 0;
    while i < n
        invariant
            n == names@.len(),
            i <= n,
            forall|t: int| 0 <= t < i ==> (#[trigger] names@[t]).0@ != key@,
        decreases n - i,
    {
        let here = chars_of(names[i].0);
        if compare_text(&here, key) == TextOrder::Same {
            return Some(i);
        }
        i = i + 1;
    }
    None
}

impl AtomicMetrics {
    /// The names of the counters, in the order they were first given.
    pub closed spec fn names(&self) -> Seq<Seq<char>> {
        self.data@.map_values(|e: (&'static str, AtomicI64)| e.0@)
    }

    #[verifier::type_invariant]
    closed spec fn well_formed(&self) -> bool {
        distinct(self.names())
    }

    /// Metrics with one counter, at zero, for each of `metric_names`; a name
    /// given twice has one counter. That the counts start at zero is not
    /// covered by this contract: the values of atomics are not visible to contracts.
    pub fn new(metric_names: &[&'static str]) -> (m: Self)
        ensures
            m.names() == dedup(name_texts(metric_names@)),
            distinct(m.names()),
    {
        let ghost given = name_texts(metric_names@);
        let mut data: Vec<(&'static str, AtomicI64)> = Vec::new();
        let n = metric_names.len();
        let mut i: usize = 0;
        while i < n
            invariant
                n == metric_names@.len(),
                given == name_texts(metric_names@),
                i <= n,
                data@.map_values(|e: (&'static str, AtomicI64)| e.0@) == dedup(given.take(i as int)),
                distinct(data@.map_values(|e: (&'static str, AtomicI64)| e.0@)),
            decreases n - i,
        {
            let name = metric_names[i];
            let name_chars = chars_of(name);
            let ghost before = data@.map_values(|e: (&'static str, AtomicI64)| e.0@);
            proof {
                assert(given.take(i + 1).drop_last() =~= given.take(i as int));
                assert(given.take(i + 1).last() == name@);
            }
            match position_of(&data, &name_chars) {
                Some(k) => {
                    assert(before[k as int] == name@);
                },
                None => {
                    assert(!before.contains(name@));
                    data.push((name, AtomicI64::new(0)));
                    assert(data@.map_values(|e: (&'static str, AtomicI64)| e.0@) =~= before.push(
                        name@,
                    ));
                },
            }
            i = i + 1;
        }
        assert(given.take(n as int) =~= given);
        AtomicMetrics { data: Arc::new(data) }
    }

    /// Adds one to the counter named `key`, wrapping at `i64::MAX`; a name
    /// that was not given to `new` gives `UnknownMetric` with that name. The
    /// new count is not covered by this contract: the values of atomics are not
    /// visible to contracts.
    pub fn inc(&self, key: &str) -> (r: Result<()>)
        ensures
            r is Ok <==> self.names().contains(key@),
            r matches Err(e) ==> (e matches Error::UnknownMetric(k) && k@ == key@),
    {
        let key_chars = chars_of(key);
        match position_of(&self.data, &key_chars) {
            Some(i) => {
                assert(self.names()[i as int] == key@);
                bump(&self.data[i].1);
                Ok(())
            },
            None => {
                assert(!self.names().contains(key@));
                Err(Error::UnknownMetric(key.to_owned()))
            },
        }
    }

    /// The lines `name: count` of all counters, in the order of `names()`,
    /// each count read at some moment. Which counts are shown is not covered
    /// by this contract: only the names and their order are.
    pub fn to_string(&self) -> (s: String)
        ensures
            exists|e: Seq<(Seq<char>, i64)>|
                {
                    &&& #[trigger] e.len() == self.names().len()
                    &&& forall|i: int| 0 <= i < e.len() ==> (#[trigger] e[i]).0 == self.names()[i]
                    &&& s@ == counters::counters_text(e)
                },
    {
        let mut s = String::new();
        let ghost mut e: Seq<(Seq<char>, i64)> = Seq::empty();
        let n = self.data.len();
        let mut i: usize = 0;
        while i < n
            invariant
                n == self.names().len(),
                i <= n,
                e.len() == i,
                forall|t: int| 0 <= t < i ==> (#[trigger] e[t]).0 == self.names()[t],
                s@ == counters::counters_text(e),
            decreases n - i,
        {
            let value = read(&self.data[i].1);
            s.append(self.data[i].0);
            proof {
                reveal_strlit(": ");
                reveal_strlit("\n");
            }
            s.append(": ");
            crate::text::push_i64(&mut s, value);
            s.append("\n");
            proof {
                let entry = (self.names()[i as int], value);
                assert(e.push(entry).drop_last() =~= e);
                e = e.push(entry);
            }
            i = i + 1;
        }
        s
    }
}

impl Clone for AtomicMetrics {
    /// Another handle on the same counters.
    fn clone(&self) -> (r: Self)
        ensures
            r == *self,
    {
        proof {
            use_type_invariant(self);
        }
        AtomicMetrics { data: share(&self.data) }
    }
}

} // verus!
