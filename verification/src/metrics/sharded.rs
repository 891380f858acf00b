//! Counters spread over a fixed number of locked shards by the hash of
//! their names, so that increments of different names rarely contend.
use std::collections::hash_map::DefaultHasher;
use std::hash::{Hash, Hasher};
use std::sync::Arc;

use vstd::prelude::*;
use vstd::rwlock::{RwLock, RwLockPredicate};
use vstd::std_specs::hash::DefaultHasherAdditionalSpecFns;

use crate::metrics::counters::{self, Counters};
use crate::metrics::share;

verus! {

/// The number of shards.
pub const SHARDS: usize = 16;

/// The state of a `DefaultHasher` whose state was `before` once the text
/// `key` has been fed to it by `<str as Hash>::hash`.
pub uninterp spec fn str_hash_state(before: Seq<Seq<u8>>, key: Seq<char>) -> Seq<Seq<u8>>;

/// Feeds `key` to `hasher` through `<str as Hash>::hash`. The new state of
/// the hasher is a function of its old state and of the text alone; which
/// bytes `str` writes is not stated.
#[verifier::external_body]
fn hash_str_into(hasher: &mut DefaultHasher, key: &str)
    ensures
        final(hasher)@ == str_hash_state(old(hasher)@, key@),
{
    key.hash(hasher);
}

/// The shard that holds the counter named `key`: the remainder of its
/// `DefaultHasher` hash by the number of shards.
pub open spec fn shard_of(key: Seq<char>) -> int {
    (DefaultHasher::spec_finish(str_hash_state(Seq::empty(), key)) % (SHARDS as u64)) as int
}

/// The index of the shard for `key`.
pub fn shard_index(key: &str) -> (i: usize)
    ensures
        i == shard_of(key@),
        i < SHARDS,
{
    let mut hasher = DefaultHasher::new();
    hash_str_into(&mut hasher, key);
    match usize::try_from(hasher.finish() % SHARDS as u64) {
        Ok(i) => i,
        Err(_) => 0,
    }
}

/// The lock of shard `index` admits counters whose names all belong to that shard.
pub struct InShard {
    pub index: usize,
}

impl RwLockPredicate<Counters> for InShard {
    open spec fn inv(self, v: Counters) -> bool {
        forall|k: Seq<char>|
            #[trigger] counters::count_map(v@).contains_key(k) ==> shard_of(k) == self.index
    }
}

/// Counters by name spread over `SHARDS` locked shards; clones share the
/// counters.
pub struct ShardedMetrics {
    shards: Arc<Vec<RwLock<Counters, InShard>>>,
}

impl ShardedMetrics {
    #[verifier::type_invariant]
    closed spec fn well_formed(&self) -> bool {
        &&& self.shards@.len() == SHARDS
        &&& forall|i: int| 0 <= i < SHARDS ==> (#[trigger] self.shards@[i]).pred() == (InShard { index: i as usize })
    }

    /// What each shard's lock admits, shard by shard.
    pub closed spec fn shard_predicates(&self) -> Seq<InShard> {
        self.shards@.map_values(|l: RwLock<Counters, InShard>| l.pred())
    }

    /// Metrics with no counters: `SHARDS` shards, shard `i` admitting the
    /// names whose shard is `i`. That the shards start empty is not covered
    /// by this contract: what the locks hold is not visible to contracts.
    pub fn new() -> (m: Self)
        ensures
            m.shard_predicates() == Seq::new(SHARDS as nat, |i: int| (InShard { index: i as usize })),
    {
        let mut shards: Vec<RwLock<Counters, InShard>> = Vec::new();
        let mut i: usize = 0;
        while i < SHARDS
            invariant
                i <= SHARDS,
                shards@.len() == i,
                forall|t: int| 0 <= t < i ==> (#[trigger] shards@[t]).pred() == (InShard { index: t as usize }),
            decreases SHARDS - i,
        {
            let c = Counters::new();
            assert(counters::count_map(c@) =~= Map::empty());
            shards.push(RwLock::new(c, Ghost(InShard { index: i })));
            i = i + 1;
        }
        let m = ShardedMetrics { shards: Arc::new(shards) };
        assert(m.shard_predicates() =~= Seq::new(
            SHARDS as nat,
            |i: int| (InShard { index: i as usize }),
        ));
        m
    }

    /// Adds one to the counter named `key` in the shard of that name,
    /// creating it at zero first where it does not exist; the count wraps at
    /// `i64::MAX`.
    ///
    /// The ghost result records the shard this call chose and the counters
    /// it took from that shard's lock and put back: the shard is the one of
    /// `key`, both hold names of that shard only, and their counts differ by
    /// one increment of `key` and nothing else. Other threads may change the
    /// counters before and after the call; what the locks hold is not visible
    /// to contracts, so the record is tied to the lock by this body, not by
    /// the contract.
    pub fn inc(&self, key: String) -> (step: Ghost<(int, Seq<(Seq<char>, i64)>, Seq<(Seq<char>, i64)>)>)
        ensures
            step@.0 == shard_of(key@),
            shard_holds(step@.1, step@.0),
            shard_holds(step@.2, step@.0),
            counters::count_map(step@.2) == counters::bumped(counters::count_map(step@.1), key@),
    {
        proof {
            use_type_invariant(self);
        }
        let idx = shard_index(key.as_str());
        let shard = &self.shards[idx];
        let (mut c, handle) = shard.acquire_write();
        let ghost before_entries = c@;
        let ghost before = counters::count_map(c@);
        c.increment(key);
        let ghost after_entries = c@;
        assert forall|k: Seq<char>| #[trigger] counters::count_map(c@).contains_key(k) implies shard_of(k)
            == idx by {
            if k != key@ {
                assert(before.contains_key(k));
            }
        }
        handle.release_write(c);
        Ghost((idx as int, before_entries, after_entries))
    }

    /// The lines `name: count` of all counters, shard after shard, each
    /// shard read at one moment and in ascending order of its names. Which
    /// counts are shown is not covered by this contract: only that each shard
    /// shows well-ordered counters of its own names.
    pub fn to_string(&self) -> (s: String)
        ensures
            exists|parts: Seq<Seq<(Seq<char>, i64)>>|
                #![trigger parts.len()]
                {
                    &&& parts.len() == SHARDS
                    &&& forall|i: int|
                        0 <= i < SHARDS ==> shard_holds(#[trigger] parts[i], i)
                    &&& s@ == shards_text(parts)
                },
    {
        proof {
            use_type_invariant(self);
        }
        let mut s = String::new();
        let ghost mut parts: Seq<Seq<(Seq<char>, i64)>> = Seq::empty();
        let mut i: usize = 0;
        while i < SHARDS
            invariant
                i <= SHARDS,
                self.shards@.len() == SHARDS,
                forall|t: int| 0 <= t < SHARDS ==> (#[trigger] self.shards@[t]).pred() == (InShard { index: t as usize }),
                parts.len() == i,
                forall|t: int| 0 <= t < i ==> shard_holds(#[trigger] parts[t], t),
                s@ == shards_text(parts),
            decreases SHARDS - i,
        {
            let shard = &self.shards[i];
            let handle = shard.acquire_read();
            let c = handle.borrow();
            let ghost before = s@;
            c.push_lines(&mut s);
            proof {
                assert(parts.push(c@).drop_last() =~= parts);
                parts = parts.push(c@);
            }
            handle.release_read();
            i = i + 1;
        }
        s
    }
}

/// The entries `e` may stand in shard `i`: ascending by name, every name
/// belonging to shard `i`.
pub open spec fn shard_holds(e: Seq<(Seq<char>, i64)>, i: int) -> bool {
    &&& counters::keys_ascending(e)
    &&& forall|k: Seq<char>| #[trigger] counters::count_map(e).contains_key(k) ==> shard_of(k) == i
}

/// The lines of the shards' counters, shard after shard.
pub open spec fn shards_text(parts: Seq<Seq<(Seq<char>, i64)>>) -> Seq<char>
    decreases parts.len(),
{
    if parts.len() == 0 {
        Seq::empty()
    } else {
        shards_text(parts.drop_last()) + counters::counters_text(parts.last())
    }
}

impl Clone for ShardedMetrics {
    /// Another handle on the same counters.
    fn clone(&self) -> (r: Self)
        ensures
            r == *self,
    {
        proof {
            use_type_invariant(self);
        }
        ShardedMetrics { shards: share(&self.shards) }
    }
}

/// A name is held by one shard at most: two shards whose counters both
/// hold `k` are the same shard, so no name is listed twice.
pub proof fn lemma_name_in_one_shard(
    parts: Seq<Seq<(Seq<char>, i64)>>,
    i: int,
    j: int,
    k: Seq<char>,
)
    requires
        0 <= i < parts.len(),
        0 <= j < parts.len(),
        shard_holds(parts[i], i),
        shard_holds(parts[j], j),
        counters::count_map(parts[i]).contains_key(k),
        counters::count_map(parts[j]).contains_key(k),
    ensures
        i == j,
{
}

impl Default for ShardedMetrics {
    /// The same as `new`.
    fn default() -> (m: Self)
        ensures
            m.shard_predicates() == Seq::new(SHARDS as nat, |i: int| (InShard { index: i as usize })),
    {
        Self::new()
    }
}

} // verus!
