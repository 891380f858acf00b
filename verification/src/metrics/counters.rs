//! Named counters kept in ascending order of their names.
use vstd::prelude::*;

use crate::text::{self, chars_of, compare_text, push_i64, TextOrder};

verus! {

/// A counter's value after one increment; it wraps from `i64::MAX` to
/// `i64::MIN`, as `i64::wrapping_add` does.
pub open spec fn next_count(c: i64) -> i64 {
    if c == i64::MAX {
        i64::MIN
    } else {
        (c + 1) as i64
    }
}

/// A name and its count, the name taken as its text.
pub open spec fn entry_view(e: (String, i64)) -> (Seq<char>, i64) {
    (e.0@, e.1)
}

/// The names strictly ascend in the order of `precedes`, so that no name
/// occurs twice.
pub open spec fn keys_ascending(s: Seq<(Seq<char>, i64)>) -> bool {
    forall|i: int, j: int| 0 <= i < j < s.len() ==> text::precedes(#[trigger] s[i].0, #[trigger] s[j].0)
}

/// Some entry of `s` is named `k`.
pub open spec fn has_key(s: Seq<(Seq<char>, i64)>, k: Seq<char>) -> bool {
    exists|i: int| 0 <= i < s.len() && #[trigger] s[i].0 == k
}

/// A position of an entry of `s` named `k`, where there is one.
pub open spec fn key_index(s: Seq<(Seq<char>, i64)>, k: Seq<char>) -> int {
    choose|i: int| 0 <= i < s.len() && #[trigger] s[i].0 == k
}

/// The counts of `s` by name.
pub open spec fn count_map(s: Seq<(Seq<char>, i64)>) -> Map<Seq<char>, i64> {
    Map::new(|k: Seq<char>| has_key(s, k), |k: Seq<char>| s[key_index(s, k)].1)
}

/// The count of `k` in `m`, zero where `m` has none.
pub open spec fn count_of(m: Map<Seq<char>, i64>, k: Seq<char>) -> i64 {
    if m.contains_key(k) {
        m[k]
    } else {
        0
    }
}

/// The counts `m` after one increment of the counter named `k`, which
/// starts at zero where it does not exist yet.
pub open spec fn bumped(m: Map<Seq<char>, i64>, k: Seq<char>) -> Map<Seq<char>, i64> {
    m.insert(k, next_count(count_of(m, k)))
}

/// The line that shows one counter: `name: count` and a line break.
pub open spec fn counter_line(e: (Seq<char>, i64)) -> Seq<char> {
    e.0 + ": "@ + text::decimal(e.1 as int) + "\n"@
}

/// The lines of all counters of `s`, in order.
pub open spec fn counters_text(s: Seq<(Seq<char>, i64)>) -> Seq<char>
    decreases s.len(),
{
    if s.len() == 0 {
        Seq::empty()
    } else {
        counters_text(s.drop_last()) + counter_line(s.last())
    }
}

/// Named counters, held as their entries in ascending order of the names.
pub struct Counters {
    entries: Vec<(String, i64)>,
}

impl View for Counters {
    type V = Seq<(Seq<char>, i64)>;

    closed spec fn view(&self) -> Seq<(Seq<char>, i64)> {
        self.entries@.map_values(|e: (String, i64)| entry_view(e))
    }
}

/// In ascending entries, a name identifies its entry.
pub proof fn lemma_ascending_distinct(s: Seq<(Seq<char>, i64)>, i: int, j: int)
    requires
        keys_ascending(s),
        0 <= i < s.len(),
        0 <= j < s.len(),
        s[i].0 == s[j].0,
    ensures
        i == j,
{
    if i < j {
        assert(text::precedes(s[i].0, s[j].0));
        text::lemma_precedes_irreflexive(s[i].0);
    } else if j < i {
        assert(text::precedes(s[j].0, s[i].0));
        text::lemma_precedes_irreflexive(s[i].0);
    }
}

/// In ascending entries, the count of each entry's name is that entry's count.
pub proof fn lemma_count_map_at(s: Seq<(Seq<char>, i64)>, i: int)
    requires
        keys_ascending(s),
        0 <= i < s.len(),
    ensures
        count_map(s).contains_key(s[i].0),
        count_map(s)[s[i].0] == s[i].1,
{
    let k = s[i].0;
    assert(has_key(s, k));
    let c = key_index(s, k);
    lemma_ascending_distinct(s, i, c);
}

impl Counters {
    #[verifier::type_invariant]
    closed spec fn well_formed(&self) -> bool {
        keys_ascending(self@)
    }

    /// No counters.
    pub fn new() -> (c: Self)
        ensures
            c@ == Seq::<(Seq<char>, i64)>::empty(),
    {
        let c = Counters { entries: Vec::new() };
        assert(c@ =~= Seq::<(Seq<char>, i64)>::empty());
        c
    }

    /// Adds one to the counter named `key`, which starts at zero where it
    /// does not exist yet; the count wraps at `i64::MAX`.
    pub fn increment(&mut self, key: String)
        ensures
            keys_ascending(old(self)@),
            keys_ascending(final(self)@),
            count_map(final(self)@) == bumped(count_map(old(self)@), key@),
    {
        proof {
            use_type_invariant(&*self);
        }
        let ghost s = self@;
        let mut entries: Vec<(String, i64)> = Vec::new();
        std::mem::swap(&mut entries, &mut self.entries);
        assert(entries@.map_values(|e: (String, i64)| entry_view(e)) == s);
        let key_chars = chars_of(key.as_str());
        let n = entries.len();
        let mut pos: usize = 0;
        let mut found = false;
        while pos < n
            invariant_except_break
                n == s.len(),
                s == entries@.map_values(|e: (String, i64)| entry_view(e)),
                key_chars@ == key@,
                keys_ascending(s),
                pos <= n,
                !found,
                forall|t: int| 0 <= t < pos ==> text::precedes(#[trigger] s[t].0, key@),
            ensures
                n == s.len(),
                s == entries@.map_values(|e: (String, i64)| entry_view(e)),
                keys_ascending(s),
                pos <= n,
                forall|t: int| 0 <= t < pos ==> text::precedes(#[trigger] s[t].0, key@),
                found ==> pos < n && s[pos as int].0 == key@,
                !found && pos < n ==> text::precedes(key@, s[pos as int].0),
            decreases n - pos,
        {
            let here = chars_of(entries[pos].0.as_str());
            assert(here@ == s[pos as int].0);
            match compare_text(&here, &key_chars) {
                TextOrder::Before => {
                    pos = pos + 1;
                },
                TextOrder::Same => {
                    found = true;
                    break ;
                },
                TextOrder::After => {
                    break ;
                },
            }
        }
        if found {
            let old_count = entries[pos].1;
            let new_count = if old_count == i64::MAX {
                i64::MIN
            } else {
                old_count + 1
            };
            proof {
                lemma_count_map_at(s, pos as int);
            }
            entries.set(pos, (key, new_count));
            proof {
                let t = entries@.map_values(|e: (String, i64)| entry_view(e));
                assert(t =~= s.update(pos as int, (key@, new_count)));
                assert forall|k: Seq<char>| #[trigger]
                    count_map(t).contains_key(k) == bumped(count_map(s), key@).contains_key(k) by {
                    if has_key(s, k) {
                        let i = choose|i: int| 0 <= i < s.len() && #[trigger] s[i].0 == k;
                        assert(t[i].0 == k);
                    }
                    if has_key(t, k) {
                        let i = choose|i: int| 0 <= i < t.len() && #[trigger] t[i].0 == k;
                        assert(s[i].0 == k);
                    }
                }
                assert forall|k: Seq<char>| #[trigger] count_map(t).contains_key(k) implies count_map(
                    t,
                )[k] == bumped(count_map(s), key@)[k] by {
                    let i = choose|i: int| 0 <= i < t.len() && #[trigger] t[i].0 == k;
                    lemma_count_map_at(t, i);
                    if i != pos {
                        lemma_count_map_at(s, i);
                        if k == key@ {
                            lemma_ascending_distinct(t, i, pos as int);
                        }
                    } else {
                        assert(old_count == s[pos as int].1);
                        assert(new_count == next_count(old_count));
                    }
                }
                assert(count_map(t) =~= bumped(count_map(s), key@));
            }
        } else {
            proof {
                assert forall|t: int| 0 <= t < s.len() implies #[trigger] s[t].0 != key@ by {
                    if t < pos {
                        text::lemma_precedes_irreflexive(key@);
                    } else {
                        if t > pos {
                            text::lemma_precedes_transitive(key@, s[pos as int].0, s[t].0);
                        }
                        text::lemma_precedes_irreflexive(key@);
                    }
                }
                assert(!count_map(s).contains_key(key@));
            }
            entries.insert(pos, (key, 1));
            proof {
                let t = entries@.map_values(|e: (String, i64)| entry_view(e));
                assert(t =~= s.insert(pos as int, (key@, 1i64)));
                assert forall|i: int, j: int| 0 <= i < j < t.len() implies text::precedes(
                    #[trigger] t[i].0,
                    #[trigger] t[j].0,
                ) by {
                    if j < pos {
                    } else if j == pos {
                    } else if i < pos {
                        if j - 1 > pos {
                            text::lemma_precedes_transitive(key@, s[pos as int].0, s[j - 1].0);
                        }
                        text::lemma_precedes_transitive(t[i].0, key@, t[j].0);
                    } else if i == pos {
                        if j - 1 > pos {
                            text::lemma_precedes_transitive(key@, s[pos as int].0, s[j - 1].0);
                        }
                    } else {
                        assert(s[i - 1].0 == t[i].0);
                        assert(s[j - 1].0 == t[j].0);
                    }
                }
                assert forall|k: Seq<char>| #[trigger]
                    count_map(t).contains_key(k) == bumped(count_map(s), key@).contains_key(k) by {
                    if has_key(s, k) {
                        let i = choose|i: int| 0 <= i < s.len() && #[trigger] s[i].0 == k;
                        if i < pos {
                            assert(t[i].0 == k);
                        } else {
                            assert(t[i + 1].0 == k);
                        }
                    }
                    if k == key@ {
                        assert(t[pos as int].0 == k);
                    }
                    if has_key(t, k) {
                        let i = choose|i: int| 0 <= i < t.len() && #[trigger] t[i].0 == k;
                        if i < pos {
                            assert(s[i].0 == k);
                        } else if i > pos {
                            assert(s[i - 1].0 == k);
                        }
                    }
                }
                assert forall|k: Seq<char>| #[trigger] count_map(t).contains_key(k) implies count_map(
                    t,
                )[k] == bumped(count_map(s), key@)[k] by {
                    let i = choose|i: int| 0 <= i < t.len() && #[trigger] t[i].0 == k;
                    lemma_count_map_at(t, i);
                    if i < pos {
                        lemma_count_map_at(s, i);
                    } else if i > pos {
                        lemma_count_map_at(s, i - 1);
                    }
                }
                assert(count_map(t) =~= bumped(count_map(s), key@));
            }
        }
        self.entries = entries;
    }

    /// Appends the lines of all counters to `out`, in ascending order of the names.
    pub fn push_lines(&self, out: &mut String)
        ensures
            keys_ascending(self@),
            final(out)@ == old(out)@ + counters_text(self@),
    {
        proof {
            use_type_invariant(self);
            reveal_strlit(": ");
            reveal_strlit("\n");
        }
        let ghost start = old(out)@;
        let n = self.entries.len();
        let mut i: usize = 0;
        while i < n
            invariant
                n == self@.len(),
                i <= n,
                out@ == start + counters_text(self@.take(i as int)),
            decreases n - i,
        {
            proof {
                assert(self@.take(i + 1).drop_last() =~= self@.take(i as int));
            }
            out.append(self.entries[i].0.as_str());
            out.append(": ");
            push_i64(out, self.entries[i].1);
            out.append("\n");
            i = i + 1;
        }
        proof {
            assert(self@.take(n as int) =~= self@);
        }
    }

    /// The lines of all counters, `name: count` each, in ascending order of the names.
    pub fn to_string(&self) -> (s: String)
        ensures
            keys_ascending(self@),
            s@ == counters_text(self@),
    {
        let mut s = String::new();
        self.push_lines(&mut s);
        s
    }
}

/// Increments commute: the counts after incrementing `a` and then `b` are
/// the counts after incrementing `b` and then `a`. So the counts that
/// concurrent increments leave do not depend on the order in which they
/// took the lock.
pub proof fn lemma_increments_commute(m: Map<Seq<char>, i64>, a: Seq<char>, b: Seq<char>)
    ensures
        bumped(bumped(m, a), b) == bumped(bumped(m, b), a),
{
    if a == b {
    } else {
        assert(bumped(bumped(m, a), b) =~= bumped(bumped(m, b), a));
    }
}

/// One increment of `k` raises the count of `k` by one (from zero where it
/// had none, wrapping at `i64::MAX`), makes `k` a counter, and leaves every
/// other counter as it was.
pub proof fn lemma_bumped_counts(m: Map<Seq<char>, i64>, k: Seq<char>, other: Seq<char>)
    ensures
        bumped(m, k).contains_key(k),
        count_of(bumped(m, k), k) == next_count(count_of(m, k)),
        other != k ==> bumped(m, k).contains_key(other) == m.contains_key(other),
        other != k ==> count_of(bumped(m, k), other) == count_of(m, other),
{
}

/// The counts `m` after `n` increments of the counter named `k`.
pub open spec fn bumped_times(m: Map<Seq<char>, i64>, k: Seq<char>, n: nat) -> Map<
    Seq<char>,
    i64,
>
    decreases n,
{
    if n == 0 {
        m
    } else {
        bumped(bumped_times(m, k, (n - 1) as nat), k)
    }
}

/// `n` increments of `k` raise its count by `n` where that does not pass
/// `i64::MAX`, and leave every other counter as it was; from no counters,
/// `n` increments give the count `n`.
pub proof fn lemma_bumped_times(m: Map<Seq<char>, i64>, k: Seq<char>, n: nat, other: Seq<char>)
    requires
        count_of(m, k) >= 0,
        count_of(m, k) + n <= i64::MAX,
    ensures
        count_of(bumped_times(m, k, n), k) == count_of(m, k) + n,
        other != k ==> count_of(bumped_times(m, k, n), other) == count_of(m, other),
        count_of(bumped_times(Map::empty(), k, n), k) == n,
    decreases n,
{
    if n > 0 {
        lemma_bumped_times(m, k, (n - 1) as nat, other);
        lemma_bumped_counts(bumped_times(m, k, (n - 1) as nat), k, other);
        lemma_bumped_counts(bumped_times(Map::empty(), k, (n - 1) as nat), k, other);
    }
}

proof fn lemma_count_map_drop_last(s: Seq<(Seq<char>, i64)>)
    requires
        keys_ascending(s),
        s.len() > 0,
    ensures
        keys_ascending(s.drop_last()),
        count_map(s.drop_last()) == count_map(s).remove(s.last().0),
{
    let d = s.drop_last();
    let last = s.len() - 1;
    assert forall|k: Seq<char>| #[trigger]
        count_map(d).contains_key(k) == count_map(s).remove(s.last().0).contains_key(k) by {
        if has_key(d, k) {
            let i = key_index(d, k);
            assert(s[i].0 == k);
            if k == s.last().0 {
                lemma_ascending_distinct(s, i, last);
            }
        }
        if has_key(s, k) && k != s.last().0 {
            let i = key_index(s, k);
            assert(i != last);
            assert(d[i].0 == k);
        }
    }
    assert forall|k: Seq<char>| #[trigger] count_map(d).contains_key(k) implies count_map(d)[k]
        == count_map(s).remove(s.last().0)[k] by {
        let i = key_index(d, k);
        lemma_count_map_at(d, i);
        lemma_count_map_at(s, i);
    }
    assert(count_map(d) =~= count_map(s).remove(s.last().0));
}

/// Ascending entries are determined by their counts: two ascending entry
/// sequences with the same counts are the same, so the text of a set of
/// counters depends only on the counts and not on the order of the
/// increments that produced them.
pub proof fn lemma_ascending_unique(s1: Seq<(Seq<char>, i64)>, s2: Seq<(Seq<char>, i64)>)
    requires
        keys_ascending(s1),
        keys_ascending(s2),
        count_map(s1) == count_map(s2),
    ensures
        s1 == s2,
    decreases s1.len(),
{
    if s1.len() == 0 {
        if s2.len() > 0 {
            lemma_count_map_at(s2, 0);
        }
        assert(s1 =~= s2);
    } else {
        if s2.len() == 0 {
            lemma_count_map_at(s1, 0);
        }
        let l1 = s1.len() - 1;
        let l2 = s2.len() - 1;
        let k1 = s1[l1].0;
        let k2 = s2[l2].0;
        lemma_count_map_at(s1, l1);
        lemma_count_map_at(s2, l2);
        if k1 != k2 {
            let j = key_index(s2, k1);
            let i = key_index(s1, k2);
            assert(j != l2);
            assert(i != l1);
            assert(text::precedes(s2[j].0, k2));
            assert(text::precedes(s1[i].0, k1));
            text::lemma_precedes_asymmetric(k1, k2);
        }
        lemma_count_map_drop_last(s1);
        lemma_count_map_drop_last(s2);
        lemma_ascending_unique(s1.drop_last(), s2.drop_last());
        assert(s1 =~= s1.drop_last().push(s1[l1]));
        assert(s2 =~= s2.drop_last().push(s2[l2]));
    }
}

} // verus!
