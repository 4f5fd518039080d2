//! A record of how long the tokenizer spent in each state.

use vstd::prelude::*;
use std::time::Instant;
use crate::tokenizer::states::State;

verus! {

/// `std::time::Instant`, a reading of the clock.
#[verifier::external_type_specification]
#[verifier::external_body]
pub struct ExInstant(std::time::Instant);

/// `Instant::now`: a reading of the clock. Nothing is claimed of it.
pub assume_specification[ std::time::Instant::now ]() -> std::time::Instant
;

/// `Instant::elapsed`: the time since a reading of the clock. Nothing is claimed of
/// it.
pub assume_specification[ std::time::Instant::elapsed ](
    start: &std::time::Instant,
) -> std::time::Duration
;

/// `Duration::as_nanos`: the length of a span of time. Nothing is claimed of it.
pub assume_specification[ std::time::Duration::as_nanos ](d: &std::time::Duration) -> u128
;

/// The nanoseconds since `start`, modulo 2^64. How many those are, only the clock knows.
pub(crate) fn elapsed_ns(start: &Instant) -> u64 {
    let span = start.elapsed();
    let ns: u128 = span.as_nanos();
    wrapped_ns(ns)
}

/// A number of nanoseconds, modulo 2^64.
pub fn wrapped_ns(ns: u128) -> (r: u64)
    ensures
        r == ns % 0x1_0000_0000_0000_0000,
{
    assert(ns as u64 == ns % 0x1_0000_0000_0000_0000) by (bit_vector);
    #[verifier::truncate]
    (ns as u64)
}

/// The time that a list of entries has for the state `s`.
pub open spec fn time_of(entries: Seq<(State, u64)>, s: State) -> Option<u64>
    decreases entries.len(),
{
    if entries.len() == 0 {
        None
    } else if entries[0].0 == s {
        Some(entries[0].1)
    } else {
        time_of(entries.drop_first(), s)
    }
}

/// Does no entry have a longer time than one before it?
pub open spec fn longest_first(entries: Seq<(State, u64)>) -> bool {
    forall|i: int, j: int|
        0 <= i < j < entries.len() ==> (#[trigger] entries[i]).1 >= (#[trigger] entries[j]).1
}

/// Does no state occur twice?
pub open spec fn each_state_once(entries: Seq<(State, u64)>) -> bool {
    forall|i: int, j: int|
        0 <= i < j < entries.len() ==> (#[trigger] entries[i]).0 != (#[trigger] entries[j]).0
}

/// The sum of all times.
pub open spec fn sum_of_times(entries: Seq<(State, u64)>) -> int
    decreases entries.len(),
{
    if entries.len() == 0 {
        0
    } else {
        sum_of_times(entries.drop_last()) + entries.last().1
    }
}

/// The sum of all times, modulo 2^64.
pub fn total_time(entries: &Vec<(State, u64)>) -> (r: u64)
    ensures
        r == sum_of_times(entries@) % 0x1_0000_0000_0000_0000,
{
    let mut total: u64 = 0;
    let mut i: usize = 0;
    while i < entries.len()
        invariant
            i <= entries@.len(),
            total == sum_of_times(entries@.take(i as int)) % 0x1_0000_0000_0000_0000,
        decreases entries@.len() - i,
    {
        assert(entries@.take(i + 1).drop_last() =~= entries@.take(i as int));
        total = total.wrapping_add(entries[i].1);
        i += 1;
    }
    assert(entries@.take(i as int) =~= entries@);
    total
}

/// Where a state occurs in a list in which none occurs twice, there its time is.
proof fn lemma_time_of(entries: Seq<(State, u64)>, i: int)
    requires
        0 <= i < entries.len(),
        forall|j: int| 0 <= j < i ==> (#[trigger] entries[j]).0 != entries[i].0,
    ensures
        time_of(entries, entries[i].0) == Some(entries[i].1),
    decreases entries.len(),
{
    if i > 0 {
        assert(entries.drop_first()[i - 1] == entries[i]);
        assert forall|j: int| 0 <= j < i - 1 implies (#[trigger] entries.drop_first()[j]).0
            != entries[i].0 by {
            assert(entries.drop_first()[j] == entries[j + 1]);
        }
        lemma_time_of(entries.drop_first(), i - 1);
    }
}

/// A state that does not occur has no time.
proof fn lemma_no_time(entries: Seq<(State, u64)>, s: State)
    requires
        forall|j: int| 0 <= j < entries.len() ==> (#[trigger] entries[j]).0 != s,
    ensures
        time_of(entries, s) is None,
    decreases entries.len(),
{
    if entries.len() > 0 {
        assert forall|j: int| 0 <= j < entries.len() - 1 implies (
        #[trigger] entries.drop_first()[j]).0 != s by {
            assert(entries.drop_first()[j] == entries[j + 1]);
        }
        lemma_no_time(entries.drop_first(), s);
    }
}

/// Changing the time of the first entry for its state.
proof fn lemma_time_of_update(entries: Seq<(State, u64)>, i: int, t: u64, u: State)
    requires
        0 <= i < entries.len(),
        forall|j: int| 0 <= j < i ==> (#[trigger] entries[j]).0 != entries[i].0,
    ensures
        time_of(entries.update(i, (entries[i].0, t)), u) == (if u == entries[i].0 {
            Some(t)
        } else {
            time_of(entries, u)
        }),
    decreases entries.len(),
{
    let new = entries.update(i, (entries[i].0, t));
    if i == 0 {
        assert(new.drop_first() =~= entries.drop_first());
    } else {
        let rest = entries.drop_first();
        assert(rest[i - 1] == entries[i]);
        assert forall|j: int| 0 <= j < i - 1 implies (#[trigger] rest[j]).0 != entries[i].0 by {
            assert(rest[j] == entries[j + 1]);
        }
        lemma_time_of_update(rest, i - 1, t, u);
        assert(new.drop_first() =~= rest.update(i - 1, (entries[i].0, t)));
        assert(entries[0].0 != entries[i].0);
    }
}

/// Adding an entry for a state that does not occur yet.
proof fn lemma_time_of_push(entries: Seq<(State, u64)>, s: State, t: u64, u: State)
    requires
        forall|j: int| 0 <= j < entries.len() ==> (#[trigger] entries[j]).0 != s,
    ensures
        time_of(entries.push((s, t)), u) == (if u == s {
            Some(t)
        } else {
            time_of(entries, u)
        }),
    decreases entries.len(),
{
    let new = entries.push((s, t));
    if entries.len() == 0 {
        assert(new.drop_first() =~= entries);
    } else {
        let rest = entries.drop_first();
        assert forall|j: int| 0 <= j < rest.len() implies (#[trigger] rest[j]).0 != s by {
            assert(rest[j] == entries[j + 1]);
        }
        lemma_time_of_push(rest, s, t, u);
        assert(new.drop_first() =~= rest.push((s, t)));
        assert(entries[0].0 != s);
    }
}

/// Nanoseconds by state. No state occurs twice.
pub struct Profile {
    entries: Vec<(State, u64)>,
}

impl View for Profile {
    type V = Seq<(State, u64)>;

    closed spec fn view(&self) -> Seq<(State, u64)> {
        self.entries@
    }
}

impl Profile {
    /// No state occurs twice.
    pub open spec fn wf(&self) -> bool {
        each_state_once(self@)
    }

    /// Add `dt` to the time of the state `s`, modulo 2^64.
    pub fn record(&mut self, s: State, dt: u64)
        requires
            old(self).wf(),
        ensures
            final(self).wf(),
            forall|t: State| #[trigger] time_of(final(self)@, t) == (if t == s {
                Some(
                    match time_of(old(self)@, s) {
                        Some(x) => ((x + dt) % 0x1_0000_0000_0000_0000) as u64,
                        None => dt,
                    },
                )
            } else {
                time_of(old(self)@, t)
            }),
    {
        let mut i: usize = 0;
        while i < self.entries.len()
            invariant
                old(self).wf(),
                *self == *old(self),
                i <= self@.len(),
                forall|j: int| 0 <= j < i ==> (#[trigger] self@[j]).0 != s,
            decreases self@.len() - i,
        {
            if self.entries[i].0 == s {
                let t = self.entries[i].1.wrapping_add(dt);
                proof {
                    lemma_time_of(old(self)@, i as int);
                }
                self.entries.set(i, (s, t));
                proof {
                    assert forall|u: State| #[trigger] time_of(self@, u) == (if u == s {
                        Some(t)
                    } else {
                        time_of(old(self)@, u)
                    }) by {
                        lemma_time_of_update(old(self)@, i as int, t, u);
                    }
                }
                return ;
            }
            i += 1;
        }
        self.entries.push((s, dt));
        proof {
            lemma_no_time(old(self)@, s);
            assert forall|u: State| #[trigger] time_of(self@, u) == (if u == s {
                Some(dt)
            } else {
                time_of(old(self)@, u)
            }) by {
                lemma_time_of_push(old(self)@, s, dt, u);
            }
        }
    }

    /// The entries, the longest times first.
    pub fn results(&self) -> (r: Vec<(State, u64)>)
        requires
            self.wf(),
        ensures
            r@.to_multiset() == self@.to_multiset(),
            longest_first(r@),
            each_state_once(r@),
    {
        let mut r: Vec<(State, u64)> = Vec::new();
        let mut i: usize = 0;
        assert(self@.take(0) =~= r@);
        while i < self.entries.len()
            invariant
                i <= self@.len(),
                r@.to_multiset() == self@.take(i as int).to_multiset(),
                longest_first(r@),
                self.wf(),
                each_state_once(r@),
                forall|k: int| 0 <= k < r@.len() ==> self@.take(i as int).contains(#[trigger] r@[k]),
            decreases self@.len() - i,
        {
            let e = self.entries[i];
            let mut k: usize = 0;
            while k < r.len() && r[k].1 >= e.1
                invariant
                    k <= r@.len(),
                    forall|j: int| 0 <= j < k ==> (#[trigger] r@[j]).1 >= e.1,
                decreases r@.len() - k,
            {
                k += 1;
            }
            let ghost pre = r@;
            r.insert(k, e);
            proof {
                broadcast use vstd::seq_lib::group_to_multiset_ensures;

                assert(r@.to_multiset() == pre.to_multiset().insert(e)) by {
                    assert(r@.remove(k as int) =~= pre);
                    assert(pre.insert(k as int, e) =~= r@);
                    vstd::seq_lib::to_multiset_insert(pre, k as int, e);
                }
                let seen = self@.take(i as int);
                assert(self@.take(i + 1) =~= seen.push(e));
                assert forall|j: int| 0 <= j < pre.len() implies (#[trigger] pre[j]).0 != e.0 by {
                    let n = seen.index_of(pre[j]);
                    assert(seen.contains(pre[j]));
                    assert(self@[n] == seen[n] && self@[i as int] == e);
                }
                assert forall|j: int| 0 <= j < r@.len() implies seen.push(e).contains(
                    #[trigger] r@[j],
                ) by {
                    if j == k {
                        assert(seen.push(e)[i as int] == e);
                    } else {
                        let x = pre[if j < k {
                            j
                        } else {
                            j - 1
                        }];
                        assert(seen.contains(x));
                        assert(seen.push(e)[seen.index_of(x)] == x);
                    }
                }
            }
            i += 1;
        }
        assert(self@.take(i as int) =~= self@);
        r
    }

    /// A record without entries.
    pub fn new() -> (r: Profile)
        ensures
            r.wf(),
            r@ == Seq::<(State, u64)>::empty(),
    {
        Profile { entries: Vec::new() }
    }
}

} // verus!
