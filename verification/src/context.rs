//! The global run context: the worker-id allocator, the raw operation
//! source, the start instant and the history log.

use crate::generator::RawGenerator;
use crate::history::SerializableHistoryList;
use vstd::prelude::*;

verus! {

/// `std::time::Instant` carried opaquely as the start-of-run anchor.
#[verifier::external_type_specification]
#[verifier::external_body]
pub struct ExInstant(std::time::Instant);

/// Relies on `std::time::Instant::now`: an opaque reading of the monotonic
/// clock. Nothing is promised of the value.
#[verifier::external_body]
pub(crate) fn instant_now() -> std::time::Instant {
    std::time::Instant::now()
}

/// Relies on `std::time::Instant::elapsed`: the nanoseconds since the
/// instant, truncated to 64 bits. The value depends on the clock, so nothing
/// is promised of it.
#[verifier::external_body]
pub(crate) fn elapsed_nanos(start: &std::time::Instant) -> u64 {
    start.elapsed().as_nanos() as u64
}

/// The set of worker ids currently in use, kept strictly sorted.
#[derive(Debug, PartialEq, Eq)]
pub struct IdSet {
    pub ids: Vec<u64>,
}

impl IdSet {
    /// The ids are strictly increasing, so each id appears once.
    pub open spec fn wf(self) -> bool {
        forall|i: int, j: int| 0 <= i < j < self.ids@.len() ==> self.ids@[i] < self.ids@[j]
    }

    /// Whether `x` is in use.
    pub open spec fn spec_contains(self, x: u64) -> bool {
        exists|i: int| 0 <= i < self.ids@.len() && self.ids@[i] == x
    }

    /// An empty id set.
    pub fn new() -> (r: IdSet)
        ensures
            r.wf(),
            r.ids@.len() == 0,
            forall|x: u64| !r.spec_contains(x),
    {
        IdSet { ids: Vec::new() }
    }

    /// How many ids are in use.
    pub fn len(&self) -> (r: usize)
        ensures
            r == self.ids@.len(),
    {
        self.ids.len()
    }

    /// Whether `x` is in use.
    pub fn contains(&self, x: u64) -> (r: bool)
        ensures
            r == self.spec_contains(x),
    {
        let mut i: usize = 0;
        while i < self.ids.len()
            invariant
                i <= self.ids@.len(),
                forall|j: int| 0 <= j < i ==> self.ids@[j] != x,
            decreases self.ids@.len() - i,
        {
            if self.ids[i] == x {
                return true;
            }
            i = i + 1;
        }
        false
    }
}

/// The logical-process identity of a generator. Ids are allocated from and
/// released to the shared [`IdSet`]; the smallest free id is always handed
/// out first.
#[derive(Debug, Clone, Copy, PartialEq, Eq)]
pub struct GeneratorId {
    pub id: u64,
}

impl GeneratorId {
    /// Allocate the smallest free id and wrap it.
    pub fn new(id_set: &mut IdSet) -> (r: GeneratorId)
        requires
            old(id_set).wf(),
            old(id_set).ids@.len() < u64::MAX,
        ensures
            final(id_set).wf(),
            !old(id_set).spec_contains(r.id),
            forall|y: u64| y < r.id ==> old(id_set).spec_contains(y),
            forall|x: u64|
                final(id_set).spec_contains(x) <==> (old(id_set).spec_contains(x) || x == r.id),
            final(id_set).ids@.len() == old(id_set).ids@.len() + 1,
    {
        GeneratorId { id: Self::alloc_id(id_set) }
    }

    /// The wrapped id.
    pub fn get(&self) -> (r: u64)
        ensures
            r == self.id,
    {
        self.id
    }

    /// The smallest id that is not in use. With the set sorted, that is the
    /// first position whose id differs from its index, or the length if
    /// there is no gap.
    pub fn get_next_id(id_set: &IdSet) -> (r: u64)
        requires
            id_set.wf(),
            id_set.ids@.len() < u64::MAX,
        ensures
            !id_set.spec_contains(r),
            forall|y: u64| y < r ==> id_set.spec_contains(y),
    {
        let n = id_set.ids.len();
        let mut i: usize = 0;
        while i < n && id_set.ids[i] == i as u64
            invariant
                n == id_set.ids@.len(),
                i <= n,
                forall|j: int| 0 <= j < i ==> id_set.ids@[j] == j,
            decreases n - i,
        {
            i = i + 1;
        }
        proof {
            if i < id_set.ids@.len() {
                assert(id_set.ids@[i as int] != i as u64);
                lemma_sorted_gap(*id_set, i as int);
            } else {
                assert forall|k: int| 0 <= k < id_set.ids@.len() implies id_set.ids@[k] != (
                i as u64) by {
                    assert(id_set.ids@[k] == k);
                }
            }
            assert forall|y: u64| y < i as u64 implies id_set.spec_contains(y) by {
                assert(id_set.ids@[y as int] == y);
            }
        }
        i as u64
    }

    /// Allocate the smallest free id: find it, then insert it in sorted
    /// position.
    pub fn alloc_id(id_set: &mut IdSet) -> (r: u64)
        requires
            old(id_set).wf(),
            old(id_set).ids@.len() < u64::MAX,
        ensures
            final(id_set).wf(),
            !old(id_set).spec_contains(r),
            forall|y: u64| y < r ==> old(id_set).spec_contains(y),
            forall|x: u64|
                final(id_set).spec_contains(x) <==> (old(id_set).spec_contains(x) || x == r),
            final(id_set).ids@.len() == old(id_set).ids@.len() + 1,
    {
        let id = Self::get_next_id(id_set);
        let mut pos: usize = 0;
        while pos < id_set.ids.len() && id_set.ids[pos] < id
            invariant
                *id_set == *old(id_set),
                pos <= id_set.ids@.len(),
                forall|j: int| 0 <= j < pos ==> id_set.ids@[j] < id,
            decreases id_set.ids@.len() - pos,
        {
            pos = pos + 1;
        }
        proof {
            if pos < id_set.ids@.len() {
                assert(id_set.ids@[pos as int] >= id);
                assert(id_set.ids@[pos as int] != id);
            }
        }
        id_set.ids.insert(pos, id);
        proof {
            let s = id_set.ids@;
            let olds = old(id_set).ids@;
            assert forall|i: int, j: int| 0 <= i < j < s.len() implies s[i] < s[j] by {
                if j < pos {
                    assert(s[i] == olds[i] && s[j] == olds[j]);
                } else if i > pos {
                    assert(s[i] == olds[i - 1] && s[j] == olds[j - 1]);
                } else if i == pos {
                    assert(s[i] == id && s[j] == olds[j - 1]);
                    assert(olds[j - 1] >= id);
                } else if j == pos {
                    assert(s[i] == olds[i] && s[j] == id);
                } else {
                    assert(i < pos && j > pos);
                    assert(s[i] == olds[i] && s[j] == olds[j - 1]);
                    assert(olds[j - 1] >= id && olds[i] < id);
                }
            }
            assert forall|x: u64|
                final(id_set).spec_contains(x) <==> (old(id_set).spec_contains(x) || x == id) by {
                if final(id_set).spec_contains(x) {
                    let i = choose|i: int| 0 <= i < s.len() && s[i] == x;
                    if i < pos {
                        assert(olds[i] == x);
                    } else if i > pos {
                        assert(olds[i - 1] == x);
                    }
                }
                if old(id_set).spec_contains(x) {
                    let i = choose|i: int| 0 <= i < olds.len() && olds[i] == x;
                    if i < pos {
                        assert(s[i] == x);
                    } else {
                        assert(s[i + 1] == x);
                    }
                }
                if x == id {
                    assert(s[pos as int] == x);
                }
            }
        }
        id
    }

    /// Release `id` back to the set. Returns whether it was in use.
    pub fn free_id(&self, id_set: &mut IdSet, id: u64) -> (r: bool)
        requires
            old(id_set).wf(),
        ensures
            final(id_set).wf(),
            r == old(id_set).spec_contains(id),
            forall|x: u64|
                final(id_set).spec_contains(x) <==> (old(id_set).spec_contains(x) && x != id),
            final(id_set).ids@.len() == if old(id_set).spec_contains(id) {
                old(id_set).ids@.len() - 1
            } else {
                old(id_set).ids@.len() as int
            },
    {
        remove_id(id_set, id)
    }
}

/// Release `id` back to the set. Returns whether it was in use.
#[verifier::loop_isolation(false)]
pub fn remove_id(id_set: &mut IdSet, id: u64) -> (r: bool)
    requires
        old(id_set).wf(),
    ensures
        final(id_set).wf(),
        r == old(id_set).spec_contains(id),
        forall|x: u64| final(id_set).spec_contains(x) <==> (old(id_set).spec_contains(x) && x != id),
        final(id_set).ids@.len() == if old(id_set).spec_contains(id) {
            old(id_set).ids@.len() - 1
        } else {
            old(id_set).ids@.len() as int
        },
{
    let mut i: usize = 0;
    while i < id_set.ids.len()
        invariant
            *id_set == *old(id_set),
            i <= id_set.ids@.len(),
            forall|j: int| 0 <= j < i ==> id_set.ids@[j] != id,
        decreases id_set.ids@.len() - i,
    {
        if id_set.ids[i] == id {
            let ghost removed_at = i as int;
            id_set.ids.remove(i);
            proof {
                let s = id_set.ids@;
                let olds = old(id_set).ids@;
                assert(forall|a: int| 0 <= a < removed_at ==> s[a] == olds[a]);
                assert(forall|a: int| removed_at <= a < s.len() ==> s[a] == olds[a + 1]);
                assert forall|a: int, b: int| 0 <= a < b < s.len() implies s[a] < s[b] by {
                    if b < removed_at {
                        assert(olds[a] < olds[b]);
                    } else if a >= removed_at {
                        assert(olds[a + 1] < olds[b + 1]);
                    } else {
                        assert(olds[a] < olds[b + 1]);
                    }
                }
                assert(olds[removed_at] == id);
                assert forall|x: u64|
                    id_set.spec_contains(x) <==> (old(id_set).spec_contains(x) && x != id) by {
                    if id_set.spec_contains(x) {
                        let k = choose|k: int| 0 <= k < s.len() && s[k] == x;
                        if k < removed_at {
                            assert(olds[k] == x);
                            assert(olds[k] < olds[removed_at]);
                        } else {
                            assert(olds[k + 1] == x);
                            assert(olds[removed_at] < olds[k + 1]);
                        }
                        assert(old(id_set).spec_contains(x) && x != id);
                    }
                    if old(id_set).spec_contains(x) && x != id {
                        let k = choose|k: int| 0 <= k < olds.len() && olds[k] == x;
                        assert(k != removed_at);
                        if k < removed_at {
                            assert(s[k] == x);
                        } else {
                            assert(s[k - 1] == x);
                        }
                    }
                }
            }
            return true;
        }
        i = i + 1;
    }
    proof {
        assert(!old(id_set).spec_contains(id));
    }
    false
}

/// In a strictly sorted sequence whose first `i` entries equal their
/// indexes, if entry `i` differs from `i` then `i` itself is missing.
proof fn lemma_sorted_gap(id_set: IdSet, i: int)
    requires
        id_set.wf(),
        0 <= i < id_set.ids@.len(),
        forall|j: int| 0 <= j < i ==> id_set.ids@[j] == j,
        id_set.ids@[i] != i as u64,
    ensures
        !id_set.spec_contains(i as u64),
{
    let s = id_set.ids@;
    assert(s[i] >= i) by {
        if i > 0 {
            assert(s[i - 1] == i - 1);
            assert(s[i - 1] < s[i]);
        }
    }
    assert forall|k: int| 0 <= k < s.len() implies s[k] != i as u64 by {
        if k < i {
            assert(s[k] == k);
        } else if k == i {
            assert(s[i] != i as u64);
        } else {
            assert(s[i] < s[k]);
        }
    }
}

/// Allocating an id and then releasing it leaves the set of usable ids as it
/// was: allocation hands out a fresh id, release restores it.
pub proof fn lemma_id_alloc_release_round_trip(s0: IdSet, s1: IdSet, s2: IdSet, id: u64)
    requires
        !s0.spec_contains(id),
        forall|x: u64| s1.spec_contains(x) <==> (s0.spec_contains(x) || x == id),
        forall|x: u64| s2.spec_contains(x) <==> (s1.spec_contains(x) && x != id),
    ensures
        forall|x: u64| s2.spec_contains(x) <==> s0.spec_contains(x),
{
}

/// A timestamped slot for one operation: which worker performs it and when.
#[derive(Debug, Clone, Copy, PartialEq, Eq)]
pub struct Context {
    /// Nanoseconds since the start of the run.
    pub time: u64,
    /// The worker id that performs the operation.
    pub process: u64,
}

/// The process-wide context of a run: the id allocator, the raw operation
/// source, the start instant that timestamps are measured from, and the
/// history log.
pub struct Global<G: RawGenerator> {
    pub id_set: IdSet,
    pub gen: Option<G>,
    pub start_time: std::time::Instant,
    pub history: SerializableHistoryList,
}

impl<G: RawGenerator> Global<G> {
    /// A fresh context over a raw generator: no ids in use, an empty
    /// history, and the clock anchored now.
    pub fn new(gen: G) -> (r: Global<G>)
        ensures
            r.id_set.wf(),
            r.id_set.ids@.len() == 0,
            r.gen is Some,
            r.history.wf(),
            r.history.0@.len() == 0,
    {
        Global {
            id_set: IdSet::new(),
            gen: Some(gen),
            start_time: instant_now(),
            history: SerializableHistoryList::new(),
        }
    }

    /// Allocate a fresh generator id: the smallest one not in use.
    pub fn get_id(&mut self) -> (r: GeneratorId)
        requires
            old(self).id_set.wf(),
            old(self).id_set.ids@.len() < u64::MAX,
        ensures
            final(self).id_set.wf(),
            !old(self).id_set.spec_contains(r.id),
            forall|y: u64| y < r.id ==> old(self).id_set.spec_contains(y),
            forall|x: u64|
                final(self).id_set.spec_contains(x) <==> (old(self).id_set.spec_contains(x) || x
                    == r.id),
            final(self).id_set.ids@.len() == old(self).id_set.ids@.len() + 1,
            final(self).gen == old(self).gen,
            final(self).history == old(self).history,
            final(self).start_time == old(self).start_time,
    {
        GeneratorId::new(&mut self.id_set)
    }

    /// Nanoseconds elapsed since the start of the run, as the clock reports
    /// them.
    pub fn elapsed(&self) -> u64 {
        elapsed_nanos(&self.start_time)
    }

    /// Take the next `n` operations from the raw source; the source is the
    /// sole producer and this is its sole consumption point. Without a
    /// source, nothing comes out.
    pub fn take_seq(&mut self, n: usize) -> (r: Vec<G::Item>)
        ensures
            r@.len() == if old(self).gen is Some {
                n as int
            } else {
                0
            },
            final(self).gen is Some <==> old(self).gen is Some,
            final(self).id_set == old(self).id_set,
            final(self).history == old(self).history,
            final(self).start_time == old(self).start_time,
    {
        match &mut self.gen {
            Some(g) => crate::generator::gen_n(g, n),
            None => Vec::new(),
        }
    }
}

} // verus!
