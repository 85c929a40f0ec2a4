//! The register of outstanding nemesis records: a bounded queue with a
//! retention policy. Pushing into a full register evicts one record, which
//! the caller must recover.

use crate::nemesis::NemesisRecord;
use crate::random::random_u64_below;
use std::collections::VecDeque;
use vstd::prelude::*;

verus! {

broadcast use vstd::seq_lib::group_to_multiset_ensures, vstd::multiset::group_multiset_axioms;

/// The retention policy of the register. The payload is the capacity; when a
/// record is pushed into a full register, `FIFO` evicts the oldest record
/// and `RandomQueue` evicts a uniformly random one. A push below capacity
/// evicts nothing.
#[derive(Debug, Clone, PartialEq, Eq)]
pub enum NemesisRegisterStrategy {
    FIFO(usize),
    RandomQueue(usize),
}

impl Default for NemesisRegisterStrategy {
    /// By default, keep a single outstanding record.
    fn default() -> (r: NemesisRegisterStrategy)
        ensures
            r == NemesisRegisterStrategy::FIFO(1usize),
    {
        NemesisRegisterStrategy::FIFO(1)
    }
}

/// The outstanding nemesis records, oldest first, never more than the
/// policy's capacity.
#[derive(Debug)]
pub struct NemesisRegister {
    pub queue: VecDeque<NemesisRecord>,
    pub strategy: NemesisRegisterStrategy,
}

impl NemesisRegister {
    /// The capacity the policy allows.
    pub open spec fn cap(self) -> usize {
        match self.strategy {
            NemesisRegisterStrategy::FIFO(k) => k,
            NemesisRegisterStrategy::RandomQueue(k) => k,
        }
    }

    /// The register invariant: a positive capacity that the queue never
    /// exceeds.
    pub open spec fn wf(self) -> bool {
        &&& self.cap() >= 1
        &&& self.queue@.len() <= self.cap()
    }

    /// An empty register under the given policy.
    pub fn new(strategy: NemesisRegisterStrategy) -> (r: NemesisRegister)
        requires
            (match strategy {
                NemesisRegisterStrategy::FIFO(k) => k,
                NemesisRegisterStrategy::RandomQueue(k) => k,
            }) >= 1,
        ensures
            r.wf(),
            r.queue@.len() == 0,
            r.strategy == strategy,
    {
        NemesisRegister { queue: VecDeque::new(), strategy }
    }

    /// Replace the policy, keeping the stored records.
    pub fn with_strategy(self, strategy: NemesisRegisterStrategy) -> (r: NemesisRegister)
        requires
            self.queue@.len() <= (match strategy {
                NemesisRegisterStrategy::FIFO(k) => k,
                NemesisRegisterStrategy::RandomQueue(k) => k,
            }),
            (match strategy {
                NemesisRegisterStrategy::FIFO(k) => k,
                NemesisRegisterStrategy::RandomQueue(k) => k,
            }) >= 1,
        ensures
            r.wf(),
            r.queue == self.queue,
            r.strategy == strategy,
    {
        NemesisRegister { strategy, ..self }
    }

    /// How many records are outstanding.
    pub fn len(&self) -> (r: usize)
        ensures
            r == self.queue@.len(),
    {
        self.queue.len()
    }

    /// Whether no record is outstanding.
    pub fn is_empty(&self) -> (r: bool)
        ensures
            r == (self.queue@.len() == 0),
    {
        self.queue.len() == 0
    }

    /// Store an executed record. Below capacity nothing is evicted; at
    /// capacity the policy picks one stored record to evict, and the caller
    /// must recover it. Either way, everything pushed is still accounted
    /// for: the records stored afterwards plus the evicted one are exactly
    /// the records stored before plus the pushed one.
    pub fn push(&mut self, record: NemesisRecord) -> (evicted: Option<NemesisRecord>)
        requires
            old(self).wf(),
        ensures
            final(self).wf(),
            final(self).strategy == old(self).strategy,
            old(self).queue@.len() < old(self).cap() ==> evicted is None && final(self).queue@
                == old(self).queue@.push(record),
            old(self).queue@.len() == old(self).cap() ==> {
                &&& (old(self).strategy matches NemesisRegisterStrategy::FIFO(_) ==> evicted
                    == Some(old(self).queue@[0]) && final(self).queue@ == old(self).queue@.drop_first().push(record))
                &&& (old(self).strategy matches NemesisRegisterStrategy::RandomQueue(_) ==> exists|
                    i: int,
                |
                    0 <= i < old(self).queue@.len() && evicted == Some(old(self).queue@[i])
                        && final(self).queue@ == old(self).queue@.remove(i).push(record))
            },
            (match evicted {
                None => final(self).queue@.to_multiset() == old(self).queue@.to_multiset().insert(
                    record,
                ),
                Some(e) => final(self).queue@.to_multiset().insert(e) == old(self).queue@.to_multiset().insert(record),
            }),
    {
        let cap = match &self.strategy {
            NemesisRegisterStrategy::FIFO(k) => *k,
            NemesisRegisterStrategy::RandomQueue(k) => *k,
        };
        if self.queue.len() < cap {
            self.queue.push_back(record);
            None
        } else {
            let is_fifo = matches!(self.strategy, NemesisRegisterStrategy::FIFO(_));
            let idx: usize = if is_fifo {
                0
            } else {
                random_u64_below(self.queue.len() as u64) as usize
            };
            let ghost before = self.queue@;
            let out = self.queue.remove(idx);
            let evicted = match out {
                Some(e) => e,
                None => {
                    proof {
                        assert(false);
                    }
                    NemesisRecord::Noop
                },
            };
            self.queue.push_back(record);
            proof {
                assert(before.remove(idx as int) =~= if idx == 0 {
                    before.drop_first()
                } else {
                    before.remove(idx as int)
                });
                assert(final(self).queue@.to_multiset().insert(evicted) == old(self).queue@.to_multiset().insert(record)) by {
                    assert(final(self).queue@ == before.remove(idx as int).push(record));
                    assert(before.remove(idx as int).to_multiset() == before.to_multiset().remove(
                        before[idx as int],
                    ));
                    assert(before.to_multiset().contains(before[idx as int])) by {
                        assert(before.contains(before[idx as int]));
                    }
                    assert(before.to_multiset().remove(before[idx as int]).insert(
                        before[idx as int],
                    ) =~= before.to_multiset());
                }
            }
            Some(evicted)
        }
    }

    /// Take the next record to recover, according to the policy: the oldest
    /// under `FIFO`, a uniformly random one under `RandomQueue`. Returns
    /// nothing when the register is empty.
    pub fn pop_next(&mut self) -> (r: Option<NemesisRecord>)
        requires
            old(self).wf(),
        ensures
            final(self).wf(),
            final(self).strategy == old(self).strategy,
            old(self).queue@.len() == 0 ==> r is None && final(self).queue@ == old(self).queue@,
            old(self).queue@.len() > 0 ==> {
                &&& final(self).queue@.len() == old(self).queue@.len() - 1
                &&& (old(self).strategy matches NemesisRegisterStrategy::FIFO(_) ==> r == Some(
                    old(self).queue@[0],
                ) && final(self).queue@ == old(self).queue@.drop_first())
                &&& exists|i: int|
                    0 <= i < old(self).queue@.len() && r == Some(old(self).queue@[i]) && final(self).queue@ == old(self).queue@.remove(i)
                &&& (match r {
                    Some(e) => final(self).queue@.to_multiset().insert(e) == old(self).queue@.to_multiset(),
                    None => false,
                })
            },
    {
        if self.queue.len() == 0 {
            return None;
        }
        let is_fifo = matches!(self.strategy, NemesisRegisterStrategy::FIFO(_));
        let idx: usize = if is_fifo {
            0
        } else {
            random_u64_below(self.queue.len() as u64) as usize
        };
        let ghost before = self.queue@;
        let out = self.queue.remove(idx);
        proof {
            if idx == 0 {
                assert(before.remove(0) =~= before.drop_first());
            }
            assert(before.remove(idx as int).to_multiset() == before.to_multiset().remove(
                before[idx as int],
            ));
            assert(before.to_multiset().contains(before[idx as int])) by {
                assert(before.contains(before[idx as int]));
            }
            assert(before.to_multiset().remove(before[idx as int]).insert(before[idx as int]) =~= before.to_multiset());
        }
        out
    }
}

impl Default for NemesisRegister {
    /// The default register keeps one outstanding record, oldest first.
    fn default() -> (r: NemesisRegister)
        ensures
            r.wf(),
            r.queue@.len() == 0,
            r.strategy == NemesisRegisterStrategy::FIFO(1usize),
    {
        NemesisRegister::new(NemesisRegisterStrategy::FIFO(1))
    }
}

} // verus!
