//! The client that leads a test run: it takes operations from a generator
//! group, executes each against the cluster adapter, and records the paired
//! invoke and closing entries in the history.

use crate::checker::{Check, CheckOption, SerializableCheckResult};
use crate::context::Global;
use crate::generator::{Generator, GeneratorBuilder, GeneratorGroup, RawGenerator};
use crate::history::{closes, history_pairing, lemma_adjacent_pairs_are_paired, HistoryType};
use crate::controller::DelayStrategy;
use crate::op::{op_is_leaf, op_valid, op_view, Op, OpV};
use vstd::multiset::Multiset;
use vstd::prelude::*;

verus! {

broadcast use vstd::seq_lib::group_to_multiset_ensures, vstd::multiset::group_multiset_axioms;

/// The data-plane interface of the cluster under test, implemented by its
/// users. Nothing is assumed of these calls beyond their signatures.
pub trait ElleRwClusterClient {
    fn get(&mut self, key: u64) -> Result<Option<u64>, ClusterError>;

    fn put(&mut self, key: u64, value: u64) -> Result<(), ClusterError>;
}

/// How an adapter call fails: a definite failure, where the operation is
/// known not to have executed, or an indeterminate outcome — a timeout, a
/// connection reset mid-call — where it may or may not have taken effect.
/// Each carries the adapter's message. A definite failure closes the
/// operation `Fail`; an indeterminate one closes it `Info`.
#[derive(Debug, Clone, PartialEq, Eq)]
pub enum ClusterError {
    Fail(String),
    Indeterminate(String),
}

/// A successful result echoes the operation's shape: a read keeps its key
/// with whatever value was observed, a write comes back unchanged, and a
/// transaction's children match pointwise.
pub open spec fn op_result_matches(op: OpV, res: OpV) -> bool
    decreases op,
{
    match op {
        OpV::Read(k, _) => res matches OpV::Read(k2, _) && k2 == k,
        OpV::Write(k, v) => res == OpV::Write(k, v),
        OpV::Txn(ops) => res matches OpV::Txn(rs) && rs.len() == ops.len() && (forall|i: int|
            0 <= i < ops.len() ==> op_result_matches(#[trigger] ops[i], rs[i])),
    }
}

/// A successful result of a well-shaped operation is well shaped itself:
/// matching a transaction of reads and writes yields a transaction of reads
/// and writes.
pub proof fn lemma_result_of_valid_op_is_valid(op: OpV, res: OpV)
    requires
        op_valid(op),
        op_result_matches(op, res),
    ensures
        op_valid(res),
{
    match op {
        OpV::Txn(ops) => {
            let rs = res->Txn_0;
            assert forall|i: int| 0 <= i < rs.len() implies op_is_leaf(#[trigger] rs[i]) by {
                assert(op_result_matches(ops[i], rs[i]));
                assert(op_is_leaf(ops[i]));
            }
        },
        _ => {},
    }
}

/// A client that leads a test: it owns the cluster adapter and the global
/// context, whose history it fills.
pub struct JepsenClient<EC, G: RawGenerator> {
    pub cluster_client: EC,
    pub global: Global<G>,
}

impl<EC: ElleRwClusterClient, G: RawGenerator<Item = Op>> JepsenClient<EC, G> {
    /// A client over a cluster adapter and a raw operation source, with a
    /// fresh global context.
    pub fn new(cluster: EC, raw_gen: G) -> (r: JepsenClient<EC, G>)
        ensures
            r.global.id_set.wf(),
            r.global.id_set.ids@.len() == 0,
            r.global.history.wf(),
            r.global.history.0@.len() == 0,
            r.global.gen is Some,
    {
        JepsenClient { cluster_client: cluster, global: Global::new(raw_gen) }
    }

    /// A new generator over the next `n` operations of the raw source, under
    /// a freshly allocated id and without delays.
    pub fn new_generator(&mut self, n: usize) -> (r: Generator<Op>)
        requires
            old(self).global.id_set.wf(),
            old(self).global.id_set.ids@.len() < u64::MAX,
        ensures
            final(self).global.id_set.wf(),
            final(self).global.history == old(self).global.history,
            r.seq@.len() == if old(self).global.gen is Some {
                n as int
            } else {
                0
            },
            forall|i: int| 0 <= i < r.seq@.len() ==> (#[trigger] r.seq@[i]).1 is NoDelay,
            !old(self).global.id_set.spec_contains(r.id.id),
            forall|y: u64| y < r.id.id ==> old(self).global.id_set.spec_contains(y),
            forall|x: u64|
                final(self).global.id_set.spec_contains(x) <==> (old(self).global.id_set.spec_contains(x) || x == r.id.id),
    {
        let seq = self.global.take_seq(n);
        GeneratorBuilder::new().seq(seq).build(&mut self.global.id_set)
    }

    /// Execute one operation against the cluster adapter: a read observes a
    /// value, a write stores one, and a transaction executes its children in
    /// declared order, the first error aborting the rest. A success echoes
    /// the operation's shape.
    #[verifier::loop_isolation(false)]
    pub fn handle_op_inner(&mut self, op: &Op) -> (r: Result<Op, ClusterError>)
        ensures
            final(self).global == old(self).global,
            r matches Ok(res) ==> op_result_matches(op@, res@),
            (op@ matches OpV::Txn(children) && children.len() == 0) ==> r is Ok,
        decreases *op,
    {
        match op {
            Op::Read(key, _) => {
                match self.cluster_client.get(*key) {
                    Ok(value) => Ok(Op::Read(*key, value)),
                    Err(e) => Err(e),
                }
            },
            Op::Write(key, value) => {
                match self.cluster_client.put(*key, *value) {
                    Ok(_) => Ok(Op::Write(*key, *value)),
                    Err(e) => Err(e),
                }
            },
            Op::Txn(ops) => {
                let mut out: Vec<Op> = Vec::new();
                let mut i: usize = 0;
                while i < ops.len()
                    invariant
                        self.global == old(self).global,
                        i <= ops@.len(),
                        out@.len() == i,
                        forall|j: int|
                            0 <= j < i ==> op_result_matches(
                                op_view(ops@[j]),
                                op_view(#[trigger] out@[j]),
                            ),
                    decreases ops@.len() - i,
                {
                    proof {
                        let ghost whole = *op;
                        assert(decreases_to!(whole => whole->Txn_0));
                        assert(decreases_to!(whole->Txn_0 => whole->Txn_0@));
                        assert(decreases_to!(whole->Txn_0@ => whole->Txn_0@[i as int]));
                        assert(whole->Txn_0@[i as int] == ops@[i as int]);
                    }
                    let ghost out_before = out@;
                    match self.handle_op_inner(&ops[i]) {
                        Ok(res) => {
                            out.push(res);
                            proof {
                                assert forall|j: int| 0 <= j < i + 1 implies op_result_matches(
                                    op_view(ops@[j]),
                                    op_view(#[trigger] out@[j]),
                                ) by {
                                    if j < i {
                                        assert(out@[j] == out_before[j]);
                                    }
                                }
                            }
                        },
                        Err(e) => {
                            return Err(e);
                        },
                    }
                    i = i + 1;
                }
                let r = Op::Txn(out);
                proof {
                    crate::op::lemma_ops_view(ops@);
                    crate::op::lemma_ops_view(out@);
                    assert forall|j: int|
                        0 <= j < crate::op::ops_view(ops@).len() implies op_result_matches(
                        #[trigger] crate::op::ops_view(ops@)[j],
                        crate::op::ops_view(out@)[j],
                    ) by {
                        assert(op_result_matches(op_view(ops@[j]), op_view(out@[j])));
                    }
                }
                Ok(r)
            },
        }
    }

    /// Execute one operation under the given worker id and record exactly
    /// Record the closing entry of an executed operation from the adapter's
    /// outcome: a success closes `Okay` with the result, a definite failure
    /// closes `Fail`, and an indeterminate outcome closes `Info`; both
    /// failure kinds carry the original operation and the adapter's message.
    pub fn record_outcome(&mut self, id: u64, op: Op, res: Result<Op, ClusterError>)
        requires
            old(self).global.history.wf(),
            old(self).global.history.0@.len() + 1 <= u64::MAX,
        ensures
            final(self).global.history.wf(),
            final(self).global.history.0@.len() == old(self).global.history.0@.len() + 1,
            final(self).global.history.0@.subrange(0, old(self).global.history.0@.len() as int)
                == old(self).global.history.0@,
            final(self).global.id_set == old(self).global.id_set,
            ({
                let cls = final(self).global.history.0@.last();
                &&& cls.process == id
                &&& (match res {
                    Ok(rop) => cls.type_ is Okay && cls.value == rop && cls.error is None,
                    Err(ClusterError::Fail(m)) => cls.type_ is Fail && cls.value@ == op@ && (
                    cls.error matches Some(err) && err@.len() == 1 && err@[0]@ == m@),
                    Err(ClusterError::Indeterminate(m)) => cls.type_ is Info && cls.value@ == op@
                        && (cls.error matches Some(err) && err@.len() == 1 && err@[0]@ == m@),
                })
            }),
    {
        let close_time = self.global.elapsed();
        match res {
            Ok(res_op) => {
                self.global.history.push_result(id, HistoryType::Okay, res_op, None, close_time);
            },
            Err(ClusterError::Fail(msg)) => {
                let mut payload: Vec<String> = Vec::new();
                payload.push(msg);
                self.global.history.push_result(
                    id,
                    HistoryType::Fail,
                    op,
                    Some(payload),
                    close_time,
                );
            },
            Err(ClusterError::Indeterminate(msg)) => {
                let mut payload: Vec<String> = Vec::new();
                payload.push(msg);
                self.global.history.push_result(
                    id,
                    HistoryType::Info,
                    op,
                    Some(payload),
                    close_time,
                );
            },
        }
        proof {
            let h = final(self).global.history.0@;
            assert(h.subrange(0, old(self).global.history.0@.len() as int) =~= old(self).global.history.0@);
        }
    }

    /// Execute one operation under the given worker id and record exactly
    /// two history entries for it: its invocation, immediately followed by
    /// its closing entry. A success closes `Okay` with the result; a
    /// definite failure closes `Fail` and an indeterminate outcome closes
    /// `Info`, both with the original operation and the adapter's error. An
    /// operation is never left unclosed.
    pub fn handle_op(&mut self, id: u64, op: Op)
        requires
            old(self).global.history.wf(),
            old(self).global.history.0@.len() + 2 <= u64::MAX,
        ensures
            final(self).global.history.wf(),
            final(self).global.history.0@.len() == old(self).global.history.0@.len() + 2,
            final(self).global.history.0@.subrange(0, old(self).global.history.0@.len() as int)
                == old(self).global.history.0@,
            final(self).global.id_set == old(self).global.id_set,
            ({
                let h = final(self).global.history.0@;
                let inv = h[h.len() - 2];
                let cls = h[h.len() - 1];
                &&& inv.type_ is Invoke
                &&& inv.process == id
                &&& inv.value@ == op@
                &&& cls.process == id
                &&& !(cls.type_ is Invoke)
                &&& (cls.type_ is Okay || cls.type_ is Fail || cls.type_ is Info)
                &&& (cls.type_ is Okay ==> op_result_matches(op@, cls.value@) && cls.error
                    is None)
                &&& (cls.type_ is Fail || cls.type_ is Info ==> cls.value@ == op@ && cls.error
                    is Some)
            }),
    {
        let invoke_time = self.global.elapsed();
        let op_for_result = op.clone();
        self.global.history.push_invoke(id, op, invoke_time);
        let res = self.handle_op_inner(&op_for_result);
        self.record_outcome(id, op_for_result, res);
        proof {
            let h = final(self).global.history.0@;
            assert(h.subrange(0, old(self).global.history.0@.len() as int) =~= old(self).global.history.0@);
        }
    }

    /// Drive a generator group to exhaustion: every yielded operation is
    /// executed under the id of the child that yielded it, and every
    /// invocation is closed before the next is opened (the closing entry
    /// stands right after its invocation). Starting from an empty history,
    /// the finished history is well formed and fully paired, holds two
    /// entries per executed operation, and its invoke entries carry exactly
    /// the group's operations, in the order the group yielded them. The
    /// history is then handed to the checker, whose verdict is returned.
    /// Per-element delays are scheduled but not slept here; pacing belongs
    /// to an outside driver pulling through `get_without_delay_with_id`.
    #[verifier::loop_isolation(false)]
    pub fn run<CK: Check>(
        &mut self,
        gen: GeneratorGroup<Op>,
        checker: &mut CK,
        option: CheckOption,
    ) -> (r: Result<SerializableCheckResult, String>)
        requires
            old(self).global.history.wf(),
            old(self).global.history.0@.len() == 0,
            gen.wf(),
            gen.pending().len() * 2 <= u64::MAX,
        ensures
            final(self).global.history.wf(),
            history_pairing(final(self).global.history.0@),
            final(self).global.history.0@.len() == gen.pending().len() * 2,
            forall|i: int|
                0 <= i < final(self).global.history.0@.len() && (#[trigger] final(self).global.history.0@[i]).type_ is Invoke ==> i + 1 < final(self).global.history.0@.len() && closes(final(self).global.history.0@, i, i + 1),
            exists|order: Seq<(Op, DelayStrategy)>|
                #![trigger order.to_multiset()]
                {
                    &&& order.to_multiset() == gen.pending().to_multiset()
                    &&& order.len() == gen.pending().len()
                    &&& forall|k: int|
                        0 <= k < order.len() ==> (#[trigger] final(self).global.history.0@[2 * k]).type_ is Invoke && final(self).global.history.0@[2 * k].value@ == order[k].0@
                },
    {
        let ghost total = gen.pending().len();
        let ghost mut seen: Seq<(Op, DelayStrategy)> = Seq::empty();
        let mut group = gen;
        loop
            invariant
                self.global.history.wf(),
                group.wf(),
                self.global.history.0@.len() + group.pending().len() * 2 == total * 2,
                seen.to_multiset().add(group.pending().to_multiset()) == gen.pending().to_multiset(),
                self.global.history.0@.len() == seen.len() * 2,
                forall|k: int|
                    0 <= k < seen.len() ==> (#[trigger] self.global.history.0@[2 * k]).type_
                        is Invoke && self.global.history.0@[2 * k].value@ == seen[k].0@,
                forall|i: int|
                    0 <= i < self.global.history.0@.len() && (#[trigger] self.global.history.0@[i]).type_
                        is Invoke ==> i + 1 < self.global.history.0@.len() && closes(
                        self.global.history.0@,
                        i,
                        i + 1,
                    ),
            decreases group.pending().len(),
        {
            let ghost pend_before = group.pending();
            let ghost gens_before = group.gens@;
            match group.next_with_id() {
                Some((op, id)) => {
                    let ghost yielded_pair = {
                        let k = choose|k: int|
                            0 <= k < gens_before.len() && (#[trigger] gens_before[k]).0.id.id == id
                                && gens_before[k].0.seq@.len() > 0 && gens_before[k].0.seq@[0].0
                                == op && pend_before.to_multiset()
                                == group.pending().to_multiset().insert(gens_before[k].0.seq@[0]);
                        gens_before[k].0.seq@[0]
                    };
                    proof {
                        let ghost seen_before = seen;
                        seen = seen.push(yielded_pair);
                        assert(seen.to_multiset() == seen_before.to_multiset().insert(
                            yielded_pair,
                        ));
                        assert forall|x: (Op, DelayStrategy)|
                            seen.to_multiset().add(group.pending().to_multiset()).count(x)
                                == gen.pending().to_multiset().count(x) by {
                            assert(pend_before.to_multiset().count(x)
                                == group.pending().to_multiset().insert(yielded_pair).count(x));
                            assert(seen_before.to_multiset().add(pend_before.to_multiset()).count(
                                x,
                            ) == gen.pending().to_multiset().count(x));
                        }
                        assert(seen.to_multiset().add(group.pending().to_multiset())
                            =~= gen.pending().to_multiset());
                    }
                    let ghost before = self.global.history.0@;
                    let ghost op_snapshot = op;
                    self.handle_op(id, op);
                    proof {
                        let h = self.global.history.0@;
                        assert forall|i: int|
                            0 <= i < h.len() && (#[trigger] h[i]).type_ is Invoke implies i + 1
                            < h.len() && closes(h, i, i + 1) by {
                            if i < before.len() {
                                assert(h[i] == before[i]);
                                if i + 1 < before.len() {
                                    assert(h[i + 1] == before[i + 1]);
                                }
                            }
                        }
                        assert forall|k: int| 0 <= k < seen.len() implies (#[trigger] h[2 * k]).type_
                            is Invoke && h[2 * k].value@ == seen[k].0@ by {
                            if k < seen.len() - 1 {
                                assert(h[2 * k] == before[2 * k]);
                            } else {
                                assert(2 * k == before.len());
                                assert(h[2 * k] == h[h.len() - 2]);
                                assert(yielded_pair.0 == op_snapshot);
                            }
                        }
                    }
                },
                None => {
                    break ;
                },
            }
        }
        proof {
            lemma_adjacent_pairs_are_paired(self.global.history.0@);
            assert(group.pending() =~= Seq::<(Op, DelayStrategy)>::empty());
            assert(group.pending().to_multiset() =~= Multiset::<(Op, DelayStrategy)>::empty());
            assert(seen.to_multiset() =~= gen.pending().to_multiset());
            assert(seen.len() == gen.pending().len());
        }
        checker.check(&self.global.history, option)
    }
}

} // verus!
