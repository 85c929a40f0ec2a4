//! The top-level orchestrator: it drives a generator group that yields both
//! data operations and nemesis events, routes each to the right place, and
//! guarantees that every executed nemesis record is recovered before the
//! run ends.

use crate::client::{ElleRwClusterClient, JepsenClient};
use crate::generator::{GeneratorGroup, RawGenerator};
use crate::history::{closes, history_pairing, lemma_adjacent_pairs_are_paired};
use crate::nemesis::register::NemesisRegister;
use crate::nemesis::{
    calculate_nemesis, execute_nemesis_record, recover_nemesis_record, NemesisCluster,
    NemesisRecord, NemesisType,
};
use crate::op::Op;
use crate::controller::DelayStrategy;
use vstd::multiset::Multiset;
use vstd::prelude::*;

verus! {

broadcast use vstd::seq_lib::group_to_multiset_ensures, vstd::multiset::group_multiset_axioms;

/// One item of a mixed workload: a data operation, a fault to inject, or a
/// request to recover the next outstanding fault.
#[derive(Debug, Clone, PartialEq, Eq)]
pub enum NemesisOrOp {
    /// Inject the nemesis this intent describes.
    NemesisType(NemesisType),
    /// Recover the next outstanding record, by the register's policy. The
    /// payload names the intent the recovery answers; which record leaves
    /// the register is the policy's choice.
    NemesisRecord(NemesisRecord),
    /// Execute a data operation.
    Op(Op),
}

/// The ledger of a nemesis session: every record that was executed and every
/// record that was recovered, in order. The ledger is ghost bookkeeping; the
/// cluster sees only the execute and recover calls themselves.
pub struct NemesisSessionLog {
    pub executed: Ghost<Seq<NemesisRecord>>,
    pub recovered: Ghost<Seq<NemesisRecord>>,
}

impl NemesisSessionLog {
    /// An empty ledger.
    pub fn new() -> (r: NemesisSessionLog)
        ensures
            r.executed@.len() == 0,
            r.recovered@.len() == 0,
    {
        NemesisSessionLog { executed: Ghost(Seq::empty()), recovered: Ghost(Seq::empty()) }
    }
}

/// Recover every outstanding record, oldest or random-first by the
/// register's policy, logging each recovery.
#[verifier::loop_isolation(false)]
fn drain_register<NC: NemesisCluster>(
    fault_cluster: &mut NC,
    register: &mut NemesisRegister,
    log: &mut NemesisSessionLog,
)
    requires
        old(register).wf(),
    ensures
        final(register).wf(),
        final(register).queue@.len() == 0,
        final(log).executed == old(log).executed,
        final(log).recovered@.to_multiset() == old(log).recovered@.to_multiset().add(
            old(register).queue@.to_multiset(),
        ),
{
    loop
        invariant
            register.wf(),
            log.executed == old(log).executed,
            log.recovered@.to_multiset().add(register.queue@.to_multiset()) == old(
                log,
            ).recovered@.to_multiset().add(old(register).queue@.to_multiset()),
        decreases register.queue@.len(),
    {
        let ghost q_before = register.queue@;
        match register.pop_next() {
            Some(rec) => {
                proof {
                    assert(register.queue@.to_multiset().insert(rec) == q_before.to_multiset());
                }
                log.recovered = Ghost(log.recovered@.push(rec));
                recover_nemesis_record(fault_cluster, &rec);
            },
            None => {
                return ;
            },
        }
    }
}

/// How many data operations a workload slice holds.
pub open spec fn count_data_ops(s: Seq<(NemesisOrOp, DelayStrategy)>) -> int
    decreases s,
{
    if s.len() == 0 {
        0
    } else {
        count_data_ops(s.drop_last()) + if s.last().0 is Op {
            1int
        } else {
            0int
        }
    }
}

/// How many nemesis intents a workload slice holds.
pub open spec fn count_intents(s: Seq<(NemesisOrOp, DelayStrategy)>) -> int
    decreases s,
{
    if s.len() == 0 {
        0
    } else {
        count_intents(s.drop_last()) + if s.last().0 is NemesisType {
            1int
        } else {
            0int
        }
    }
}

/// The data operations of a workload slice, in order, as models.
pub open spec fn data_ops_of(s: Seq<(NemesisOrOp, DelayStrategy)>) -> Seq<crate::op::OpV>
    decreases s,
{
    if s.len() == 0 {
        Seq::empty()
    } else {
        data_ops_of(s.drop_last()) + (match s.last().0 {
            NemesisOrOp::Op(o) => seq![crate::op::op_view(o)],
            _ => Seq::empty(),
        })
    }
}

/// A slice holds as many data-operation models as it counts data
/// operations, and both counters are non-negative.
pub proof fn lemma_workload_counts(s: Seq<(NemesisOrOp, DelayStrategy)>)
    ensures
        data_ops_of(s).len() == count_data_ops(s),
        count_data_ops(s) >= 0,
        count_intents(s) >= 0,
    decreases s.len(),
{
    if s.len() > 0 {
        lemma_workload_counts(s.drop_last());
    }
}

/// Drive a mixed workload to completion. Data operations run against the
/// data-plane adapter under the id of the child that yielded them, each
/// recorded as an invocation immediately closed. Nemesis intents are
/// calculated against the fault adapter, executed, and registered; a full
/// register recovers one record by its policy, and an explicit recovery
/// event recovers the next. On exhaustion (or on an infeasible intent,
/// which aborts the run with its error) the register is drained. Either
/// way, at the end the register is empty and every executed record has been
/// recovered: the ledger's executed and recovered records agree as
/// multisets. Starting from an empty history, the history ends well formed
/// and fully paired. Per-element delays are scheduled by the generators but
/// not slept here; pacing is a timing effect that belongs to an outside
/// driver pulling through `get_without_delay_with_id`.
#[verifier::loop_isolation(false)]
pub fn run_nemesis_session<EC: ElleRwClusterClient, G: RawGenerator<Item = Op>, NC: NemesisCluster>(
    client: &mut JepsenClient<EC, G>,
    fault_cluster: &mut NC,
    gen: GeneratorGroup<NemesisOrOp>,
    register: &mut NemesisRegister,
) -> (r: (Result<(), &'static str>, NemesisSessionLog))
    requires
        old(client).global.history.wf(),
        old(client).global.history.0@.len() == 0,
        gen.wf(),
        old(register).wf(),
        old(register).queue@.len() == 0,
        gen.pending().len() * 2 <= u64::MAX,
    ensures
        final(register).wf(),
        final(register).queue@.len() == 0,
        r.1.executed@.to_multiset() == r.1.recovered@.to_multiset(),
        final(client).global.history.wf(),
        history_pairing(final(client).global.history.0@),
        r.0 is Ok ==> exists|order: Seq<(NemesisOrOp, DelayStrategy)>|
            #![trigger order.to_multiset()]
            {
                &&& order.to_multiset() == gen.pending().to_multiset()
                &&& final(client).global.history.0@.len() == 2 * count_data_ops(order)
                &&& r.1.executed@.len() == count_intents(order)
                &&& forall|k: int|
                    0 <= k < data_ops_of(order).len() ==> (#[trigger] final(client).global.history.0@[2 * k]).type_ is Invoke && final(client).global.history.0@[2 * k].value@ == data_ops_of(order)[k]
            },
{
    let ghost total = gen.pending().len();
    let ghost mut seen: Seq<(NemesisOrOp, DelayStrategy)> = Seq::empty();
    let mut log = NemesisSessionLog::new();
    let mut group = gen;
    loop
        invariant
            client.global.history.wf(),
            group.wf(),
            register.wf(),
            log.executed@.to_multiset() == log.recovered@.to_multiset().add(
                register.queue@.to_multiset(),
            ),
            client.global.history.0@.len() + group.pending().len() * 2 <= total * 2,
            seen.to_multiset().add(group.pending().to_multiset()) == gen.pending().to_multiset(),
            client.global.history.0@.len() == 2 * count_data_ops(seen),
            log.executed@.len() == count_intents(seen),
            forall|k: int|
                0 <= k < data_ops_of(seen).len() ==> (#[trigger] client.global.history.0@[2
                    * k]).type_ is Invoke && client.global.history.0@[2 * k].value@ == data_ops_of(
                    seen,
                )[k],
            forall|i: int|
                0 <= i < client.global.history.0@.len() && (#[trigger] client.global.history.0@[i]).type_
                    is Invoke ==> i + 1 < client.global.history.0@.len() && closes(
                    client.global.history.0@,
                    i,
                    i + 1,
                ),
        decreases group.pending().len(),
    {
        let ghost pend_before = group.pending();
        let ghost gens_before = group.gens@;
        match group.next_with_id() {
            Some((item, id)) => {
                let ghost item_snap = item;
                let ghost seen_before = seen;
                let ghost yielded_pair = {
                    let k = choose|k: int|
                        0 <= k < gens_before.len() && (#[trigger] gens_before[k]).0.id.id == id
                            && gens_before[k].0.seq@.len() > 0 && gens_before[k].0.seq@[0].0
                            == item_snap && pend_before.to_multiset()
                            == group.pending().to_multiset().insert(gens_before[k].0.seq@[0]);
                    gens_before[k].0.seq@[0]
                };
                proof {
                    lemma_workload_counts(seen_before);
                    seen = seen.push(yielded_pair);
                    lemma_workload_counts(seen);
                    assert(seen.drop_last() =~= seen_before);
                    assert(seen.to_multiset() == seen_before.to_multiset().insert(yielded_pair));
                    assert forall|x: (NemesisOrOp, DelayStrategy)|
                        seen.to_multiset().add(group.pending().to_multiset()).count(x)
                            == gen.pending().to_multiset().count(x) by {
                        assert(pend_before.to_multiset().count(x)
                            == group.pending().to_multiset().insert(yielded_pair).count(x));
                        assert(seen_before.to_multiset().add(pend_before.to_multiset()).count(x)
                            == gen.pending().to_multiset().count(x));
                    }
                    assert(seen.to_multiset().add(group.pending().to_multiset())
                        =~= gen.pending().to_multiset());
                    assert(yielded_pair.0 == item_snap);
                }
                match item {
                    NemesisOrOp::Op(op) => {
                        let ghost before = client.global.history.0@;
                        let ghost op_snapshot = op;
                        client.handle_op(id, op);
                        proof {
                            let h = client.global.history.0@;
                            assert forall|i: int|
                                0 <= i < h.len() && (#[trigger] h[i]).type_ is Invoke implies i + 1
                                < h.len() && closes(h, i, i + 1) by {
                                if i < before.len() {
                                    assert(h[i] == before[i]);
                                    if i + 1 < before.len() {
                                        assert(h[i + 1] == before[i + 1]);
                                    }
                                }
                            }
                            assert(data_ops_of(seen) =~= data_ops_of(seen_before) + seq![
                                crate::op::op_view(op_snapshot),
                            ]);
                            assert(count_data_ops(seen) == count_data_ops(seen_before) + 1);
                            assert(count_intents(seen) == count_intents(seen_before));
                            assert forall|k: int|
                                0 <= k < data_ops_of(seen).len() implies (#[trigger] h[2 * k]).type_
                                is Invoke && h[2 * k].value@ == data_ops_of(seen)[k] by {
                                if k < data_ops_of(seen_before).len() {
                                    assert(h[2 * k] == before[2 * k]);
                                    assert(data_ops_of(seen)[k] == data_ops_of(seen_before)[k]);
                                } else {
                                    assert(2 * k == before.len());
                                    assert(h[2 * k] == h[h.len() - 2]);
                                }
                            }
                        }
                    },
                    NemesisOrOp::NemesisType(nemesis) => {
                        match calculate_nemesis(fault_cluster, nemesis) {
                            Ok(record) => {
                                proof {
                                    assert(count_intents(seen) == count_intents(seen_before) + 1);
                                    assert(count_data_ops(seen) == count_data_ops(seen_before));
                                    assert(data_ops_of(seen) =~= data_ops_of(seen_before));
                                }
                                execute_nemesis_record(fault_cluster, &record);
                                let ghost exec_before = log.executed@;
                                let ghost recov_before = log.recovered@;
                                let ghost rec_snapshot = record;
                                let ghost q_before = register.queue@;
                                log.executed = Ghost(log.executed@.push(record));
                                let evicted = register.push(record);
                                match evicted {
                                    Some(out) => {
                                        proof {
                                            assert(register.queue@.to_multiset().insert(out)
                                                == q_before.to_multiset().insert(rec_snapshot));
                                        }
                                        log.recovered = Ghost(log.recovered@.push(out));
                                        recover_nemesis_record(fault_cluster, &out);
                                        proof {
                                            assert(log.executed@.to_multiset()
                                                =~= exec_before.to_multiset().insert(rec_snapshot));
                                            assert(log.recovered@.to_multiset()
                                                =~= recov_before.to_multiset().insert(out));
                                            assert forall|x: NemesisRecord|
                                                log.executed@.to_multiset().count(x)
                                                    == log.recovered@.to_multiset().add(
                                                    register.queue@.to_multiset(),
                                                ).count(x) by {
                                                assert(register.queue@.to_multiset().insert(
                                                    out,
                                                ).count(x) == q_before.to_multiset().insert(
                                                    rec_snapshot,
                                                ).count(x));
                                                assert(exec_before.to_multiset().count(x)
                                                    == recov_before.to_multiset().add(
                                                    q_before.to_multiset(),
                                                ).count(x));
                                            }
                                            assert(log.executed@.to_multiset()
                                                =~= log.recovered@.to_multiset().add(
                                                register.queue@.to_multiset(),
                                            ));
                                        }
                                    },
                                    None => {
                                        proof {
                                            assert(register.queue@.to_multiset()
                                                == q_before.to_multiset().insert(rec_snapshot));
                                            assert(log.executed@.to_multiset()
                                                =~= exec_before.to_multiset().insert(rec_snapshot));
                                            assert(log.executed@.to_multiset()
                                                =~= log.recovered@.to_multiset().add(
                                                register.queue@.to_multiset(),
                                            ));
                                        }
                                    },
                                }
                            },
                            Err(e) => {
                                drain_register(fault_cluster, register, &mut log);
                                return (Err(e), log);
                            },
                        }
                    },
                    NemesisOrOp::NemesisRecord(_intent) => {
                        proof {
                            assert(count_intents(seen) == count_intents(seen_before));
                            assert(count_data_ops(seen) == count_data_ops(seen_before));
                            assert(data_ops_of(seen) =~= data_ops_of(seen_before));
                        }
                        let ghost q_before = register.queue@;
                        let ghost recov_before = log.recovered@;
                        match register.pop_next() {
                            Some(rec) => {
                                proof {
                                    assert(register.queue@.to_multiset().insert(rec)
                                        == q_before.to_multiset());
                                }
                                log.recovered = Ghost(log.recovered@.push(rec));
                                recover_nemesis_record(fault_cluster, &rec);
                                proof {
                                    assert(log.recovered@.to_multiset() =~= recov_before.to_multiset().insert(rec));
                                    assert(log.executed@.to_multiset()
                                        =~= log.recovered@.to_multiset().add(
                                        register.queue@.to_multiset(),
                                    ));
                                }
                            },
                            None => {},
                        }
                    },
                }
            },
            None => {
                break ;
            },
        }
    }
    drain_register(fault_cluster, register, &mut log);
    proof {
        lemma_adjacent_pairs_are_paired(client.global.history.0@);
        assert(group.pending() =~= Seq::<(NemesisOrOp, DelayStrategy)>::empty());
        assert(group.pending().to_multiset() =~= Multiset::<(
            NemesisOrOp,
            DelayStrategy,
        )>::empty());
        assert(seen.to_multiset() =~= gen.pending().to_multiset());
    }
    (Ok(()), log)
}

} // verus!
