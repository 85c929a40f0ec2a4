//! The operation model: a tagged sum of the key-value operations a workload
//! can submit to the cluster under test.

use vstd::prelude::*;

verus! {

broadcast use vstd::std_specs::vec::group_vec_axioms, vstd::seq::group_seq_axioms;

/// An operation against the cluster under test. A `Read` carries `None` when
/// it is recorded as an invocation and the observed value (or observed
/// absence) in an `Ok` result. A `Txn` holds its children in execution order.
#[derive(Debug, PartialEq, Eq)]
pub enum Op {
    Read(u64, Option<u64>),
    Write(u64, u64),
    Txn(Vec<Op>),
}

/// The mathematical shape of an [`Op`]: transactions hold a sequence of
/// child shapes. Contracts speak of operations through this model.
pub enum OpV {
    Read(u64, Option<u64>),
    Write(u64, u64),
    Txn(Seq<OpV>),
}

/// The model of an operation.
pub open spec fn op_view(op: Op) -> OpV
    decreases op,
    via op_view_decreases
{
    match op {
        Op::Read(k, v) => OpV::Read(k, v),
        Op::Write(k, v) => OpV::Write(k, v),
        Op::Txn(ops) => OpV::Txn(ops_view(ops@)),
    }
}

/// The models of a sequence of operations.
pub open spec fn ops_view(s: Seq<Op>) -> Seq<OpV>
    decreases s,
{
    if s.len() == 0 {
        Seq::empty()
    } else {
        ops_view(s.drop_last()).push(op_view(s.last()))
    }
}

#[via_fn]
proof fn op_view_decreases(op: Op) {
    match op {
        Op::Txn(ops) => {
            assert(decreases_to!(op => op->Txn_0));
            assert(decreases_to!(op->Txn_0 => op->Txn_0@));
        },
        _ => {},
    }
}

/// The model of a sequence of operations is the sequence of the models.
pub broadcast proof fn lemma_ops_view(s: Seq<Op>)
    ensures
        #[trigger] ops_view(s).len() == s.len(),
        forall|i: int| 0 <= i < s.len() ==> ops_view(s)[i] == op_view(s[i]),
    decreases s.len(),
{
    if s.len() > 0 {
        lemma_ops_view(s.drop_last());
    }
}

impl View for Op {
    type V = OpV;

    open spec fn view(&self) -> OpV {
        op_view(*self)
    }
}

/// Reads and writes are the leaves of the operation sum.
pub open spec fn op_is_leaf(op: OpV) -> bool {
    op is Read || op is Write
}

/// A well-shaped operation: transactions hold only reads and writes, never a
/// nested transaction.
pub open spec fn op_valid(op: OpV) -> bool {
    match op {
        OpV::Txn(ops) => forall|i: int| 0 <= i < ops.len() ==> op_is_leaf(#[trigger] ops[i]),
        _ => true,
    }
}

/// A well-shaped invocation: every read still carries `None`.
pub open spec fn op_invoke_form(op: OpV) -> bool
    decreases op,
{
    match op {
        OpV::Read(_, v) => v is None,
        OpV::Write(_, _) => true,
        OpV::Txn(ops) => forall|i: int| 0 <= i < ops.len() ==> op_invoke_form(#[trigger] ops[i]),
    }
}

impl Clone for Op {
    /// A clone has the same model as the original.
    fn clone(&self) -> (r: Op)
        ensures
            r@ == self@,
    {
        clone_op(self)
    }
}

/// A structural copy of an operation.
#[verifier::loop_isolation(false)]
fn clone_op(op: &Op) -> (r: Op)
    ensures
        r@ == op@,
    decreases *op,
{
    match op {
        Op::Read(k, v) => Op::Read(*k, *v),
        Op::Write(k, v) => Op::Write(*k, *v),
        Op::Txn(ops) => {
            let mut out: Vec<Op> = Vec::new();
            let mut i: usize = 0;
            while i < ops.len()
                invariant
                    i <= ops@.len(),
                    out@.len() == i,
                    forall|j: int| 0 <= j < i ==> out@[j]@ == ops@[j]@,
                decreases ops@.len() - i,
            {
                proof {
                    let ghost whole = *op;
                    assert(decreases_to!(whole => whole->Txn_0));
                    assert(decreases_to!(whole->Txn_0 => whole->Txn_0@));
                    assert(decreases_to!(whole->Txn_0@ => whole->Txn_0@[i as int]));
                    assert(whole->Txn_0@[i as int] == ops@[i as int]);
                }
                out.push(clone_op(&ops[i]));
                i = i + 1;
            }
            proof {
                lemma_ops_view(out@);
                lemma_ops_view(ops@);
                assert(ops_view(out@) =~= ops_view(ops@));
            }
            Op::Txn(out)
        },
    }
}

/// The function tag of an operation, used by the history record and by the
/// wire form.
#[derive(Debug, Clone, Copy, PartialEq, Eq)]
pub enum OpFunctionType {
    Read,
    Write,
    Txn,
}

/// The tag that belongs to an operation.
pub open spec fn spec_op_tag(op: OpV) -> OpFunctionType {
    match op {
        OpV::Read(_, _) => OpFunctionType::Read,
        OpV::Write(_, _) => OpFunctionType::Write,
        OpV::Txn(_) => OpFunctionType::Txn,
    }
}

impl OpFunctionType {
    /// The tag of the given operation.
    pub fn from_op(op: &Op) -> (r: OpFunctionType)
        ensures
            r == spec_op_tag(op@),
    {
        match op {
            Op::Read(_, _) => OpFunctionType::Read,
            Op::Write(_, _) => OpFunctionType::Write,
            Op::Txn(_) => OpFunctionType::Txn,
        }
    }
}

/// A list of operations.
#[derive(Debug, Clone, PartialEq, Eq)]
pub struct Ops(pub Vec<Op>);

impl Ops {
    /// Reverse the order of the operations.
    pub fn rev(self) -> (r: Ops)
        ensures
            r.0@ == self.0@.reverse(),
    {
        let ghost orig = self.0@;
        let mut v = self.0;
        let mut out: Vec<Op> = Vec::new();
        while v.len() > 0
            invariant
                v@ == orig.subrange(0, v@.len() as int),
                out@.len() + v@.len() == orig.len(),
                forall|j: int| 0 <= j < out@.len() ==> out@[j] == orig[orig.len() - 1 - j],
            decreases v@.len(),
        {
            let x = v.pop().unwrap();
            out.push(x);
            proof {
                assert(v@ == orig.subrange(0, v@.len() as int));
            }
        }
        proof {
            assert(out@ =~= orig.reverse());
        }
        Ops(out)
    }
}

} // verus!
