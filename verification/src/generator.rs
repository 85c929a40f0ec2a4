//! The generator algebra: finite per-worker streams of `(Op, DelayStrategy)`
//! pairs with the operators that transform, split and join them, and the
//! group that multiplexes several generators under a selection strategy.

use crate::context::{GeneratorId, IdSet};
use crate::controller::{DelayStrategy, GeneratorGroupStrategy};
use crate::op::Op;
use crate::random::random_u64_below;
use crate::utils::{spec_add_range, Counter};
use vstd::prelude::*;
use vstd::multiset::Multiset;
use vstd::seq_lib::lemma_flatten_concat;

verus! {

broadcast use vstd::seq_lib::group_to_multiset_ensures, vstd::multiset::group_multiset_axioms;

/// An unbounded producer of base operations. Implementations are pluggable;
/// [`RegisterRawGenerator`] is the reference one.
pub trait RawGenerator {
    type Item;

    /// Produce the next operation.
    fn gen(&mut self) -> Self::Item;
}

/// Take `n` items out of a raw generator.
pub fn gen_n<G: RawGenerator>(g: &mut G, n: usize) -> (r: Vec<G::Item>)
    ensures
        r@.len() == n,
{
    let mut out: Vec<G::Item> = Vec::new();
    let mut i: usize = 0;
    while i < n
        invariant
            i <= n,
            out@.len() == i,
        decreases n - i,
    {
        out.push(g.gen());
        i = i + 1;
    }
    out
}

/// The reference raw source: a register workload of single-statement
/// transactions, each reading or writing one key of a bounded key space.
pub struct RegisterRawGenerator {
    pub key_space: u64,
    pub value_space: u64,
}

impl RawGenerator for RegisterRawGenerator {
    type Item = Op;

    fn gen(&mut self) -> Op {
        let keys = if self.key_space == 0 {
            1
        } else {
            self.key_space
        };
        let values = if self.value_space == 0 {
            1
        } else {
            self.value_space
        };
        let key = random_u64_below(keys);
        if random_u64_below(2) == 0 {
            register_workload_op(Op::Read(key, None))
        } else {
            register_workload_op(Op::Write(key, random_u64_below(values)))
        }
    }
}

/// Wrap one read or write into a single-statement transaction: the shape the
/// register workload submits. The result is a well-shaped, non-empty
/// transaction in invocation form.
fn register_workload_op(leaf: Op) -> (r: Op)
    requires
        crate::op::op_is_leaf(leaf@),
        crate::op::op_invoke_form(leaf@),
    ensures
        crate::op::op_valid(r@),
        crate::op::op_invoke_form(r@),
        r@ matches crate::op::OpV::Txn(children) && children.len() == 1 && children[0] == leaf@,
{
    let mut children: Vec<Op> = Vec::new();
    children.push(leaf);
    let r = Op::Txn(children);
    proof {
        crate::op::lemma_ops_view(children@);
    }
    r
}

/// A finite stream of `(op, delay)` pairs owned by one logical process. The
/// id names the worker the stream belongs to; operators preserve it unless
/// stated otherwise.
pub struct Generator<U> {
    pub id: GeneratorId,
    pub seq: Vec<(U, DelayStrategy)>,
}

/// The builder of a generator: either a pre-paired stream, or a raw stream
/// with one delay policy replicated per element. Without an explicit id the
/// built generator allocates a fresh one.
pub struct GeneratorBuilder<U> {
    pub raw_seq: Option<Vec<U>>,
    pub wrapped_seq: Option<Vec<(U, DelayStrategy)>>,
    pub delay_strategy_one: Option<DelayStrategy>,
    pub id: Option<GeneratorId>,
}

impl<U> GeneratorBuilder<U> {
    /// An empty builder.
    pub fn new() -> (r: GeneratorBuilder<U>)
        ensures
            r.raw_seq is None,
            r.wrapped_seq is None,
            r.delay_strategy_one is None,
            r.id is None,
    {
        GeneratorBuilder { raw_seq: None, wrapped_seq: None, delay_strategy_one: None, id: None }
    }

    /// Reuse an existing id instead of allocating one.
    pub fn id(self, id: GeneratorId) -> (r: GeneratorBuilder<U>)
        ensures
            r.id == Some(id),
            r.raw_seq == self.raw_seq,
            r.wrapped_seq == self.wrapped_seq,
            r.delay_strategy_one == self.delay_strategy_one,
    {
        GeneratorBuilder { id: Some(id), ..self }
    }

    /// Provide the raw operation stream.
    pub fn seq(self, seq: Vec<U>) -> (r: GeneratorBuilder<U>)
        ensures
            r.raw_seq == Some(seq),
            r.wrapped_seq == self.wrapped_seq,
            r.delay_strategy_one == self.delay_strategy_one,
            r.id == self.id,
    {
        GeneratorBuilder { raw_seq: Some(seq), ..self }
    }

    /// Provide a pre-paired stream; it takes precedence over a raw stream.
    pub fn wrapped_seq(self, seq: Vec<(U, DelayStrategy)>) -> (r: GeneratorBuilder<U>)
        ensures
            r.wrapped_seq == Some(seq),
            r.raw_seq == self.raw_seq,
            r.delay_strategy_one == self.delay_strategy_one,
            r.id == self.id,
    {
        GeneratorBuilder { wrapped_seq: Some(seq), ..self }
    }

    /// The delay policy replicated over a raw stream.
    pub fn delay_strategy(self, delay: DelayStrategy) -> (r: GeneratorBuilder<U>)
        ensures
            r.delay_strategy_one == Some(delay),
            r.raw_seq == self.raw_seq,
            r.wrapped_seq == self.wrapped_seq,
            r.id == self.id,
    {
        GeneratorBuilder { delay_strategy_one: Some(delay), ..self }
    }

    /// The delay a built generator pairs with each raw element: the given
    /// one, or no delay.
    pub open spec fn spec_delay(self) -> DelayStrategy {
        match self.delay_strategy_one {
            Some(d) => d,
            None => DelayStrategy::NoDelay,
        }
    }

    /// Build the generator. A pre-paired stream is taken as is; a raw stream
    /// is paired with the chosen delay. The given id is kept, or a fresh one
    /// is allocated.
    pub fn build(self, id_set: &mut IdSet) -> (r: Generator<U>)
        requires
            old(id_set).wf(),
            old(id_set).ids@.len() < u64::MAX,
            self.wrapped_seq is Some || self.raw_seq is Some,
        ensures
            final(id_set).wf(),
            self.id matches Some(gid) ==> r.id == gid && *final(id_set) == *old(id_set),
            self.id is None ==> {
                &&& !old(id_set).spec_contains(r.id.id)
                &&& forall|y: u64| y < r.id.id ==> old(id_set).spec_contains(y)
                &&& forall|x: u64|
                    final(id_set).spec_contains(x) <==> (old(id_set).spec_contains(x) || x
                        == r.id.id)
                &&& final(id_set).ids@.len() == old(id_set).ids@.len() + 1
            },
            self.wrapped_seq matches Some(w) ==> r.seq@ == w@,
            self.wrapped_seq is None ==> {
                &&& r.seq@.len() == self.raw_seq->Some_0@.len()
                &&& forall|i: int|
                    0 <= i < r.seq@.len() ==> #[trigger] r.seq@[i] == (
                    self.raw_seq->Some_0@[i],
                    self.spec_delay(),
                    )
            },
    {
        let id = match self.id {
            Some(gid) => gid,
            None => GeneratorId::new(id_set),
        };
        let seq: Vec<(U, DelayStrategy)> = match self.wrapped_seq {
            Some(w) => w,
            None => {
                let delay = match self.delay_strategy_one {
                    Some(d) => d,
                    None => DelayStrategy::NoDelay,
                };
                let raw = match self.raw_seq {
                    Some(v) => v,
                    None => {
                        proof {
                            assert(false);
                        }
                        Vec::new()
                    },
                };
                pair_with_delay(raw, delay)
            },
        };
        Generator { id, seq }
    }
}

/// Pair every element of a raw stream with one delay policy.
fn pair_with_delay<U>(raw: Vec<U>, delay: DelayStrategy) -> (r: Vec<(U, DelayStrategy)>)
    ensures
        r@.len() == raw@.len(),
        forall|i: int| 0 <= i < r@.len() ==> #[trigger] r@[i] == (raw@[i], delay),
{
    let ghost orig = raw@;
    let mut src = raw;
    let mut rev: Vec<U> = Vec::new();
    while src.len() > 0
        invariant
            src@ == orig.subrange(0, src@.len() as int),
            rev@.len() + src@.len() == orig.len(),
            forall|j: int| 0 <= j < rev@.len() ==> rev@[j] == orig[orig.len() - 1 - j],
        decreases src@.len(),
    {
        let x = src.pop().unwrap();
        rev.push(x);
    }
    let mut out: Vec<(U, DelayStrategy)> = Vec::new();
    while rev.len() > 0
        invariant
            rev@.len() + out@.len() == orig.len(),
            forall|j: int| 0 <= j < rev@.len() ==> rev@[j] == orig[orig.len() - 1 - j],
            forall|j: int| 0 <= j < out@.len() ==> #[trigger] out@[j] == (orig[j], delay),
        decreases rev@.len(),
    {
        let x = rev.pop().unwrap();
        out.push((x, delay));
    }
    out
}

/// Keep `s[i]` exactly where `keep[i]` is true, preserving order.
pub open spec fn filter_by_mask<T>(s: Seq<T>, keep: Seq<bool>) -> Seq<T>
    recommends
        s.len() == keep.len(),
    decreases s.len(),
{
    if s.len() == 0 {
        Seq::empty()
    } else if keep.len() >= s.len() && keep[s.len() - 1] {
        filter_by_mask(s.drop_last(), keep).push(s.last())
    } else {
        filter_by_mask(s.drop_last(), keep)
    }
}

/// Mask entries beyond the stream's length do not matter.
proof fn lemma_filter_mask_extend<T>(s: Seq<T>, keep: Seq<bool>, b: bool)
    requires
        keep.len() >= s.len(),
    ensures
        filter_by_mask(s, keep.push(b)) == filter_by_mask(s, keep),
    decreases s.len(),
{
    if s.len() > 0 {
        lemma_filter_mask_extend(s.drop_last(), keep, b);
        assert(keep.push(b)[s.len() - 1] == keep[s.len() - 1]);
    }
}

impl<U> Generator<U> {
    /// A generator that yields nothing, under a fresh id.
    pub fn empty(id_set: &mut IdSet) -> (r: Generator<U>)
        requires
            old(id_set).wf(),
            old(id_set).ids@.len() < u64::MAX,
        ensures
            final(id_set).wf(),
            r.seq@.len() == 0,
            !old(id_set).spec_contains(r.id.id),
            forall|y: u64| y < r.id.id ==> old(id_set).spec_contains(y),
            forall|x: u64|
                final(id_set).spec_contains(x) <==> (old(id_set).spec_contains(x) || x
                    == r.id.id),
            final(id_set).ids@.len() == old(id_set).ids@.len() + 1,
    {
        Generator { id: GeneratorId::new(id_set), seq: Vec::new() }
    }

    /// Apply `f` to every operation, keeping delays and the id.
    pub fn map<F: Fn(U) -> U>(self, f: F) -> (r: Generator<U>)
        requires
            forall|i: int| 0 <= i < self.seq@.len() ==> call_requires(f, (#[trigger] self.seq@[i].0,)),
        ensures
            r.id == self.id,
            r.seq@.len() == self.seq@.len(),
            forall|i: int|
                0 <= i < self.seq@.len() ==> (#[trigger] r.seq@[i]).1 == self.seq@[i].1
                    && call_ensures(f, (self.seq@[i].0,), r.seq@[i].0),
    {
        let ghost orig = self.seq@;
        let mut src = self.seq;
        let mut rev: Vec<(U, DelayStrategy)> = Vec::new();
        while src.len() > 0
            invariant
                src@ == orig.subrange(0, src@.len() as int),
                rev@.len() + src@.len() == orig.len(),
                forall|j: int| 0 <= j < rev@.len() ==> rev@[j] == orig[orig.len() - 1 - j],
            decreases src@.len(),
        {
            let x = src.pop().unwrap();
            rev.push(x);
        }
        let mut out: Vec<(U, DelayStrategy)> = Vec::new();
        while rev.len() > 0
            invariant
                forall|i: int| 0 <= i < orig.len() ==> call_requires(f, (#[trigger] orig[i].0,)),
                rev@.len() + out@.len() == orig.len(),
                forall|j: int| 0 <= j < rev@.len() ==> rev@[j] == orig[orig.len() - 1 - j],
                forall|j: int|
                    0 <= j < out@.len() ==> (#[trigger] out@[j]).1 == orig[j].1 && call_ensures(
                        f,
                        (orig[j].0,),
                        out@[j].0,
                    ),
            decreases rev@.len(),
        {
            let (u, d) = rev.pop().unwrap();
            let mapped = f(u);
            out.push((mapped, d));
        }
        Generator { id: self.id, seq: out }
    }

    /// Drop every pair whose operation fails the predicate, keeping order,
    /// delays of kept pairs, and the id. The mask whose existence is ensured
    /// records the predicate's verdicts.
    pub fn filter<F: Fn(&U) -> bool>(self, f: F) -> (r: Generator<U>)
        requires
            forall|i: int|
                0 <= i < self.seq@.len() ==> call_requires(f, (&(#[trigger] self.seq@[i]).0,)),
        ensures
            r.id == self.id,
            exists|keep: Seq<bool>|
                {
                    &&& keep.len() == self.seq@.len()
                    &&& (forall|i: int|
                        0 <= i < keep.len() ==> call_ensures(
                            f,
                            (&self.seq@[i].0,),
                            #[trigger] keep[i],
                        ))
                    &&& r.seq@ == filter_by_mask(self.seq@, keep)
                },
    {
        let ghost orig = self.seq@;
        let mut src = self.seq;
        let mut rev: Vec<(U, DelayStrategy)> = Vec::new();
        while src.len() > 0
            invariant
                src@ == orig.subrange(0, src@.len() as int),
                rev@.len() + src@.len() == orig.len(),
                forall|j: int| 0 <= j < rev@.len() ==> rev@[j] == orig[orig.len() - 1 - j],
            decreases src@.len(),
        {
            let x = src.pop().unwrap();
            rev.push(x);
        }
        let mut out: Vec<(U, DelayStrategy)> = Vec::new();
        let ghost mut keep: Seq<bool> = Seq::empty();
        while rev.len() > 0
            invariant
                forall|i: int| 0 <= i < orig.len() ==> call_requires(f, (&(#[trigger] orig[i]).0,)),
                rev@.len() + keep.len() == orig.len(),
                forall|j: int| 0 <= j < rev@.len() ==> rev@[j] == orig[orig.len() - 1 - j],
                forall|i: int|
                    0 <= i < keep.len() ==> call_ensures(f, (&orig[i].0,), #[trigger] keep[i]),
                out@ == filter_by_mask(orig.subrange(0, keep.len() as int), keep),
            decreases rev@.len(),
        {
            let pair = rev.pop().unwrap();
            let verdict = f(&pair.0);
            proof {
                let prefix = orig.subrange(0, keep.len() as int);
                lemma_filter_mask_extend(prefix, keep, verdict);
                keep = keep.push(verdict);
                assert(orig.subrange(0, keep.len() as int).drop_last() =~= prefix);
                assert(filter_by_mask(prefix, keep) == out@);
            }
            if verdict {
                out.push(pair);
            }
        }
        proof {
            assert(orig.subrange(0, keep.len() as int) =~= orig);
        }
        Generator { id: self.id, seq: out }
    }

    /// Keep only the first `n` pairs (all of them if fewer remain).
    pub fn take(self, n: usize) -> (r: Generator<U>)
        ensures
            r.id == self.id,
            r.seq@ == if n <= self.seq@.len() {
                self.seq@.subrange(0, n as int)
            } else {
                self.seq@
            },
    {
        let mut seq = self.seq;
        seq.truncate(n);
        Generator { id: self.id, seq }
    }

    /// Split into a head of at most `n` pairs and the remaining tail. The
    /// head keeps this generator's id; the tail is a new logical process
    /// under a freshly allocated id. Together they carry exactly the
    /// original stream.
    pub fn split_at(self, n: usize, id_set: &mut IdSet) -> (r: (Generator<U>, Generator<U>))
        requires
            old(id_set).wf(),
            old(id_set).ids@.len() < u64::MAX,
        ensures
            final(id_set).wf(),
            r.0.id == self.id,
            r.0.seq@.len() <= n,
            r.0.seq@.len() + r.1.seq@.len() == self.seq@.len(),
            r.0.seq@ + r.1.seq@ == self.seq@,
            r.0.seq@ == self.seq@.subrange(
                0,
                if n <= self.seq@.len() {
                    n as int
                } else {
                    self.seq@.len() as int
                },
            ),
            !old(id_set).spec_contains(r.1.id.id),
            forall|y: u64| y < r.1.id.id ==> old(id_set).spec_contains(y),
            forall|x: u64|
                final(id_set).spec_contains(x) <==> (old(id_set).spec_contains(x) || x
                    == r.1.id.id),
            final(id_set).ids@.len() == old(id_set).ids@.len() + 1,
    {
        let mut head_seq = self.seq;
        let at = if n <= head_seq.len() {
            n
        } else {
            head_seq.len()
        };
        let tail_seq = head_seq.split_off(at);
        let tail_id = GeneratorId::new(id_set);
        proof {
            assert(head_seq@ + tail_seq@ =~= self.seq@);
        }
        (Generator { id: self.id, seq: head_seq }, Generator { id: tail_id, seq: tail_seq })
    }

    /// Concatenate two generators. The result keeps this generator's id and
    /// stream order; the other generator's id is released.
    pub fn chain(self, other: Generator<U>, id_set: &mut IdSet) -> (r: Generator<U>)
        requires
            old(id_set).wf(),
        ensures
            final(id_set).wf(),
            r.id == self.id,
            r.seq@ == self.seq@ + other.seq@,
            forall|x: u64|
                final(id_set).spec_contains(x) <==> (old(id_set).spec_contains(x) && x
                    != other.id.id),
    {
        let mut seq = self.seq;
        let mut rest = other.seq;
        seq.append(&mut rest);
        crate::context::remove_id(id_set, other.id.id);
        Generator { id: self.id, seq }
    }

    /// The next operation, if any: the head of the stream, its delay
    /// discarded. The caller performs pacing through
    /// [`Generator::get_without_delay`] when it needs the delay.
    pub fn next(&mut self) -> (r: Option<U>)
        ensures
            final(self).id == old(self).id,
            old(self).seq@.len() == 0 ==> r is None && final(self).seq@ == old(self).seq@,
            old(self).seq@.len() > 0 ==> r == Some(old(self).seq@[0].0) && final(self).seq@ == old(self).seq@.drop_first(),
    {
        match self.get_without_delay() {
            Some((u, _d)) => Some(u),
            None => None,
        }
    }

    /// The next operation paired with this generator's id.
    pub fn next_with_id(&mut self) -> (r: Option<(U, u64)>)
        ensures
            final(self).id == old(self).id,
            old(self).seq@.len() == 0 ==> r is None && final(self).seq@ == old(self).seq@,
            old(self).seq@.len() > 0 ==> r == Some((old(self).seq@[0].0, old(self).id.id))
                && final(self).seq@ == old(self).seq@.drop_first(),
    {
        let id = self.id.get();
        match self.next() {
            Some(u) => Some((u, id)),
            None => None,
        }
    }

    /// The next `(op, delay)` pair without performing the delay, so that a
    /// scheduler can observe the pacing itself.
    pub fn get_without_delay(&mut self) -> (r: Option<(U, DelayStrategy)>)
        ensures
            final(self).id == old(self).id,
            old(self).seq@.len() == 0 ==> r is None && final(self).seq@ == old(self).seq@,
            old(self).seq@.len() > 0 ==> r == Some(old(self).seq@[0]) && final(self).seq@ == old(self).seq@.drop_first(),
    {
        if self.seq.len() == 0 {
            None
        } else {
            let pair = self.seq.remove(0);
            proof {
                assert(final(self).seq@ =~= old(self).seq@.drop_first());
            }
            Some(pair)
        }
    }

    /// Drain the stream into the bare operations, in order.
    pub fn collect(self) -> (r: Vec<U>)
        ensures
            r@.len() == self.seq@.len(),
            forall|i: int| 0 <= i < r@.len() ==> r@[i] == self.seq@[i].0,
    {
        let ghost orig = self.seq@;
        let mut src = self.seq;
        let mut rev: Vec<(U, DelayStrategy)> = Vec::new();
        while src.len() > 0
            invariant
                src@ == orig.subrange(0, src@.len() as int),
                rev@.len() + src@.len() == orig.len(),
                forall|j: int| 0 <= j < rev@.len() ==> rev@[j] == orig[orig.len() - 1 - j],
            decreases src@.len(),
        {
            let x = src.pop().unwrap();
            rev.push(x);
        }
        let mut out: Vec<U> = Vec::new();
        while rev.len() > 0
            invariant
                rev@.len() + out@.len() == orig.len(),
                forall|j: int| 0 <= j < rev@.len() ==> rev@[j] == orig[orig.len() - 1 - j],
                forall|j: int| 0 <= j < out@.len() ==> out@[j] == orig[j].0,
            decreases rev@.len(),
        {
            let (u, _d) = rev.pop().unwrap();
            out.push(u);
        }
        out
    }

    /// Drain the stream into `(op, delay)` pairs, in order.
    pub fn collect_all(self) -> (r: Vec<(U, DelayStrategy)>)
        ensures
            r@ == self.seq@,
    {
        self.seq
    }
}

/// One child of a group: a generator with its remaining per-turn quota.
pub type GeneratorGroupContent<U> = (Generator<U>, Counter);

/// Removing an empty stream does not change the flattened whole.
proof fn lemma_flatten_remove_empty<T>(ss: Seq<Seq<T>>, k: int)
    requires
        0 <= k < ss.len(),
        ss[k].len() == 0,
    ensures
        ss.remove(k).flatten() == ss.flatten(),
    decreases k,
{
    if k == 0 {
        assert(ss.remove(0) =~= ss.drop_first());
        assert(ss.flatten() == ss.first() + ss.drop_first().flatten());
        assert(ss.first() + ss.drop_first().flatten() =~= ss.drop_first().flatten());
    } else {
        lemma_flatten_remove_empty(ss.drop_first(), k - 1);
        assert(ss.remove(k).drop_first() =~= ss.drop_first().remove(k - 1));
        assert(ss.remove(k).flatten() == ss.remove(k).first() + ss.remove(k).drop_first().flatten());
        assert(ss.flatten() == ss.first() + ss.drop_first().flatten());
        assert(ss.remove(k).first() == ss.first());
    }
}

/// Yielding the head of stream `k` takes exactly that element out of the
/// flattened whole; for the first stream it takes the head of the whole.
proof fn lemma_flatten_yield<T>(ss: Seq<Seq<T>>, k: int)
    requires
        0 <= k < ss.len(),
        ss[k].len() > 0,
    ensures
        ss.flatten().to_multiset() =~= ss.update(k, ss[k].drop_first()).flatten().to_multiset().insert(ss[k][0]),
        ss.flatten().len() == ss.update(k, ss[k].drop_first()).flatten().len() + 1,
        k == 0 ==> ss.flatten().len() > 0 && ss.flatten()[0] == ss[0][0] && ss.update(
            0,
            ss[0].drop_first(),
        ).flatten() == ss.flatten().drop_first(),
{
    broadcast use vstd::seq_lib::group_to_multiset_ensures;

    let ss2 = ss.update(k, ss[k].drop_first());
    let front = ss.subrange(0, k);
    let back = ss.subrange(k + 1, ss.len() as int);
    let x = ss[k][0];
    assert(ss =~= front + seq![ss[k]] + back);
    assert(ss2 =~= front + seq![ss[k].drop_first()] + back);
    lemma_flatten_concat(front + seq![ss[k]], back);
    lemma_flatten_concat(front, seq![ss[k]]);
    lemma_flatten_concat(front + seq![ss[k].drop_first()], back);
    lemma_flatten_concat(front, seq![ss[k].drop_first()]);
    seq![ss[k]].lemma_flatten_one_element();
    seq![ss[k].drop_first()].lemma_flatten_one_element();
    let p = front.flatten();
    let q = back.flatten();
    assert(ss.flatten() == p + ss[k] + q);
    assert(ss2.flatten() == p + ss[k].drop_first() + q);
    assert(ss[k] =~= seq![x] + ss[k].drop_first());
    vstd::seq_lib::lemma_multiset_commutative(p, ss[k]);
    vstd::seq_lib::lemma_multiset_commutative(p + ss[k], q);
    vstd::seq_lib::lemma_multiset_commutative(p, ss[k].drop_first());
    vstd::seq_lib::lemma_multiset_commutative(p + ss[k].drop_first(), q);
    vstd::seq_lib::lemma_multiset_commutative(seq![x], ss[k].drop_first());
    assert(seq![x].to_multiset() =~= Multiset::empty().insert(x)) by {
        assert(seq![x] =~= Seq::empty().push(x));
    }
    assert(ss.flatten().to_multiset() =~= ss2.flatten().to_multiset().insert(x)) by {
        broadcast use vstd::multiset::group_multiset_axioms;

        assert(ss[k].to_multiset() =~= ss[k].drop_first().to_multiset().insert(x));
    }
    if k == 0 {
        assert(front =~= Seq::<Seq<T>>::empty());
        assert(p =~= Seq::<T>::empty());
        assert(ss.flatten() =~= ss[k] + q);
        assert(ss2.flatten() =~= ss[k].drop_first() + q);
        assert((ss[k] + q)[0] == x);
        assert(ss2.flatten() =~= ss.flatten().drop_first());
    }
}

/// How many children's quotas are currently spent. The selection loop
/// resets one spent quota per turn, so this bounds its work between yields.
pub open spec fn count_over<U>(gens: Seq<(Generator<U>, Counter)>) -> nat
    decreases gens.len(),
{
    if gens.len() == 0 {
        0
    } else {
        count_over(gens.drop_last()) + if gens.last().1.cur == 0 {
            1nat
        } else {
            0nat
        }
    }
}

/// Replacing one child changes the spent-quota count by exactly that
/// child's contribution.
proof fn lemma_count_over_update<U>(
    s: Seq<(Generator<U>, Counter)>,
    k: int,
    x: (Generator<U>, Counter),
)
    requires
        0 <= k < s.len(),
    ensures
        count_over(s.update(k, x)) == count_over(s) - (if s[k].1.cur == 0 {
            1int
        } else {
            0int
        }) + (if x.1.cur == 0 {
            1int
        } else {
            0int
        }),
    decreases s.len(),
{
    if k == s.len() - 1 {
        assert(s.update(k, x).drop_last() =~= s.drop_last());
    } else {
        lemma_count_over_update(s.drop_last(), k, x);
        assert(s.update(k, x).drop_last() =~= s.drop_last().update(k, x));
        assert(s.update(k, x).last() == s.last());
    }
}

/// The index a deterministic strategy picks over `len` children, with the
/// strategy state afterwards: round robin steps one past its remembered
/// position and records the choice; chain takes the start. (The random
/// strategy is not a function of the state and has no place here.)
pub open spec fn spec_pick_index(strategy: GeneratorGroupStrategy, len: usize) -> (
    GeneratorGroupStrategy,
    int,
) {
    match strategy {
        GeneratorGroupStrategy::RoundRobin(last) => {
            let r = spec_add_range(last, 1, 0, len);
            (GeneratorGroupStrategy::RoundRobin(r as usize), r)
        },
        GeneratorGroupStrategy::Chain => (GeneratorGroupStrategy::Chain, 0int),
        GeneratorGroupStrategy::Random => (GeneratorGroupStrategy::Random, 0int),
    }
}

/// What the selection loop does before it yields, under a deterministic
/// strategy: refill the selected child's spent quota and advance, drop the
/// selected child when it is exhausted, until the selected child can yield.
/// The result is the settled children, strategy and cursor — the yield then
/// takes that child's stream head and one count — or nothing when the group
/// runs empty. (The guards on malformed states only keep the recursion well
/// founded; a well-formed group never reaches them.)
pub open spec fn spec_settle<U>(
    gens: Seq<(Generator<U>, Counter)>,
    strategy: GeneratorGroupStrategy,
    selected: int,
) -> Option<(Seq<(Generator<U>, Counter)>, GeneratorGroupStrategy, int)>
    decreases gens.len(), count_over(gens),
    via spec_settle_decreases::<U>
{
    if gens.len() == 0 {
        None
    } else if !(0 <= selected < gens.len()) {
        None
    } else if gens[selected].1.cur == 0 {
        if gens[selected].1.total == 0 {
            None
        } else {
            let refilled = Counter { cur: gens[selected].1.total, total: gens[selected].1.total };
            let gens2 = gens.update(selected, (gens[selected].0, refilled));
            let picked = spec_pick_index(strategy, gens2.len() as usize);
            spec_settle(gens2, picked.0, picked.1)
        }
    } else if gens[selected].0.seq@.len() > 0 {
        Some((gens, strategy, selected))
    } else {
        let gens2 = gens.remove(selected);
        if gens2.len() == 0 {
            None
        } else if selected == gens.len() - 1 {
            let picked = spec_pick_index(strategy, gens2.len() as usize);
            spec_settle(gens2, picked.0, picked.1)
        } else {
            spec_settle(gens2, strategy, selected)
        }
    }
}

#[via_fn]
proof fn spec_settle_decreases<U>(
    gens: Seq<(Generator<U>, Counter)>,
    strategy: GeneratorGroupStrategy,
    selected: int,
) {
    if gens.len() > 0 && 0 <= selected < gens.len() && gens[selected].1.cur == 0 && gens[
        selected
    ].1.total != 0 {
        let refilled = Counter { cur: gens[selected].1.total, total: gens[selected].1.total };
        lemma_count_over_update(gens, selected, (gens[selected].0, refilled));
    }
}

/// A group of generators scheduled by a strategy. Each child carries a
/// quota counter used by round robin; a child that runs out of elements is
/// removed when that is observed.
pub struct GeneratorGroup<U> {
    pub gens: Vec<GeneratorGroupContent<U>>,
    pub strategy: GeneratorGroupStrategy,
    pub selected: usize,
}

/// The streams of a child list, in order.
pub open spec fn map_seqs<U>(gens: Seq<GeneratorGroupContent<U>>) -> Seq<Seq<(U, DelayStrategy)>> {
    gens.map_values(|p: GeneratorGroupContent<U>| p.0.seq@)
}

impl<U> GeneratorGroup<U> {
    /// The children's streams, in order.
    pub open spec fn seqs(self) -> Seq<Seq<(U, DelayStrategy)>> {
        map_seqs(self.gens@)
    }

    /// Everything the group still has to yield, in child order.
    pub open spec fn pending(self) -> Seq<(U, DelayStrategy)> {
        self.seqs().flatten()
    }

    /// The group invariant: the cursor is in range, every quota is at least
    /// one, and the chain strategy always stands on the first child.
    pub open spec fn wf(self) -> bool {
        &&& (self.gens@.len() > 0 ==> self.selected < self.gens@.len())
        &&& (self.gens@.len() == 0 ==> self.selected == 0)
        &&& (forall|i: int| 0 <= i < self.gens@.len() ==> (#[trigger] self.gens@[i]).1.total >= 1)
        &&& (self.strategy is Chain ==> self.selected == 0)
    }

    /// Group the given generators, one emission per turn each.
    pub fn new(gens: Vec<Generator<U>>) -> (r: GeneratorGroup<U>)
        ensures
            r.wf(),
            r.strategy == GeneratorGroupStrategy::RoundRobin(0usize),
            r.selected == 0,
            r.gens@.len() == gens@.len(),
            forall|i: int| 0 <= i < gens@.len() ==> (#[trigger] r.gens@[i]).0 == gens@[i],
            r.seqs() =~= gens@.map_values(|g: Generator<U>| g.seq@),
    {
        let ghost orig = gens@;
        let mut src = gens;
        let mut rev: Vec<Generator<U>> = Vec::new();
        while src.len() > 0
            invariant
                src@ == orig.subrange(0, src@.len() as int),
                rev@.len() + src@.len() == orig.len(),
                forall|j: int| 0 <= j < rev@.len() ==> rev@[j] == orig[orig.len() - 1 - j],
            decreases src@.len(),
        {
            let x = src.pop().unwrap();
            rev.push(x);
        }
        let mut out: Vec<GeneratorGroupContent<U>> = Vec::new();
        while rev.len() > 0
            invariant
                rev@.len() + out@.len() == orig.len(),
                forall|j: int| 0 <= j < rev@.len() ==> rev@[j] == orig[orig.len() - 1 - j],
                forall|j: int|
                    0 <= j < out@.len() ==> (#[trigger] out@[j]).0 == orig[j] && out@[j].1.cur == 1
                        && out@[j].1.total == 1,
            decreases rev@.len(),
        {
            let g = rev.pop().unwrap();
            out.push((g, Counter::new(1)));
        }
        let r = GeneratorGroup {
            gens: out,
            strategy: GeneratorGroupStrategy::RoundRobin(0),
            selected: 0,
        };
        proof {
            assert(r.seqs() =~= orig.map_values(|g: Generator<U>| g.seq@));
        }
        r
    }

    /// Group the given generators, each with its own quota per turn.
    pub fn new_with_count(gens: Vec<(Generator<U>, usize)>) -> (r: GeneratorGroup<U>)
        requires
            forall|i: int| 0 <= i < gens@.len() ==> (#[trigger] gens@[i]).1 >= 1,
        ensures
            r.wf(),
            r.strategy == GeneratorGroupStrategy::RoundRobin(0usize),
            r.selected == 0,
            r.gens@.len() == gens@.len(),
            forall|i: int|
                0 <= i < gens@.len() ==> (#[trigger] r.gens@[i]).0 == gens@[i].0
                    && r.gens@[i].1.total == gens@[i].1 && r.gens@[i].1.cur == gens@[i].1,
            r.seqs() =~= gens@.map_values(|g: (Generator<U>, usize)| g.0.seq@),
    {
        let ghost orig = gens@;
        let mut src = gens;
        let mut rev: Vec<(Generator<U>, usize)> = Vec::new();
        while src.len() > 0
            invariant
                src@ == orig.subrange(0, src@.len() as int),
                rev@.len() + src@.len() == orig.len(),
                forall|j: int| 0 <= j < rev@.len() ==> rev@[j] == orig[orig.len() - 1 - j],
            decreases src@.len(),
        {
            let x = src.pop().unwrap();
            rev.push(x);
        }
        let mut out: Vec<GeneratorGroupContent<U>> = Vec::new();
        while rev.len() > 0
            invariant
                forall|i: int| 0 <= i < orig.len() ==> (#[trigger] orig[i]).1 >= 1,
                rev@.len() + out@.len() == orig.len(),
                forall|j: int| 0 <= j < rev@.len() ==> rev@[j] == orig[orig.len() - 1 - j],
                forall|j: int|
                    0 <= j < out@.len() ==> (#[trigger] out@[j]).0 == orig[j].0 && out@[j].1.cur
                        == orig[j].1 && out@[j].1.total == orig[j].1,
            decreases rev@.len(),
        {
            let (g, c) = rev.pop().unwrap();
            out.push((g, Counter::new(c)));
        }
        let r = GeneratorGroup {
            gens: out,
            strategy: GeneratorGroupStrategy::RoundRobin(0),
            selected: 0,
        };
        proof {
            assert(r.seqs() =~= orig.map_values(|g: (Generator<U>, usize)| g.0.seq@));
        }
        r
    }

    /// Replace the selection strategy.
    pub fn with_strategy(self, strategy: GeneratorGroupStrategy) -> (r: GeneratorGroup<U>)
        requires
            strategy is Chain ==> self.selected == 0,
        ensures
            r.gens == self.gens,
            r.selected == self.selected,
            r.strategy == strategy,
            self.wf() ==> r.wf(),
    {
        GeneratorGroup { strategy, ..self }
    }

    /// Add a child with a quota of one.
    pub fn push_generator(&mut self, gen: Generator<U>)
        requires
            old(self).wf(),
        ensures
            final(self).wf(),
            final(self).gens@ == old(self).gens@.push((gen, Counter { cur: 1, total: 1 })),
            final(self).strategy == old(self).strategy,
            final(self).selected == old(self).selected,
    {
        self.gens.push((gen, Counter::new(1)));
    }

    /// Add a child with the given quota.
    pub fn push_generator_with_ratio(&mut self, gen: Generator<U>, total: usize)
        requires
            old(self).wf(),
            total >= 1,
        ensures
            final(self).wf(),
            final(self).gens@ == old(self).gens@.push((gen, Counter { cur: total, total })),
            final(self).strategy == old(self).strategy,
            final(self).selected == old(self).selected,
    {
        self.gens.push((gen, Counter::new(total)));
    }

    /// Take the child at `index` out of the group. The cursor is left as it
    /// is: callers re-select afterwards when they need to.
    pub fn remove_generator(&mut self, index: usize) -> (r: GeneratorGroupContent<U>)
        requires
            index < old(self).gens@.len(),
        ensures
            r == old(self).gens@[index as int],
            final(self).gens@ == old(self).gens@.remove(index as int),
            final(self).strategy == old(self).strategy,
            final(self).selected == old(self).selected,
    {
        self.gens.remove(index)
    }

    /// Point the cursor at the child the strategy picks.
    fn select_current(&mut self)
        requires
            old(self).gens@.len() > 0,
            forall|i: int|
                0 <= i < old(self).gens@.len() ==> (#[trigger] old(self).gens@[i]).1.total >= 1,
        ensures
            final(self).gens == old(self).gens,
            final(self).selected < final(self).gens@.len(),
            final(self).wf(),
            old(self).strategy is Chain ==> final(self).strategy == old(self).strategy && final(self).selected == 0,
            old(self).strategy is Random ==> final(self).strategy == old(self).strategy,
            (*old(self)).strategy matches GeneratorGroupStrategy::RoundRobin(last) ==> final(self).selected == crate::utils::spec_add_range(
                last,
                1,
                0,
                old(self).gens@.len() as usize,
            ) && final(self).strategy == GeneratorGroupStrategy::RoundRobin(final(self).selected),
            final(self).strategy is Chain <==> old(self).strategy is Chain,
            final(self).strategy is Random <==> old(self).strategy is Random,
    {
        let n = self.gens.len();
        let next_g = self.strategy.pick(0..n);
        self.selected = next_g;
    }

    /// Remove the child under the cursor and, when the cursor would fall off
    /// the end or the strategy is random, pick a new child.
    pub fn remove_current_and_reselect(&mut self) -> (r: GeneratorGroupContent<U>)
        requires
            old(self).wf(),
            old(self).gens@.len() > 0,
        ensures
            final(self).wf(),
            r == old(self).gens@[old(self).selected as int],
            final(self).gens@ == old(self).gens@.remove(old(self).selected as int),
            old(self).strategy is Chain ==> final(self).strategy == old(self).strategy && final(self).selected == 0,
            final(self).strategy is Chain <==> old(self).strategy is Chain,
            final(self).strategy is Random <==> old(self).strategy is Random,
            final(self).gens@.len() == 0 ==> final(self).selected == 0 && final(self).strategy
                == old(self).strategy,
            (*old(self)).strategy matches GeneratorGroupStrategy::RoundRobin(last) ==> (final(self).gens@.len() > 0 ==> if old(self).selected == old(self).gens@.len() - 1 {
                &&& final(self).selected == crate::utils::spec_add_range(
                    last,
                    1,
                    0,
                    final(self).gens@.len() as usize,
                )
                &&& final(self).strategy == GeneratorGroupStrategy::RoundRobin(
                    final(self).selected,
                )
            } else {
                &&& final(self).selected == old(self).selected
                &&& final(self).strategy == old(self).strategy
            }),
    {
        let is_last = self.selected == self.gens.len() - 1;
        let sel = self.selected;
        let ret = self.gens.remove(sel);
        if self.gens.len() == 0 {
            self.selected = 0;
            return ret;
        }
        let is_random = matches!(self.strategy, GeneratorGroupStrategy::Random);
        if is_last || is_random {
            if is_last {
                self.selected = 0;
            }
            self.select_current();
        }
        ret
    }

    /// A shared look at the child under the cursor.
    pub fn current(&self) -> (r: &GeneratorGroupContent<U>)
        requires
            self.wf(),
            self.gens@.len() > 0,
        ensures
            *r == self.gens@[self.selected as int],
    {
        &self.gens[self.selected]
    }

    /// The selected child can yield right away: its quota is not spent and
    /// its stream is non-empty. In this state the next yield is fully
    /// determined, whatever the strategy.
    pub open spec fn can_yield_directly(self) -> bool {
        &&& self.gens@.len() > 0
        &&& self.gens@[self.selected as int].1.cur > 0
        &&& self.gens@[self.selected as int].0.seq@.len() > 0
    }

    /// The state after a direct yield: the selected child lost its stream
    /// head and one count, and everything else — the cursor, the strategy,
    /// the other children — stands as it was.
    pub open spec fn direct_yield_step(pre: GeneratorGroup<U>, post: GeneratorGroup<U>) -> bool {
        let sel = pre.selected as int;
        &&& post.gens@.len() == pre.gens@.len()
        &&& post.gens@[sel].0.id == pre.gens@[sel].0.id
        &&& post.gens@[sel].0.seq@ == pre.gens@[sel].0.seq@.drop_first()
        &&& post.gens@[sel].1.cur == pre.gens@[sel].1.cur - 1
        &&& post.gens@[sel].1.total == pre.gens@[sel].1.total
        &&& (forall|j: int|
            0 <= j < pre.gens@.len() && j != sel ==> post.gens@[j] == pre.gens@[j])
        &&& post.selected == pre.selected
        &&& post.strategy == pre.strategy
    }

    /// The next `(op, delay)` pair together with the id of the child that
    /// yielded it, without performing the delay. A child seen to be
    /// exhausted is dropped; when none is left the group is done. Nothing is
    /// ever lost, and what comes out is always the head of the stream of the
    /// child bearing the returned id, as the children stood when the call
    /// began; under the chain strategy it is exactly the head of the pending
    /// stream. When the selected child can yield directly, the result is
    /// exactly that child's stream head: one count is spent, the head is
    /// popped, and cursor, strategy and the other children stay as they
    /// are.
    #[verifier::rlimit(50)]
    pub fn get_without_delay_with_id(&mut self) -> (r: Option<((U, DelayStrategy), u64)>)
        requires
            old(self).wf(),
        ensures
            final(self).wf(),
            final(self).strategy is Chain <==> old(self).strategy is Chain,
            old(self).can_yield_directly() ==> r == Some(
                (
                    old(self).gens@[old(self).selected as int].0.seq@[0],
                    old(self).gens@[old(self).selected as int].0.id.id,
                ),
            ) && GeneratorGroup::direct_yield_step(*old(self), *final(self)),
            r is None ==> final(self).gens@.len() == 0 && old(self).pending() == Seq::<(
                U,
                DelayStrategy,
            )>::empty() && final(self).pending() == old(self).pending(),
            r matches Some(x) ==> old(self).pending().to_multiset() == final(self).pending().to_multiset().insert(x.0) && old(self).pending().len() == final(self).pending().len() + 1 && (exists|k: int|
                #![trigger old(self).gens@[k]]
                0 <= k < old(self).gens@.len() && old(self).gens@[k].0.id.id == x.1 && old(self).gens@[k].0.seq@.len() > 0 && x.0 == old(self).gens@[k].0.seq@[0]),
            old(self).strategy is Chain ==> (r is None ==> old(self).pending().len() == 0) && (
            r matches Some(x) ==> old(self).pending().len() > 0 && x.0 == old(self).pending()[0]
                && final(self).pending() == old(self).pending().drop_first()),
            !(old(self).strategy is Random) ==> (match spec_settle(
                old(self).gens@,
                old(self).strategy,
                old(self).selected as int,
            ) {
                None => r is None,
                Some(st) => {
                    &&& r == Some(((st.0[st.2].0.seq@[0]), st.0[st.2].0.id.id))
                    &&& final(self).strategy == st.1
                    &&& final(self).selected as int == st.2
                    &&& final(self).gens@.len() == st.0.len()
                    &&& final(self).gens@[st.2].0.id == st.0[st.2].0.id
                    &&& final(self).gens@[st.2].0.seq@ == st.0[st.2].0.seq@.drop_first()
                    &&& final(self).gens@[st.2].1.cur == st.0[st.2].1.cur - 1
                    &&& final(self).gens@[st.2].1.total == st.0[st.2].1.total
                    &&& (forall|j: int|
                        0 <= j < st.0.len() && j != st.2 ==> final(self).gens@[j] == st.0[j])
                },
            }),
    {
        let ghost mut origin: Seq<int> = Seq::new(self.gens@.len() as nat, |i: int| i);
        loop
            invariant
                self.wf(),
                self.pending() == old(self).pending(),
                self.strategy is Chain <==> old(self).strategy is Chain,
                old(self).strategy is Chain ==> self.strategy == old(self).strategy,
                old(self).can_yield_directly() ==> *self == *old(self),
                self.strategy is Random <==> old(self).strategy is Random,
                !(old(self).strategy is Random) ==> spec_settle(
                    self.gens@,
                    self.strategy,
                    self.selected as int,
                ) == spec_settle(
                    old(self).gens@,
                    old(self).strategy,
                    old(self).selected as int,
                ),
                origin.len() == self.gens@.len(),
                forall|k: int|
                    #![trigger origin[k]]
                    0 <= k < self.gens@.len() ==> 0 <= origin[k] < old(self).gens@.len()
                        && self.gens@[k].0 == old(self).gens@[origin[k]].0,
            decreases self.gens@.len(), count_over(self.gens@),
        {
            let ghost gens_head = self.gens@;
            let ghost strat_head = self.strategy;
            if self.gens.len() == 0 {
                proof {
                    assert(self.seqs() =~= Seq::<Seq<(U, DelayStrategy)>>::empty());
                    if !(old(self).strategy is Random) {
                        assert(spec_settle(self.gens@, self.strategy, self.selected as int)
                            is None);
                    }
                }
                return None;
            }
            let sel = self.selected;
            if self.gens[sel].1.over() {
                let ghost before_gens = self.gens@;
                self.gens[sel].1.reset();
                proof {
                    lemma_count_over_update(before_gens, sel as int, self.gens@[sel as int]);
                    assert(self.seqs() =~= map_seqs(before_gens));
                    assert forall|k: int| 0 <= k < self.gens@.len() implies 0 <= #[trigger] origin[k]
                        < old(self).gens@.len() && self.gens@[k].0 == old(self).gens@[origin[k]].0 by {
                        assert(self.gens@[k].0 == before_gens[k].0);
                    }
                }
                self.select_current();
                proof {
                    if !(old(self).strategy is Random) {
                        let refilled = Counter {
                            cur: before_gens[sel as int].1.total,
                            total: before_gens[sel as int].1.total,
                        };
                        let gens2 = before_gens.update(
                            sel as int,
                            (before_gens[sel as int].0, refilled),
                        );
                        assert(before_gens[sel as int].1.total >= 1);
                        assert(self.gens@ =~= gens2);
                        let picked = spec_pick_index(strat_head, gens2.len() as usize);
                        assert(self.strategy == picked.0 && self.selected as int == picked.1);
                        assert(spec_settle(gens_head, strat_head, sel as int) == spec_settle(
                            gens2,
                            picked.0,
                            picked.1,
                        ));
                    }
                }
                continue ;
            }
            let ghost gens_at_count = self.gens@;
            let _spent = self.gens[sel].1.count();
            proof {
                lemma_count_over_update(gens_at_count, sel as int, self.gens@[sel as int]);
                assert(self.seqs() =~= map_seqs(gens_at_count));
                assert forall|k: int| 0 <= k < self.gens@.len() implies 0 <= #[trigger] origin[k]
                    < old(self).gens@.len() && self.gens@[k].0 == old(self).gens@[origin[k]].0 by {
                    assert(self.gens@[k].0 == gens_at_count[k].0);
                }
            }
            if self.gens[sel].0.seq.len() > 0 {
                let ghost before = self.seqs();
                let ghost bearer = self.gens@[sel as int].0;
                let id = self.gens[sel].0.id.get();
                let pair = self.gens[sel].0.seq.remove(0);
                proof {
                    assert(self.gens@[sel as int].0.seq@ =~= before[sel as int].drop_first());
                    assert(self.seqs() =~= before.update(
                        sel as int,
                        before[sel as int].drop_first(),
                    ));
                    lemma_flatten_yield(before, sel as int);
                    let j = origin[sel as int];
                    assert(bearer == old(self).gens@[j].0);
                    assert(old(self).gens@[j].0.id.id == id);
                    assert(old(self).gens@[j].0.seq@[0] == pair);
                    if !(old(self).strategy is Random) {
                        assert(gens_head[sel as int].1.cur > 0);
                        assert(gens_head[sel as int].0.seq@.len() > 0);
                        assert(spec_settle(gens_head, strat_head, sel as int) == Some(
                            (gens_head, strat_head, sel as int),
                        ));
                        assert(self.strategy == strat_head);
                        assert(self.selected == sel);
                        assert(self.gens@.len() == gens_head.len());
                        assert(self.gens@[sel as int].0.id == gens_head[sel as int].0.id);
                        assert(self.gens@[sel as int].0.seq@ == gens_head[sel as int].0.seq@.drop_first());
                        assert(self.gens@[sel as int].1.cur == gens_head[sel as int].1.cur - 1);
                        assert(self.gens@[sel as int].1.total == gens_head[sel as int].1.total);
                        assert(forall|jj: int|
                            0 <= jj < gens_head.len() && jj != sel ==> self.gens@[jj]
                                == gens_head[jj]);
                        assert(pair == gens_head[sel as int].0.seq@[0]);
                        assert(id == gens_head[sel as int].0.id.id);
                    }
                }
                return Some((pair, id));
            } else {
                let ghost before = self.seqs();
                let ghost gens_before_removal = self.gens@;
                let ghost removed_at = self.selected as int;
                let _removed = self.remove_current_and_reselect();
                proof {
                    assert(self.seqs() =~= before.remove(sel as int));
                    lemma_flatten_remove_empty(before, sel as int);
                    let ghost origin_before = origin;
                    origin = origin.remove(removed_at);
                    assert forall|k: int| 0 <= k < self.gens@.len() implies 0 <= #[trigger] origin[k]
                        < old(self).gens@.len() && self.gens@[k].0 == old(self).gens@[origin[k]].0 by {
                        if k < removed_at {
                            assert(self.gens@[k] == gens_before_removal[k]);
                            assert(origin[k] == origin_before[k]);
                        } else {
                            assert(self.gens@[k] == gens_before_removal[k + 1]);
                            assert(origin[k] == origin_before[k + 1]);
                        }
                    }
                    if !(old(self).strategy is Random) {
                        assert(gens_head[sel as int].1.cur > 0);
                        assert(gens_head[sel as int].0.seq@.len() == 0);
                        let gens2 = gens_head.remove(sel as int);
                        assert(self.gens@ =~= gens2) by {
                            assert forall|k: int| 0 <= k < gens2.len() implies self.gens@[k]
                                == gens2[k] by {
                                if k < sel as int {
                                    assert(self.gens@[k] == gens_before_removal[k]);
                                    assert(gens_before_removal[k] == gens_head[k]);
                                } else {
                                    assert(self.gens@[k] == gens_before_removal[k + 1]);
                                    assert(gens_before_removal[k + 1] == gens_head[k + 1]);
                                }
                            }
                        }
                        if gens2.len() == 0 {
                            assert(spec_settle(gens_head, strat_head, sel as int) is None);
                            assert(spec_settle(self.gens@, self.strategy, self.selected as int)
                                is None);
                        } else if sel as int == gens_head.len() - 1 {
                            let picked = spec_pick_index(strat_head, gens2.len() as usize);
                            assert(self.strategy == picked.0 && self.selected as int == picked.1);
                            assert(spec_settle(gens_head, strat_head, sel as int) == spec_settle(
                                gens2,
                                picked.0,
                                picked.1,
                            ));
                        } else {
                            assert(self.strategy == strat_head);
                            assert(self.selected as int == sel as int);
                            assert(spec_settle(gens_head, strat_head, sel as int) == spec_settle(
                                gens2,
                                strat_head,
                                sel as int,
                            ));
                        }
                    }
                }
            }
        }
    }

    /// The next `(op, delay)` pair under the group's strategy, without
    /// performing the delay. A child seen to be exhausted is dropped; when
    /// none is left the group is done. Nothing is ever lost: what comes out
    /// is taken from the pending elements, and under the chain strategy it
    /// is exactly their head.
    pub fn get_without_delay(&mut self) -> (r: Option<(U, DelayStrategy)>)
        requires
            old(self).wf(),
        ensures
            final(self).wf(),
            final(self).strategy is Chain <==> old(self).strategy is Chain,
            r is None ==> final(self).gens@.len() == 0 && old(self).pending() == Seq::<(
                U,
                DelayStrategy,
            )>::empty() && final(self).pending() == old(self).pending(),
            r matches Some(x) ==> old(self).pending().to_multiset() == final(self).pending().to_multiset().insert(x) && old(self).pending().len() == final(self).pending().len() + 1,
            old(self).strategy is Chain ==> (r is None ==> old(self).pending().len() == 0) && (
            r matches Some(x) ==> old(self).pending().len() > 0 && x == old(self).pending()[0]
                && final(self).pending() == old(self).pending().drop_first()),
            old(self).can_yield_directly() ==> r == Some(
                old(self).gens@[old(self).selected as int].0.seq@[0],
            ) && GeneratorGroup::direct_yield_step(*old(self), *final(self)),
    {
        match self.get_without_delay_with_id() {
            Some((pair, _id)) => Some(pair),
            None => None,
        }
    }

    /// The next operation, its delay discarded.
    pub fn next(&mut self) -> (r: Option<U>)
        requires
            old(self).wf(),
        ensures
            final(self).wf(),
            r is None ==> old(self).pending().len() == 0,
            r matches Some(x) ==> old(self).pending().len() == final(self).pending().len() + 1
                && exists|p: (U, DelayStrategy)| #[trigger]
                old(self).pending().to_multiset().contains(p) && p.0 == x,
            old(self).strategy is Chain ==> (r is Some <==> old(self).pending().len() > 0) && (
            r matches Some(x) ==> x == old(self).pending()[0].0 && final(self).pending() == old(self).pending().drop_first()),
    {
        let ghost pend = self.pending();
        match self.get_without_delay() {
            Some((u, d)) => {
                proof {
                    assert(pend.to_multiset().contains((u, d))) by {
                        assert(pend.to_multiset() == self.pending().to_multiset().insert((u, d)));
                    }
                }
                Some(u)
            },
            None => None,
        }
    }

    /// The next operation paired with the id of the child that yielded it:
    /// the returned id always names the child whose stream head the
    /// operation was.
    pub fn next_with_id(&mut self) -> (r: Option<(U, u64)>)
        requires
            old(self).wf(),
        ensures
            final(self).wf(),
            r is None ==> old(self).pending().len() == 0 && final(self).pending() == old(self).pending(),
            r matches Some(x) ==> old(self).pending().len() == final(self).pending().len() + 1
                && (exists|k: int|
                #![trigger old(self).gens@[k]]
                0 <= k < old(self).gens@.len() && old(self).gens@[k].0.id.id == x.1 && old(self).gens@[k].0.seq@.len() > 0 && old(self).gens@[k].0.seq@[0].0 == x.0 && old(self).pending().to_multiset() == final(self).pending().to_multiset().insert(
                    old(self).gens@[k].0.seq@[0],
                )),
            old(self).strategy is Chain ==> (r is Some <==> old(self).pending().len() > 0) && (
            r matches Some(x) ==> x.0 == old(self).pending()[0].0 && final(self).pending() == old(self).pending().drop_first()),
            old(self).can_yield_directly() ==> r == Some(
                (
                    old(self).gens@[old(self).selected as int].0.seq@[0].0,
                    old(self).gens@[old(self).selected as int].0.id.id,
                ),
            ) && GeneratorGroup::direct_yield_step(*old(self), *final(self)),
            !(old(self).strategy is Random) ==> (match spec_settle(
                old(self).gens@,
                old(self).strategy,
                old(self).selected as int,
            ) {
                None => r is None,
                Some(st) => r == Some(((st.0[st.2].0.seq@[0].0), st.0[st.2].0.id.id)) && final(self).strategy == st.1 && final(self).selected as int == st.2,
            }),
    {
        match self.get_without_delay_with_id() {
            Some((pair, id)) => {
                proof {
                    let k = choose|k: int|
                        0 <= k < old(self).gens@.len() && (#[trigger] old(self).gens@[k]).0.id.id
                            == id && old(self).gens@[k].0.seq@.len() > 0 && pair == old(self).gens@[k].0.seq@[0];
                    assert(old(self).gens@[k].0.seq@[0].0 == pair.0);
                    assert(old(self).pending().to_multiset() == self.pending().to_multiset().insert(
                        old(self).gens@[k].0.seq@[0],
                    ));
                }
                Some((pair.0, id))
            },
            None => None,
        }
    }

    /// Drain the whole group in strategy order. Under the chain strategy the
    /// result is exactly the concatenation of the children's streams; under
    /// any strategy it is a permutation of them.
    #[verifier::loop_isolation(false)]
    pub fn collect_all(self) -> (r: Vec<(U, DelayStrategy)>)
        requires
            self.wf(),
        ensures
            r@.to_multiset() == self.pending().to_multiset(),
            r@.len() == self.pending().len(),
            self.strategy is Chain ==> r@ == self.pending(),
    {
        broadcast use vstd::seq_lib::group_to_multiset_ensures;

        let ghost init = self;
        let ghost orig = self.pending();
        let mut group = self;
        let mut out: Vec<(U, DelayStrategy)> = Vec::new();
        loop
            invariant
                group.wf(),
                group.strategy is Chain <==> init.strategy is Chain,
                out@.to_multiset().add(group.pending().to_multiset()) == orig.to_multiset(),
                out@.len() + group.pending().len() == orig.len(),
                init.strategy is Chain ==> orig == out@ + group.pending(),
            decreases group.pending().len(),
        {
            let ghost pend = group.pending();
            match group.get_without_delay() {
                Some(pair) => {
                    proof {
                        assert(pend.to_multiset() == group.pending().to_multiset().insert(pair));
                        if init.strategy is Chain {
                            assert(pend[0] == pair);
                            assert(out@ + pend =~= out@.push(pair) + group.pending()) by {
                                assert(pend =~= seq![pair] + group.pending());
                                assert(out@ + (seq![pair] + group.pending()) =~= (out@.push(pair))
                                    + group.pending());
                            }
                        }
                    }
                    out.push(pair);
                },
                None => {
                    proof {
                        assert(group.pending() =~= Seq::<(U, DelayStrategy)>::empty());
                        assert(group.pending().to_multiset() =~= Multiset::<(
                            U,
                            DelayStrategy,
                        )>::empty());
                        assert(out@.to_multiset() =~= orig.to_multiset());
                        if init.strategy is Chain {
                            assert(out@ =~= orig);
                        }
                    }
                    return out;
                },
            }
        }
    }

    /// Drain the whole group into bare operations, in strategy order.
    pub fn collect(self) -> (r: Vec<U>)
        requires
            self.wf(),
        ensures
            r@.len() == self.pending().len(),
            self.strategy is Chain ==> r@ == self.pending().map_values(
                |p: (U, DelayStrategy)| p.0,
            ),
    {
        let ghost init = self;
        let pairs = self.collect_all();
        let ghost all = pairs@;
        let mut src = pairs;
        let mut rev: Vec<(U, DelayStrategy)> = Vec::new();
        while src.len() > 0
            invariant
                src@ == all.subrange(0, src@.len() as int),
                rev@.len() + src@.len() == all.len(),
                forall|j: int| 0 <= j < rev@.len() ==> rev@[j] == all[all.len() - 1 - j],
            decreases src@.len(),
        {
            let x = src.pop().unwrap();
            rev.push(x);
        }
        let mut out: Vec<U> = Vec::new();
        while rev.len() > 0
            invariant
                rev@.len() + out@.len() == all.len(),
                forall|j: int| 0 <= j < rev@.len() ==> rev@[j] == all[all.len() - 1 - j],
                forall|j: int| 0 <= j < out@.len() ==> out@[j] == all[j].0,
            decreases rev@.len(),
        {
            let (u, _d) = rev.pop().unwrap();
            out.push(u);
        }
        proof {
            if init.strategy is Chain {
                assert(out@ =~= init.pending().map_values(|p: (U, DelayStrategy)| p.0));
            }
        }
        out
    }

    /// Whether `x` is the id of a child other than the first: the ids that
    /// collapsing the group releases.
    pub open spec fn later_child_id(self, x: u64) -> bool {
        exists|k: int| 1 <= k < self.gens@.len() && (#[trigger] self.gens@[k]).0.id.id == x
    }

    /// Collapse the group into one generator by draining it under its own
    /// strategy. The result runs under the first child's id; every other
    /// child's id is released.
    #[verifier::loop_isolation(false)]
    pub fn to_generator(self, id_set: &mut IdSet) -> (r: Generator<U>)
        requires
            old(id_set).wf(),
            self.wf(),
            self.gens@.len() > 0,
        ensures
            final(id_set).wf(),
            r.id == self.gens@[0].0.id,
            r.seq@.to_multiset() == self.pending().to_multiset(),
            self.strategy is Chain ==> r.seq@ == self.pending(),
            forall|x: u64|
                final(id_set).spec_contains(x) <==> (old(id_set).spec_contains(x)
                    && !self.later_child_id(x)),
    {
        let mut i: usize = 1;
        let first_id = self.gens[0].0.id;
        while i < self.gens.len()
            invariant
                1 <= i,
                self.gens@.len() > 0,
                i <= self.gens@.len(),
                id_set.wf(),
                forall|x: u64|
                    id_set.spec_contains(x) <==> (old(id_set).spec_contains(x) && !(exists|k: int|
                        1 <= k < i && (#[trigger] self.gens@[k]).0.id.id == x)),
            decreases self.gens@.len() - i,
        {
            let gone = self.gens[i].0.id.id;
            crate::context::remove_id(id_set, gone);
            proof {
                assert(self.gens@[i as int].0.id.id == gone);
            }
            i = i + 1;
        }
        let seq = self.collect_all();
        Generator { id: first_id, seq }
    }
}

/// The stream that chaining generators pairwise produces: the
/// left-associated concatenation of the children's streams, as repeated
/// calls of [`Generator::chain`] build it.
pub open spec fn chain_all<T>(ss: Seq<Seq<T>>) -> Seq<T>
    decreases ss,
{
    if ss.len() == 0 {
        Seq::empty()
    } else {
        chain_all(ss.drop_last()) + ss.last()
    }
}

/// Left-associated concatenation equals flattening.
proof fn lemma_chain_all_is_flatten<T>(ss: Seq<Seq<T>>)
    ensures
        chain_all(ss) == ss.flatten(),
    decreases ss.len(),
{
    if ss.len() == 0 {
        assert(ss.flatten() =~= Seq::<T>::empty());
    } else {
        lemma_chain_all_is_flatten(ss.drop_last());
        ss.lemma_flatten_and_flatten_alt_are_equivalent();
        ss.drop_last().lemma_flatten_and_flatten_alt_are_equivalent();
    }
}

/// A generator group under the chain strategy is the chain of its children:
/// what the group yields until exhaustion (its pending stream, which
/// `collect_all` returns) is exactly the stream of the generator built by
/// chaining the children one after another with [`Generator::chain`].
pub proof fn lemma_group_chain_equivalence<U>(g: GeneratorGroup<U>)
    requires
        g.wf(),
        g.strategy is Chain,
    ensures
        g.pending() == chain_all(g.seqs()),
{
    lemma_chain_all_is_flatten(g.seqs());
}

} // verus!
