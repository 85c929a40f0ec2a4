//! The append-only history record. Every operation leaves exactly two
//! entries: an `Invoke` when it is dispatched and one closing entry
//! (`Ok`, `Fail` or `Info`) when its outcome is known.

use crate::op::{op_view, spec_op_tag, Op, OpFunctionType};
use vstd::prelude::*;

verus! {

/// The payload a failed or indeterminate entry carries.
pub type ErrorType = Vec<String>;

/// The kind of a history entry, serialized as `:invoke`, `:ok`, `:fail` or
/// `:info`. `Invoke` opens an operation; `Okay` and `Fail` close it with a
/// known outcome; `Info` closes it with an indeterminate one.
#[derive(Debug, Clone, Copy, PartialEq, Eq)]
pub enum HistoryType {
    Invoke,
    Okay,
    Fail,
    Info,
}

/// One history entry, shaped for the checker's wire schema.
#[derive(Debug, PartialEq, Eq)]
pub struct SerializableHistory {
    pub index: u64,
    pub type_: HistoryType,
    pub f: OpFunctionType,
    pub value: Op,
    pub time: u64,
    pub process: u64,
    pub error: Option<ErrorType>,
}

/// A closing entry carries an error exactly when its outcome is `Fail` or
/// `Info`; an `Invoke` or `Ok` entry carries none.
pub open spec fn entry_error_ok(e: SerializableHistory) -> bool {
    e.error is Some <==> (e.type_ is Fail || e.type_ is Info)
}

/// A single entry is well formed at position `i`: its index equals the
/// position, its tag agrees with its value, and its error agrees with its
/// kind.
pub open spec fn entry_wf(e: SerializableHistory, i: int) -> bool {
    &&& e.index == i
    &&& entry_error_ok(e)
    &&& e.f == spec_op_tag(op_view(e.value))
}

/// The closing entry for the invocation at `i` sits at `j`.
pub open spec fn closes(h: Seq<SerializableHistory>, i: int, j: int) -> bool {
    &&& h[j].process == h[i].process
    &&& !(h[j].type_ is Invoke)
}

/// The invocation at `i` is closed: some later entry of the same process
/// closes it, and no other entry of that process comes in between.
pub open spec fn invoke_closed(h: Seq<SerializableHistory>, i: int) -> bool {
    exists|j: int|
        i < j < h.len() && #[trigger] closes(h, i, j) && (forall|k: int|
            i < k < j ==> h[k].process != h[i].process)
}

/// Every invocation has exactly one closing entry of the same process, with
/// no other activity of that process in between.
pub open spec fn history_pairing(h: Seq<SerializableHistory>) -> bool {
    forall|i: int| 0 <= i < h.len() && (#[trigger] h[i]).type_ is Invoke ==> invoke_closed(h, i)
}

/// The list of history entries handed to the checker at the end of a run.
#[derive(Debug, PartialEq, Eq)]
pub struct SerializableHistoryList(pub Vec<SerializableHistory>);

impl SerializableHistoryList {
    /// The timestamp of the newest entry; zero for an empty history.
    pub open spec fn last_time(self) -> u64 {
        if self.0@.len() == 0 {
            0u64
        } else {
            self.0@.last().time
        }
    }

    /// The history invariant: indexes equal positions, timestamps never
    /// decrease, every tag agrees with its value, and errors agree with
    /// entry kinds.
    pub open spec fn wf(self) -> bool {
        &&& forall|i: int| 0 <= i < self.0@.len() ==> entry_wf(#[trigger] self.0@[i], i)
        &&& forall|i: int|
            0 <= i < self.0@.len() - 1 ==> (#[trigger] self.0@[i].time) <= self.0@[i + 1].time
    }

    /// An empty history.
    pub fn new() -> (r: SerializableHistoryList)
        ensures
            r.0@.len() == 0,
            r.wf(),
    {
        SerializableHistoryList(Vec::new())
    }

    /// How many entries the history holds.
    pub fn len(&self) -> (r: usize)
        ensures
            r == self.0@.len(),
    {
        self.0.len()
    }

    /// The timestamp that an entry appended now would carry: the given time,
    /// but never before the newest entry already recorded.
    fn clamp_time(&self, time: u64) -> (r: u64)
        ensures
            r == if time < self.last_time() {
                self.last_time()
            } else {
                time
            },
    {
        if self.0.len() > 0 {
            let last = self.0[self.0.len() - 1].time;
            if time < last {
                last
            } else {
                time
            }
        } else {
            time
        }
    }

    /// Append the `Invoke` entry that opens an operation. The timestamp is
    /// clamped so the history stays ordered even if the given clock reading
    /// went backwards.
    pub fn push_invoke(&mut self, process: u64, value: Op, time: u64)
        requires
            old(self).wf(),
            old(self).0@.len() < u64::MAX,
        ensures
            final(self).wf(),
            final(self).0@ == old(self).0@.push(
                SerializableHistory {
                    index: old(self).0@.len() as u64,
                    type_: HistoryType::Invoke,
                    f: spec_op_tag(op_view(value)),
                    value: value,
                    time: if time < old(self).last_time() {
                        old(self).last_time()
                    } else {
                        time
                    },
                    process: process,
                    error: None,
                },
            ),
    {
        let t = self.clamp_time(time);
        let f = OpFunctionType::from_op(&value);
        let index = self.0.len() as u64;
        let item = SerializableHistory {
            index,
            type_: HistoryType::Invoke,
            f,
            value,
            time: t,
            process,
            error: None,
        };
        self.0.push(item);
    }

    /// Append the closing entry of an operation. `Okay` must come without an
    /// error, `Fail` and `Info` with one; an `Invoke` cannot close anything.
    pub fn push_result(
        &mut self,
        process: u64,
        result_type: HistoryType,
        value: Op,
        error: Option<ErrorType>,
        time: u64,
    )
        requires
            old(self).wf(),
            old(self).0@.len() < u64::MAX,
            !(result_type is Invoke),
            (result_type is Okay) <==> (error is None),
        ensures
            final(self).wf(),
            final(self).0@ == old(self).0@.push(
                SerializableHistory {
                    index: old(self).0@.len() as u64,
                    type_: result_type,
                    f: spec_op_tag(op_view(value)),
                    value: value,
                    time: if time < old(self).last_time() {
                        old(self).last_time()
                    } else {
                        time
                    },
                    process: process,
                    error: error,
                },
            ),
    {
        let t = self.clamp_time(time);
        let f = OpFunctionType::from_op(&value);
        let index = self.0.len() as u64;
        let item = SerializableHistory {
            index,
            type_: result_type,
            f,
            value,
            time: t,
            process,
            error,
        };
        self.0.push(item);
    }
}

impl Default for SerializableHistoryList {
    /// The default history is empty.
    fn default() -> (r: SerializableHistoryList)
        ensures
            r.0@.len() == 0,
            r.wf(),
    {
        SerializableHistoryList::new()
    }
}

/// In a well-formed history, an entry carries an error exactly when it is a
/// `Fail` or `Info` closing entry.
pub proof fn lemma_error_iff_failed(h: SerializableHistoryList, i: int)
    requires
        h.wf(),
        0 <= i < h.0@.len(),
    ensures
        h.0@[i].error is Some <==> (h.0@[i].type_ is Fail || h.0@[i].type_ is Info),
{
}

/// In a well-formed history, every entry's tag agrees with its value, and
/// its index equals its position.
pub proof fn lemma_tag_and_index_agree(h: SerializableHistoryList, i: int)
    requires
        h.wf(),
        0 <= i < h.0@.len(),
    ensures
        h.0@[i].f == spec_op_tag(op_view(h.0@[i].value)),
        h.0@[i].index == i,
{
}

/// A history made of immediately-closed invocations is fully paired: if
/// every invocation sits at an even position and is followed by its closing
/// entry, every invocation is closed.
pub proof fn lemma_adjacent_pairs_are_paired(h: Seq<SerializableHistory>)
    requires
        forall|i: int|
            0 <= i < h.len() && (#[trigger] h[i]).type_ is Invoke ==> i + 1 < h.len() && closes(
                h,
                i,
                i + 1,
            ),
    ensures
        history_pairing(h),
{
    assert forall|i: int| 0 <= i < h.len() && (#[trigger] h[i]).type_ is Invoke implies invoke_closed(
        h,
        i,
    ) by {
        assert(closes(h, i, i + 1));
        assert(forall|k: int| i < k < i + 1 ==> h[k].process != h[i].process);
    }
}

} // verus!
