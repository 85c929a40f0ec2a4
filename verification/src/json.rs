//! The crate's model of JSON values and the wire forms built on it: an
//! operation serializes as a tagged triple, a history entry as a map with
//! keyword keys. An embedding turns these values into real JSON text at the
//! boundary; the logic here fixes their exact shape.

use crate::op::{op_view, Op, OpV};
use vstd::prelude::*;

verus! {

/// A JSON value as this crate uses it: null, booleans, unsigned numbers,
/// strings, arrays and objects with ordered fields.
#[derive(Debug, PartialEq, Eq)]
pub enum JsonValue {
    Null,
    Bool(bool),
    UInt(u64),
    Str(String),
    Arr(Vec<JsonValue>),
    Obj(Vec<(String, JsonValue)>),
}

/// The mathematical shape of a [`JsonValue`].
pub enum JsonV {
    Null,
    Bool(bool),
    UInt(u64),
    Str(Seq<char>),
    Arr(Seq<JsonV>),
    Obj(Seq<(Seq<char>, JsonV)>),
}

/// The model of a JSON value.
pub open spec fn json_view(v: JsonValue) -> JsonV
    decreases v,
{
    match v {
        JsonValue::Null => JsonV::Null,
        JsonValue::Bool(b) => JsonV::Bool(b),
        JsonValue::UInt(n) => JsonV::UInt(n),
        JsonValue::Str(s) => JsonV::Str(s@),
        JsonValue::Arr(items) => JsonV::Arr(jsons_view(items@)),
        JsonValue::Obj(fields) => JsonV::Obj(fields_view(fields@)),
    }
}

/// The models of a sequence of JSON values.
pub open spec fn jsons_view(s: Seq<JsonValue>) -> Seq<JsonV>
    decreases s,
{
    if s.len() == 0 {
        Seq::empty()
    } else {
        jsons_view(s.drop_last()).push(json_view(s.last()))
    }
}

/// The models of a sequence of object fields.
pub open spec fn fields_view(s: Seq<(String, JsonValue)>) -> Seq<(Seq<char>, JsonV)>
    decreases s,
{
    if s.len() == 0 {
        Seq::empty()
    } else {
        fields_view(s.drop_last()).push((s.last().0@, json_view(s.last().1)))
    }
}

/// The model of a value sequence is the sequence of the models.
pub broadcast proof fn lemma_jsons_view(s: Seq<JsonValue>)
    ensures
        #[trigger] jsons_view(s).len() == s.len(),
        forall|i: int| 0 <= i < s.len() ==> jsons_view(s)[i] == json_view(s[i]),
    decreases s.len(),
{
    if s.len() > 0 {
        lemma_jsons_view(s.drop_last());
    }
}

/// The model of a field sequence is the sequence of the field models.
pub broadcast proof fn lemma_fields_view(s: Seq<(String, JsonValue)>)
    ensures
        #[trigger] fields_view(s).len() == s.len(),
        forall|i: int|
            0 <= i < s.len() ==> fields_view(s)[i] == (s[i].0@, json_view(s[i].1)),
    decreases s.len(),
{
    if s.len() > 0 {
        lemma_fields_view(s.drop_last());
    }
}

impl View for JsonValue {
    type V = JsonV;

    open spec fn view(&self) -> JsonV {
        json_view(*self)
    }
}

/// The wire form of an operation: `[":r", key, value-or-null]` for a read,
/// `[":w", key, value]` for a write, and the array of child forms for a
/// transaction.
pub open spec fn spec_op_json(op: OpV) -> JsonV
    decreases op,
{
    match op {
        OpV::Read(k, v) => JsonV::Arr(
            seq![
                JsonV::Str(":r"@),
                JsonV::UInt(k),
                match v {
                    Some(x) => JsonV::UInt(x),
                    None => JsonV::Null,
                },
            ],
        ),
        OpV::Write(k, v) => JsonV::Arr(seq![JsonV::Str(":w"@), JsonV::UInt(k), JsonV::UInt(v)]),
        OpV::Txn(ops) => JsonV::Arr(spec_ops_json(ops)),
    }
}

/// The wire forms of a sequence of operations.
pub open spec fn spec_ops_json(ops: Seq<OpV>) -> Seq<JsonV>
    decreases ops,
{
    if ops.len() == 0 {
        Seq::empty()
    } else {
        spec_ops_json(ops.drop_last()).push(spec_op_json(ops.last()))
    }
}

/// The wire forms of a sequence are the wire forms of its elements.
pub broadcast proof fn lemma_spec_ops_json(ops: Seq<OpV>)
    ensures
        #[trigger] spec_ops_json(ops).len() == ops.len(),
        forall|i: int| 0 <= i < ops.len() ==> spec_ops_json(ops)[i] == spec_op_json(ops[i]),
    decreases ops.len(),
{
    if ops.len() > 0 {
        lemma_spec_ops_json(ops.drop_last());
    }
}

/// Serialize an operation into its wire form.
#[verifier::loop_isolation(false)]
pub fn op_to_json(op: &Op) -> (r: JsonValue)
    ensures
        r@ == spec_op_json(op@),
    decreases *op,
{
    match op {
        Op::Read(k, v) => {
            let mut arr: Vec<JsonValue> = Vec::new();
            arr.push(JsonValue::Str(String::from_str(":r")));
            arr.push(JsonValue::UInt(*k));
            match v {
                Some(x) => arr.push(JsonValue::UInt(*x)),
                None => arr.push(JsonValue::Null),
            }
            let r = JsonValue::Arr(arr);
            proof {
                lemma_jsons_view(arr@);
                assert(jsons_view(arr@) =~= spec_op_json(op@)->Arr_0);
            }
            r
        },
        Op::Write(k, v) => {
            let mut arr: Vec<JsonValue> = Vec::new();
            arr.push(JsonValue::Str(String::from_str(":w")));
            arr.push(JsonValue::UInt(*k));
            arr.push(JsonValue::UInt(*v));
            let r = JsonValue::Arr(arr);
            proof {
                lemma_jsons_view(arr@);
                assert(jsons_view(arr@) =~= spec_op_json(op@)->Arr_0);
            }
            r
        },
        Op::Txn(ops) => {
            let mut arr: Vec<JsonValue> = Vec::new();
            let mut i: usize = 0;
            while i < ops.len()
                invariant
                    i <= ops@.len(),
                    arr@.len() == i,
                    forall|j: int| 0 <= j < i ==> arr@[j]@ == spec_op_json(ops@[j]@),
                decreases ops@.len() - i,
            {
                proof {
                    let ghost whole = *op;
                    assert(decreases_to!(whole => whole->Txn_0));
                    assert(decreases_to!(whole->Txn_0 => whole->Txn_0@));
                    assert(decreases_to!(whole->Txn_0@ => whole->Txn_0@[i as int]));
                    assert(whole->Txn_0@[i as int] == ops@[i as int]);
                }
                let child = op_to_json(&ops[i]);
                arr.push(child);
                i = i + 1;
            }
            let r = JsonValue::Arr(arr);
            proof {
                lemma_jsons_view(arr@);
                crate::op::lemma_ops_view(ops@);
                lemma_spec_ops_json(crate::op::ops_view(ops@));
                assert(jsons_view(arr@) =~= spec_ops_json(crate::op::ops_view(ops@)));
            }
            r
        },
    }
}

/// Whether the parser can read this value without stumbling: a non-empty
/// array whose string-tagged form has at least three entries and whose
/// untagged children are themselves readable. Parsing is defined only on
/// such values; everything else it rejects with an error.
pub open spec fn parse_shape_ok(v: JsonV) -> bool
    decreases v,
{
    match v {
        JsonV::Arr(a) => a.len() >= 1 && if a[0] is Str {
            a.len() >= 3
        } else {
            forall|i: int| 0 <= i < a.len() ==> parse_shape_ok(#[trigger] a[i])
        },
        _ => true,
    }
}

/// Whether parsing the value succeeds: a read or write triple with a valid
/// tag, key and (for writes) value, or an array of parsable children.
pub open spec fn spec_parse_ok(v: JsonV) -> bool
    decreases v,
{
    match v {
        JsonV::Arr(a) => if a[0] is Str {
            &&& a[1] is UInt
            &&& (a[0]->Str_0 == ":r"@ || (a[0]->Str_0 == ":w"@ && a[2] is UInt))
        } else {
            forall|i: int| 0 <= i < a.len() ==> spec_parse_ok(#[trigger] a[i])
        },
        _ => false,
    }
}

/// The operation a JSON value parses to. Reads take the number in third
/// position when there is one and no value otherwise; writes take it always;
/// an array without a leading tag parses as a transaction of its children.
pub open spec fn parses_to(v: JsonV, op: OpV) -> bool
    decreases v,
{
    match v {
        JsonV::Arr(a) => if a[0] is Str {
            if a[0]->Str_0 == ":r"@ {
                op == OpV::Read(
                    a[1]->UInt_0,
                    match a[2] {
                        JsonV::UInt(x) => Some(x),
                        _ => None,
                    },
                )
            } else {
                op == OpV::Write(a[1]->UInt_0, a[2]->UInt_0)
            }
        } else {
            op matches OpV::Txn(children) && children.len() == a.len() && (forall|i: int|
                0 <= i < a.len() ==> parses_to(#[trigger] a[i], children[i]))
        },
        _ => false,
    }
}

/// The message parsing fails with, when it fails.
pub open spec fn spec_parse_err(v: JsonV) -> Seq<char>
    decreases v, 0int,
{
    match v {
        JsonV::Arr(a) => if a[0] is Str {
            if !(a[1] is UInt) {
                "Invalid key"@
            } else if a[0]->Str_0 == ":r"@ {
                Seq::empty()
            } else if a[0]->Str_0 != ":w"@ {
                "Unknown op type"@
            } else {
                "Invalid value"@
            }
        } else {
            spec_first_child_err(a, 0)
        },
        _ => "Invalid JSON format"@,
    }
}

/// The message of the first failing child of an untagged array, scanning
/// from `i`.
pub open spec fn spec_first_child_err(a: Seq<JsonV>, i: int) -> Seq<char>
    decreases a, a.len() - i,
{
    if i < 0 || i >= a.len() {
        Seq::empty()
    } else if !spec_parse_ok(a[i]) {
        spec_parse_err(a[i])
    } else {
        spec_first_child_err(a, i + 1)
    }
}

/// Parse an operation from its wire form: the inverse of [`op_to_json`] on
/// well-shaped values. Succeeds exactly on parsable values, and fails with
/// the message of the first problem found.
#[verifier::loop_isolation(false)]
pub fn parse_op(v: &JsonValue) -> (r: Result<Op, String>)
    requires
        parse_shape_ok(v@),
    ensures
        r is Ok <==> spec_parse_ok(v@),
        r matches Ok(op) ==> parses_to(v@, op@),
        r matches Err(e) ==> e@ == spec_parse_err(v@),
    decreases *v,
{
    match v {
        JsonValue::Arr(arr) => {
            let ghost a = jsons_view(arr@);
            proof {
                lemma_jsons_view(arr@);
                assert(v@ == JsonV::Arr(a));
                assert(a[0] == json_view(arr@[0]));
            }
            let first_is_str = matches!(&arr[0], JsonValue::Str(_));
            proof {
                assert(first_is_str == (a[0] is Str));
            }
            if first_is_str {
                proof {
                    assert(a[1] == json_view(arr@[1]));
                    assert(a[2] == json_view(arr@[2]));
                }
                let key: u64 = match &arr[1] {
                    JsonValue::UInt(k) => *k,
                    _ => {
                        proof {
                            assert(!(a[1] is UInt));
                        }
                        return Err(String::from_str("Invalid key"));
                    },
                };
                proof {
                    assert(a[1] == JsonV::UInt(key));
                }
                let tag_read = String::from_str(":r");
                let tag_write = String::from_str(":w");
                match &arr[0] {
                    JsonValue::Str(s) => {
                        proof {
                            assert(a[0]->Str_0 == s@);
                        }
                        if *s == tag_read {
                            let value: Option<u64> = match &arr[2] {
                                JsonValue::UInt(x) => Some(*x),
                                _ => None,
                            };
                            let r = Op::Read(key, value);
                            proof {
                                assert(parses_to(v@, r@));
                            }
                            Ok(r)
                        } else if *s == tag_write {
                            match &arr[2] {
                                JsonValue::UInt(x) => {
                                    let r = Op::Write(key, *x);
                                    proof {
                                        assert(a[2] == JsonV::UInt(*x));
                                        assert(parses_to(v@, r@));
                                    }
                                    Ok(r)
                                },
                                _ => {
                                    proof {
                                        assert(!(a[2] is UInt));
                                    }
                                    Err(String::from_str("Invalid value"))
                                },
                            }
                        } else {
                            proof {
                                assert(a[0]->Str_0 != ":r"@ && a[0]->Str_0 != ":w"@);
                            }
                            Err(String::from_str("Unknown op type"))
                        }
                    },
                    _ => {
                        proof {
                            assert(false);
                        }
                        Err(String::new())
                    },
                }
            } else {
                let mut children: Vec<Op> = Vec::new();
                let mut i: usize = 0;
                while i < arr.len()
                    invariant
                        i <= arr@.len(),
                        children@.len() == i,
                        forall|j: int|
                            0 <= j < i ==> spec_parse_ok(a[j]) && parses_to(
                                a[j],
                                op_view(#[trigger] children@[j]),
                            ),
                    decreases arr@.len() - i,
                {
                    proof {
                        let ghost whole = *v;
                        assert(decreases_to!(whole => whole->Arr_0));
                        assert(decreases_to!(whole->Arr_0 => whole->Arr_0@));
                        assert(decreases_to!(whole->Arr_0@ => whole->Arr_0@[i as int]));
                        assert(whole->Arr_0@[i as int] == arr@[i as int]);
                        assert(a[i as int] == json_view(arr@[i as int]));
                        assert(parse_shape_ok(a[i as int]));
                    }
                    match parse_op(&arr[i]) {
                        Ok(op) => {
                            proof {
                                assert(parses_to(a[i as int], op@));
                                assert(spec_parse_ok(a[i as int]));
                            }
                            let ghost children_before = children@;
                            children.push(op);
                            proof {
                                assert forall|j: int| 0 <= j < i + 1 implies spec_parse_ok(a[j])
                                    && parses_to(a[j], op_view(#[trigger] children@[j])) by {
                                    if j == i {
                                        assert(children@[j] == op);
                                        assert(op_view(children@[j]) == op@);
                                    } else {
                                        assert(children@[j] == children_before[j]);
                                        assert(op_view(children@[j]) == op_view(
                                            children_before[j],
                                        ));
                                    }
                                }
                            }
                        },
                        Err(e) => {
                            proof {
                                assert(!spec_parse_ok(a[i as int]));
                                assert forall|j: int| 0 <= j < i implies spec_parse_ok(
                                    #[trigger] a[j],
                                ) by {
                                    assert(parses_to(a[j], op_view(children@[j])));
                                }
                                lemma_first_child_err(a, i as int);
                            }
                            return Err(e);
                        },
                    }
                    i = i + 1;
                }
                let r = Op::Txn(children);
                proof {
                    crate::op::lemma_ops_view(children@);
                    assert forall|j: int| 0 <= j < a.len() implies parses_to(
                        #[trigger] a[j],
                        crate::op::ops_view(children@)[j],
                    ) && spec_parse_ok(a[j]) by {
                        assert(crate::op::ops_view(children@)[j] == op_view(children@[j]));
                        assert(parses_to(a[j], op_view(children@[j])));
                    }
                    assert(parses_to(v@, r@));
                    assert(spec_parse_ok(v@));
                }
                Ok(r)
            }
        },
        _ => Err(String::from_str("Invalid JSON format")),
    }
}

/// When children up to `i` parse and child `i` fails, the array's error is
/// child `i`'s error.
proof fn lemma_first_child_err(a: Seq<JsonV>, i: int)
    requires
        0 <= i < a.len(),
        forall|j: int| 0 <= j < i ==> spec_parse_ok(#[trigger] a[j]),
        !spec_parse_ok(a[i]),
    ensures
        spec_first_child_err(a, 0) == spec_parse_err(a[i]),
{
    lemma_first_child_err_from(a, 0, i);
}

proof fn lemma_first_child_err_from(a: Seq<JsonV>, k: int, i: int)
    requires
        0 <= k <= i < a.len(),
        forall|j: int| k <= j < i ==> spec_parse_ok(#[trigger] a[j]),
        !spec_parse_ok(a[i]),
    ensures
        spec_first_child_err(a, k) == spec_parse_err(a[i]),
    decreases i - k,
{
    if k < i {
        lemma_first_child_err_from(a, k + 1, i);
    }
}

/// Serializing an operation and parsing the result gives the operation back,
/// as long as every transaction in it is non-empty (an empty transaction's
/// form, the empty array, is not parsable).
pub proof fn lemma_op_json_round_trip(op: OpV)
    requires
        op_txns_nonempty(op),
    ensures
        parse_shape_ok(spec_op_json(op)),
        spec_parse_ok(spec_op_json(op)),
        parses_to(spec_op_json(op), op),
    decreases op,
{
    reveal_strlit(":r");
    reveal_strlit(":w");
    match op {
        OpV::Read(k, v) => {
            let a = spec_op_json(op)->Arr_0;
            assert(a.len() == 3);
            assert(a[0] == JsonV::Str(":r"@));
            assert(a[1] == JsonV::UInt(k));
            assert(parses_to(spec_op_json(op), op));
        },
        OpV::Write(k, v) => {
            let a = spec_op_json(op)->Arr_0;
            assert(a.len() == 3);
            assert(a[0] == JsonV::Str(":w"@));
            assert(":r"@.len() == 2 && ":r"@[1] == 'r');
            assert(":w"@.len() == 2 && ":w"@[1] == 'w');
            assert(a[0]->Str_0 != ":r"@) by {
                if ":w"@ == ":r"@ {
                    assert(":w"@[1] == ":r"@[1]);
                }
            }
            assert(a[1] == JsonV::UInt(k));
            assert(a[2] == JsonV::UInt(v));
            assert(parses_to(spec_op_json(op), op));
        },
        OpV::Txn(ops) => {
            lemma_spec_ops_json(ops);
            let a = spec_ops_json(ops);
            assert forall|i: int| 0 <= i < a.len() implies parse_shape_ok(#[trigger] a[i])
                && spec_parse_ok(a[i]) && parses_to(a[i], ops[i]) by {
                lemma_op_json_round_trip(ops[i]);
            }
            assert(!(a[0] is Str)) by {
                lemma_op_json_round_trip(ops[0]);
            }
        },
    }
}

/// Every transaction inside the operation has at least one child.
pub open spec fn op_txns_nonempty(op: OpV) -> bool
    decreases op,
{
    match op {
        OpV::Txn(ops) => ops.len() >= 1 && (forall|i: int|
            0 <= i < ops.len() ==> op_txns_nonempty(#[trigger] ops[i])),
        _ => true,
    }
}

} // verus!
