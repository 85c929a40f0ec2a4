use jepsen_rs::checker::{
    check_option_to_json, entry_to_json, parse_check_result, CheckOption, ConsistencyModel,
    ValidType,
};
use jepsen_rs::history::{HistoryType, SerializableHistory, SerializableHistoryList};
use jepsen_rs::json::{op_to_json, parse_op, JsonValue};
use jepsen_rs::op::{Op, OpFunctionType, Ops};

/// Render a JSON value as compact JSON text, fields in order. The strings
/// this crate produces need no escaping.
fn render(v: &JsonValue) -> String {
    match v {
        JsonValue::Null => "null".to_string(),
        JsonValue::Bool(b) => b.to_string(),
        JsonValue::UInt(n) => n.to_string(),
        JsonValue::Str(s) => format!("\"{}\"", s),
        JsonValue::Arr(items) => {
            let parts: Vec<String> = items.iter().map(render).collect();
            format!("[{}]", parts.join(","))
        }
        JsonValue::Obj(fields) => {
            let parts: Vec<String> =
                fields.iter().map(|(k, v)| format!("\"{}\":{}", k, render(v))).collect();
            format!("{{{}}}", parts.join(","))
        }
    }
}

fn read_json(key: u64, value: Option<u64>) -> JsonValue {
    JsonValue::Arr(vec![
        JsonValue::Str(":r".to_string()),
        JsonValue::UInt(key),
        match value {
            Some(v) => JsonValue::UInt(v),
            None => JsonValue::Null,
        },
    ])
}

fn write_json(key: u64, value: u64) -> JsonValue {
    JsonValue::Arr(vec![
        JsonValue::Str(":w".to_string()),
        JsonValue::UInt(key),
        JsonValue::UInt(value),
    ])
}

#[test]
fn test_op_serde() {
    let res = [
        (r#"[":w",6,1]"#, Op::Write(6, 1)),
        (r#"[":r",8,null]"#, Op::Read(8, None)),
        (
            r#"[[":w",6,1],[":r",8,null]]"#,
            Op::Txn(vec![Op::Write(6, 1), Op::Read(8, None)]),
        ),
    ];
    for (json_str, op) in res {
        assert_eq!(render(&op_to_json(&op)), json_str);
    }
    assert_eq!(parse_op(&write_json(6, 1)).unwrap(), Op::Write(6, 1));
    assert_eq!(parse_op(&read_json(8, None)).unwrap(), Op::Read(8, None));
    let txn = JsonValue::Arr(vec![write_json(6, 1), read_json(8, None)]);
    assert_eq!(parse_op(&txn).unwrap(), Op::Txn(vec![Op::Write(6, 1), Op::Read(8, None)]));
}

#[test]
fn test_ops_serde() {
    let json_str = r#"[[[":w",6,1],[":w",8,1]],[[":w",9,1],[":r",8,null]],[[":w",6,2],[":r",6,null]],[[":w",9,2]],[[":r",8,null],[":w",9,3]]]"#;
    let ops = Ops(vec![
        Op::Txn(vec![Op::Write(6, 1), Op::Write(8, 1)]),
        Op::Txn(vec![Op::Write(9, 1), Op::Read(8, None)]),
        Op::Txn(vec![Op::Write(6, 2), Op::Read(6, None)]),
        Op::Txn(vec![Op::Write(9, 2)]),
        Op::Txn(vec![Op::Read(8, None), Op::Write(9, 3)]),
    ]);
    let rendered: Vec<String> = ops.0.iter().map(|op| render(&op_to_json(op))).collect();
    assert_eq!(format!("[{}]", rendered.join(",")), json_str);
}

#[test]
fn parse_and_serialize_round_trip() {
    let op = Op::Txn(vec![Op::Write(6, 1), Op::Read(8, None), Op::Read(9, Some(4))]);
    let parsed = parse_op(&op_to_json(&op)).unwrap();
    assert_eq!(parsed, op);
}

#[test]
fn parse_op_reports_each_problem() {
    // A non-number key.
    let bad_key = JsonValue::Arr(vec![
        JsonValue::Str(":r".to_string()),
        JsonValue::Str("six".to_string()),
        JsonValue::Null,
    ]);
    assert_eq!(parse_op(&bad_key).unwrap_err(), "Invalid key");
    // A write without a value.
    let bad_value = JsonValue::Arr(vec![
        JsonValue::Str(":w".to_string()),
        JsonValue::UInt(6),
        JsonValue::Null,
    ]);
    assert_eq!(parse_op(&bad_value).unwrap_err(), "Invalid value");
    // An unknown tag.
    let bad_tag = JsonValue::Arr(vec![
        JsonValue::Str(":cas".to_string()),
        JsonValue::UInt(6),
        JsonValue::UInt(1),
    ]);
    assert_eq!(parse_op(&bad_tag).unwrap_err(), "Unknown op type");
    // Not an array at all.
    assert_eq!(parse_op(&JsonValue::UInt(3)).unwrap_err(), "Invalid JSON format");
}

#[test]
fn ops_rev_reverses() {
    let ops = Ops(vec![Op::Write(1, 1), Op::Read(2, None), Op::Write(3, 3)]);
    let rev = ops.rev();
    assert_eq!(rev.0, vec![Op::Write(3, 3), Op::Read(2, None), Op::Write(1, 1)]);
}

#[test]
fn op_tag_matches_value() {
    assert_eq!(OpFunctionType::from_op(&Op::Read(1, None)), OpFunctionType::Read);
    assert_eq!(OpFunctionType::from_op(&Op::Write(1, 2)), OpFunctionType::Write);
    assert_eq!(OpFunctionType::from_op(&Op::Txn(vec![])), OpFunctionType::Txn);
}

#[test]
fn test_check_option_serialization() {
    let option = CheckOption::default()
        .analyzer("wr-graph".to_string())
        .consistency_models(vec![ConsistencyModel::CursorStability]);
    let json = render(&check_option_to_json(&option));
    assert_eq!(
        r#"{":consistency-models":[":cursor-stability"],":directory":"./out",":analyzer":"wr-graph"}"#,
        json
    );
}

#[test]
fn test_check_result_deserialization() {
    let result = JsonValue::Obj(vec![
        (":valid?".to_string(), JsonValue::Str(":unknown".to_string())),
        (
            ":anomaly-types".to_string(),
            JsonValue::Arr(vec![JsonValue::Str(":empty-transaction-graph".to_string())]),
        ),
        (
            ":anomalies".to_string(),
            JsonValue::Obj(vec![(":empty-transaction-graph".to_string(), JsonValue::Bool(true))]),
        ),
        (":not".to_string(), JsonValue::Arr(vec![])),
        (":also-not".to_string(), JsonValue::Arr(vec![])),
    ]);
    let res = parse_check_result(&result).unwrap();
    assert!(matches!(res.valid, ValidType::Unknown));
    assert_eq!(res.anomaly_types, vec![":empty-transaction-graph".to_string()]);
    assert!(res.anomalies.is_some());
    assert!(res.ruled_out.is_empty());
    assert!(res.also_ruled_out.is_empty());
}

#[test]
fn valid_type_wire_forms() {
    assert_eq!(render(&ValidType::True.to_json()), "true");
    assert_eq!(render(&ValidType::False.to_json()), "false");
    assert_eq!(render(&ValidType::Unknown.to_json()), "\":unknown\"");
    assert!(matches!(
        ValidType::from_json(&JsonValue::Bool(false)).unwrap(),
        ValidType::False
    ));
    assert_eq!(
        ValidType::from_json(&JsonValue::Str("maybe".to_string())).unwrap_err(),
        "invalid string value"
    );
    assert_eq!(ValidType::from_json(&JsonValue::UInt(1)).unwrap_err(), "invalid type");
}

#[test]
fn history_entry_wire_form() {
    let entry = SerializableHistory {
        index: 0,
        type_: HistoryType::Invoke,
        f: OpFunctionType::Txn,
        value: Op::Txn(vec![Op::Write(2, 1)]),
        time: 3291485317,
        process: 0,
        error: None,
    };
    assert_eq!(
        render(&entry_to_json(&entry)),
        r#"{":index":0,":type":":invoke",":f":":txn",":value":[[":w",2,1]],":time":3291485317,":process":0}"#
    );
}

#[test]
fn history_wire_form_has_one_entry_per_record() {
    let mut h = SerializableHistoryList::new();
    h.push_invoke(0, Op::Write(1, 1), 10);
    h.push_result(0, HistoryType::Okay, Op::Write(1, 1), None, 20);
    let json = jepsen_rs::checker::history_to_json(&h);
    match json {
        JsonValue::Arr(items) => assert_eq!(items.len(), 2),
        _ => panic!("a history serializes as an array"),
    }
}

#[test]
fn failed_entry_carries_its_error_on_the_wire() {
    let entry = SerializableHistory {
        index: 3,
        type_: HistoryType::Fail,
        f: OpFunctionType::Write,
        value: Op::Write(2, 2),
        time: 77,
        process: 1,
        error: Some(vec!["timeout".to_string()]),
    };
    assert_eq!(
        render(&entry_to_json(&entry)),
        r#"{":index":3,":type":":fail",":f":":w",":value":[":w",2,2],":time":77,":process":1,":error":["timeout"]}"#
    );
}
