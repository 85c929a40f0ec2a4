use std::collections::HashMap;

use jepsen_rs::checker::{Check, CheckOption, SerializableCheckResult, ValidType};
use jepsen_rs::client::{ClusterError, ElleRwClusterClient, JepsenClient};
use jepsen_rs::generator::{GeneratorGroup, RawGenerator, RegisterRawGenerator};
use jepsen_rs::history::{HistoryType, SerializableHistoryList};
use jepsen_rs::op::{Op, OpFunctionType};

/// An in-memory key-value store.
#[derive(Debug, Default)]
struct TestCluster {
    db: HashMap<u64, u64>,
}

impl ElleRwClusterClient for TestCluster {
    fn get(&mut self, key: u64) -> Result<Option<u64>, ClusterError> {
        Ok(self.db.get(&key).cloned())
    }

    fn put(&mut self, key: u64, value: u64) -> Result<(), ClusterError> {
        self.db.insert(key, value);
        Ok(())
    }
}

/// A cluster whose second write times out (an indeterminate outcome) and
/// whose reads of key 99 fail definitely.
#[derive(Debug, Default)]
struct FlakyCluster {
    db: HashMap<u64, u64>,
    writes: usize,
}

impl ElleRwClusterClient for FlakyCluster {
    fn get(&mut self, key: u64) -> Result<Option<u64>, ClusterError> {
        if key == 99 {
            return Err(ClusterError::Fail("no such shard".to_string()));
        }
        Ok(self.db.get(&key).cloned())
    }

    fn put(&mut self, key: u64, value: u64) -> Result<(), ClusterError> {
        self.writes += 1;
        if self.writes == 2 {
            return Err(ClusterError::Indeterminate("timeout".to_string()));
        }
        self.db.insert(key, value);
        Ok(())
    }
}

/// A fixed list of operations as a raw source.
struct VecSource {
    ops: Vec<Op>,
    at: usize,
}

impl RawGenerator for VecSource {
    type Item = Op;

    fn gen(&mut self) -> Op {
        let op = self.ops[self.at].clone();
        self.at += 1;
        op
    }
}

/// A checker that accepts every history.
struct AcceptAll;

impl Check for AcceptAll {
    fn check(
        &mut self,
        _history: &SerializableHistoryList,
        _option: CheckOption,
    ) -> Result<SerializableCheckResult, String> {
        Ok(SerializableCheckResult {
            valid: ValidType::True,
            anomaly_types: Vec::new(),
            anomalies: None,
            ruled_out: Vec::new(),
            also_ruled_out: Vec::new(),
        })
    }
}

fn tag_of(op: &Op) -> OpFunctionType {
    match op {
        Op::Read(_, _) => OpFunctionType::Read,
        Op::Write(_, _) => OpFunctionType::Write,
        Op::Txn(_) => OpFunctionType::Txn,
    }
}

/// The universal history invariants: indexes equal positions, timestamps
/// never decrease, tags agree with values, errors agree with kinds, and
/// every invocation is closed by the next entry of its process.
fn assert_history_invariants(h: &SerializableHistoryList) {
    let entries = &h.0;
    for (i, e) in entries.iter().enumerate() {
        assert_eq!(e.index, i as u64);
        if i + 1 < entries.len() {
            assert!(entries[i].time <= entries[i + 1].time);
        }
        let has_error = e.error.is_some();
        let needs_error = matches!(e.type_, HistoryType::Fail | HistoryType::Info);
        assert_eq!(has_error, needs_error);
        assert_eq!(e.f, tag_of(&e.value));
        if matches!(e.type_, HistoryType::Invoke) {
            assert!(i + 1 < entries.len());
            let closing = &entries[i + 1];
            assert_eq!(closing.process, e.process);
            assert!(!matches!(closing.type_, HistoryType::Invoke));
        }
    }
}

#[test]
fn register_workload_without_faults() {
    let ops = vec![
        Op::Write(1, 1),
        Op::Read(1, None),
        Op::Write(2, 2),
        Op::Write(1, 3),
        Op::Read(2, None),
        Op::Write(3, 1),
        Op::Read(3, None),
        Op::Write(2, 4),
        Op::Read(1, None),
        Op::Read(2, None),
    ];
    let source = VecSource { ops, at: 0 };
    let mut client = JepsenClient::new(TestCluster::default(), source);
    let gen = client.new_generator(10);
    let group = GeneratorGroup::new(vec![gen]);
    let mut checker = AcceptAll;
    let res = client.run(group, &mut checker, CheckOption::default()).unwrap();
    assert!(matches!(res.valid, ValidType::True));

    let h = &client.global.history;
    assert_eq!(h.0.len(), 20);
    assert_history_invariants(h);
    for e in h.0.iter() {
        assert!(matches!(e.type_, HistoryType::Invoke | HistoryType::Okay));
    }
    // The closing entries of the reads carry the observed values.
    assert_eq!(h.0[2 * 1 + 1].value, Op::Read(1, Some(1)));
    assert_eq!(h.0[2 * 4 + 1].value, Op::Read(2, Some(2)));
    assert_eq!(h.0[2 * 6 + 1].value, Op::Read(3, Some(1)));
    assert_eq!(h.0[2 * 8 + 1].value, Op::Read(1, Some(3)));
    assert_eq!(h.0[2 * 9 + 1].value, Op::Read(2, Some(4)));
}

#[test]
fn adapter_failure_closes_with_an_error() {
    // An indeterminate outcome (the simulated timeout on the second write)
    // closes `Info`; a definite failure closes `Fail`. Both carry a
    // non-empty error, and the invariants hold throughout.
    let ops = vec![Op::Write(1, 1), Op::Write(2, 2), Op::Read(1, None), Op::Read(99, None)];
    let source = VecSource { ops, at: 0 };
    let mut client = JepsenClient::new(FlakyCluster::default(), source);
    let gen = client.new_generator(4);
    let group = GeneratorGroup::new(vec![gen]);
    let mut checker = AcceptAll;
    let res = client.run(group, &mut checker, CheckOption::default());
    assert!(res.is_ok());

    let h = &client.global.history;
    assert_eq!(h.0.len(), 8);
    assert_history_invariants(h);
    // The timed-out write closes with Info, its original value and the error.
    let timed_out = &h.0[3];
    assert!(matches!(timed_out.type_, HistoryType::Info));
    assert_eq!(timed_out.value, Op::Write(2, 2));
    assert_eq!(timed_out.error.as_ref().unwrap(), &vec!["timeout".to_string()]);
    // The definite failure closes with Fail.
    let failed = &h.0[7];
    assert!(matches!(failed.type_, HistoryType::Fail));
    assert_eq!(failed.value, Op::Read(99, None));
    assert_eq!(failed.error.as_ref().unwrap(), &vec!["no such shard".to_string()]);
}

#[test]
fn intergration_test() {
    let raw_gen = RegisterRawGenerator { key_space: 5, value_space: 100 };
    let mut client = JepsenClient::new(TestCluster::default(), raw_gen);
    // Build generators, transform and merge them.
    let g1 = client.new_generator(100).filter(|o: &Op| matches!(o, Op::Txn(txn) if txn.len() == 1));
    let g2 = client.new_generator(50);
    let g3 = client.new_generator(50);
    let gen_g = GeneratorGroup::new(vec![g1, g2, g3]);
    let mut checker = AcceptAll;
    let res = client.run(gen_g, &mut checker, CheckOption::default()).unwrap();
    assert!(matches!(res.valid, ValidType::True));
    assert_history_invariants(&client.global.history);
    assert_eq!(client.global.history.0.len(), 400);
}

#[test]
fn transactions_execute_children_in_order() {
    let ops = vec![
        Op::Txn(vec![Op::Write(6, 1), Op::Write(8, 1)]),
        Op::Txn(vec![Op::Read(6, None), Op::Read(8, None)]),
    ];
    let source = VecSource { ops, at: 0 };
    let mut client = JepsenClient::new(TestCluster::default(), source);
    let gen = client.new_generator(2);
    let group = GeneratorGroup::new(vec![gen]);
    let mut checker = AcceptAll;
    client.run(group, &mut checker, CheckOption::default()).unwrap();

    let h = &client.global.history;
    assert_eq!(h.0.len(), 4);
    assert_history_invariants(h);
    assert_eq!(h.0[3].value, Op::Txn(vec![Op::Read(6, Some(1)), Op::Read(8, Some(1))]));
}
