use std::collections::HashMap;

use jepsen_rs::client::{ClusterError, ElleRwClusterClient, JepsenClient};
use jepsen_rs::context::IdSet;
use jepsen_rs::generator::{GeneratorBuilder, GeneratorGroup, RawGenerator};
use jepsen_rs::history::HistoryType;
use jepsen_rs::nemesis::register::{NemesisRegister, NemesisRegisterStrategy};
use jepsen_rs::nemesis::{NemesisCluster, NemesisType, ServerId};
use jepsen_rs::op::Op;
use jepsen_rs::controller::GeneratorGroupStrategy;
use jepsen_rs::orchestrator::{run_nemesis_session, NemesisOrOp};

/// An in-memory key-value store.
#[derive(Debug, Default)]
struct KvStore {
    db: HashMap<u64, u64>,
}

impl ElleRwClusterClient for KvStore {
    fn get(&mut self, key: u64) -> Result<Option<u64>, ClusterError> {
        Ok(self.db.get(&key).cloned())
    }

    fn put(&mut self, key: u64, value: u64) -> Result<(), ClusterError> {
        self.db.insert(key, value);
        Ok(())
    }
}

/// A fault adapter that counts injections and recoveries.
#[derive(Debug, Default)]
struct CountingCluster {
    kills: usize,
    restarts: usize,
}

impl NemesisCluster for CountingCluster {
    fn kill(&mut self, servers: &Vec<ServerId>) {
        self.kills += servers.len();
    }

    fn restart(&mut self, servers: &Vec<ServerId>) {
        self.restarts += servers.len();
    }

    fn pause(&mut self, _servers: &Vec<ServerId>) {}

    fn resume(&mut self, _servers: &Vec<ServerId>) {}

    fn get_leader_without_term(&mut self) -> ServerId {
        0
    }

    fn clog_link_both(&mut self, _fst: ServerId, _snd: ServerId) {}

    fn unclog_link_both(&mut self, _fst: ServerId, _snd: ServerId) {}

    fn clog_link_single(&mut self, _fst: ServerId, _snd: ServerId) {}

    fn unclog_link_single(&mut self, _fst: ServerId, _snd: ServerId) {}

    fn size(&self) -> usize {
        3
    }
}

/// A fixed list of operations as a raw source.
struct VecSource {
    ops: Vec<Op>,
    at: usize,
}

impl RawGenerator for VecSource {
    type Item = Op;

    fn gen(&mut self) -> Op {
        let op = self.ops[self.at].clone();
        self.at += 1;
        op
    }
}

#[test]
fn paired_recovery_at_shutdown() {
    // Three injections against a register that keeps two: the third one
    // evicts (and recovers) the first, and shutdown recovers the rest.
    let items = vec![
        NemesisOrOp::NemesisType(NemesisType::Kill(vec![0])),
        NemesisOrOp::Op(Op::Write(1, 1)),
        NemesisOrOp::NemesisType(NemesisType::Kill(vec![1])),
        NemesisOrOp::Op(Op::Read(1, None)),
        NemesisOrOp::NemesisType(NemesisType::Kill(vec![2])),
    ];
    let mut ids = IdSet::new();
    let gen = GeneratorBuilder::new().seq(items).build(&mut ids);
    let group = GeneratorGroup::new(vec![gen]);

    let source = VecSource { ops: Vec::new(), at: 0 };
    let mut client = JepsenClient::new(KvStore::default(), source);
    let mut fault_cluster = CountingCluster::default();
    let mut register = NemesisRegister::new(NemesisRegisterStrategy::FIFO(2));

    let (res, _log) = run_nemesis_session(&mut client, &mut fault_cluster, group, &mut register);
    assert!(res.is_ok());
    assert!(register.is_empty());
    // Exactly three injections, each matched by a recovery.
    assert_eq!(fault_cluster.kills, 3);
    assert_eq!(fault_cluster.restarts, 3);

    // The data operations were recorded and paired.
    let h = &client.global.history;
    assert_eq!(h.0.len(), 4);
    assert!(matches!(h.0[0].type_, HistoryType::Invoke));
    assert!(matches!(h.0[1].type_, HistoryType::Okay));
}

#[test]
fn explicit_recovery_pops_by_policy() {
    let items = vec![
        NemesisOrOp::NemesisType(NemesisType::Kill(vec![0])),
        NemesisOrOp::NemesisType(NemesisType::Kill(vec![1])),
        NemesisOrOp::NemesisRecord(jepsen_rs::nemesis::NemesisRecord::Noop),
    ];
    let mut ids = IdSet::new();
    let gen = GeneratorBuilder::new().seq(items).build(&mut ids);
    let group = GeneratorGroup::new(vec![gen]);

    let source = VecSource { ops: Vec::new(), at: 0 };
    let mut client = JepsenClient::new(KvStore::default(), source);
    let mut fault_cluster = CountingCluster::default();
    let mut register = NemesisRegister::new(NemesisRegisterStrategy::FIFO(4));

    let (res, _log) = run_nemesis_session(&mut client, &mut fault_cluster, group, &mut register);
    assert!(res.is_ok());
    assert!(register.is_empty());
    assert_eq!(fault_cluster.kills, 2);
    assert_eq!(fault_cluster.restarts, 2);
}

#[test]
fn infeasible_nemesis_aborts_after_draining() {
    let items = vec![
        NemesisOrOp::NemesisType(NemesisType::Kill(vec![0])),
        // Three servers cannot be split off a three-server cluster.
        NemesisOrOp::NemesisType(NemesisType::PartitionHalves(vec![0, 1, 2])),
        NemesisOrOp::Op(Op::Write(1, 1)),
    ];
    let mut ids = IdSet::new();
    let gen = GeneratorBuilder::new().seq(items).build(&mut ids);
    let group = GeneratorGroup::new(vec![gen]);

    let source = VecSource { ops: Vec::new(), at: 0 };
    let mut client = JepsenClient::new(KvStore::default(), source);
    let mut fault_cluster = CountingCluster::default();
    let mut register = NemesisRegister::new(NemesisRegisterStrategy::FIFO(2));

    let (res, _log) = run_nemesis_session(&mut client, &mut fault_cluster, group, &mut register);
    assert!(res.is_err());
    assert!(register.is_empty());
    assert_eq!(fault_cluster.kills, 1);
    assert_eq!(fault_cluster.restarts, 1);
    // The run aborted before the write.
    assert_eq!(client.global.history.0.len(), 0);
}

#[test]
fn test_nemesis_and_op_generator_intergration() {
    let mut ids = IdSet::new();
    let data = GeneratorBuilder::new()
        .seq(vec![
            NemesisOrOp::Op(Op::Write(1, 1)),
            NemesisOrOp::Op(Op::Txn(vec![Op::Read(1, Some(1)), Op::Write(1, 1)])),
        ])
        .build(&mut ids);
    let nemesis = GeneratorBuilder::new()
        .seq(vec![NemesisOrOp::NemesisType(NemesisType::SplitOne(1))])
        .build(&mut ids);
    let group =
        GeneratorGroup::new(vec![data, nemesis]).with_strategy(GeneratorGroupStrategy::Chain);
    assert_eq!(
        group.collect(),
        vec![
            NemesisOrOp::Op(Op::Write(1, 1)),
            NemesisOrOp::Op(Op::Txn(vec![Op::Read(1, Some(1)), Op::Write(1, 1)])),
            NemesisOrOp::NemesisType(NemesisType::SplitOne(1)),
        ]
    );
}
