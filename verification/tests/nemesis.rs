use std::collections::{HashMap, HashSet, VecDeque};

use jepsen_rs::nemesis::register::{NemesisRegister, NemesisRegisterStrategy};
use jepsen_rs::nemesis::{
    calculate_nemesis, kill_servers, majority, partition_halves, partition_leader_and_majority,
    partition_majorities_ring, partition_one, partition_random_n, NemesisCluster, NemesisExecutor,
    NemesisRecord, NemesisType, NetRecord, ServerId,
};

/// An in-memory cluster: which servers each server can still send to.
#[derive(Debug, Default)]
struct MockCluster {
    connections: HashMap<ServerId, HashSet<ServerId>>,
    kills: usize,
    restarts: usize,
}

impl MockCluster {
    fn new(n: usize) -> Self {
        let mut map = HashMap::new();
        for i in 0..n as u64 {
            let mut peers: HashSet<ServerId> = (0..n as u64).collect();
            peers.remove(&i);
            map.insert(i, peers);
        }
        MockCluster { connections: map, kills: 0, restarts: 0 }
    }

    fn connected_one_way(&self, fst: ServerId, snd: ServerId) -> bool {
        self.connections.get(&fst).unwrap().contains(&snd)
    }

    fn connected_two_way(&self, fst: ServerId, snd: ServerId) -> bool {
        self.connected_one_way(fst, snd) && self.connected_one_way(snd, fst)
    }

    fn assert_connections(&self, other: Vec<Vec<ServerId>>) {
        let expected: HashMap<ServerId, HashSet<ServerId>> = other
            .into_iter()
            .enumerate()
            .map(|(i, peers)| (i as u64, peers.into_iter().collect()))
            .collect();
        assert_eq!(self.connections, expected);
    }

    /// All servers reachable from `start`, by breadth-first search.
    fn get_all_reachable_nodes(&self, start: ServerId) -> HashSet<ServerId> {
        let mut res = HashSet::new();
        let mut q = VecDeque::from([start]);
        while let Some(x) = q.pop_front() {
            res.insert(x);
            q.extend(self.connections.get(&x).unwrap().iter().filter(|y| !res.contains(y)));
        }
        res
    }
}

impl NemesisCluster for MockCluster {
    fn kill(&mut self, servers: &Vec<ServerId>) {
        self.kills += servers.len();
    }

    fn restart(&mut self, servers: &Vec<ServerId>) {
        self.restarts += servers.len();
    }

    fn pause(&mut self, _servers: &Vec<ServerId>) {}

    fn resume(&mut self, _servers: &Vec<ServerId>) {}

    fn get_leader_without_term(&mut self) -> ServerId {
        0
    }

    fn clog_link_both(&mut self, fst: ServerId, snd: ServerId) {
        self.clog_link_single(fst, snd);
        self.clog_link_single(snd, fst);
    }

    fn unclog_link_both(&mut self, fst: ServerId, snd: ServerId) {
        self.unclog_link_single(fst, snd);
        self.unclog_link_single(snd, fst);
    }

    fn clog_link_single(&mut self, fst: ServerId, snd: ServerId) {
        if fst != snd {
            self.connections.get_mut(&fst).unwrap().remove(&snd);
        }
    }

    fn unclog_link_single(&mut self, fst: ServerId, snd: ServerId) {
        if fst != snd {
            self.connections.get_mut(&fst).unwrap().insert(snd);
        }
    }

    fn size(&self) -> usize {
        self.connections.len()
    }
}

#[test]
fn test_mock_cluster() {
    let cluster = MockCluster::new(4);
    cluster.assert_connections(vec![vec![1, 2, 3], vec![0, 2, 3], vec![0, 1, 3], vec![0, 1, 2]]);
}

#[test]
fn test_execute_nemesis_record() {
    let mut cluster = MockCluster::new(3);
    cluster.execute(&NemesisRecord::Net(NetRecord { links: vec![(0, 1), (0, 2)] }));
    cluster.assert_connections(vec![vec![], vec![0, 2], vec![0, 1]]);
    cluster.execute(&NemesisRecord::Net(NetRecord { links: vec![(1, 2)] }));
    cluster.assert_connections(vec![vec![], vec![0], vec![0, 1]]);
}

#[test]
fn recover_undoes_a_net_record() {
    let mut cluster = MockCluster::new(3);
    let record = NemesisRecord::Net(NetRecord { links: vec![(0, 1), (1, 0), (2, 1)] });
    cluster.execute(&record);
    assert!(!cluster.connected_one_way(0, 1));
    cluster.recover(&record);
    cluster.assert_connections(vec![vec![1, 2], vec![0, 2], vec![0, 1]]);
}

#[test]
fn test_partition_halves() {
    let mut cluster = MockCluster::new(5);
    let record = partition_halves(vec![0, 1, 2], cluster.size()).unwrap();
    cluster.execute(&record);
    cluster.assert_connections(vec![vec![1, 2], vec![0, 2], vec![0, 1], vec![4], vec![3]]);

    let mut cluster = MockCluster::new(6);
    let record = partition_halves(vec![0, 1, 2], cluster.size()).unwrap();
    cluster.execute(&record);
    cluster.assert_connections(vec![
        vec![1, 2],
        vec![0, 2],
        vec![0, 1],
        vec![4, 5],
        vec![3, 5],
        vec![3, 4],
    ]);
}

#[test]
fn partition_halves_emits_both_directions() {
    let record = partition_halves(vec![0, 2], 4).unwrap();
    let net = match record {
        NemesisRecord::Net(net) => net,
        _ => panic!("a halves partition yields a net record"),
    };
    for a in [0u64, 2] {
        for b in [1u64, 3] {
            assert!(net.contains_link(a, b));
            assert!(net.contains_link(b, a));
        }
    }
    assert!(!net.contains_link(0, 2));
    assert!(!net.contains_link(1, 3));
}

#[test]
fn partition_halves_needs_a_smaller_half() {
    assert!(partition_halves(vec![0, 1, 2], 3).is_err());
    // Duplicates do not count against the half's size.
    assert!(partition_halves(vec![0, 0, 0], 3).is_ok());
}

#[test]
fn split_one_is_a_halves_partition_of_one() {
    let mut cluster = MockCluster::new(3);
    let record = partition_one(1, cluster.size()).unwrap();
    cluster.execute(&record);
    cluster.assert_connections(vec![vec![2], vec![], vec![0]]);
}

#[test]
fn test_partition_majorities_ring() {
    let mut cluster = MockCluster::new(4);
    let record = partition_majorities_ring(cluster.size()).unwrap();
    cluster.execute(&record);
    cluster.assert_connections(vec![vec![1, 3], vec![0, 2], vec![1, 3], vec![0, 2]]);

    let mut cluster = MockCluster::new(6);
    let record = partition_majorities_ring(cluster.size()).unwrap();
    cluster.execute(&record);
    cluster.assert_connections(vec![
        vec![1, 3, 5],
        vec![0, 2, 4],
        vec![1, 3, 5],
        vec![0, 2, 4],
        vec![1, 3, 5],
        vec![0, 2, 4],
    ]);
}

#[test]
fn majorities_ring_keeps_half_reachable_on_even_clusters() {
    for n in [4usize, 6, 8, 10] {
        let mut cluster = MockCluster::new(n);
        let record = partition_majorities_ring(n).unwrap();
        cluster.execute(&record);
        for i in 0..n as u64 {
            assert_eq!(cluster.connections.get(&i).unwrap().len(), n / 2);
        }
    }
}

#[test]
fn majorities_ring_on_odd_clusters() {
    // Five servers: each keeps its two ring neighbours.
    let mut cluster = MockCluster::new(5);
    let record = partition_majorities_ring(5).unwrap();
    cluster.execute(&record);
    cluster.assert_connections(vec![vec![1, 4], vec![0, 2], vec![1, 3], vec![2, 4], vec![0, 3]]);

    // Seven servers: the counts are not uniform (server 3 keeps four peers).
    let mut cluster = MockCluster::new(7);
    let record = partition_majorities_ring(7).unwrap();
    cluster.execute(&record);
    cluster.assert_connections(vec![
        vec![1, 3, 6],
        vec![0, 2, 4],
        vec![1, 3, 5],
        vec![0, 2, 4, 6],
        vec![1, 3, 5],
        vec![2, 4, 6],
        vec![0, 3, 5],
    ]);
}

#[test]
fn majorities_ring_records_no_self_links() {
    for n in [4usize, 5, 6, 7] {
        let record = partition_majorities_ring(n).unwrap();
        let net = match record {
            NemesisRecord::Net(net) => net,
            _ => panic!("the ring partition yields a net record"),
        };
        for i in 0..n as u64 {
            assert!(!net.contains_link(i, i));
        }
    }
}

#[test]
fn majorities_ring_needs_at_least_four_servers() {
    assert!(partition_majorities_ring(3).is_err());
    assert!(partition_majorities_ring(4).is_ok());
}

#[test]
fn test_partition_leader_and_majority() {
    let mut cluster = MockCluster::new(5);
    let record = partition_leader_and_majority(&mut cluster).unwrap();
    cluster.execute(&record);
    let leader = 0;
    let connected = (1..5u64).filter(|x| cluster.connected_two_way(leader, *x)).count();
    assert!(connected < majority(cluster.size()));
}

#[test]
fn test_leader_send_to_majority_but_cannot_receive() {
    let mut cluster = MockCluster::new(5);
    let record =
        jepsen_rs::nemesis::leader_send_to_majority_but_cannot_receive(&mut cluster).unwrap();
    cluster.execute(&record);
    let leader = 0;
    let incoming = (1..5u64).filter(|x| cluster.connected_one_way(*x, leader)).count();
    assert!(incoming < majority(cluster.size()));
    // The leader can still send to everyone.
    let outgoing = (1..5u64).filter(|x| cluster.connected_one_way(leader, *x)).count();
    assert_eq!(outgoing, 4);
}

#[test]
fn test_partition_random_n() {
    let mut cluster = MockCluster::new(6);
    let record = partition_random_n(3, cluster.size()).unwrap();
    cluster.execute(&record);
    assert_eq!(cluster.get_all_reachable_nodes(0).len(), 3);
}

#[test]
fn partition_random_n_needs_a_smaller_count() {
    assert!(partition_random_n(6, 6).is_err());
    assert!(partition_random_n(5, 6).is_ok());
}

#[test]
fn kill_record_drops_duplicates() {
    match kill_servers(vec![2, 1, 2, 1]) {
        NemesisRecord::Kill(mut servers) => {
            servers.sort();
            assert_eq!(servers, vec![1, 2]);
        },
        _ => panic!("killing yields a kill record"),
    }
}

#[test]
fn calculate_noop_is_noop() {
    let mut cluster = MockCluster::new(3);
    assert_eq!(calculate_nemesis(&mut cluster, NemesisType::Noop), Ok(NemesisRecord::Noop));
    let record = calculate_nemesis(&mut cluster, NemesisType::Kill(vec![1])).unwrap();
    assert_eq!(record, NemesisRecord::Kill(vec![1]));
}

#[test]
fn register_fifo_evicts_the_oldest() {
    let mut reg = NemesisRegister::new(NemesisRegisterStrategy::FIFO(2));
    let r1 = NemesisRecord::Kill(vec![1]);
    let r2 = NemesisRecord::Kill(vec![2]);
    let r3 = NemesisRecord::Kill(vec![3]);
    assert_eq!(reg.push(r1.clone()), None);
    assert_eq!(reg.push(r2.clone()), None);
    assert_eq!(reg.push(r3.clone()), Some(r1));
    assert_eq!(reg.len(), 2);
    assert_eq!(reg.pop_next(), Some(r2));
    assert_eq!(reg.pop_next(), Some(r3));
    assert_eq!(reg.pop_next(), None);
    assert!(reg.is_empty());
}

#[test]
fn register_random_queue_evicts_something_stored() {
    let mut reg = NemesisRegister::new(NemesisRegisterStrategy::RandomQueue(2));
    let r1 = NemesisRecord::Kill(vec![1]);
    let r2 = NemesisRecord::Kill(vec![2]);
    let r3 = NemesisRecord::Kill(vec![3]);
    assert_eq!(reg.push(r1.clone()), None);
    assert_eq!(reg.push(r2.clone()), None);
    let evicted = reg.push(r3.clone()).unwrap();
    assert!(evicted == r1 || evicted == r2);
    assert_eq!(reg.len(), 2);
}
