//! Fault injection: declarative nemesis intents, the calculator that turns
//! an intent into a concrete, recoverable record against the cluster
//! topology, and the executor that applies and reverts records.

pub mod register;

use crate::random::random_u64_below;
use crate::utils::{add_in_range, select_numbers_from_range, spec_add_range};
use vstd::prelude::*;

verus! {

/// A server's identity in the cluster, counted from zero.
pub type ServerId = u64;

/// The record of clogged one-directional links: `(a, b)` means messages from
/// `a` to `b` are dropped. Each directed link appears at most once.
#[derive(Debug, Clone, PartialEq, Eq)]
pub struct NetRecord {
    pub links: Vec<(ServerId, ServerId)>,
}

impl NetRecord {
    /// Each directed link is recorded at most once.
    pub open spec fn wf(self) -> bool {
        forall|i: int, j: int| 0 <= i < j < self.links@.len() ==> self.links@[i] != self.links@[j]
    }

    /// The set of clogged directed links.
    pub open spec fn edge_set(self) -> Set<(ServerId, ServerId)> {
        self.links@.to_set()
    }

    /// An empty record: nothing clogged.
    pub fn new() -> (r: NetRecord)
        ensures
            r.wf(),
            r.edge_set() =~= Set::<(ServerId, ServerId)>::empty(),
            r.links@.len() == 0,
    {
        let r = NetRecord { links: Vec::new() };
        proof {
            assert(r.links@.to_set() =~= Set::<(ServerId, ServerId)>::empty());
        }
        r
    }

    /// Whether the one-directional link `fst -> snd` is recorded.
    pub fn contains_link(&self, fst: ServerId, snd: ServerId) -> (r: bool)
        ensures
            r == self.edge_set().contains((fst, snd)),
    {
        let mut i: usize = 0;
        while i < self.links.len()
            invariant
                i <= self.links@.len(),
                forall|j: int| 0 <= j < i ==> self.links@[j] != (fst, snd),
            decreases self.links@.len() - i,
        {
            let (a, b) = self.links[i];
            if a == fst && b == snd {
                proof {
                    assert(self.links@.contains((fst, snd)));
                }
                return true;
            }
            i = i + 1;
        }
        proof {
            assert(!self.links@.contains((fst, snd)));
        }
        false
    }

    /// Record the one-directional link `fst -> snd` as clogged.
    pub fn clog_link_single_record(&mut self, fst: ServerId, snd: ServerId)
        requires
            old(self).wf(),
        ensures
            final(self).wf(),
            final(self).edge_set() =~= old(self).edge_set().insert((fst, snd)),
    {
        if !self.contains_link(fst, snd) {
            let ghost before = self.links@;
            self.links.push((fst, snd));
            proof {
                assert(final(self).links@.to_set() =~= before.to_set().insert((fst, snd))) by {
                    assert forall|e: (ServerId, ServerId)|
                        final(self).links@.to_set().contains(e) <==> before.to_set().insert(
                            (fst, snd),
                        ).contains(e) by {
                        if final(self).links@.contains(e) {
                            let k = choose|k: int|
                                0 <= k < final(self).links@.len() && final(self).links@[k] == e;
                            if k < before.len() {
                                assert(before.contains(e));
                            }
                        }
                        if before.contains(e) {
                            let k = choose|k: int| 0 <= k < before.len() && before[k] == e;
                            assert(final(self).links@[k] == e);
                            assert(final(self).links@.contains(e));
                        }
                        if e == (fst, snd) {
                            assert(final(self).links@[before.len() as int] == e);
                            assert(final(self).links@.contains(e));
                        }
                    }
                }
                assert forall|i: int, j: int|
                    0 <= i < j < final(self).links@.len() implies final(self).links@[i]
                    != final(self).links@[j] by {
                    if j == final(self).links@.len() - 1 {
                        assert(before.contains(before[i]));
                        assert(!before.to_set().contains((fst, snd)));
                    }
                }
            }
        } else {
            proof {
                assert(old(self).edge_set().insert((fst, snd)) =~= old(self).edge_set());
            }
        }
    }

    /// Record both directions between `fst` and `snd` as clogged.
    pub fn clog_link_both_record(&mut self, fst: ServerId, snd: ServerId)
        requires
            old(self).wf(),
        ensures
            final(self).wf(),
            final(self).edge_set() =~= old(self).edge_set().insert((fst, snd)).insert((snd, fst)),
    {
        self.clog_link_single_record(fst, snd);
        self.clog_link_single_record(snd, fst);
    }
}

/// The nemesis kinds the wire form names, serialized as kebab keywords such
/// as `:bitflip-wal` or `:partition`.
#[derive(Debug, Clone, Copy, PartialEq, Eq)]
pub enum SerializableNemesisType {
    BitflipWal,
    BitflipSnap,
    TruncateWal,
    Pause,
    Kill,
    Partition,
    Clock,
}

/// A declarative fault request, phrased against roles rather than concrete
/// links.
#[derive(Debug, Clone, PartialEq, Eq)]
pub enum NemesisType {
    /// Do nothing; a no-op is not recorded to the history.
    Noop,
    Kill(Vec<ServerId>),
    Pause(Vec<ServerId>),
    SplitOne(ServerId),
    PartitionHalves(Vec<ServerId>),
    PartitionRandomN(usize),
    PartitionMajoritiesRing,
    PartitionLeaderAndMajority,
    LeaderSendToMajorityButCannotReceive,
}

/// The concrete, recoverable effect of an executed nemesis. Faults without a
/// recovery (bit flips, truncations) never appear here.
#[derive(Debug, Clone, PartialEq, Eq)]
pub enum NemesisRecord {
    /// Do nothing; a no-op is not recorded to the history.
    Noop,
    Kill(Vec<ServerId>),
    Pause(Vec<ServerId>),
    /// The links that have been clogged.
    Net(NetRecord),
}

/// The fault capability of a cluster under test, implemented by its users.
/// Nothing is assumed of these calls beyond their signatures.
pub trait NemesisCluster {
    fn kill(&mut self, servers: &Vec<ServerId>);

    fn restart(&mut self, servers: &Vec<ServerId>);

    fn pause(&mut self, servers: &Vec<ServerId>);

    fn resume(&mut self, servers: &Vec<ServerId>);

    fn get_leader_without_term(&mut self) -> ServerId;

    fn clog_link_both(&mut self, fst: ServerId, snd: ServerId);

    fn unclog_link_both(&mut self, fst: ServerId, snd: ServerId);

    fn clog_link_single(&mut self, fst: ServerId, snd: ServerId);

    fn unclog_link_single(&mut self, fst: ServerId, snd: ServerId);

    fn size(&self) -> usize;
}

/// A majority of `size` servers.
pub open spec fn spec_majority(size: int) -> int {
    size / 2 + 1
}

/// How many servers form a majority.
pub fn majority(size: usize) -> (r: usize)
    requires
        size < usize::MAX,
    ensures
        r == spec_majority(size as int),
{
    size / 2 + 1
}

/// Keep the first occurrence of each id, in order.
#[verifier::loop_isolation(false)]
fn dedup_ids(v: &Vec<ServerId>) -> (r: Vec<ServerId>)
    ensures
        r@.no_duplicates(),
        forall|x: ServerId| r@.contains(x) <==> v@.contains(x),
        r@.len() <= v@.len(),
{
    let mut out: Vec<ServerId> = Vec::new();
    let mut i: usize = 0;
    while i < v.len()
        invariant
            i <= v@.len(),
            out@.len() <= i,
            out@.no_duplicates(),
            forall|x: ServerId| out@.contains(x) <==> v@.subrange(0, i as int).contains(x),
        decreases v@.len() - i,
    {
        let ghost prefix = v@.subrange(0, i as int);
        let ghost out_before = out@;
        let x = v[i];
        let mut seen = false;
        let mut j: usize = 0;
        while j < out.len()
            invariant
                j <= out@.len(),
                out@ == out_before,
                seen <==> exists|k: int| 0 <= k < j && out@[k] == x,
            decreases out@.len() - j,
        {
            if out[j] == x {
                seen = true;
            }
            j = j + 1;
        }
        proof {
            assert(seen == out_before.contains(x));
        }
        if !seen {
            out.push(x);
        }
        proof {
            let prefix2 = v@.subrange(0, i + 1);
            assert(prefix2 =~= prefix.push(x));
            assert forall|y: ServerId| out@.contains(y) <==> prefix2.contains(y) by {
                if out@.contains(y) {
                    let k = choose|k: int| 0 <= k < out@.len() && out@[k] == y;
                    if k < out_before.len() {
                        assert(out_before.contains(y));
                        assert(prefix.contains(y));
                        let m = choose|m: int| 0 <= m < prefix.len() && prefix[m] == y;
                        assert(prefix2[m] == y);
                    } else {
                        assert(y == x);
                        assert(prefix2[prefix.len() as int] == x);
                    }
                    assert(prefix2.contains(y));
                }
                if prefix2.contains(y) {
                    let m = choose|m: int| 0 <= m < prefix2.len() && prefix2[m] == y;
                    if m < prefix.len() {
                        assert(prefix.contains(y));
                        assert(out_before.contains(y));
                        let k = choose|k: int| 0 <= k < out_before.len() && out_before[k] == y;
                        assert(out@[k] == y);
                    } else {
                        assert(y == x);
                        if seen {
                            let k = choose|k: int|
                                0 <= k < out_before.len() && out_before[k] == x;
                            assert(out@[k] == x);
                        } else {
                            assert(out@[out_before.len() as int] == x);
                        }
                    }
                    assert(out@.contains(y));
                }
            }
            if !seen {
                assert forall|a: int, b: int|
                    0 <= a < b < out@.len() implies out@[a] != out@[b] by {
                    if b == out@.len() - 1 {
                        assert(out_before.contains(out_before[a]));
                    }
                }
            }
        }
        i = i + 1;
    }
    proof {
        assert(v@.subrange(0, v@.len() as int) =~= v@);
    }
    out
}

/// The record that kills the given servers, duplicates dropped.
pub fn kill_servers(servers: Vec<ServerId>) -> (r: NemesisRecord)
    ensures
        r matches NemesisRecord::Kill(s) && s@.no_duplicates() && (forall|x: ServerId|
            s@.contains(x) <==> servers@.contains(x)),
{
    NemesisRecord::Kill(dedup_ids(&servers))
}

/// The record that pauses the given servers, duplicates dropped.
pub fn pause_servers(servers: Vec<ServerId>) -> (r: NemesisRecord)
    ensures
        r matches NemesisRecord::Pause(s) && s@.no_duplicates() && (forall|x: ServerId|
            s@.contains(x) <==> servers@.contains(x)),
{
    NemesisRecord::Pause(dedup_ids(&servers))
}

/// The links a two-halves partition of servers `s` against the rest of a
/// `size`-server cluster clogs: both directions between every member and
/// every non-member.
pub open spec fn halves_edges(s: Set<ServerId>, size: int) -> Set<(ServerId, ServerId)> {
    Set::new(
        |e: (ServerId, ServerId)|
            (s.contains(e.0) && e.1 < size && !s.contains(e.1)) || (s.contains(e.1) && e.0 < size
                && !s.contains(e.0)),
    )
}

/// The two-halves partition: clog both directions of every link between a
/// given server and a server outside the given set. The given half must be
/// smaller than the cluster; otherwise the request is infeasible.
pub fn partition_halves(servers: Vec<ServerId>, size: usize) -> (r: Result<
    NemesisRecord,
    &'static str,
>)
    requires
        size < usize::MAX,
    ensures
        r matches Ok(rec) ==> rec matches NemesisRecord::Net(net) && net.wf() && net.edge_set()
            =~= halves_edges(servers@.to_set(), size as int),
        r is Ok <==> servers@.to_set().len() < size,
{
    let set1 = dedup_ids(&servers);
    proof {
        set1@.unique_seq_to_set();
        assert(set1@.to_set() =~= servers@.to_set()) by {
            assert forall|x: ServerId|
                set1@.to_set().contains(x) <==> servers@.to_set().contains(x) by {
                assert(set1@.to_set().contains(x) == set1@.contains(x));
                assert(servers@.to_set().contains(x) == servers@.contains(x));
            }
        }
    }
    if set1.len() >= size {
        return Err("set1 must be smaller than cluster size");
    }
    let mut rec = NetRecord::new();
    let ghost s = servers@.to_set();
    let mut i: usize = 0;
    while i < set1.len()
        invariant
            size < u64::MAX,
            i <= set1@.len(),
            rec.wf(),
            forall|x: ServerId| set1@.contains(x) <==> s.contains(x),
            rec.edge_set() =~= Set::new(
                |e: (ServerId, ServerId)|
                    ((exists|a: int| 0 <= a < i && set1@[a] == e.0) && e.1 < size && !s.contains(
                        e.1,
                    )) || ((exists|a: int| 0 <= a < i && set1@[a] == e.1) && e.0 < size
                        && !s.contains(e.0)),
            ),
        decreases set1@.len() - i,
    {
        let x = set1[i];
        let mut y: u64 = 0;
        let ghost prev = rec.edge_set();
        while y < size as u64
            invariant
                size < u64::MAX,
                i < set1@.len(),
                x == set1@[i as int],
                y <= size,
                rec.wf(),
                forall|z: ServerId| set1@.contains(z) <==> s.contains(z),
                rec.edge_set() =~= prev.union(
                    Set::new(
                        |e: (ServerId, ServerId)|
                            (e.0 == x && e.1 < y && !s.contains(e.1)) || (e.1 == x && e.0 < y
                                && !s.contains(e.0)),
                    ),
                ),
            decreases size - y,
        {
            let mut member = false;
            let mut j: usize = 0;
            while j < set1.len()
                invariant
                    j <= set1@.len(),
                    member <==> exists|k: int| 0 <= k < j && set1@[k] == y,
                decreases set1@.len() - j,
            {
                if set1[j] == y {
                    member = true;
                }
                j = j + 1;
            }
            proof {
                assert(member == set1@.contains(y));
            }
            if !member {
                rec.clog_link_both_record(x, y);
            }
            proof {
                assert(rec.edge_set() =~= prev.union(
                    Set::new(
                        |e: (ServerId, ServerId)|
                            (e.0 == x && e.1 < y + 1 && !s.contains(e.1)) || (e.1 == x && e.0 < y
                                + 1 && !s.contains(e.0)),
                    ),
                ));
            }
            y = y + 1;
        }
        proof {
            assert(set1@.contains(x));
            assert(rec.edge_set() =~= Set::new(
                |e: (ServerId, ServerId)|
                    ((exists|a: int| 0 <= a < i + 1 && set1@[a] == e.0) && e.1 < size
                        && !s.contains(e.1)) || ((exists|a: int| 0 <= a < i + 1 && set1@[a] == e.1)
                        && e.0 < size && !s.contains(e.0)),
            ));
        }
        i = i + 1;
    }
    proof {
        assert(rec.edge_set() =~= halves_edges(s, size as int));
    }
    Ok(NemesisRecord::Net(rec))
}

/// Partition one server away from the rest of the cluster.
pub fn partition_one(server: ServerId, size: usize) -> (r: Result<NemesisRecord, &'static str>)
    requires
        size < usize::MAX,
    ensures
        r matches Ok(rec) ==> rec matches NemesisRecord::Net(net) && net.wf() && net.edge_set()
            =~= halves_edges(seq![server].to_set(), size as int),
        r is Ok <==> size > 1,
{
    let mut servers: Vec<ServerId> = Vec::new();
    servers.push(server);
    proof {
        assert(servers@ =~= seq![server]);
        assert(servers@.no_duplicates());
        servers@.unique_seq_to_set();
    }
    partition_halves(servers, size)
}

/// Whether a vector of ids contains `x`.
fn vec_contains_id(v: &Vec<usize>, x: usize) -> (r: bool)
    ensures
        r == v@.contains(x),
{
    let mut i: usize = 0;
    while i < v.len()
        invariant
            i <= v@.len(),
            forall|j: int| 0 <= j < i ==> v@[j] != x,
        decreases v@.len() - i,
    {
        if v[i] == x {
            proof {
                assert(v@.contains(x));
            }
            return true;
        }
        i = i + 1;
    }
    proof {
        assert(!v@.contains(x));
    }
    false
}

/// Partition `n` randomly chosen distinct servers away from the rest. The
/// chosen count must be smaller than the cluster; otherwise the request is
/// infeasible.
#[verifier::loop_isolation(false)]
pub fn partition_random_n(n: usize, size: usize) -> (r: Result<NemesisRecord, &'static str>)
    requires
        size < usize::MAX,
    ensures
        r is Ok <==> n < size,
        r matches Ok(rec) ==> exists|picked: Set<ServerId>|
            {
                &&& picked.len() == n
                &&& (forall|x: ServerId| picked.contains(x) ==> x < size)
                &&& rec matches NemesisRecord::Net(net) && net.wf() && net.edge_set()
                    =~= halves_edges(picked, size as int)
            },
{
    if n >= size {
        return Err("n must be smaller than cluster size");
    }
    let mut pool: Vec<ServerId> = Vec::new();
    let mut i: u64 = 0;
    while i < size as u64
        invariant
            i <= size,
            pool@.len() == i,
            forall|j: int| 0 <= j < i ==> pool@[j] == j,
        decreases size - i,
    {
        pool.push(i);
        i = i + 1;
    }
    proof {
        assert(pool@.no_duplicates());
        assert(forall|j: int| 0 <= j < pool@.len() ==> pool@[j] < size);
    }
    let mut part: Vec<ServerId> = Vec::new();
    let mut taken: usize = 0;
    while taken < n
        invariant
            taken <= n,
            part@.len() == taken,
            pool@.len() == size - taken,
            pool@.no_duplicates(),
            part@.no_duplicates(),
            forall|j: int| 0 <= j < pool@.len() ==> pool@[j] < size,
            forall|j: int| 0 <= j < part@.len() ==> part@[j] < size,
            forall|x: ServerId| !(pool@.contains(x) && part@.contains(x)),
        decreases n - taken,
    {
        let idx_u = random_u64_below(pool.len() as u64);
        let idx = idx_u as usize;
        let ghost pool_before = pool@;
        let picked = pool.swap_remove(idx);
        proof {
            assert(pool_before.contains(picked));
            assert forall|a: int, b: int| 0 <= a < b < pool@.len() implies pool@[a] != pool@[b] by {
                assert(pool@ =~= pool_before.update(idx as int, pool_before.last()).drop_last());
            }
            assert forall|x: ServerId| pool@.contains(x) implies pool_before.contains(x) && x
                < size by {
                let k = choose|k: int| 0 <= k < pool@.len() && pool@[k] == x;
                assert(pool@ =~= pool_before.update(idx as int, pool_before.last()).drop_last());
            }
            assert(!pool@.contains(picked)) by {
                if pool@.contains(picked) {
                    let k = choose|k: int| 0 <= k < pool@.len() && pool@[k] == picked;
                    assert(pool@ =~= pool_before.update(idx as int, pool_before.last()).drop_last());
                    if k != idx {
                        assert(pool_before[k] == picked && pool_before[idx as int] == picked);
                    } else {
                        assert(pool_before.last() == picked);
                        assert(idx < pool_before.len() - 1);
                    }
                }
            }
            assert forall|a: int, b: int| 0 <= a < b < part@.push(picked).len() implies part@.push(
                picked,
            )[a] != part@.push(picked)[b] by {
                if b == part@.len() {
                    assert(part@.contains(part@[a]));
                }
            }
        }
        let ghost part_before = part@;
        part.push(picked);
        proof {
            assert forall|x: ServerId| !(pool@.contains(x) && part@.contains(x)) by {
                if pool@.contains(x) && part@.contains(x) {
                    let k = choose|k: int| 0 <= k < part@.len() && part@[k] == x;
                    if k < part_before.len() {
                        assert(part_before.contains(x));
                        assert(pool_before.contains(x));
                    } else {
                        assert(x == picked);
                    }
                }
            }
        }
        taken = taken + 1;
    }
    let ghost chosen = part@;
    let res = partition_halves(part, size);
    proof {
        chosen.unique_seq_to_set();
        assert(chosen.to_set().len() == n);
        assert(forall|x: ServerId| chosen.to_set().contains(x) ==> x < size);
        assert(chosen.to_set().len() < size);
    }
    res
}

/// Two servers stand on the same side of the majorities ring exactly when
/// their ids have the same parity (for an even cluster).
pub open spec fn same_parity(a: int, b: int) -> bool {
    a % 2 == b % 2
}

/// The links the majorities-ring partition of an even cluster clogs: both
/// directions of every link between two distinct same-parity servers. A
/// server has no link to itself, so no self pair is ever recorded.
pub open spec fn ring_edges_even(size: int) -> Set<(ServerId, ServerId)> {
    Set::new(
        |e: (ServerId, ServerId)|
            e.0 < size && e.1 < size && e.0 != e.1 && same_parity(e.0 as int, e.1 as int),
    )
}

/// For an even cluster, the servers the ring construction maps server `i`
/// to are exactly those after `i` with the other parity.
proof fn lemma_ring_expected_even(size: usize, i: usize, sel: Seq<usize>)
    requires
        4 <= size < usize::MAX,
        size as int % 2 == 0,
        i < size,
        sel.len() == size as int / 2,
        forall|k: int| 0 <= k < sel.len() ==> sel[k] == 2 * k,
    ensures
        forall|j: usize|
            j < size ==> ((exists|k: int|
                0 <= k < sel.len() && j == spec_add_range(sel[k], (i + 1) as usize, 0, size) && j
                    >= i) <==> (i <= j < size && !same_parity(i as int, j as int))),
{
    let m = size as int / 2;
    assert(size == 2 * m);
    assert forall|k: int|
        0 <= k < sel.len() implies spec_add_range(sel[k], (i + 1) as usize, 0, size) == (2 * k + i
        + 1) % (size as int) && !same_parity(i as int, (2 * k + i + 1) % (size as int)) by {
        let t = 2 * k + i + 1;
        assert(sel[k] == 2 * k);
        assert(sel[k] < size);
        assert(spec_add_range(sel[k], (i + 1) as usize, 0, size) == (2 * k + i + 1) % (
        size as int));
        vstd::arithmetic::div_mod::lemma_fundamental_div_mod(t, size as int);
        let q = t / (size as int);
        let jj = t % (size as int);
        vstd::arithmetic::div_mod::lemma_mod_bound(t, size as int);
        assert(t == size * q + jj);
        assert(0 <= t < 2 * (size as int));
        assert(q == 0 || q == 1) by {
            if q < 0 {
                assert(size * q <= -(size as int)) by (nonlinear_arith)
                    requires
                        q <= -1 && size >= 4,
                ;
            } else if q >= 2 {
                assert(size * q >= 2 * (size as int)) by (nonlinear_arith)
                    requires
                        q >= 2 && size >= 4,
                ;
            }
        }
        assert(jj % 2 == (i + 1) % 2) by {
            assert(size * q == 2 * (m * q)) by (nonlinear_arith)
                requires
                    size == 2 * m,
            ;
            assert(jj == 2 * (k - m * q) + (i + 1));
            vstd::arithmetic::div_mod::lemma_mod_multiples_vanish(k - m * q, i + 1, 2);
        }
        lemma_parity_step(i as int);
        assert(jj % 2 != i as int % 2);
    }
    assert forall|j: usize|
        j < size && i <= j && !same_parity(i as int, j as int) implies (exists|k: int|
        0 <= k < sel.len() && j == spec_add_range(sel[k], (i + 1) as usize, 0, size) && j
            >= i) by {
        assert(j != i);
        let k = (j - i - 1) as int / 2;
        assert((j - i - 1) as int % 2 == 0) by {
            lemma_parity_diff_even(i as int, j as int);
        }
        vstd::arithmetic::div_mod::lemma_fundamental_div_mod((j - i - 1) as int, 2);
        assert(j - i - 1 == 2 * k);
        assert(0 <= k < sel.len()) by {
            assert(2 * k <= size - 2);
        }
        assert(sel[k] == 2 * k);
        assert(spec_add_range(sel[k], (i + 1) as usize, 0, size) == (2 * k + i + 1) % (
        size as int));
        assert((2 * k + i + 1) % (size as int) == j) by {
            assert(2 * k + i + 1 == j);
            vstd::arithmetic::div_mod::lemma_small_mod(j as nat, size as nat);
        }
    }
}

/// `i + 1` flips parity.
proof fn lemma_parity_step(i: int)
    requires
        i >= 0,
    ensures
        (i + 1) % 2 != i % 2,
{
    vstd::arithmetic::div_mod::lemma_fundamental_div_mod(i, 2);
    vstd::arithmetic::div_mod::lemma_mod_bound(i, 2);
    let b = i / 2;
    if i % 2 == 0 {
        vstd::arithmetic::div_mod::lemma_mod_multiples_vanish(b, 1, 2);
        vstd::arithmetic::div_mod::lemma_small_mod(1nat, 2nat);
    } else {
        vstd::arithmetic::div_mod::lemma_mod_multiples_vanish(b + 1, 0, 2);
        vstd::arithmetic::div_mod::lemma_small_mod(0nat, 2nat);
    }
}

/// Two numbers of different parity differ by an odd amount: with `i < j`,
/// `j - i - 1` is even.
proof fn lemma_parity_diff_even(i: int, j: int)
    requires
        0 <= i < j,
        i % 2 != j % 2,
    ensures
        (j - i - 1) % 2 == 0,
{
    vstd::arithmetic::div_mod::lemma_fundamental_div_mod(i, 2);
    vstd::arithmetic::div_mod::lemma_fundamental_div_mod(j, 2);
    vstd::arithmetic::div_mod::lemma_mod_bound(i, 2);
    vstd::arithmetic::div_mod::lemma_mod_bound(j, 2);
    let a = j / 2;
    let b = i / 2;
    if j % 2 == 0 {
        assert(j - i - 1 == 2 * (a - b - 1));
        vstd::arithmetic::div_mod::lemma_mod_multiples_vanish(a - b - 1, 0, 2);
        vstd::arithmetic::div_mod::lemma_small_mod(0nat, 2nat);
    } else {
        assert(j - i - 1 == 2 * (a - b));
        vstd::arithmetic::div_mod::lemma_mod_multiples_vanish(a - b, 0, 2);
        vstd::arithmetic::div_mod::lemma_small_mod(0nat, 2nat);
    }
}

/// The offsets the ring construction selects: the `majority - 1` evenly
/// spaced positions of `0 .. size - 1` — each step is
/// `(size - 2) / (majority - 2)` and the last offset is pinned to
/// `size - 2`.
pub open spec fn ring_sel(size: int, k: int) -> int {
    let m = size / 2;
    if k == m - 1 {
        size - 2
    } else {
        k * ((size - 2) / (m - 1))
    }
}

/// Whether the ring construction keeps the forward link from `i` to `j`:
/// `j` is one of the `majority - 1` evenly spaced servers after `i`,
/// wrapping around the ring, and did not wrap back before `i`.
pub open spec fn ring_keeps(i: int, j: int, size: int) -> bool {
    exists|k: int|
        #![trigger ring_sel(size, k)]
        0 <= k < size / 2 && j == (i + 1 + ring_sel(size, k)) % size && j >= i
}

/// The links the majorities-ring partition clogs, for any feasible size:
/// both directions of every pair of distinct servers whose lower endpoint
/// does not keep the link forward to its upper endpoint.
pub open spec fn ring_edges(size: int) -> Set<(ServerId, ServerId)> {
    Set::new(
        |e: (ServerId, ServerId)|
            {
                let lo = if e.0 <= e.1 {
                    e.0
                } else {
                    e.1
                };
                let hi = if e.0 <= e.1 {
                    e.1
                } else {
                    e.0
                };
                e.0 != e.1 && e.0 < size && e.1 < size && !ring_keeps(lo as int, hi as int, size)
            },
    )
}

/// Partition the cluster into a ring in which every server still reaches a
/// majority: each server keeps its links to the `majority - 1` evenly
/// spaced servers after it and loses the rest. Each link is recorded once,
/// and only links between two distinct servers are recorded. The clogged
/// links are exactly [`ring_edges`]; for an even cluster they are exactly
/// those between distinct same-parity servers.
#[verifier::loop_isolation(false)]
#[verifier::rlimit(30)]
pub fn partition_majorities_ring(size: usize) -> (r: Result<NemesisRecord, &'static str>)
    requires
        size < usize::MAX,
    ensures
        r is Ok <==> size >= 4,
        r matches Ok(rec) ==> rec matches NemesisRecord::Net(net) && net.wf() && (forall|
            e: (ServerId, ServerId),
        |
            net.edge_set().contains(e) ==> e.0 < size && e.1 < size) && net.edge_set()
            =~= ring_edges(size as int) && (size % 2 == 0 ==> net.edge_set() =~= ring_edges_even(
            size as int,
        )),
{
    if size < 4 {
        return Err("cluster must hold at least four servers for a majorities ring");
    }
    let maj = majority(size);
    let mut rec = NetRecord::new();
    let ghost even = size % 2 == 0;
    let mut i: usize = 0;
    while i < size
        invariant
            4 <= size < u64::MAX,
            maj == size / 2 + 1,
            i <= size,
            rec.wf(),
            forall|e: (ServerId, ServerId)|
                rec.edge_set().contains(e) ==> e.0 < size && e.1 < size,
            even ==> rec.edge_set() =~= Set::new(
                |e: (ServerId, ServerId)|
                    e.0 < size && e.1 < size && e.0 != e.1 && same_parity(e.0 as int, e.1 as int)
                        && (e.0 < i || e.1 < i),
            ),
            rec.edge_set() =~= Set::new(
                |e: (ServerId, ServerId)|
                    {
                        let lo = if e.0 <= e.1 {
                            e.0
                        } else {
                            e.1
                        };
                        let hi = if e.0 <= e.1 {
                            e.1
                        } else {
                            e.0
                        };
                        e.0 != e.1 && e.0 < size && e.1 < size && lo < i && !ring_keeps(
                            lo as int,
                            hi as int,
                            size as int,
                        )
                    },
            ),
        decreases size - i,
    {
        let sel = select_numbers_from_range(size - 1, maj - 1);
        proof {
            if even {
                let m = size as int / 2;
                assert((size - 2) as int / (m - 1) == 2) by {
                    assert(size == 2 * m);
                    assert(size - 2 == 2 * (m - 1));
                    vstd::arithmetic::div_mod::lemma_div_multiples_vanish(2, m - 1);
                }
                assert forall|k: int| 0 <= k < sel@.len() implies sel@[k] == 2 * k by {
                    if k < sel@.len() - 1 {
                        assert(sel@[k] == k * 2);
                    } else {
                        assert(sel@[k] == size - 2);
                        assert(2 * (m - 1) == size - 2);
                    }
                }
                lemma_ring_expected_even(size, i, sel@);
            }
        }
        let mut expected: Vec<usize> = Vec::new();
        let mut k: usize = 0;
        while k < sel.len()
            invariant
                k <= sel@.len(),
                forall|j: usize|
                    expected@.contains(j) <==> exists|kk: int|
                        0 <= kk < k && j == spec_add_range(sel@[kk], (i + 1) as usize, 0, size) && j
                            >= i,
            decreases sel@.len() - k,
        {
            let ghost expected_before = expected@;
            let y = add_in_range(sel[k], i + 1, 0..size);
            if y >= i {
                expected.push(y);
            }
            proof {
                assert forall|j: usize|
                    expected@.contains(j) <==> exists|kk: int|
                        0 <= kk < k + 1 && j == spec_add_range(sel@[kk], (i + 1) as usize, 0, size)
                            && j >= i by {
                    if expected@.contains(j) {
                        let idx = choose|idx: int|
                            0 <= idx < expected@.len() && expected@[idx] == j;
                        if idx < expected_before.len() {
                            assert(expected_before.contains(j));
                        } else {
                            assert(j == y);
                        }
                    }
                    if exists|kk: int|
                        0 <= kk < k + 1 && j == spec_add_range(sel@[kk], (i + 1) as usize, 0, size)
                            && j >= i {
                        let kk = choose|kk: int|
                            0 <= kk < k + 1 && j == spec_add_range(
                                sel@[kk],
                                (i + 1) as usize,
                                0,
                                size,
                            ) && j >= i;
                        if kk < k {
                            assert(expected_before.contains(j));
                            let idx = choose|idx: int|
                                0 <= idx < expected_before.len() && expected_before[idx] == j;
                            assert(expected@[idx] == j);
                        } else {
                            assert(j == y && y >= i);
                            assert(expected@.last() == y);
                        }
                    }
                }
            }
            k = k + 1;
        }
        proof {
            let m = size as int / 2;
            assert(sel@.len() == m);
            assert forall|kk: int| 0 <= kk < sel@.len() implies sel@[kk] == ring_sel(
                size as int,
                kk,
            ) && sel@[kk] <= size - 2 by {
                let step = (size - 2) as int / (m - 1);
                vstd::arithmetic::div_mod::lemma_fundamental_div_mod((size - 2) as int, m - 1);
                vstd::arithmetic::mul::lemma_mul_inequality(kk, m - 1, step);
                if kk < sel@.len() - 1 {
                    assert(sel@[kk] == kk * step);
                } else {
                    assert(sel@[kk] == size - 2);
                }
            }
            assert forall|j: usize| #[trigger]
                expected@.contains(j) <==> ring_keeps(i as int, j as int, size as int) by {
                if expected@.contains(j) {
                    let kk = choose|kk: int|
                        0 <= kk < sel@.len() && j == spec_add_range(
                            sel@[kk],
                            (i + 1) as usize,
                            0,
                            size,
                        ) && j >= i;
                    assert(j as int == (i + 1 + ring_sel(size as int, kk)) % (size as int));
                }
                if ring_keeps(i as int, j as int, size as int) {
                    let kk = choose|kk: int|
                        #![trigger ring_sel(size as int, kk)]
                        0 <= kk < size as int / 2 && j as int == (i + 1 + ring_sel(
                            size as int,
                            kk,
                        )) % (size as int) && j >= i;
                    assert(j == spec_add_range(sel@[kk], (i + 1) as usize, 0, size));
                }
            }
        }
        let ghost prev = rec.edge_set();
        let mut x: usize = i;
        while x < size
            invariant
                4 <= size < u64::MAX,
                i < size,
                i <= x <= size,
                rec.wf(),
                forall|e: (ServerId, ServerId)|
                    rec.edge_set().contains(e) ==> e.0 < size && e.1 < size,
                forall|j: usize|
                    expected@.contains(j) <==> exists|kk: int|
                        0 <= kk < sel@.len() && j == spec_add_range(
                            sel@[kk],
                            (i + 1) as usize,
                            0,
                            size,
                        ) && j >= i,
                even ==> (forall|j: usize|
                    j < size ==> (expected@.contains(j) <==> (i <= j && !same_parity(
                        i as int,
                        j as int,
                    )))),
                even ==> rec.edge_set() =~= prev.union(
                    Set::new(
                        |e: (ServerId, ServerId)|
                            e.0 != e.1 && same_parity(i as int, e.1 as int) && ((e.0 == i && i
                                <= e.1 < x) || (e.1 == i && i <= e.0 < x && same_parity(
                                i as int,
                                e.0 as int,
                            ))),
                    ),
                ),
                forall|j: usize| #[trigger]
                    expected@.contains(j) <==> ring_keeps(i as int, j as int, size as int),
                rec.edge_set() =~= prev.union(
                    Set::new(
                        |e: (ServerId, ServerId)|
                            e.0 != e.1 && ((e.0 == i && i <= e.1 < x && !ring_keeps(
                                i as int,
                                e.1 as int,
                                size as int,
                            )) || (e.1 == i && i <= e.0 < x && !ring_keeps(
                                i as int,
                                e.0 as int,
                                size as int,
                            ))),
                    ),
                ),
            decreases size - x,
        {
            let ghost before = rec.edge_set();
            if x != i && !vec_contains_id(&expected, x) {
                rec.clog_link_both_record(i as u64, x as u64);
            }
            proof {
                if even {
                    assert(rec.edge_set() =~= prev.union(
                        Set::new(
                            |e: (ServerId, ServerId)|
                                e.0 != e.1 && same_parity(i as int, e.1 as int) && ((e.0 == i && i
                                    <= e.1 < x + 1) || (e.1 == i && i <= e.0 < x + 1
                                    && same_parity(i as int, e.0 as int))),
                        ),
                    ));
                }
                assert(rec.edge_set() =~= prev.union(
                    Set::new(
                        |e: (ServerId, ServerId)|
                            e.0 != e.1 && ((e.0 == i && i <= e.1 < x + 1 && !ring_keeps(
                                i as int,
                                e.1 as int,
                                size as int,
                            )) || (e.1 == i && i <= e.0 < x + 1 && !ring_keeps(
                                i as int,
                                e.0 as int,
                                size as int,
                            ))),
                    ),
                ));
            }
            x = x + 1;
        }
        proof {
            if even {
                assert(rec.edge_set() =~= Set::new(
                    |e: (ServerId, ServerId)|
                        e.0 < size && e.1 < size && e.0 != e.1 && same_parity(
                            e.0 as int,
                            e.1 as int,
                        ) && (e.0 < i + 1 || e.1 < i + 1),
                ));
            }
            assert(rec.edge_set() =~= Set::new(
                |e: (ServerId, ServerId)|
                    {
                        let lo = if e.0 <= e.1 {
                            e.0
                        } else {
                            e.1
                        };
                        let hi = if e.0 <= e.1 {
                            e.1
                        } else {
                            e.0
                        };
                        e.0 != e.1 && e.0 < size && e.1 < size && lo < i + 1 && !ring_keeps(
                            lo as int,
                            hi as int,
                            size as int,
                        )
                    },
            ));
        }
        i = i + 1;
    }
    proof {
        if even {
            assert(rec.edge_set() =~= ring_edges_even(size as int));
        }
        assert(rec.edge_set() =~= ring_edges(size as int));
    }
    Ok(NemesisRecord::Net(rec))
}

/// The rank of a non-leader among the non-leaders, counted from zero in
/// ascending id order.
pub open spec fn nonleader_rank(x: ServerId, leader: ServerId) -> int {
    if x < leader {
        x as int
    } else {
        x as int - 1
    }
}

/// The first `majority - 1` non-leader servers, in ascending id order: the
/// servers a leader partition cuts the leader off from.
pub open spec fn leader_majority_targets(leader: ServerId, size: int) -> Set<ServerId> {
    Set::new(
        |x: ServerId| x < size && x != leader && nonleader_rank(x, leader) < size / 2,
    )
}

/// The record that cuts the given leader off from the first `majority - 1`
/// non-leaders: both directions when `both_directions` is set, otherwise
/// only the incoming direction `non-leader -> leader`.
#[verifier::loop_isolation(false)]
pub fn leader_partition_record(leader: ServerId, size: usize, both_directions: bool) -> (net:
    NetRecord)
    requires
        size < usize::MAX,
    ensures
        net.wf(),
        both_directions ==> net.edge_set() =~= Set::new(
            |e: (ServerId, ServerId)|
                (leader_majority_targets(leader, size as int).contains(e.0) && e.1 == leader) || (
                e.0 == leader && leader_majority_targets(leader, size as int).contains(e.1)),
        ),
        !both_directions ==> net.edge_set() =~= Set::new(
            |e: (ServerId, ServerId)|
                leader_majority_targets(leader, size as int).contains(e.0) && e.1 == leader,
        ),
{
    let m = size / 2;
    let mut rec = NetRecord::new();
    let mut taken: usize = 0;
    let mut x: u64 = 0;
    while x < size as u64 && taken < m
        invariant
            x <= size,
            taken == if x <= leader {
                x as int
            } else {
                x as int - 1
            },
            taken <= m,
            rec.wf(),
            both_directions ==> rec.edge_set() =~= Set::new(
                |e: (ServerId, ServerId)|
                    ((e.0 < x && e.0 != leader && nonleader_rank(e.0, leader) < m && e.1 == leader)
                        || (e.0 == leader && e.1 < x && e.1 != leader && nonleader_rank(
                        e.1,
                        leader,
                    ) < m)),
            ),
            !both_directions ==> rec.edge_set() =~= Set::new(
                |e: (ServerId, ServerId)|
                    e.0 < x && e.0 != leader && nonleader_rank(e.0, leader) < m && e.1 == leader,
            ),
        decreases size - x,
    {
        if x != leader {
            if both_directions {
                rec.clog_link_both_record(x, leader);
            } else {
                rec.clog_link_single_record(x, leader);
            }
            taken = taken + 1;
        }
        proof {
            if both_directions {
                assert(rec.edge_set() =~= Set::new(
                    |e: (ServerId, ServerId)|
                        ((e.0 < x + 1 && e.0 != leader && nonleader_rank(e.0, leader) < m && e.1
                            == leader) || (e.0 == leader && e.1 < x + 1 && e.1 != leader
                            && nonleader_rank(e.1, leader) < m)),
                ));
            } else {
                assert(rec.edge_set() =~= Set::new(
                    |e: (ServerId, ServerId)|
                        e.0 < x + 1 && e.0 != leader && nonleader_rank(e.0, leader) < m && e.1
                            == leader,
                ));
            }
        }
        x = x + 1;
    }
    proof {
        assert forall|y: ServerId|
            leader_majority_targets(leader, size as int).contains(y) implies (y < x && y != leader
            && nonleader_rank(y, leader) < m) by {
            if y >= x {
                assert(x < size);
                assert(taken == m);
                assert(nonleader_rank(y, leader) >= m);
            }
        }
        if both_directions {
            assert(rec.edge_set() =~= Set::new(
                |e: (ServerId, ServerId)|
                    (leader_majority_targets(leader, size as int).contains(e.0) && e.1 == leader)
                        || (e.0 == leader && leader_majority_targets(leader, size as int).contains(
                        e.1,
                    )),
            ));
        } else {
            assert(rec.edge_set() =~= Set::new(
                |e: (ServerId, ServerId)|
                    leader_majority_targets(leader, size as int).contains(e.0) && e.1 == leader,
            ));
        }
    }
    rec
}

/// Cut the current leader off from a majority: ask the cluster who leads,
/// then clog both directions between the leader and the first
/// `majority - 1` non-leaders. The record depends on the leader the cluster
/// names and on its size, whatever they are.
pub fn partition_leader_and_majority<C: NemesisCluster>(cluster: &mut C) -> (r: Result<
    NemesisRecord,
    &'static str,
>)
    ensures
        r matches Ok(rec) ==> exists|l: ServerId, n: int|
            #![trigger leader_majority_targets(l, n)]
            rec matches NemesisRecord::Net(net) && net.wf() && net.edge_set() =~= Set::new(
                |e: (ServerId, ServerId)|
                    (leader_majority_targets(l, n).contains(e.0) && e.1 == l) || (e.0 == l
                        && leader_majority_targets(l, n).contains(e.1)),
            ),
{
    let leader = cluster.get_leader_without_term();
    let size = cluster.size();
    if size >= usize::MAX {
        return Err("cluster size out of range");
    }
    let net = leader_partition_record(leader, size, true);
    Ok(NemesisRecord::Net(net))
}

/// Leave the leader able to send to a majority but not to receive from it:
/// clog only the direction `non-leader -> leader` for the first
/// `majority - 1` non-leaders.
pub fn leader_send_to_majority_but_cannot_receive<C: NemesisCluster>(cluster: &mut C) -> (r:
    Result<NemesisRecord, &'static str>)
    ensures
        r matches Ok(rec) ==> exists|l: ServerId, n: int|
            #![trigger leader_majority_targets(l, n)]
            rec matches NemesisRecord::Net(net) && net.wf() && net.edge_set() =~= Set::new(
                |e: (ServerId, ServerId)|
                    leader_majority_targets(l, n).contains(e.0) && e.1 == l,
            ),
{
    let leader = cluster.get_leader_without_term();
    let size = cluster.size();
    if size >= usize::MAX {
        return Err("cluster size out of range");
    }
    let net = leader_partition_record(leader, size, false);
    Ok(NemesisRecord::Net(net))
}

/// Translate a declarative nemesis into a concrete, recoverable record
/// against the cluster's current topology. Requests that do not fit the
/// cluster (a half as large as the whole, too many random picks, a ring on
/// fewer than four servers) are infeasible and fail.
pub fn calculate_nemesis<C: NemesisCluster>(cluster: &mut C, nemesis: NemesisType) -> (r: Result<
    NemesisRecord,
    &'static str,
>)
    ensures
        nemesis is Noop ==> r == Ok::<NemesisRecord, &'static str>(NemesisRecord::Noop),
        nemesis matches NemesisType::Kill(s) ==> r matches Ok(rec) && rec
            matches NemesisRecord::Kill(d) && d@.no_duplicates() && (forall|x: ServerId|
            d@.contains(x) <==> s@.contains(x)),
        nemesis matches NemesisType::Pause(s) ==> r matches Ok(rec) && rec
            matches NemesisRecord::Pause(d) && d@.no_duplicates() && (forall|x: ServerId|
            d@.contains(x) <==> s@.contains(x)),
        nemesis matches NemesisType::SplitOne(srv) ==> (r matches Ok(rec) ==> exists|n: int|
            #![trigger halves_edges(seq![srv].to_set(), n)]
            rec matches NemesisRecord::Net(net) && net.wf() && net.edge_set() =~= halves_edges(
                seq![srv].to_set(),
                n,
            )),
        nemesis matches NemesisType::PartitionHalves(s) ==> (r matches Ok(rec) ==> exists|n: int|
            #![trigger halves_edges(s@.to_set(), n)]
            rec matches NemesisRecord::Net(net) && net.wf() && net.edge_set() =~= halves_edges(
                s@.to_set(),
                n,
            )),
        nemesis matches NemesisType::PartitionRandomN(n) ==> (r matches Ok(rec) ==> exists|
            picked: Set<ServerId>,
            sz: int,
        |
            #![trigger halves_edges(picked, sz)]
            picked.len() == n && (rec matches NemesisRecord::Net(net) && net.wf()
                && net.edge_set() =~= halves_edges(picked, sz))),
        nemesis is PartitionMajoritiesRing ==> (r matches Ok(rec) ==> rec
            matches NemesisRecord::Net(net) && net.wf()),
        nemesis is PartitionLeaderAndMajority ==> (r matches Ok(rec) ==> exists|
            l: ServerId,
            n: int,
        |
            #![trigger leader_majority_targets(l, n)]
            rec matches NemesisRecord::Net(net) && net.wf() && net.edge_set() =~= Set::new(
                |e: (ServerId, ServerId)|
                    (leader_majority_targets(l, n).contains(e.0) && e.1 == l) || (e.0 == l
                        && leader_majority_targets(l, n).contains(e.1)),
            )),
        nemesis is LeaderSendToMajorityButCannotReceive ==> (r matches Ok(rec) ==> exists|
            l: ServerId,
            n: int,
        |
            #![trigger leader_majority_targets(l, n)]
            rec matches NemesisRecord::Net(net) && net.wf() && net.edge_set() =~= Set::new(
                |e: (ServerId, ServerId)|
                    leader_majority_targets(l, n).contains(e.0) && e.1 == l,
            )),
{
    match nemesis {
        NemesisType::Noop => Ok(NemesisRecord::Noop),
        NemesisType::Kill(servers) => Ok(kill_servers(servers)),
        NemesisType::Pause(servers) => Ok(pause_servers(servers)),
        NemesisType::SplitOne(server) => {
            let size = cluster.size();
            if size >= usize::MAX {
                return Err("cluster size out of range");
            }
            partition_one(server, size)
        },
        NemesisType::PartitionHalves(servers) => {
            let size = cluster.size();
            if size >= usize::MAX {
                return Err("cluster size out of range");
            }
            partition_halves(servers, size)
        },
        NemesisType::PartitionRandomN(n) => {
            let size = cluster.size();
            if size >= usize::MAX {
                return Err("cluster size out of range");
            }
            partition_random_n(n, size)
        },
        NemesisType::PartitionMajoritiesRing => {
            let size = cluster.size();
            if size >= usize::MAX {
                return Err("cluster size out of range");
            }
            partition_majorities_ring(size)
        },
        NemesisType::PartitionLeaderAndMajority => partition_leader_and_majority(cluster),
        NemesisType::LeaderSendToMajorityButCannotReceive => {
            leader_send_to_majority_but_cannot_receive(cluster)
        },
    }
}

/// Apply a record: kill or pause the named servers, or clog each recorded
/// one-directional link.
pub fn execute_nemesis_record<C: NemesisCluster>(cluster: &mut C, record: &NemesisRecord) {
    match record {
        NemesisRecord::Noop => {},
        NemesisRecord::Kill(servers) => {
            cluster.kill(servers);
        },
        NemesisRecord::Pause(servers) => {
            cluster.pause(servers);
        },
        NemesisRecord::Net(net) => {
            let mut i: usize = 0;
            while i < net.links.len()
                decreases net.links@.len() - i,
            {
                let (a, b) = net.links[i];
                cluster.clog_link_single(a, b);
                i = i + 1;
            }
        },
    }
}

/// Revert a record: restart killed servers, resume paused ones, or unclog
/// each recorded one-directional link.
pub fn recover_nemesis_record<C: NemesisCluster>(cluster: &mut C, record: &NemesisRecord) {
    match record {
        NemesisRecord::Noop => {},
        NemesisRecord::Kill(servers) => {
            cluster.restart(servers);
        },
        NemesisRecord::Pause(servers) => {
            cluster.resume(servers);
        },
        NemesisRecord::Net(net) => {
            let mut i: usize = 0;
            while i < net.links.len()
                decreases net.links@.len() - i,
            {
                let (a, b) = net.links[i];
                cluster.unclog_link_single(a, b);
                i = i + 1;
            }
        },
    }
}

/// Applying and reverting nemesis records, available on every cluster with
/// the fault capability.
pub trait NemesisExecutor: NemesisCluster {
    /// Apply the record.
    fn execute(&mut self, record: &NemesisRecord);

    /// Revert the record.
    fn recover(&mut self, record: &NemesisRecord);
}

impl<T: NemesisCluster> NemesisExecutor for T {
    fn execute(&mut self, record: &NemesisRecord) {
        execute_nemesis_record(self, record)
    }

    fn recover(&mut self, record: &NemesisRecord) {
        recover_nemesis_record(self, record)
    }
}

/// The servers a given server can still send to under a record's clogged
/// links.
pub open spec fn reachable_from(
    edges: Set<(ServerId, ServerId)>,
    i: ServerId,
    size: int,
) -> Set<ServerId> {
    Set::new(|j: ServerId| j < size && j != i && !edges.contains((i, j)))
}

/// How many servers below `n` have parity `p`: for even `n`, exactly half.
proof fn lemma_count_parity(n: int, p: int)
    requires
        0 <= n <= u64::MAX,
        n % 2 == 0,
        p == 0 || p == 1,
    ensures
        Set::new(|j: ServerId| j < n && j as int % 2 == p).finite(),
        Set::new(|j: ServerId| j < n && j as int % 2 == p).len() == n / 2,
    decreases n,
{
    broadcast use vstd::set::group_set_axioms;

    let s = Set::new(|j: ServerId| j < n && j as int % 2 == p);
    if n == 0 {
        assert(s =~= Set::<ServerId>::empty());
    } else {
        lemma_count_parity(n - 2, p);
        let prev = Set::new(|j: ServerId| j < n - 2 && j as int % 2 == p);
        let w = (n - 2 + p) as ServerId;
        assert(w as int == n - 2 + p);
        assert((n - 2) % 2 == 0) by {
            vstd::arithmetic::div_mod::lemma_mod_sub_multiples_vanish(n, 2);
        }
        assert(w as int % 2 == p) by {
            vstd::arithmetic::div_mod::lemma_fundamental_div_mod(n - 2, 2);
            let b = (n - 2) / 2;
            assert(n - 2 + p == 2 * b + p);
            vstd::arithmetic::div_mod::lemma_mod_multiples_vanish(b, p, 2);
            vstd::arithmetic::div_mod::lemma_small_mod(p as nat, 2nat);
        }
        assert(s =~= prev.insert(w)) by {
            assert forall|j: ServerId| s.contains(j) implies prev.insert(w).contains(j) by {
                if j < n - 2 {
                } else {
                    assert(j == n - 2 || j == n - 1);
                    assert(j == w) by {
                        if j as int == n - 2 + (1 - p) {
                            lemma_parity_step(n - 2);
                            assert(j as int % 2 != p);
                        }
                    }
                }
            }
        }
        assert(!prev.contains(w));
    }
}

/// After applying the majorities-ring record, the servers a given server can
/// still send to are exactly those the construction keeps: the evenly
/// spaced servers after it, and the servers before it that kept a forward
/// link to it. (For odd sizes the counts are not uniform across servers: in
/// a seven-server cluster, server three keeps four peers while the others
/// keep three.)
pub proof fn lemma_ring_reachability(size: int, i: ServerId)
    requires
        4 <= size <= u64::MAX,
        i < size,
    ensures
        reachable_from(ring_edges(size), i, size) =~= Set::new(
            |j: ServerId|
                j < size && j != i && if j > i {
                    ring_keeps(i as int, j as int, size)
                } else {
                    ring_keeps(j as int, i as int, size)
                },
        ),
{
}

/// After applying the majorities-ring record on an even-sized cluster, every
/// server can still send to exactly half of the cluster: the `size / 2`
/// servers of the other parity.
pub proof fn lemma_majorities_ring_reachability(size: int, i: ServerId)
    requires
        4 <= size <= u64::MAX,
        size % 2 == 0,
        i < size,
    ensures
        reachable_from(ring_edges_even(size), i, size).len() == size / 2,
{
    broadcast use vstd::set::group_set_axioms;

    let p: int = if i as int % 2 == 0 {
        1
    } else {
        0
    };
    let r = reachable_from(ring_edges_even(size), i, size);
    let q = Set::new(|j: ServerId| j < size && j as int % 2 == p);
    assert(r =~= q) by {
        assert forall|j: ServerId| r.contains(j) implies q.contains(j) by {
            vstd::arithmetic::div_mod::lemma_mod_bound(j as int, 2);
            vstd::arithmetic::div_mod::lemma_mod_bound(i as int, 2);
        }
        assert forall|j: ServerId| q.contains(j) implies r.contains(j) by {
            assert(j as int % 2 != i as int % 2) by {
                vstd::arithmetic::div_mod::lemma_mod_bound(i as int, 2);
            }
        }
    }
    lemma_count_parity(size, p);
}

} // verus!
