use vstd::prelude::*;

use crate::addr::PeerAddr;
use crate::node_type::NodeType;
use crate::shuffle::shuffle_addrs;
use vstd::multiset::Multiset;

verus! {

/// Consecutive failures after which an address stops being reachable.
pub const FAILURE_LIMIT: u32 = 5;

/// One row of the address store.
#[derive(Debug)]
pub struct NodeInfo {
    pub addr: PeerAddr,
    pub node_type: NodeType,
    pub user_agent: Option<Vec<u8>>,
    pub version: Option<i32>,
    pub services: Option<u64>,
    pub last_seen: i64,
    pub last_connected: Option<i64>,
    pub connection_failures: u32,
    pub is_reachable: bool,
}

/// Mathematical value of a row.
#[verifier::ext_equal]
pub struct NodeInfoV {
    pub addr: PeerAddr,
    pub node_type: NodeType,
    pub user_agent: Option<Seq<u8>>,
    pub version: Option<i32>,
    pub services: Option<u64>,
    pub last_seen: i64,
    pub last_connected: Option<i64>,
    pub connection_failures: u32,
    pub is_reachable: bool,
}

impl View for NodeInfo {
    type V = NodeInfoV;

    open spec fn view(&self) -> NodeInfoV {
        NodeInfoV {
            addr: self.addr,
            node_type: self.node_type,
            user_agent: match self.user_agent {
                Some(ref v) => Some(v@),
                None => None,
            },
            version: self.version,
            services: self.services,
            last_seen: self.last_seen,
            last_connected: self.last_connected,
            connection_failures: self.connection_failures,
            is_reachable: self.is_reachable,
        }
    }
}

impl DeepView for NodeInfo {
    type V = NodeInfoV;

    open spec fn deep_view(&self) -> NodeInfoV {
        self.view()
    }
}

impl NodeInfo {
    /// A field-by-field copy.
    pub fn duplicate(&self) -> (r: NodeInfo)
        ensures
            r@ == self@,
    {
        let ua = match &self.user_agent {
            Some(v) => Some(v.clone()),
            None => None,
        };
        let r = NodeInfo {
            addr: self.addr,
            node_type: self.node_type,
            user_agent: ua,
            version: self.version,
            services: self.services,
            last_seen: self.last_seen,
            last_connected: self.last_connected,
            connection_failures: self.connection_failures,
            is_reachable: self.is_reachable,
        };
        proof {
            assert(r@ =~= self@);
        }
        r
    }
}

/// A row after one more connection failure: the counter rises (capped at its
/// type's maximum) and reachability is lost at the failure limit.
pub open spec fn failed_row(r: NodeInfoV) -> NodeInfoV {
    let f = if r.connection_failures < u32::MAX {
        (r.connection_failures + 1) as u32
    } else {
        u32::MAX
    };
    NodeInfoV {
        connection_failures: f,
        is_reachable: if f >= FAILURE_LIMIT {
            false
        } else {
            r.is_reachable
        },
        ..r
    }
}

/// A row after a successful connection at `now`.
pub open spec fn connected_row(r: NodeInfoV, now: i64) -> NodeInfoV {
    NodeInfoV { last_connected: Some(now), connection_failures: 0, is_reachable: true, ..r }
}

/// A row is a candidate for outbound dialing: reachable and not Knots.
pub open spec fn dialable(r: NodeInfoV) -> bool {
    r.is_reachable && r.node_type != NodeType::Knots
}

/// Dial priority of a flavor: LibreRelay first, then Core, Other, Unknown.
pub open spec fn dial_rank(t: NodeType) -> u8 {
    match t {
        NodeType::LibreRelay => 0,
        NodeType::Core => 1,
        NodeType::Other => 2,
        NodeType::Unknown => 3,
        NodeType::Knots => 4,
    }
}

/// Number of rows that are reachable with this flavor.
pub open spec fn count_type(v: Seq<NodeInfoV>, t: NodeType) -> nat
    decreases v.len(),
{
    if v.len() == 0 {
        0
    } else {
        (if v[0].is_reachable && v[0].node_type == t {
            1nat
        } else {
            0nat
        }) + count_type(v.drop_first(), t)
    }
}

/// Number of reachable rows.
pub open spec fn count_reachable(v: Seq<NodeInfoV>) -> nat
    decreases v.len(),
{
    if v.len() == 0 {
        0
    } else {
        (if v[0].is_reachable {
            1nat
        } else {
            0nat
        }) + count_reachable(v.drop_first())
    }
}

/// Number of dialable rows.
pub open spec fn count_dialable(v: Seq<NodeInfoV>) -> nat
    decreases v.len(),
{
    if v.len() == 0 {
        0
    } else {
        (if dialable(v[0]) {
            1nat
        } else {
            0nat
        }) + count_dialable(v.drop_first())
    }
}

/// The rows that survive pruning at cutoff `before`: everything except
/// unreachable rows last seen before the cutoff.
pub open spec fn pruned_rows(v: Seq<NodeInfoV>, before: i64) -> Seq<NodeInfoV>
    decreases v.len(),
{
    if v.len() == 0 {
        Seq::empty()
    } else if !v[0].is_reachable && v[0].last_seen < before {
        pruned_rows(v.drop_first(), before)
    } else {
        seq![v[0]] + pruned_rows(v.drop_first(), before)
    }
}

/// Sort order of dial candidates: by rank, then newest `last_seen` first.
pub open spec fn cand_le(a: (u8, i64, PeerAddr), b: (u8, i64, PeerAddr)) -> bool {
    a.0 < b.0 || (a.0 == b.0 && a.1 >= b.1)
}

pub open spec fn cands_sorted(s: Seq<(u8, i64, PeerAddr)>) -> bool {
    forall|i: int, j: int| 0 <= i < j < s.len() ==> cand_le(#[trigger] s[i], #[trigger] s[j])
}

/// The sort key of a dialable row.
pub open spec fn cand_tuple(r: NodeInfoV) -> (u8, i64, PeerAddr) {
    (dial_rank(r.node_type), r.last_seen, r.addr)
}

/// `c` is the candidate tuple of some dialable row of `v`.
pub open spec fn cand_from_rows(v: Seq<NodeInfoV>, c: (u8, i64, PeerAddr)) -> bool {
    exists|j: int| 0 <= j < v.len() && dialable(#[trigger] v[j]) && c == cand_tuple(v[j])
}

/// `c` is the tuple of a dialable row among the first `upto`.
pub open spec fn cand_at(v: Seq<NodeInfoV>, upto: int, c: (u8, i64, PeerAddr)) -> bool {
    exists|j: int| 0 <= j < upto && dialable(#[trigger] v[j]) && c == cand_tuple(v[j])
}

/// Every tuple of `out` comes from a dialable row among the first `upto`.
pub open spec fn cands_from_prefix(
    v: Seq<NodeInfoV>,
    upto: int,
    out: Seq<(u8, i64, PeerAddr)>,
) -> bool {
    forall|a: int| 0 <= a < out.len() ==> cand_at(v, upto, #[trigger] out[a])
}

/// Addresses are unique across the rows of `v`.
pub open spec fn rows_addr_unique(v: Seq<NodeInfoV>) -> bool {
    forall|i: int, j: int|
        0 <= i < j < v.len() ==> (#[trigger] v[i]).addr != (#[trigger] v[j]).addr
}

/// A candidate of a shorter prefix is one of any longer prefix.
proof fn lemma_cand_at_widen(v: Seq<NodeInfoV>, upto: int, c: (u8, i64, PeerAddr))
    requires
        cand_at(v, upto, c),
    ensures
        cand_at(v, upto + 1, c),
{
    let j0 = choose|j0: int| 0 <= j0 < upto && dialable(#[trigger] v[j0]) && c == cand_tuple(v[j0]);
    assert(0 <= j0 < upto + 1 && dialable(v[j0]) && c == cand_tuple(v[j0]));
}

/// Row `j`'s own tuple is a candidate of any prefix beyond it.
proof fn lemma_cand_at_here(v: Seq<NodeInfoV>, upto: int, j: int)
    requires
        0 <= j < upto,
        j < v.len(),
        dialable(v[j]),
    ensures
        cand_at(v, upto, cand_tuple(v[j])),
{
    assert(0 <= j < upto && dialable(v[j]) && cand_tuple(v[j]) == cand_tuple(v[j]));
}

/// A candidate drawn from the first `upto` rows cannot carry the address of
/// a later row, addresses being unique.
proof fn lemma_cand_at_addr_ne(v: Seq<NodeInfoV>, upto: int, c: (u8, i64, PeerAddr), w: int)
    requires
        cand_at(v, upto, c),
        rows_addr_unique(v),
        upto <= w < v.len(),
    ensures
        c.2 != v[w].addr,
{
    let j0 = choose|j0: int| 0 <= j0 < upto && dialable(#[trigger] v[j0]) && c == cand_tuple(v[j0]);
    assert(v[j0].addr != v[w].addr);
}

/// Every dialable row among the first `upto` has its tuple in `out`.
pub open spec fn prefix_covered(v: Seq<NodeInfoV>, upto: int, out: Seq<(u8, i64, PeerAddr)>) -> bool {
    forall|j: int|
        0 <= j < upto && dialable(#[trigger] v[j]) ==> out.contains(cand_tuple(v[j]))
}

/// No two tuples of `out` share an address.
pub open spec fn cands_addr_distinct(out: Seq<(u8, i64, PeerAddr)>) -> bool {
    forall|a: int, b: int| 0 <= a < b < out.len() ==> (#[trigger] out[a]).2 != (#[trigger] out[b]).2
}

/// `c` is the candidate tuple of some reachable row of `v` with flavor `t`.
pub open spec fn typed_cand_from_rows(v: Seq<NodeInfoV>, t: NodeType, c: (u8, i64, PeerAddr)) -> bool {
    exists|j: int|
        0 <= j < v.len() && (#[trigger] v[j]).is_reachable && v[j].node_type == t && c == (
            0u8,
            v[j].last_seen,
            v[j].addr,
        )
}

/// `a` is the address of some reachable row of `v`.
pub open spec fn reachable_addr_in(v: Seq<NodeInfoV>, a: PeerAddr) -> bool {
    exists|j: int| 0 <= j < v.len() && (#[trigger] v[j]).is_reachable && v[j].addr == a
}

/// `a` is the address of a reachable row among the first `upto`.
pub open spec fn reach_at(v: Seq<NodeInfoV>, upto: int, a: PeerAddr) -> bool {
    exists|j: int| 0 <= j < upto && (#[trigger] v[j]).is_reachable && v[j].addr == a
}

proof fn lemma_reach_at_widen(v: Seq<NodeInfoV>, upto: int, a: PeerAddr)
    requires
        reach_at(v, upto, a),
    ensures
        reach_at(v, upto + 1, a),
{
    let j0 = choose|j0: int| 0 <= j0 < upto && (#[trigger] v[j0]).is_reachable && v[j0].addr == a;
    assert(0 <= j0 < upto + 1 && v[j0].is_reachable && v[j0].addr == a);
}

/// An address drawn from the first `upto` rows differs from a later row's,
/// addresses being unique.
proof fn lemma_reach_at_ne(v: Seq<NodeInfoV>, upto: int, a: PeerAddr, w: int)
    requires
        reach_at(v, upto, a),
        rows_addr_unique(v),
        upto <= w < v.len(),
    ensures
        a != v[w].addr,
{
    let j0 = choose|j0: int| 0 <= j0 < upto && (#[trigger] v[j0]).is_reachable && v[j0].addr == a;
    assert(v[j0].addr != v[w].addr);
}

/// `a` is the address of some dialable row of `v`.
pub open spec fn dialable_addr_in(v: Seq<NodeInfoV>, a: PeerAddr) -> bool {
    exists|j: int| 0 <= j < v.len() && dialable(#[trigger] v[j]) && v[j].addr == a
}

/// Some row of `v` has address `a`.
pub open spec fn rows_have_addr(v: Seq<NodeInfoV>, a: PeerAddr) -> bool {
    exists|i: int| 0 <= i < v.len() && (#[trigger] v[i]).addr == a
}

/// The table after an upsert: the unique row with `row.addr` is replaced, or
/// `row` is appended (well-defined when addresses are unique).
pub open spec fn upsert_row(v: Seq<NodeInfoV>, row: NodeInfoV) -> Seq<NodeInfoV> {
    if rows_have_addr(v, row.addr) {
        v.update(
            choose|i: int| 0 <= i < v.len() && (#[trigger] v[i]).addr == row.addr,
            row,
        )
    } else {
        v.push(row)
    }
}

/// The in-memory address table: one row per socket address.
pub struct AddressDb {
    pub rows: Vec<NodeInfo>,
}

impl AddressDb {
    pub open spec fn rows_v(self) -> Seq<NodeInfoV> {
        self.rows.deep_view()
    }

    /// Addresses are unique across rows.
    pub open spec fn wf(self) -> bool {
        rows_addr_unique(self.rows_v())
    }

    pub open spec fn has_addr(self, a: PeerAddr) -> bool {
        rows_have_addr(self.rows_v(), a)
    }

    /// An empty store.
    pub fn new() -> (r: AddressDb)
        ensures
            r.wf(),
            r.rows_v().len() == 0,
    {
        AddressDb { rows: Vec::new() }
    }

    /// Index of the row for `a`, if any.
    fn find_index(&self, a: PeerAddr) -> (r: Option<usize>)
        ensures
            match r {
                Some(i) => i < self.rows_v().len() && self.rows_v()[i as int].addr == a,
                None => !self.has_addr(a),
            },
    {
        let n = self.rows.len();
        let mut i: usize = 0;
        while i < n
            invariant
                n == self.rows_v().len(),
                i <= n,
                forall|j: int| 0 <= j < i ==> (#[trigger] self.rows_v()[j]).addr != a,
            decreases n - i,
        {
            if self.rows[i].addr == a {
                proof {
                    assert(self.rows_v()[i as int] == self.rows@[i as int]@);
                }
                return Some(i);
            }
            proof {
                assert(self.rows_v()[i as int] == self.rows@[i as int]@);
            }
            i += 1;
        }
        None
    }

    /// Upserts a row by address; returns true exactly when no row for that
    /// address existed yet.
    pub fn insert_or_update(&mut self, info: &NodeInfo) -> (r: bool)
        requires
            old(self).wf(),
        ensures
            final(self).wf(),
            r == !old(self).has_addr(info.addr),
            final(self).rows_v() == upsert_row(old(self).rows_v(), info@),
            r ==> final(self).rows_v() == old(self).rows_v().push(info@),
            !r ==> {
                &&& final(self).rows_v().len() == old(self).rows_v().len()
                &&& forall|j: int|
                    0 <= j < old(self).rows_v().len() && (#[trigger] old(self).rows_v()[j]).addr
                        != info.addr ==> final(self).rows_v()[j] == old(self).rows_v()[j]
                &&& exists|j: int|
                    0 <= j < final(self).rows_v().len() && (#[trigger] old(
                        self,
                    ).rows_v()[j]).addr == info.addr && final(self).rows_v()[j] == info@
            },
            final(self).has_addr(info.addr),
    {
        match self.find_index(info.addr) {
            Some(i) => {
                let copy = info.duplicate();
                self.rows[i] = copy;
                proof {
                    assert(self.rows_v() =~= old(self).rows_v().update(i as int, info@));
                    assert(self.rows_v()[i as int].addr == info.addr);
                    let i0 = choose|i0: int|
                        0 <= i0 < old(self).rows_v().len() && (#[trigger] old(
                            self,
                        ).rows_v()[i0]).addr == info.addr;
                    assert(i0 == i);
                }
                false
            },
            None => {
                let copy = info.duplicate();
                self.rows.push(copy);
                proof {
                    assert(self.rows_v() =~= old(self).rows_v().push(info@));
                    let last = self.rows_v().len() - 1;
                    assert(self.rows_v()[last].addr == info.addr);
                }
                true
            },
        }
    }

    /// Records a connection failure for `addr`, if a row exists: the counter
    /// rises and the row becomes unreachable at the failure limit.
    pub fn mark_failed(&mut self, addr: PeerAddr)
        requires
            old(self).wf(),
        ensures
            final(self).wf(),
            final(self).rows_v().len() == old(self).rows_v().len(),
            forall|j: int|
                0 <= j < old(self).rows_v().len() && (#[trigger] old(self).rows_v()[j]).addr
                    != addr ==> final(self).rows_v()[j] == old(self).rows_v()[j],
            forall|j: int|
                0 <= j < old(self).rows_v().len() && (#[trigger] old(self).rows_v()[j]).addr
                    == addr ==> final(self).rows_v()[j] == failed_row(old(self).rows_v()[j]),
    {
        match self.find_index(addr) {
            Some(i) => {
                let f = self.rows[i].connection_failures;
                let nf = if f < u32::MAX {
                    f + 1
                } else {
                    u32::MAX
                };
                self.rows[i].connection_failures = nf;
                if nf >= FAILURE_LIMIT {
                    self.rows[i].is_reachable = false;
                }
                proof {
                    assert(self.rows_v() =~= old(self).rows_v().update(
                        i as int,
                        failed_row(old(self).rows_v()[i as int]),
                    ));
                }
            },
            None => {
            },
        }
    }

    /// Records a successful connection at `now`: the counter resets and the
    /// row becomes reachable again.
    pub fn mark_connected(&mut self, addr: PeerAddr, now: i64)
        requires
            old(self).wf(),
        ensures
            final(self).wf(),
            final(self).rows_v().len() == old(self).rows_v().len(),
            forall|j: int|
                0 <= j < old(self).rows_v().len() && (#[trigger] old(self).rows_v()[j]).addr
                    != addr ==> final(self).rows_v()[j] == old(self).rows_v()[j],
            forall|j: int|
                0 <= j < old(self).rows_v().len() && (#[trigger] old(self).rows_v()[j]).addr
                    == addr ==> final(self).rows_v()[j] == connected_row(
                    old(self).rows_v()[j],
                    now,
                ),
    {
        match self.find_index(addr) {
            Some(i) => {
                self.rows[i].last_connected = Some(now);
                self.rows[i].connection_failures = 0;
                self.rows[i].is_reachable = true;
                proof {
                    assert(self.rows_v() =~= old(self).rows_v().update(
                        i as int,
                        connected_row(old(self).rows_v()[i as int], now),
                    ));
                }
            },
            None => {
            },
        }
    }

    /// Removes unreachable rows last seen before the cutoff; returns how many
    /// were removed.
    pub fn prune_old(&mut self, before: i64) -> (r: usize)
        requires
            old(self).wf(),
        ensures
            final(self).wf(),
            final(self).rows_v() == pruned_rows(old(self).rows_v(), before),
            r == old(self).rows_v().len() - final(self).rows_v().len(),
    {
        let n = self.rows.len();
        let mut out: Vec<NodeInfo> = Vec::new();
        let mut i: usize = 0;
        proof {
            assert(self.rows_v().skip(0) =~= self.rows_v());
            assert(out.deep_view() + pruned_rows(self.rows_v(), before) =~= pruned_rows(
                self.rows_v(),
                before,
            ));
        }
        while i < n
            invariant
                n == self.rows_v().len(),
                i <= n,
                out.deep_view().len() <= i,
                pruned_rows(self.rows_v(), before) == out.deep_view() + pruned_rows(
                    self.rows_v().skip(i as int),
                    before,
                ),
                forall|a: int|
                    0 <= a < out.deep_view().len() ==> exists|j: int|
                        0 <= j < i && (#[trigger] out.deep_view()[a]) == self.rows_v()[j],
                forall|a: int, b: int|
                    0 <= a < b < out.deep_view().len() ==> (#[trigger] out.deep_view()[a]).addr
                        != (#[trigger] out.deep_view()[b]).addr,
                self.rows_v() == old(self).rows_v(),
                old(self).wf(),
            decreases n - i,
        {
            let keep = self.rows[i].is_reachable || self.rows[i].last_seen >= before;
            let ghost tail = self.rows_v().skip(i as int);
            proof {
                assert(self.rows_v()[i as int] == self.rows@[i as int]@);
                assert(tail[0] == self.rows_v()[i as int]);
                assert(tail.drop_first() =~= self.rows_v().skip(i + 1));
            }
            let ghost prev = out.deep_view();
            if keep {
                let copy = self.rows[i].duplicate();
                out.push(copy);
                proof {
                    assert(out.deep_view() =~= prev.push(self.rows_v()[i as int]));
                    assert(prev + (seq![tail[0]] + pruned_rows(
                        self.rows_v().skip(i + 1),
                        before,
                    )) =~= out.deep_view() + pruned_rows(self.rows_v().skip(i + 1), before));
                    assert forall|a: int, b: int|
                        0 <= a < b < out.deep_view().len() implies (
                    #[trigger] out.deep_view()[a]).addr != (#[trigger] out.deep_view()[b]).addr by {
                        if b == out.deep_view().len() - 1 {
                            let j = choose|j: int|
                                0 <= j < i && (#[trigger] out.deep_view()[a])
                                    == self.rows_v()[j];
                        }
                    }
                }
            }
            i += 1;
        }
        proof {
            assert(self.rows_v().skip(n as int).len() == 0);
            assert(out.deep_view() + Seq::<NodeInfoV>::empty() =~= out.deep_view());
        }
        let removed = n - out.len();
        self.rows = out;
        removed
    }

    /// Reachable-row histogram, one entry per flavor.
    pub fn count_by_type(&self) -> (r: Vec<(NodeType, u64)>)
        ensures
            r@.len() == 5,
            r@[0] == (NodeType::Unknown, count_type(self.rows_v(), NodeType::Unknown) as u64),
            r@[1] == (NodeType::Knots, count_type(self.rows_v(), NodeType::Knots) as u64),
            r@[2] == (NodeType::Core, count_type(self.rows_v(), NodeType::Core) as u64),
            r@[3] == (NodeType::LibreRelay, count_type(self.rows_v(), NodeType::LibreRelay) as u64),
            r@[4] == (NodeType::Other, count_type(self.rows_v(), NodeType::Other) as u64),
    {
        let mut r: Vec<(NodeType, u64)> = Vec::new();
        r.push((NodeType::Unknown, self.count_one_type(NodeType::Unknown)));
        r.push((NodeType::Knots, self.count_one_type(NodeType::Knots)));
        r.push((NodeType::Core, self.count_one_type(NodeType::Core)));
        r.push((NodeType::LibreRelay, self.count_one_type(NodeType::LibreRelay)));
        r.push((NodeType::Other, self.count_one_type(NodeType::Other)));
        r
    }

    /// Counts reachable rows of one flavor.
    fn count_one_type(&self, t: NodeType) -> (r: u64)
        ensures
            r == count_type(self.rows_v(), t),
    {
        let n = self.rows.len();
        let mut c: u64 = 0;
        let mut i: usize = 0;
        proof {
            assert(self.rows_v().skip(0) =~= self.rows_v());
        }
        while i < n
            invariant
                n == self.rows_v().len(),
                i <= n,
                c <= i,
                count_type(self.rows_v(), t) == c + count_type(
                    self.rows_v().skip(i as int),
                    t,
                ),
            decreases n - i,
        {
            let ghost tail = self.rows_v().skip(i as int);
            proof {
                assert(self.rows_v()[i as int] == self.rows@[i as int]@);
                assert(tail[0] == self.rows_v()[i as int]);
                assert(tail.drop_first() =~= self.rows_v().skip(i + 1));
            }
            if self.rows[i].is_reachable && self.rows[i].node_type == t {
                c += 1;
            }
            i += 1;
        }
        proof {
            assert(self.rows_v().skip(n as int).len() == 0);
        }
        c
    }
}

/// The row of `v` whose address is `a` (well-defined when addresses are
/// unique and `a` is present).
pub open spec fn stored_row(v: Seq<NodeInfoV>, a: PeerAddr) -> NodeInfoV {
    v[choose|i: int| 0 <= i < v.len() && (#[trigger] v[i]).addr == a]
}

/// The candidate order is total.
proof fn lemma_cand_le_total(a: (u8, i64, PeerAddr), b: (u8, i64, PeerAddr))
    ensures
        cand_le(a, b) || cand_le(b, a),
{
}

/// The candidate order is transitive.
proof fn lemma_cand_le_trans(a: (u8, i64, PeerAddr), b: (u8, i64, PeerAddr), c: (u8, i64, PeerAddr))
    requires
        cand_le(a, b),
        cand_le(b, c),
    ensures
        cand_le(a, c),
{
}

/// Inserting an element anywhere adds exactly it to the multiset.
proof fn lemma_insert_multiset(s: Seq<(u8, i64, PeerAddr)>, k: int, e: (u8, i64, PeerAddr))
    requires
        0 <= k <= s.len(),
    ensures
        s.insert(k, e).to_multiset() == s.to_multiset().insert(e),
{
    broadcast use vstd::seq_lib::group_to_multiset_ensures;

    let t = s.take(k);
    let sk = s.skip(k);
    vstd::seq_lib::lemma_multiset_commutative(t, seq![e] + sk);
    vstd::seq_lib::lemma_multiset_commutative(seq![e], sk);
    vstd::seq_lib::lemma_multiset_commutative(t, sk);
    assert(t + sk =~= s);
    assert(s.insert(k, e) =~= t + (seq![e] + sk));
    assert(seq![e] =~= Seq::<(u8, i64, PeerAddr)>::empty().push(e));
    assert(seq![e].to_multiset() =~= Multiset::<(u8, i64, PeerAddr)>::empty().insert(e));
    assert(s.insert(k, e).to_multiset() =~= s.to_multiset().insert(e));
}

/// Exec mirror of the candidate order.
fn cand_before(a: &(u8, i64, PeerAddr), b: &(u8, i64, PeerAddr)) -> (r: bool)
    ensures
        r == cand_le(*a, *b),
{
    a.0 < b.0 || (a.0 == b.0 && a.1 >= b.1)
}

/// Insertion sort of dial candidates by rank, then newest first.
fn sort_candidates(v: &Vec<(u8, i64, PeerAddr)>) -> (r: Vec<(u8, i64, PeerAddr)>)
    ensures
        r@.len() == v@.len(),
        r@.to_multiset() == v@.to_multiset(),
        cands_sorted(r@),
{
    broadcast use vstd::seq_lib::group_to_multiset_ensures;

    let mut out: Vec<(u8, i64, PeerAddr)> = Vec::new();
    let n = v.len();
    let mut i: usize = 0;
    proof {
        assert(v@.take(0) =~= Seq::<(u8, i64, PeerAddr)>::empty());
        assert(out@.to_multiset() =~= v@.take(0).to_multiset());
    }
    while i < n
        invariant
            n == v@.len(),
            i <= n,
            out@.len() == i,
            out@.to_multiset() == v@.take(i as int).to_multiset(),
            cands_sorted(out@),
        decreases n - i,
    {
        broadcast use vstd::seq_lib::group_to_multiset_ensures;

        let e = v[i];
        let m = out.len();
        let mut k: usize = 0;
        while k < m && cand_before(&out[k], &e)
            invariant
                m == out@.len(),
                k <= m,
                forall|j: int| 0 <= j < k ==> cand_le(#[trigger] out@[j], e),
            decreases m - k,
        {
            k += 1;
        }
        let ghost prev = out@;
        proof {
            if k < m {
                lemma_cand_le_total(prev[k as int], e);
            }
        }
        out.insert(k, e);
        proof {
            lemma_insert_multiset(prev, k as int, e);
            assert(v@.take(i + 1) =~= v@.take(i as int).push(v@[i as int]));
            assert(out@ =~= prev.insert(k as int, e));
            assert forall|x: int| k <= x < m implies cand_le(e, #[trigger] prev[x]) by {
                if x > k {
                    lemma_cand_le_trans(e, prev[k as int], prev[x]);
                }
            }
            assert forall|a: int, b: int|
                0 <= a < b < out@.len() implies cand_le(#[trigger] out@[a], #[trigger] out@[b]) by {
                if b < k {
                } else if a < k && b == k {
                    assert(out@[a] == prev[a] && out@[b] == e);
                } else if a < k && b > k {
                    assert(out@[a] == prev[a] && out@[b] == prev[b - 1]);
                } else if a == k {
                    assert(out@[a] == e && out@[b] == prev[b - 1]);
                } else {
                    assert(out@[a] == prev[a - 1] && out@[b] == prev[b - 1]);
                }
            }
        }
        i += 1;
    }
    proof {
        assert(v@.take(n as int) =~= v@);
    }
    out
}

impl AddressDb {
    /// Collects `(rank, last_seen, addr)` for every row that satisfies the
    /// dial-pool predicate: one tuple per such row, addresses distinct.
    fn dial_candidates(&self) -> (r: Vec<(u8, i64, PeerAddr)>)
        requires
            self.wf(),
        ensures
            r@.len() == count_dialable(self.rows_v()),
            cands_from_prefix(self.rows_v(), self.rows_v().len() as int, r@),
            prefix_covered(self.rows_v(), self.rows_v().len() as int, r@),
            cands_addr_distinct(r@),
    {
        let n = self.rows.len();
        let mut out: Vec<(u8, i64, PeerAddr)> = Vec::new();
        let mut i: usize = 0;
        proof {
            assert(self.rows_v().skip(0) =~= self.rows_v());
        }
        while i < n
            invariant
                n == self.rows_v().len(),
                i <= n,
                self.wf(),
                count_dialable(self.rows_v()) == out@.len() + count_dialable(
                    self.rows_v().skip(i as int),
                ),
                cands_from_prefix(self.rows_v(), i as int, out@),
                prefix_covered(self.rows_v(), i as int, out@),
                cands_addr_distinct(out@),
            decreases n - i,
        {
            let ghost tail = self.rows_v().skip(i as int);
            proof {
                assert(self.rows_v()[i as int] == self.rows@[i as int]@);
                assert(tail[0] == self.rows_v()[i as int]);
                assert(tail.drop_first() =~= self.rows_v().skip(i + 1));
            }
            let row = &self.rows[i];
            let take_it = row.is_reachable && !matches!(row.node_type, NodeType::Knots);
            let ghost prev = out@;
            if take_it {
                let rank: u8 = match row.node_type {
                    NodeType::LibreRelay => 0,
                    NodeType::Core => 1,
                    NodeType::Other => 2,
                    NodeType::Unknown => 3,
                    NodeType::Knots => 4,
                };
                proof {
                    assert(cands_from_prefix(self.rows_v(), i as int, prev));
                    assert(prefix_covered(self.rows_v(), i as int, prev));
                    assert(cands_addr_distinct(prev));
                }
                out.push((rank, row.last_seen, row.addr));
                proof {
                    let v = self.rows_v();
                    let last = prev.len() as int;
                    assert(out@ == prev.push(cand_tuple(v[i as int])));
                    assert(dialable(v[i as int]));
                    assert forall|a: int| 0 <= a < out@.len() implies cand_at(
                        v,
                        i + 1,
                        #[trigger] out@[a],
                    ) by {
                        if a < last {
                            assert(out@[a] == prev[a]);
                            assert(cand_at(v, i as int, prev[a]));
                            lemma_cand_at_widen(v, i as int, prev[a]);
                        } else {
                            assert(out@[a] == cand_tuple(v[i as int]));
                            lemma_cand_at_here(v, i + 1, i as int);
                        }
                    }
                    assert forall|j: int|
                        0 <= j < i + 1 && dialable(#[trigger] v[j]) implies out@.contains(
                        cand_tuple(v[j]),
                    ) by {
                        if j < i {
                            assert(prev.contains(cand_tuple(v[j])));
                            let a0 = choose|a0: int|
                                0 <= a0 < prev.len() && prev[a0] == cand_tuple(v[j]);
                            assert(out@[a0] == cand_tuple(v[j]));
                        } else {
                            assert(out@[last] == cand_tuple(v[j]));
                        }
                    }
                    assert forall|a: int, b: int|
                        0 <= a < b < out@.len() implies (#[trigger] out@[a]).2 != (
                    #[trigger] out@[b]).2 by {
                        if b == last {
                            assert(out@[a] == prev[a]);
                            assert(cand_at(v, i as int, prev[a]));
                            lemma_cand_at_addr_ne(v, i as int, prev[a], i as int);
                        } else {
                            assert(out@[a] == prev[a]);
                            assert(out@[b] == prev[b]);
                        }
                    }
                }
            } else {
                proof {
                    let v = self.rows_v();
                    assert(!dialable(v[i as int]));
                    assert(cands_from_prefix(v, i as int, prev));
                    assert(prefix_covered(v, i as int, prev));
                    assert forall|a: int| 0 <= a < out@.len() implies cand_at(
                        v,
                        i + 1,
                        #[trigger] out@[a],
                    ) by {
                        assert(out@[a] == prev[a]);
                        assert(cand_at(v, i as int, prev[a]));
                        lemma_cand_at_widen(v, i as int, prev[a]);
                    }
                    assert forall|j: int|
                        0 <= j < i + 1 && dialable(#[trigger] v[j]) implies out@.contains(
                        cand_tuple(v[j]),
                    ) by {
                        assert(j != i);
                        assert(prev.contains(cand_tuple(v[j])));
                    }
                }
            }
            i += 1;
        }
        out
    }

    /// The dial pool: up to `limit` reachable non-Knots addresses, the best
    /// prefix of the priority order — best flavors first, the most recently
    /// seen first within a flavor — without duplicates. No returned address
    /// belongs to a Knots row, and every dialable row left out ranks no
    /// better than any returned one.
    pub fn get_knots_excluding(&self, limit: usize) -> (r: Vec<PeerAddr>)
        requires
            self.wf(),
        ensures
            r@.len() == vstd::math::min(limit as int, count_dialable(self.rows_v()) as int),
            forall|a: int| 0 <= a < r@.len() ==> dialable_addr_in(self.rows_v(), #[trigger] r@[a]),
            forall|a: int, b: int| 0 <= a < b < r@.len() ==> #[trigger] r@[a] != #[trigger] r@[b],
            forall|j: int, k: int|
                0 <= j < self.rows_v().len() && dialable(#[trigger] self.rows_v()[j])
                    && !r@.contains(self.rows_v()[j].addr) && 0 <= k < r@.len() ==> cand_le(
                    (
                        dial_rank(stored_row(self.rows_v(), #[trigger] r@[k]).node_type),
                        stored_row(self.rows_v(), r@[k]).last_seen,
                        r@[k],
                    ),
                    cand_tuple(self.rows_v()[j]),
                ),
            forall|a: int, b: int|
                0 <= a < b < r@.len() ==> cand_le(
                    (
                        dial_rank(stored_row(self.rows_v(), #[trigger] r@[a]).node_type),
                        stored_row(self.rows_v(), r@[a]).last_seen,
                        r@[a],
                    ),
                    (
                        dial_rank(stored_row(self.rows_v(), #[trigger] r@[b]).node_type),
                        stored_row(self.rows_v(), r@[b]).last_seen,
                        r@[b],
                    ),
                ),
    {
        broadcast use vstd::seq_lib::group_to_multiset_ensures;

        let cands = self.dial_candidates();
        let sorted = sort_candidates(&cands);
        proof {
            assert forall|a: int| 0 <= a < sorted@.len() implies cand_from_rows(
                self.rows_v(),
                #[trigger] sorted@[a],
            ) by {
                assert(sorted@.to_multiset().count(sorted@[a]) > 0);
                assert(cands@.contains(sorted@[a]));
            }
        }
        let m = sorted.len();
        let count = if limit < m {
            limit
        } else {
            m
        };
        let mut r: Vec<PeerAddr> = Vec::new();
        let mut i: usize = 0;
        while i < count
            invariant
                count <= m,
                m == sorted@.len(),
                i <= count,
                r@.len() == i,
                forall|a: int| 0 <= a < i ==> #[trigger] r@[a] == sorted@[a].2,
            decreases count - i,
        {
            r.push(sorted[i].2);
            i += 1;
        }
        proof {
            assert forall|a: int| 0 <= a < r@.len() implies dialable_addr_in(
                self.rows_v(),
                #[trigger] r@[a],
            ) by {
                let j = choose|j: int|
                    0 <= j < self.rows_v().len() && dialable(#[trigger] self.rows_v()[j]) && (
                    sorted@[a]) == (
                        dial_rank(self.rows_v()[j].node_type),
                        self.rows_v()[j].last_seen,
                        self.rows_v()[j].addr,
                    );
                assert(self.rows_v()[j].addr == r@[a]);
            }
            assert forall|a: int, b: int| 0 <= a < b < r@.len() implies cand_le(
                (
                    dial_rank(stored_row(self.rows_v(), #[trigger] r@[a]).node_type),
                    stored_row(self.rows_v(), r@[a]).last_seen,
                    r@[a],
                ),
                (
                    dial_rank(stored_row(self.rows_v(), #[trigger] r@[b]).node_type),
                    stored_row(self.rows_v(), r@[b]).last_seen,
                    r@[b],
                ),
            ) by {
                self.lemma_stored_tuple(sorted@, a);
                self.lemma_stored_tuple(sorted@, b);
                assert(cand_le(sorted@[a], sorted@[b]));
            }
            assert(cands@.no_duplicates()) by {
                assert forall|p: int, q: int|
                    0 <= p < cands@.len() && 0 <= q < cands@.len() && p != q implies cands@[p]
                    != cands@[q] by {
                    if p < q {
                        assert(cands@[p].2 != cands@[q].2);
                    } else {
                        assert(cands@[q].2 != cands@[p].2);
                    }
                }
            }
            cands@.lemma_multiset_has_no_duplicates();
            sorted@.lemma_multiset_has_no_duplicates_conv();
            assert forall|p: int, q: int|
                0 <= p < q < sorted@.len() implies (#[trigger] sorted@[p]).2 != (
            #[trigger] sorted@[q]).2 by {
                if sorted@[p].2 == sorted@[q].2 {
                    assert(sorted@.to_multiset().count(sorted@[p]) > 0);
                    assert(cands@.contains(sorted@[p]));
                    assert(sorted@.to_multiset().count(sorted@[q]) > 0);
                    assert(cands@.contains(sorted@[q]));
                    let p0 = choose|p0: int| 0 <= p0 < cands@.len() && cands@[p0] == sorted@[p];
                    let q0 = choose|q0: int| 0 <= q0 < cands@.len() && cands@[q0] == sorted@[q];
                    assert(p0 == q0);
                    assert(sorted@[p] == sorted@[q]);
                }
            }
            assert forall|a: int, b: int|
                0 <= a < b < r@.len() implies #[trigger] r@[a] != #[trigger] r@[b] by {
                assert(r@[a] == sorted@[a].2);
                assert(r@[b] == sorted@[b].2);
            }
            assert forall|j: int, k: int|
                0 <= j < self.rows_v().len() && dialable(#[trigger] self.rows_v()[j])
                    && !r@.contains(self.rows_v()[j].addr) && 0 <= k < r@.len() implies cand_le(
                (
                    dial_rank(stored_row(self.rows_v(), #[trigger] r@[k]).node_type),
                    stored_row(self.rows_v(), r@[k]).last_seen,
                    r@[k],
                ),
                cand_tuple(self.rows_v()[j]),
            ) by {
                let v = self.rows_v();
                let tj = cand_tuple(v[j]);
                assert(cands@.contains(tj));
                assert(cands@.to_multiset().count(tj) > 0);
                assert(sorted@.contains(tj));
                let p = choose|p: int| 0 <= p < sorted@.len() && sorted@[p] == tj;
                if p < r@.len() {
                    assert(r@[p] == sorted@[p].2);
                    assert(r@[p] == v[j].addr);
                    assert(r@.contains(v[j].addr));
                } else {
                    assert(cand_le(sorted@[k], sorted@[p]));
                    self.lemma_stored_tuple(sorted@, k);
                }
            }
        }
        r
    }

    /// The sorted candidate at index `a` describes exactly the stored row of
    /// its address.
    proof fn lemma_stored_tuple(&self, sorted: Seq<(u8, i64, PeerAddr)>, a: int)
        requires
            self.wf(),
            0 <= a < sorted.len(),
            cand_from_rows(self.rows_v(), sorted[a]),
        ensures
            sorted[a].0 == dial_rank(stored_row(self.rows_v(), sorted[a].2).node_type),
            sorted[a].1 == stored_row(self.rows_v(), sorted[a].2).last_seen,
    {
        let j = choose|j: int|
            0 <= j < self.rows_v().len() && dialable(#[trigger] self.rows_v()[j]) && (sorted[a])
                == (
                dial_rank(self.rows_v()[j].node_type),
                self.rows_v()[j].last_seen,
                self.rows_v()[j].addr,
            );
        let i = choose|i: int|
            0 <= i < self.rows_v().len() && (#[trigger] self.rows_v()[i]).addr == sorted[a].2;
        assert(self.rows_v()[j].addr == sorted[a].2);
        assert(i == j);
    }

    /// Up to `limit` reachable addresses of flavor `t`, the most recently
    /// seen first.
    pub fn get_by_type(&self, t: NodeType, limit: usize) -> (r: Vec<PeerAddr>)
        requires
            self.wf(),
        ensures
            r@.len() == vstd::math::min(limit as int, count_type(self.rows_v(), t) as int),
            forall|a: int|
                0 <= a < r@.len() ==> exists|j: int|
                    0 <= j < self.rows_v().len() && (#[trigger] self.rows_v()[j]).is_reachable
                        && self.rows_v()[j].node_type == t && self.rows_v()[j].addr
                        == #[trigger] r@[a],
            forall|a: int, b: int|
                0 <= a < b < r@.len() ==> stored_row(self.rows_v(), #[trigger] r@[a]).last_seen
                    >= stored_row(self.rows_v(), #[trigger] r@[b]).last_seen,
    {
        broadcast use vstd::seq_lib::group_to_multiset_ensures;

        let n = self.rows.len();
        let mut cands: Vec<(u8, i64, PeerAddr)> = Vec::new();
        let mut i: usize = 0;
        proof {
            assert(self.rows_v().skip(0) =~= self.rows_v());
        }
        while i < n
            invariant
                n == self.rows_v().len(),
                i <= n,
                count_type(self.rows_v(), t) == cands@.len() + count_type(
                    self.rows_v().skip(i as int),
                    t,
                ),
                forall|a: int|
                    0 <= a < cands@.len() ==> typed_cand_from_rows(
                        self.rows_v(),
                        t,
                        #[trigger] cands@[a],
                    ),
            decreases n - i,
        {
            let ghost tail = self.rows_v().skip(i as int);
            proof {
                assert(self.rows_v()[i as int] == self.rows@[i as int]@);
                assert(tail[0] == self.rows_v()[i as int]);
                assert(tail.drop_first() =~= self.rows_v().skip(i + 1));
            }
            let row = &self.rows[i];
            if row.is_reachable && row.node_type == t {
                cands.push((0, row.last_seen, row.addr));
            }
            i += 1;
        }
        proof {
            assert(self.rows_v().skip(n as int).len() == 0);
        }
        let sorted = sort_candidates(&cands);
        proof {
            assert forall|a: int| 0 <= a < sorted@.len() implies typed_cand_from_rows(
                self.rows_v(),
                t,
                #[trigger] sorted@[a],
            ) by {
                assert(sorted@.to_multiset().count(sorted@[a]) > 0);
                assert(cands@.contains(sorted@[a]));
            }
        }
        let m = sorted.len();
        let count = if limit < m {
            limit
        } else {
            m
        };
        let mut r: Vec<PeerAddr> = Vec::new();
        let mut i2: usize = 0;
        while i2 < count
            invariant
                count <= m,
                m == sorted@.len(),
                i2 <= count,
                r@.len() == i2,
                forall|a: int| 0 <= a < i2 ==> #[trigger] r@[a] == sorted@[a].2,
            decreases count - i2,
        {
            r.push(sorted[i2].2);
            i2 += 1;
        }
        proof {
            assert forall|a: int| 0 <= a < r@.len() implies exists|j: int|
                0 <= j < self.rows_v().len() && (#[trigger] self.rows_v()[j]).is_reachable
                    && self.rows_v()[j].node_type == t && self.rows_v()[j].addr
                    == #[trigger] r@[a] by {
                let j = choose|j: int|
                    0 <= j < self.rows_v().len() && (#[trigger] self.rows_v()[j]).is_reachable
                        && self.rows_v()[j].node_type == t && (sorted@[a]) == (
                        0u8,
                        self.rows_v()[j].last_seen,
                        self.rows_v()[j].addr,
                    );
                assert(self.rows_v()[j].addr == r@[a]);
            }
            assert forall|a: int, b: int| 0 <= a < b < r@.len() implies stored_row(
                self.rows_v(),
                #[trigger] r@[a],
            ).last_seen >= stored_row(self.rows_v(), #[trigger] r@[b]).last_seen by {
                self.lemma_stored_tuple_type(sorted@, a, t);
                self.lemma_stored_tuple_type(sorted@, b, t);
                assert(cand_le(sorted@[a], sorted@[b]));
            }
        }
        r
    }

    /// Like `lemma_stored_tuple`, for the per-type candidate shape.
    proof fn lemma_stored_tuple_type(&self, sorted: Seq<(u8, i64, PeerAddr)>, a: int, t: NodeType)
        requires
            self.wf(),
            0 <= a < sorted.len(),
            typed_cand_from_rows(self.rows_v(), t, sorted[a]),
        ensures
            sorted[a].1 == stored_row(self.rows_v(), sorted[a].2).last_seen,
    {
        let j = choose|j: int|
            0 <= j < self.rows_v().len() && (#[trigger] self.rows_v()[j]).is_reachable
                && self.rows_v()[j].node_type == t && (sorted[a]) == (
                0u8,
                self.rows_v()[j].last_seen,
                self.rows_v()[j].addr,
            );
        let i = choose|i: int|
            0 <= i < self.rows_v().len() && (#[trigger] self.rows_v()[i]).addr == sorted[a].2;
        assert(self.rows_v()[j].addr == sorted[a].2);
        assert(i == j);
    }

    /// Up to `limit` reachable addresses, without duplicates, in random
    /// order.
    pub fn get_random(&self, limit: usize) -> (r: Vec<PeerAddr>)
        requires
            self.wf(),
        ensures
            r@.len() == vstd::math::min(limit as int, count_reachable(self.rows_v()) as int),
            forall|a: int| 0 <= a < r@.len() ==> reachable_addr_in(self.rows_v(), #[trigger] r@[a]),
            forall|a: int, b: int| 0 <= a < b < r@.len() ==> #[trigger] r@[a] != #[trigger] r@[b],
    {
        broadcast use vstd::seq_lib::group_to_multiset_ensures;

        let n = self.rows.len();
        let mut cands: Vec<PeerAddr> = Vec::new();
        let mut i: usize = 0;
        proof {
            assert(self.rows_v().skip(0) =~= self.rows_v());
        }
        while i < n
            invariant
                n == self.rows_v().len(),
                i <= n,
                self.wf(),
                count_reachable(self.rows_v()) == cands@.len() + count_reachable(
                    self.rows_v().skip(i as int),
                ),
                forall|a: int|
                    0 <= a < cands@.len() ==> reachable_addr_in(
                        self.rows_v(),
                        #[trigger] cands@[a],
                    ),
                forall|a: int|
                    0 <= a < cands@.len() ==> reach_at(
                        self.rows_v(),
                        i as int,
                        #[trigger] cands@[a],
                    ),
                forall|a: int, b: int|
                    0 <= a < b < cands@.len() ==> #[trigger] cands@[a] != #[trigger] cands@[b],
            decreases n - i,
        {
            let ghost tail = self.rows_v().skip(i as int);
            let ghost prevc = cands@;
            proof {
                assert(self.rows_v()[i as int] == self.rows@[i as int]@);
                assert(tail[0] == self.rows_v()[i as int]);
                assert(tail.drop_first() =~= self.rows_v().skip(i + 1));
            }
            if self.rows[i].is_reachable {
                cands.push(self.rows[i].addr);
                proof {
                    let v = self.rows_v();
                    let last = prevc.len() as int;
                    assert(cands@ == prevc.push(v[i as int].addr));
                    assert forall|a: int| 0 <= a < cands@.len() implies reach_at(
                        v,
                        i + 1,
                        #[trigger] cands@[a],
                    ) by {
                        if a < last {
                            assert(cands@[a] == prevc[a]);
                            assert(reach_at(v, i as int, prevc[a]));
                            lemma_reach_at_widen(v, i as int, prevc[a]);
                        } else {
                            assert(cands@[a] == v[i as int].addr);
                            assert(0 <= i < i + 1 && v[i as int].is_reachable);
                        }
                    }
                    assert forall|a: int, b: int|
                        0 <= a < b < cands@.len() implies #[trigger] cands@[a]
                        != #[trigger] cands@[b] by {
                        if b == last {
                            assert(cands@[a] == prevc[a]);
                            assert(reach_at(v, i as int, prevc[a]));
                            lemma_reach_at_ne(v, i as int, prevc[a], i as int);
                        } else {
                            assert(cands@[a] == prevc[a]);
                            assert(cands@[b] == prevc[b]);
                        }
                    }
                }
            } else {
                proof {
                    let v = self.rows_v();
                    assert forall|a: int| 0 <= a < cands@.len() implies reach_at(
                        v,
                        i + 1,
                        #[trigger] cands@[a],
                    ) by {
                        assert(reach_at(v, i as int, cands@[a]));
                        lemma_reach_at_widen(v, i as int, cands@[a]);
                    }
                }
            }
            i += 1;
        }
        proof {
            assert(self.rows_v().skip(n as int).len() == 0);
        }
        let ghost before = cands@;
        shuffle_addrs(&mut cands);
        proof {
            assert forall|a: int| 0 <= a < cands@.len() implies reachable_addr_in(
                self.rows_v(),
                #[trigger] cands@[a],
            ) by {
                assert(cands@.to_multiset().count(cands@[a]) > 0);
                assert(before.contains(cands@[a]));
            }
            assert(before.no_duplicates()) by {
                assert forall|p: int, q: int|
                    0 <= p < before.len() && 0 <= q < before.len() && p != q implies before[p]
                    != before[q] by {
                    if p < q {
                    } else {
                        assert(before[q] != before[p]);
                    }
                }
            }
            before.lemma_multiset_has_no_duplicates();
            cands@.lemma_multiset_has_no_duplicates_conv();
        }
        let m = cands.len();
        let count = if limit < m {
            limit
        } else {
            m
        };
        let mut r: Vec<PeerAddr> = Vec::new();
        let mut i2: usize = 0;
        while i2 < count
            invariant
                count <= m,
                m == cands@.len(),
                i2 <= count,
                r@.len() == i2,
                cands@.no_duplicates(),
                forall|a: int| 0 <= a < i2 ==> #[trigger] r@[a] == cands@[a],
                forall|a: int|
                    0 <= a < i2 ==> reachable_addr_in(self.rows_v(), #[trigger] r@[a]),
                forall|a: int|
                    0 <= a < cands@.len() ==> reachable_addr_in(
                        self.rows_v(),
                        #[trigger] cands@[a],
                    ),
            decreases count - i2,
        {
            r.push(cands[i2]);
            i2 += 1;
        }
        proof {
            assert forall|a: int, b: int|
                0 <= a < b < r@.len() implies #[trigger] r@[a] != #[trigger] r@[b] by {
                assert(r@[a] == cands@[a]);
                assert(r@[b] == cands@[b]);
            }
        }
        r
    }
}

/// Starting from a reachable row with a clean failure counter, five
/// consecutive failures make the row unreachable; one successful connection
/// restores reachability with the counter back at zero.
pub proof fn lemma_reachability_transition(r: NodeInfoV, now: i64)
    requires
        r.is_reachable,
        r.connection_failures == 0,
    ensures
        ({
            let down = failed_row(failed_row(failed_row(failed_row(failed_row(r)))));
            &&& !down.is_reachable
            &&& down.connection_failures == 5
            &&& connected_row(down, now).is_reachable
            &&& connected_row(down, now).connection_failures == 0
        }),
{
}


} // verus!
