use vstd::prelude::*;

use crate::addr::PeerAddr;
use crate::message::{entry_relay_key, AddressEntry, InvEntry, InvEntryV, Message, MessageV, INV_TRANSACTION};
use crate::metrics::{bump, bumped, bumped_by, Metrics};
use crate::node_type::NodeType;
use crate::peer::{PeerEvent, PeerHandle, PeerHandleV};
use crate::relay::{cache_bytes_for_txid, cache_bytes_for_wtxid, cache_insert, gc_requested, has_key, seen_contains_key, seen_insert, without_key, RelayState, TxEntryV};

verus! {

/// Per-tick cap on outbound connection attempts.
pub const MAX_CONNECT_ATTEMPTS_PER_TICK: usize = 192;

/// Cap on addresses in a `GetAddr` response.
pub const GETADDR_RESPONSE_LIMIT: usize = 50;

/// An outbound intent: send `msg` to the peer at `to`. The caller performs
/// the sends and reports peers whose queues refused them as stale.
pub struct OutMsg {
    pub to: PeerAddr,
    pub msg: Message,
}

/// Mathematical value of an `OutMsg`.
#[verifier::ext_equal]
pub struct OutMsgV {
    pub to: PeerAddr,
    pub msg: crate::message::MessageV,
}

impl View for OutMsg {
    type V = OutMsgV;

    open spec fn view(&self) -> OutMsgV {
        OutMsgV { to: self.to, msg: self.msg@ }
    }
}

impl DeepView for OutMsg {
    type V = OutMsgV;

    open spec fn deep_view(&self) -> OutMsgV {
        self.view()
    }
}

/// Number of peers of exactly this flavor.
pub open spec fn count_bucket(peers: Seq<PeerHandleV>, t: NodeType) -> nat
    decreases peers.len(),
{
    if peers.len() == 0 {
        0
    } else {
        (if peers[0].node_type == t {
            1nat
        } else {
            0nat
        }) + count_bucket(peers.drop_first(), t)
    }
}

/// Number of peers that are neither Knots, Core nor LibreRelay.
pub open spec fn count_other_bucket(peers: Seq<PeerHandleV>) -> nat
    decreases peers.len(),
{
    if peers.len() == 0 {
        0
    } else {
        (if peers[0].node_type == NodeType::Knots || peers[0].node_type == NodeType::Core
            || peers[0].node_type == NodeType::LibreRelay {
            0nat
        } else {
            1nat
        }) + count_other_bucket(peers.drop_first())
    }
}

/// The peer list without the entries at `addr`.
pub open spec fn remove_peer(peers: Seq<PeerHandleV>, addr: PeerAddr) -> Seq<PeerHandleV>
    decreases peers.len(),
{
    if peers.len() == 0 {
        Seq::empty()
    } else if peers[0].addr != addr {
        seq![peers[0]] + remove_peer(peers.drop_first(), addr)
    } else {
        remove_peer(peers.drop_first(), addr)
    }
}

/// The peer list without the entries whose address is in `stale`.
pub open spec fn retained_peers(peers: Seq<PeerHandleV>, stale: Seq<PeerAddr>) -> Seq<PeerHandleV>
    decreases peers.len(),
{
    if peers.len() == 0 {
        Seq::empty()
    } else if !stale.contains(peers[0].addr) {
        seq![peers[0]] + retained_peers(peers.drop_first(), stale)
    } else {
        retained_peers(peers.drop_first(), stale)
    }
}

/// The pending-dial set without `addr`.
pub open spec fn without_addr(s: Seq<PeerAddr>, addr: PeerAddr) -> Seq<PeerAddr>
    decreases s.len(),
{
    if s.len() == 0 {
        Seq::empty()
    } else if s[0] != addr {
        seq![s[0]] + without_addr(s.drop_first(), addr)
    } else {
        without_addr(s.drop_first(), addr)
    }
}

/// The flavor of the peer at `a`, `Unknown` if none is connected.
pub open spec fn source_type(peers: Seq<PeerHandleV>, a: PeerAddr) -> NodeType {
    if exists|i: int| 0 <= i < peers.len() && (#[trigger] peers[i]).addr == a {
        peers[choose|i: int| 0 <= i < peers.len() && (#[trigger] peers[i]).addr == a].node_type
    } else {
        NodeType::Unknown
    }
}

/// How many dials the filler launches: one and a half times the deficit,
/// capped per tick; zero when at or above target.
pub open spec fn desired_dials(target: int, current: int) -> int {
    if current >= target {
        0
    } else {
        let d = target - current;
        if d + d / 2 > MAX_CONNECT_ATTEMPTS_PER_TICK {
            MAX_CONNECT_ATTEMPTS_PER_TICK as int
        } else {
            d + d / 2
        }
    }
}

/// An address the filler may dial now: IPv4, not connected, not already
/// being dialed.
pub open spec fn eligible_dial(m: PeerManager, a: PeerAddr) -> bool {
    !a.ip.is_v6() && !m.has_peer(a) && !m.pending_has(a)
}

/// The dial plan: walking the candidate pool in order, the first `budget`
/// eligible addresses.
pub open spec fn planned_dials(m: PeerManager, cands: Seq<PeerAddr>, budget: int) -> Seq<PeerAddr>
    decreases cands.len(),
{
    if budget <= 0 || cands.len() == 0 {
        Seq::empty()
    } else if eligible_dial(m, cands[0]) {
        seq![cands[0]] + planned_dials(m, cands.drop_first(), budget - 1)
    } else {
        planned_dials(m, cands.drop_first(), budget)
    }
}

/// The plan never exceeds its budget, takes only eligible addresses from the
/// pool, and stops short of the budget only when the pool has no further
/// eligible address.
pub proof fn lemma_planned_dials_props(m: PeerManager, cands: Seq<PeerAddr>, budget: int)
    ensures
        planned_dials(m, cands, budget).len() <= vstd::math::max(budget, 0),
        forall|a: int|
            0 <= a < planned_dials(m, cands, budget).len() ==> eligible_dial(
                m,
                #[trigger] planned_dials(m, cands, budget)[a],
            ) && cands.contains(planned_dials(m, cands, budget)[a]),
        planned_dials(m, cands, budget).len() < budget ==> forall|j: int|
            0 <= j < cands.len() && eligible_dial(m, #[trigger] cands[j]) ==> planned_dials(
                m,
                cands,
                budget,
            ).contains(cands[j]),
    decreases cands.len(),
{
    let p = planned_dials(m, cands, budget);
    if budget <= 0 || cands.len() == 0 {
    } else {
        lemma_planned_dials_props(m, cands.drop_first(), budget - 1);
        lemma_planned_dials_props(m, cands.drop_first(), budget);
        if eligible_dial(m, cands[0]) {
            let pd = planned_dials(m, cands.drop_first(), budget - 1);
            assert(p == seq![cands[0]] + pd);
            assert forall|a: int| 0 <= a < p.len() implies eligible_dial(m, #[trigger] p[a])
                && cands.contains(p[a]) by {
                if a == 0 {
                    assert(cands[0] == p[0]);
                } else {
                    assert(p[a] == pd[a - 1]);
                    let j = choose|j: int| 0 <= j < cands.drop_first().len() && cands.drop_first()[j]
                        == pd[a - 1];
                    assert(cands[j + 1] == pd[a - 1]);
                }
            }
            if p.len() < budget {
                assert forall|j: int|
                    0 <= j < cands.len() && eligible_dial(m, #[trigger] cands[j]) implies p.contains(
                    cands[j],
                ) by {
                    if j == 0 {
                        assert(p[0] == cands[0]);
                    } else {
                        assert(cands.drop_first()[j - 1] == cands[j]);
                        let k = choose|k: int|
                            0 <= k < pd.len() && #[trigger] pd[k] == cands.drop_first()[j - 1];
                        assert(p[k + 1] == pd[k]);
                    }
                }
            }
        } else {
            let pd = planned_dials(m, cands.drop_first(), budget);
            assert(p == pd);
            assert forall|a: int| 0 <= a < p.len() implies eligible_dial(m, #[trigger] p[a])
                && cands.contains(p[a]) by {
                let j = choose|j: int| 0 <= j < cands.drop_first().len() && cands.drop_first()[j]
                    == pd[a];
                assert(cands[j + 1] == pd[a]);
            }
            if p.len() < budget {
                assert forall|j: int|
                    0 <= j < cands.len() && eligible_dial(m, #[trigger] cands[j]) implies p.contains(
                    cands[j],
                ) by {
                    if j > 0 {
                        assert(cands.drop_first()[j - 1] == cands[j]);
                    }
                }
            }
        }
    }
}

/// The central coordinator's state: the live peer list, the pending-dial
/// set, the relay tables and the telemetry counters.
pub struct PeerManager {
    pub peers: Vec<PeerHandle>,
    pub pending: Vec<PeerAddr>,
    pub relay: RelayState,
    pub metrics: Metrics,
    pub target_peers: usize,
}

impl PeerManager {
    pub open spec fn peers_v(self) -> Seq<PeerHandleV> {
        self.peers.deep_view()
    }

    pub open spec fn has_peer(self, a: PeerAddr) -> bool {
        exists|i: int| 0 <= i < self.peers_v().len() && (#[trigger] self.peers_v()[i]).addr == a
    }

    pub open spec fn pending_has(self, a: PeerAddr) -> bool {
        exists|i: int| 0 <= i < self.pending@.len() && #[trigger] self.pending@[i] == a
    }

    /// One entry per connected address, and sound relay tables.
    pub open spec fn wf(self) -> bool {
        &&& forall|i: int, j: int|
            0 <= i < j < self.peers_v().len() ==> (#[trigger] self.peers_v()[i]).addr != (
            #[trigger] self.peers_v()[j]).addr
        &&& self.relay.wf()
    }

    /// A manager with no peers, nothing pending, and fresh tables.
    pub fn new(target_peers: usize) -> (r: PeerManager)
        ensures
            r.wf(),
            r.peers_v().len() == 0,
            r.pending@.len() == 0,
            r.relay.seen@.len() == 0,
            r.relay.requested@.len() == 0,
            r.relay.cache@.len() == 0,
            r.target_peers == target_peers,
            r.metrics.transactions_received == 0,
            r.metrics.total_connections == 0,
    {
        PeerManager {
            peers: Vec::new(),
            pending: Vec::new(),
            relay: RelayState::new(),
            metrics: Metrics::new(),
            target_peers,
        }
    }

    /// The live peer list.
    pub fn peers(&self) -> (r: &Vec<PeerHandle>)
        ensures
            r@ == self.peers@,
    {
        &self.peers
    }

    /// Index of the peer at `a`, if connected.
    fn find_peer(&self, a: PeerAddr) -> (r: Option<usize>)
        ensures
            match r {
                Some(i) => i < self.peers_v().len() && self.peers_v()[i as int].addr == a,
                None => !self.has_peer(a),
            },
    {
        let n = self.peers.len();
        let mut i: usize = 0;
        while i < n
            invariant
                n == self.peers_v().len(),
                i <= n,
                forall|j: int| 0 <= j < i ==> (#[trigger] self.peers_v()[j]).addr != a,
            decreases n - i,
        {
            proof {
                assert(self.peers_v()[i as int] == self.peers@[i as int]@);
            }
            if self.peers[i].addr == a {
                return Some(i);
            }
            i += 1;
        }
        None
    }

    /// The flavor of the connected peer at `addr`, `Unknown` if none.
    pub fn peer_node_type(&self, addr: PeerAddr) -> (r: NodeType)
        requires
            self.wf(),
        ensures
            r == source_type(self.peers_v(), addr),
    {
        match self.find_peer(addr) {
            Some(i) => {
                proof {
                    let j = choose|j: int|
                        0 <= j < self.peers_v().len() && (#[trigger] self.peers_v()[j]).addr
                            == addr;
                    assert(j == i);
                }
                self.peers[i].node_type()
            },
            None => NodeType::Unknown,
        }
    }

    /// Adopts a freshly established peer unless one with the same address is
    /// already in the list; the duplicate connection is to be dropped.
    pub fn adopt_peer(&mut self, h: PeerHandle) -> (r: bool)
        requires
            old(self).wf(),
        ensures
            final(self).wf(),
            r == !old(self).has_peer(h.addr),
            r ==> final(self).peers_v() == old(self).peers_v().push(h@),
            r ==> final(self).metrics == (Metrics {
                total_connections: bumped(old(self).metrics.total_connections),
                ..old(self).metrics
            }),
            !r ==> final(self).peers == old(self).peers && final(self).metrics == old(
                self,
            ).metrics,
            final(self).pending == old(self).pending,
            final(self).relay == old(self).relay,
            final(self).target_peers == old(self).target_peers,
            final(self).has_peer(h.addr),
    {
        match self.find_peer(h.addr) {
            Some(i) => {
                proof {
                    assert(self.has_peer(h.addr));
                }
                false
            },
            None => {
                self.peers.push(h);
                self.metrics.total_connections = bump(self.metrics.total_connections);
                proof {
                    assert(self.peers_v() =~= old(self).peers_v().push(h@));
                    let last = self.peers_v().len() - 1;
                    assert(self.peers_v()[last].addr == h.addr);
                }
                true
            },
        }
    }

    /// Two connected peers never share an address: a second successful
    /// handshake to the same socket address is not adopted.
    pub proof fn lemma_duplicate_connection(self, a: PeerAddr, i: int, j: int)
        requires
            self.wf(),
            0 <= i < self.peers_v().len(),
            0 <= j < self.peers_v().len(),
            self.peers_v()[i].addr == a,
            self.peers_v()[j].addr == a,
        ensures
            i == j,
    {
    }

    /// Inserts `addr` into the pending-dial set (idempotently).
    pub fn begin_dial(&mut self, addr: PeerAddr)
        ensures
            final(self).pending@ == if old(self).pending_has(addr) {
                old(self).pending@
            } else {
                old(self).pending@.push(addr)
            },
            final(self).peers == old(self).peers,
            final(self).relay == old(self).relay,
            final(self).metrics == old(self).metrics,
            final(self).target_peers == old(self).target_peers,
            final(self).pending_has(addr),
    {
        let n = self.pending.len();
        let mut i: usize = 0;
        while i < n
            invariant
                n == self.pending@.len(),
                i <= n,
                forall|j: int| 0 <= j < i ==> #[trigger] self.pending@[j] != addr,
            decreases n - i,
        {
            if self.pending[i] == addr {
                return ;
            }
            i += 1;
        }
        self.pending.push(addr);
        proof {
            let last = self.pending@.len() - 1;
            assert(self.pending@[last] == addr);
        }
    }

    /// Removes `addr` from the pending-dial set when its attempt resolves.
    pub fn finish_dial(&mut self, addr: PeerAddr)
        ensures
            final(self).pending@ == without_addr(old(self).pending@, addr),
            final(self).peers == old(self).peers,
            final(self).relay == old(self).relay,
            final(self).metrics == old(self).metrics,
            final(self).target_peers == old(self).target_peers,
            !final(self).pending_has(addr),
    {
        let n = self.pending.len();
        let mut out: Vec<PeerAddr> = Vec::new();
        let mut i: usize = 0;
        proof {
            assert(self.pending@.skip(0) =~= self.pending@);
            assert(out@ + without_addr(self.pending@, addr) =~= without_addr(
                self.pending@,
                addr,
            ));
        }
        while i < n
            invariant
                n == self.pending@.len(),
                i <= n,
                forall|j: int| 0 <= j < out@.len() ==> #[trigger] out@[j] != addr,
                without_addr(self.pending@, addr) == out@ + without_addr(
                    self.pending@.skip(i as int),
                    addr,
                ),
            decreases n - i,
        {
            let a = self.pending[i];
            let ghost tail = self.pending@.skip(i as int);
            proof {
                assert(tail[0] == self.pending@[i as int]);
                assert(tail.drop_first() =~= self.pending@.skip(i + 1));
            }
            let ghost prev = out@;
            if a != addr {
                out.push(a);
                proof {
                    assert(prev + (seq![tail[0]] + without_addr(
                        self.pending@.skip(i + 1),
                        addr,
                    )) =~= out@ + without_addr(self.pending@.skip(i + 1), addr));
                }
            }
            i += 1;
        }
        proof {
            assert(self.pending@.skip(n as int).len() == 0);
            assert(out@ + Seq::<PeerAddr>::empty() =~= out@);
        }
        self.pending = out;
    }

    /// Plans one filler tick: exactly the first eligible candidates of the
    /// dial pool, in pool order — IPv4, not connected, not already being
    /// dialed — up to one and a half times the peer deficit (at most the
    /// per-tick cap). With no deficit nothing is dialed.
    pub fn plan_dials(&self, candidates: &Vec<PeerAddr>) -> (r: Vec<PeerAddr>)
        requires
            self.wf(),
        ensures
            r@ == planned_dials(
                *self,
                candidates@,
                desired_dials(self.target_peers as int, self.peers_v().len() as int),
            ),
            r@.len() <= desired_dials(self.target_peers as int, self.peers_v().len() as int),
            forall|a: int| 0 <= a < r@.len() ==> !(#[trigger] r@[a]).ip.is_v6(),
            forall|a: int| 0 <= a < r@.len() ==> !self.has_peer(#[trigger] r@[a]),
            forall|a: int| 0 <= a < r@.len() ==> !self.pending_has(#[trigger] r@[a]),
            forall|a: int| 0 <= a < r@.len() ==> candidates@.contains(#[trigger] r@[a]),
    {
        let current = self.peers.len();
        if current >= self.target_peers {
            let r: Vec<PeerAddr> = Vec::new();
            return r;
        }
        let d = self.target_peers - current;
        let budget = if d >= 128 {
            MAX_CONNECT_ATTEMPTS_PER_TICK
        } else {
            d + d / 2
        };
        proof {
            assert(budget as int == desired_dials(
                self.target_peers as int,
                self.peers_v().len() as int,
            ));
        }
        let n = candidates.len();
        let mut r: Vec<PeerAddr> = Vec::new();
        let mut i: usize = 0;
        proof {
            assert(candidates@.skip(0) =~= candidates@);
            assert(r@ + planned_dials(*self, candidates@, budget as int) =~= planned_dials(
                *self,
                candidates@,
                budget as int,
            ));
        }
        while i < n && r.len() < budget
            invariant
                n == candidates@.len(),
                i <= n,
                r@.len() <= budget,
                budget as int == desired_dials(
                    self.target_peers as int,
                    self.peers_v().len() as int,
                ),
                planned_dials(*self, candidates@, budget as int) == r@ + planned_dials(
                    *self,
                    candidates@.skip(i as int),
                    budget - r@.len(),
                ),
            decreases n - i,
        {
            let ghost tail = candidates@.skip(i as int);
            proof {
                assert(tail[0] == candidates@[i as int]);
                assert(tail.drop_first() =~= candidates@.skip(i + 1));
            }
            let cand = candidates[i];
            let skip_it = cand.ip_is_v6() || self.is_connected(cand) || self.is_pending(cand);
            let ghost prev = r@;
            if !skip_it {
                r.push(cand);
                proof {
                    assert(prev + (seq![cand] + planned_dials(
                        *self,
                        candidates@.skip(i + 1),
                        budget - r@.len(),
                    )) =~= r@ + planned_dials(*self, candidates@.skip(i + 1), budget - r@.len()));
                }
            }
            i += 1;
        }
        proof {
            if r@.len() < budget {
                assert(candidates@.skip(n as int).len() == 0);
            } else {
                assert(budget - r@.len() <= 0);
            }
            assert(planned_dials(*self, candidates@.skip(i as int), budget - r@.len())
                =~= Seq::<PeerAddr>::empty());
            assert(r@ + Seq::<PeerAddr>::empty() =~= r@);
            lemma_planned_dials_props(*self, candidates@, budget as int);
        }
        r
    }

    /// Exec mirror of `has_peer`.
    pub fn is_connected(&self, a: PeerAddr) -> (r: bool)
        ensures
            r == self.has_peer(a),
    {
        match self.find_peer(a) {
            Some(_) => true,
            None => false,
        }
    }

    /// Exec mirror of `pending_has`.
    pub fn is_pending(&self, a: PeerAddr) -> (r: bool)
        ensures
            r == self.pending_has(a),
    {
        let n = self.pending.len();
        let mut i: usize = 0;
        while i < n
            invariant
                n == self.pending@.len(),
                i <= n,
                forall|j: int| 0 <= j < i ==> #[trigger] self.pending@[j] != a,
            decreases n - i,
        {
            if self.pending[i] == a {
                return true;
            }
            i += 1;
        }
        false
    }
}

/// The metrics after one per-source-flavor counter bump.
pub open spec fn bump_from(m: Metrics, t: NodeType) -> Metrics {
    match t {
        NodeType::Knots => Metrics {
            transactions_received_from_knots: bumped(m.transactions_received_from_knots),
            ..m
        },
        NodeType::Core => Metrics {
            transactions_received_from_core: bumped(m.transactions_received_from_core),
            ..m
        },
        NodeType::LibreRelay => Metrics {
            transactions_received_from_libre: bumped(m.transactions_received_from_libre),
            ..m
        },
        NodeType::Other => Metrics {
            transactions_received_from_other: bumped(m.transactions_received_from_other),
            ..m
        },
        NodeType::Unknown => Metrics {
            transactions_received_from_unknown: bumped(m.transactions_received_from_unknown),
            ..m
        },
    }
}

/// The announcements sent when a new transaction is accepted from `from`:
/// one `Inv` per connected peer, excluding the announcer and every Knots
/// peer.
pub open spec fn relay_msgs(peers: Seq<PeerHandleV>, from: PeerAddr, txid: [u8; 32]) -> Seq<
    OutMsgV,
>
    decreases peers.len(),
{
    if peers.len() == 0 {
        Seq::empty()
    } else {
        (if peers[0].addr != from && peers[0].node_type != NodeType::Knots {
            seq![
                OutMsgV {
                    to: peers[0].addr,
                    msg: MessageV::Inv(
                        seq![InvEntryV { kind: INV_TRANSACTION as u32, hash: txid@ }],
                    ),
                },
            ]
        } else {
            Seq::empty()
        }) + relay_msgs(peers.drop_first(), from, txid)
    }
}

/// The relay filter: announcements go to every connected peer except the
/// announcer and Knots peers, one each, and to nobody else.
pub proof fn lemma_relay_filter(peers: Seq<PeerHandleV>, from: PeerAddr, txid: [u8; 32])
    ensures
        forall|k: int|
            0 <= k < relay_msgs(peers, from, txid).len() ==> (#[trigger] relay_msgs(
                peers,
                from,
                txid,
            )[k]).to != from,
        forall|k: int|
            0 <= k < relay_msgs(peers, from, txid).len() ==> exists|j: int|
                0 <= j < peers.len() && (#[trigger] peers[j]).addr == (#[trigger] relay_msgs(
                    peers,
                    from,
                    txid,
                )[k]).to && peers[j].node_type != NodeType::Knots,
        forall|j: int|
            0 <= j < peers.len() && (#[trigger] peers[j]).addr != from && peers[j].node_type
                != NodeType::Knots ==> exists|k: int|
                0 <= k < relay_msgs(peers, from, txid).len() && (#[trigger] relay_msgs(
                    peers,
                    from,
                    txid,
                )[k]).to == peers[j].addr,
    decreases peers.len(),
{
    let m = relay_msgs(peers, from, txid);
    if peers.len() == 0 {
    } else {
        lemma_relay_filter(peers.drop_first(), from, txid);
        let md = relay_msgs(peers.drop_first(), from, txid);
        let head = peers[0];
        if head.addr != from && head.node_type != NodeType::Knots {
            assert(m == seq![
                OutMsgV {
                    to: head.addr,
                    msg: MessageV::Inv(
                        seq![InvEntryV { kind: INV_TRANSACTION as u32, hash: txid@ }],
                    ),
                },
            ] + md);
            assert(m[0].to == head.addr);
            assert forall|k: int| 0 <= k < m.len() implies (#[trigger] m[k]).to != from by {
                if k > 0 {
                    assert(m[k] == md[k - 1]);
                }
            }
            assert forall|k: int| 0 <= k < m.len() implies exists|j: int|
                0 <= j < peers.len() && (#[trigger] peers[j]).addr == (#[trigger] m[k]).to
                    && peers[j].node_type != NodeType::Knots by {
                if k == 0 {
                    assert(peers[0].addr == m[0].to && peers[0].node_type != NodeType::Knots);
                } else {
                    assert(m[k] == md[k - 1]);
                    let j = choose|j: int|
                        0 <= j < peers.drop_first().len() && (#[trigger] peers.drop_first()[j]).addr
                            == md[k - 1].to && peers.drop_first()[j].node_type != NodeType::Knots;
                    assert(peers[j + 1] == peers.drop_first()[j]);
                }
            }
            assert forall|j: int|
                0 <= j < peers.len() && (#[trigger] peers[j]).addr != from && peers[j].node_type
                    != NodeType::Knots implies exists|k: int|
                0 <= k < m.len() && (#[trigger] m[k]).to == peers[j].addr by {
                if j == 0 {
                    assert(m[0].to == peers[0].addr);
                } else {
                    assert(peers.drop_first()[j - 1] == peers[j]);
                    let k = choose|k: int|
                        0 <= k < md.len() && (#[trigger] md[k]).to == peers.drop_first()[j
                            - 1].addr;
                    assert(m[k + 1] == md[k]);
                }
            }
        } else {
            assert(m == md);
            assert forall|j: int|
                0 <= j < peers.len() && (#[trigger] peers[j]).addr != from && peers[j].node_type
                    != NodeType::Knots implies exists|k: int|
                0 <= k < m.len() && (#[trigger] m[k]).to == peers[j].addr by {
                assert(j != 0);
                assert(peers.drop_first()[j - 1] == peers[j]);
                let k = choose|k: int|
                    0 <= k < md.len() && (#[trigger] md[k]).to == peers.drop_first()[j - 1].addr;
            }
            assert forall|k: int| 0 <= k < m.len() implies exists|j: int|
                0 <= j < peers.len() && (#[trigger] peers[j]).addr == (#[trigger] m[k]).to
                    && peers[j].node_type != NodeType::Knots by {
                let j = choose|j: int|
                    0 <= j < peers.drop_first().len() && (#[trigger] peers.drop_first()[j]).addr
                        == md[k].to && peers.drop_first()[j].node_type != NodeType::Knots;
                assert(peers[j + 1] == peers.drop_first()[j]);
            }
        }
    }
}

/// Everything that accepting one transaction announcement changes. `was_new`
/// is decided by the seen set: the first observation relays and counts, any
/// later one does nothing.
pub open spec fn tx_accept_post(
    pre: PeerManager,
    post: PeerManager,
    from: PeerAddr,
    txid: [u8; 32],
    wtxid: [u8; 32],
    bytes: Seq<u8>,
    out: Seq<OutMsgV>,
) -> bool {
    let was_new = !pre.relay.seen_has(txid@);
    &&& post.peers == pre.peers
    &&& post.pending == pre.pending
    &&& post.target_peers == pre.target_peers
    &&& post.relay.requested@ == without_key(
        without_key(pre.relay.requested@, txid@),
        wtxid@,
    )
    &&& post.relay.seen@ == seen_insert(seen_insert(pre.relay.seen@, txid), wtxid)
    &&& if was_new {
        &&& post.relay.seen_has(txid@)
        &&& post.relay.cache_v() == if pre.relay.cache_has(txid@) {
            pre.relay.cache_v()
        } else {
            cache_insert(
                pre.relay.cache_v(),
                TxEntryV { txid: txid@, wtxid: wtxid@, bytes: bytes },
            )
        }
        &&& post.metrics == bump_from(
            Metrics {
                transactions_received: bumped(pre.metrics.transactions_received),
                ..pre.metrics
            },
            source_type(pre.peers.deep_view(), from),
        )
        &&& out == relay_msgs(pre.peers.deep_view(), from, txid)
    } else {
        &&& post.relay.cache == pre.relay.cache
        &&& post.metrics == pre.metrics
        &&& out.len() == 0
    }
}

impl PeerManager {
    /// Accepts a transaction received from `from`: clears its outstanding
    /// requests, marks both identifiers seen, and on first observation
    /// caches it, counts it, and announces it to every non-Knots peer other
    /// than the announcer.
    pub fn accept_tx(
        &mut self,
        from: PeerAddr,
        txid: [u8; 32],
        wtxid: [u8; 32],
        bytes: Vec<u8>,
        now: i64,
    ) -> (r: Vec<OutMsg>)
        requires
            old(self).wf(),
        ensures
            final(self).wf(),
            tx_accept_post(*old(self), *final(self), from, txid, wtxid, bytes@, r.deep_view()),
    {
        let src_type = self.peer_node_type(from);
        self.relay.complete_request(&txid);
        self.relay.complete_request(&wtxid);
        let is_new = self.relay.mark_seen(txid);
        let _second = self.relay.mark_seen(wtxid);
        proof {
            assert(self.relay.seen@ == seen_insert(
                seen_insert(old(self).relay.seen@, txid),
                wtxid,
            ));
            if is_new {
                let s1 = seen_insert(old(self).relay.seen@, txid);
                let back = s1.len() - 1;
                assert(s1[back]@ == txid@);
                if crate::relay::seen_contains_key(s1, wtxid@) {
                    assert(self.relay.seen@[back]@ == txid@);
                } else if s1.len() < crate::relay::SEEN_CACHE_LIMIT {
                    assert(self.relay.seen@[back]@ == txid@);
                } else {
                    assert(self.relay.seen@[back - 1]@ == txid@);
                }
                assert(self.relay.seen_has(txid@));
            }
        }
        if !is_new {
            let r: Vec<OutMsg> = Vec::new();
            proof {
                assert(r.deep_view() =~= Seq::<OutMsgV>::empty());
            }
            return r;
        }
        let ghost bytes_v = bytes@;
        let cached = match self.relay.get_tx(&txid) {
            Some(_) => true,
            None => false,
        };
        if !cached {
            let ghost pre_cache = self.relay.cache.deep_view();
            self.relay.insert_tx(txid, wtxid, bytes);
            proof {
                assert(self.relay.cache_v() =~= cache_insert(
                    pre_cache,
                    TxEntryV { txid: txid@, wtxid: wtxid@, bytes: bytes_v },
                ));
            }
        }
        self.metrics.transactions_received = bump(self.metrics.transactions_received);
        self.metrics.inc_transactions_received_from(src_type);
        let ghost peers0 = self.peers.deep_view();
        let entry = InvEntry { kind: INV_TRANSACTION, hash: txid };
        let n = self.peers.len();
        let mut r: Vec<OutMsg> = Vec::new();
        let mut i: usize = 0;
        proof {
            assert(peers0.skip(0) =~= peers0);
            assert(r.deep_view() + relay_msgs(peers0, from, txid) =~= relay_msgs(
                peers0,
                from,
                txid,
            ));
        }
        while i < n
            invariant
                n == self.peers@.len(),
                self.peers.deep_view() == peers0,
                i <= n,
                entry.kind == INV_TRANSACTION,
                entry.hash == txid,
                relay_msgs(peers0, from, txid) == r.deep_view() + relay_msgs(
                    peers0.skip(i as int),
                    from,
                    txid,
                ),
            decreases n - i,
        {
            let ghost tail = peers0.skip(i as int);
            proof {
                assert(peers0[i as int] == self.peers@[i as int]@);
                assert(tail[0] == peers0[i as int]);
                assert(tail.drop_first() =~= peers0.skip(i + 1));
            }
            let ghost prev = r.deep_view();
            let p = &self.peers[i];
            let is_target = !(p.addr == from) && !matches!(p.node_type, NodeType::Knots);
            if is_target {
                let ventry = vec_of_entry(entry);
                let ghost vdv = ventry.deep_view();
                let m = OutMsg { to: p.addr, msg: Message::Inv(ventry) };
                proof {
                    let ghost target = OutMsgV {
                        to: peers0[i as int].addr,
                        msg: MessageV::Inv(
                            seq![InvEntryV { kind: INV_TRANSACTION as u32, hash: txid@ }],
                        ),
                    };
                    assert(entry@.hash =~= txid@);
                    assert(entry@ =~= (InvEntryV { kind: INV_TRANSACTION as u32, hash: txid@ }));
                    assert(vdv =~= seq![InvEntryV { kind: INV_TRANSACTION as u32, hash: txid@ }]);
                    assert(m@.msg == MessageV::Inv(vdv));
                    assert(m@.to == peers0[i as int].addr);
                    assert(m@ =~= target);
                }
                r.push(m);
                proof {
                    assert(r.deep_view() =~= prev.push(m@));
                    assert(prev + (seq![m@] + relay_msgs(peers0.skip(i + 1), from, txid)) =~= r.deep_view()
                        + relay_msgs(peers0.skip(i + 1), from, txid));
                }
            }
            i += 1;
        }
        proof {
            assert(peers0.skip(n as int).len() == 0);
            assert(r.deep_view() + Seq::<OutMsgV>::empty() =~= r.deep_view());
        }
        r
    }
}

/// A one-entry inventory vector.
fn vec_of_entry(e: InvEntry) -> (r: Vec<InvEntry>)
    ensures
        r.deep_view() =~= seq![e@],
{
    let mut r: Vec<InvEntry> = Vec::new();
    r.push(e);
    proof {
        assert(r.deep_view() =~= seq![e@]);
    }
    r
}

/// The relay-request table and accepted entries after processing one `Inv`
/// list: per entry, the table is garbage collected, and a tx-typed key that
/// is neither seen nor still outstanding is recorded and accepted.
pub open spec fn fold_inv(
    seen: Seq<[u8; 32]>,
    req: Seq<([u8; 32], i64)>,
    entries: Seq<InvEntry>,
    now: i64,
) -> (Seq<([u8; 32], i64)>, Seq<InvEntryV>)
    decreases entries.len(),
{
    if entries.len() == 0 {
        (req, Seq::empty())
    } else {
        let e = entries[0];
        match entry_relay_key(e) {
            None => fold_inv(seen, req, entries.drop_first(), now),
            Some(k) => {
                let g = gc_requested(req, now);
                let ok = !seen_contains_key(seen, k@) && !has_key(g, k@);
                let req2 = if ok {
                    g.push((k, now))
                } else {
                    g
                };
                let rec = fold_inv(seen, req2, entries.drop_first(), now);
                (
                    rec.0,
                    if ok {
                        seq![e@] + rec.1
                    } else {
                        rec.1
                    },
                )
            },
        }
    }
}

/// Everything handling one `Inv` changes: the fold above on the request
/// table, a single `GetData` back to the announcer when anything was
/// accepted, and the inv counter.
pub open spec fn inv_post(
    pre: PeerManager,
    post: PeerManager,
    from: PeerAddr,
    entries: Seq<InvEntry>,
    now: i64,
    out: Seq<OutMsgV>,
) -> bool {
    let folded = fold_inv(pre.relay.seen@, pre.relay.requested@, entries, now);
    &&& post.peers == pre.peers
    &&& post.pending == pre.pending
    &&& post.target_peers == pre.target_peers
    &&& post.relay.seen == pre.relay.seen
    &&& post.relay.cache == pre.relay.cache
    &&& post.relay.requested@ == folded.0
    &&& post.metrics == (Metrics {
        inv_messages_received: bumped_by(pre.metrics.inv_messages_received, entries.len() as u64),
        ..pre.metrics
    })
    &&& if folded.1.len() == 0 {
        out.len() == 0
    } else {
        out == seq![OutMsgV { to: from, msg: MessageV::GetData(folded.1) }]
    }
}

/// The replies one `GetData` earns: per requested entry, the cached
/// transaction under its identifier — txid for transaction and
/// witness-transaction requests, wtxid for wtx requests — sent back to the
/// requester; misses and other inventory types produce nothing.
pub open spec fn getdata_replies(c: Seq<TxEntryV>, entries: Seq<InvEntry>, to: PeerAddr) -> Seq<
    OutMsgV,
>
    decreases entries.len(),
{
    if entries.len() == 0 {
        Seq::empty()
    } else {
        let hit = if entries[0].kind == INV_TRANSACTION || entries[0].kind
            == crate::message::INV_WITNESS_TRANSACTION {
            cache_bytes_for_txid(c, entries[0].hash@)
        } else if entries[0].kind == crate::message::INV_WTX {
            cache_bytes_for_wtxid(c, entries[0].hash@)
        } else {
            None
        };
        (match hit {
            Some(b) => seq![OutMsgV { to: to, msg: MessageV::Tx(b) }],
            None => Seq::empty(),
        }) + getdata_replies(c, entries.drop_first(), to)
    }
}

/// Everything handling one `GetData` changes: exactly the replies above,
/// and the relayed counter rises by their number.
pub open spec fn getdata_post(
    pre: PeerManager,
    post: PeerManager,
    from: PeerAddr,
    entries: Seq<InvEntry>,
    out: Seq<OutMsgV>,
) -> bool {
    &&& post.peers == pre.peers
    &&& post.pending == pre.pending
    &&& post.target_peers == pre.target_peers
    &&& post.relay == pre.relay
    &&& post.metrics == (Metrics {
        transactions_relayed: bumped_by(pre.metrics.transactions_relayed, out.len() as u64),
        ..pre.metrics
    })
    &&& out == getdata_replies(pre.relay.cache_v(), entries, from)
}

/// The timestamp put on `GetAddr` response entries.
pub open spec fn addr_timestamp(now: i64) -> u32 {
    (if now < 0 {
        0i64
    } else {
        now
    }) as u32
}

/// Number of peers other than `from`.
pub open spec fn count_non_from(peers: Seq<PeerHandleV>, from: PeerAddr) -> nat
    decreases peers.len(),
{
    if peers.len() == 0 {
        0
    } else {
        (if peers[0].addr != from {
            1nat
        } else {
            0nat
        }) + count_non_from(peers.drop_first(), from)
    }
}

/// `a` is the address of a connected peer other than `from`.
pub open spec fn getaddr_cand(peers: Seq<PeerHandleV>, from: PeerAddr, a: PeerAddr) -> bool {
    a != from && exists|j: int| 0 <= j < peers.len() && (#[trigger] peers[j]).addr == a
}

/// Everything answering one `GetAddr` changes: at most one `Addr` reply of
/// at most fifty randomly drawn entries, never including the requester, all
/// taken from the connected peer list, with zeroed services and the current
/// timestamp.
pub open spec fn getaddr_post(
    pre: PeerManager,
    post: PeerManager,
    from: PeerAddr,
    now: i64,
    out: Seq<OutMsgV>,
) -> bool {
    &&& post.peers == pre.peers
    &&& post.pending == pre.pending
    &&& post.target_peers == pre.target_peers
    &&& post.relay == pre.relay
    &&& post.metrics == (Metrics {
        getaddr_messages_received: bumped(pre.metrics.getaddr_messages_received),
        ..pre.metrics
    })
    &&& if count_non_from(pre.peers.deep_view(), from) == 0 {
        out.len() == 0
    } else {
        &&& out.len() == 1
        &&& out[0].to == from
        &&& out[0].msg matches MessageV::Addr(list) && {
            &&& list.len() == vstd::math::min(
                GETADDR_RESPONSE_LIMIT as int,
                count_non_from(pre.peers.deep_view(), from) as int,
            )
            &&& forall|k: int|
                0 <= k < list.len() ==> getaddr_cand(
                    pre.peers.deep_view(),
                    from,
                    (#[trigger] list[k]).addr,
                ) && list[k].services == 0 && list[k].timestamp == addr_timestamp(now)
        }
    }
}

impl PeerManager {
    /// Handles one `Inv`: requests every announced transaction not yet seen
    /// and not already outstanding, in one `GetData` to the announcer.
    pub fn handle_inv(&mut self, from: PeerAddr, list: &Vec<InvEntry>, now: i64) -> (r: Vec<
        OutMsg,
    >)
        requires
            old(self).wf(),
        ensures
            final(self).wf(),
            inv_post(*old(self), *final(self), from, list@, now, r.deep_view()),
    {
        self.metrics.inv_messages_received = crate::metrics::bump_by(
            self.metrics.inv_messages_received,
            list.len() as u64,
        );
        let ghost seen0 = self.relay.seen@;
        let ghost req0 = self.relay.requested@;
        let n = list.len();
        let mut items: Vec<InvEntry> = Vec::new();
        let mut i: usize = 0;
        proof {
            assert(list@.skip(0) =~= list@);
            assert(items.deep_view() + fold_inv(seen0, self.relay.requested@, list@, now).1
                =~= fold_inv(seen0, self.relay.requested@, list@, now).1);
        }
        while i < n
            invariant
                n == list@.len(),
                i <= n,
                self.peers == old(self).peers,
                self.pending == old(self).pending,
                self.target_peers == old(self).target_peers,
                self.relay.seen == old(self).relay.seen,
                self.relay.seen@ == seen0,
                self.relay.cache == old(self).relay.cache,
                self.relay.wf() == old(self).relay.wf(),
                old(self).wf(),
                self.metrics == (Metrics {
                    inv_messages_received: bumped_by(
                        old(self).metrics.inv_messages_received,
                        list@.len() as u64,
                    ),
                    ..old(self).metrics
                }),
                fold_inv(seen0, req0, list@, now).0 == fold_inv(
                    seen0,
                    self.relay.requested@,
                    list@.skip(i as int),
                    now,
                ).0,
                fold_inv(seen0, req0, list@, now).1 == items.deep_view() + fold_inv(
                    seen0,
                    self.relay.requested@,
                    list@.skip(i as int),
                    now,
                ).1,
            decreases n - i,
        {
            let e = list[i];
            let ghost tail = list@.skip(i as int);
            proof {
                assert(tail[0] == list@[i as int]);
                assert(tail.drop_first() =~= list@.skip(i + 1));
            }
            let ghost prev = items.deep_view();
            match crate::message::inventory_key(&e) {
                None => {
                },
                Some(k) => {
                    let ok = self.relay.mark_requested(k, now);
                    if ok {
                        items.push(e);
                        proof {
                            assert(items.deep_view() =~= prev.push(e@));
                            assert(prev + (seq![e@] + fold_inv(
                                seen0,
                                self.relay.requested@,
                                list@.skip(i + 1),
                                now,
                            ).1) =~= items.deep_view() + fold_inv(
                                seen0,
                                self.relay.requested@,
                                list@.skip(i + 1),
                                now,
                            ).1);
                        }
                    }
                },
            }
            i += 1;
        }
        proof {
            assert(list@.skip(n as int).len() == 0);
            assert(items.deep_view() + Seq::<InvEntryV>::empty() =~= items.deep_view());
        }
        if items.len() == 0 {
            let r: Vec<OutMsg> = Vec::new();
            proof {
                assert(r.deep_view() =~= Seq::<OutMsgV>::empty());
            }
            r
        } else {
            let ghost items_dv = items.deep_view();
            let m = OutMsg { to: from, msg: Message::GetData(items) };
            let mut r: Vec<OutMsg> = Vec::new();
            r.push(m);
            proof {
                assert(r.deep_view() =~= seq![
                    OutMsgV { to: from, msg: MessageV::GetData(items_dv) },
                ]);
            }
            r
        }
    }

    /// Handles one `GetData`: answers every requested transaction that the
    /// cache can satisfy with its full bytes, under the identifier that was
    /// asked for.
    pub fn handle_getdata(&mut self, from: PeerAddr, list: &Vec<InvEntry>) -> (r: Vec<OutMsg>)
        requires
            old(self).wf(),
        ensures
            final(self).wf(),
            getdata_post(*old(self), *final(self), from, list@, r.deep_view()),
    {
        let ghost cache0 = self.relay.cache_v();
        let n = list.len();
        let mut r: Vec<OutMsg> = Vec::new();
        let mut i: usize = 0;
        proof {
            assert(list@.skip(0) =~= list@);
            assert(r.deep_view() + getdata_replies(cache0, list@, from) =~= getdata_replies(
                cache0,
                list@,
                from,
            ));
        }
        while i < n
            invariant
                n == list@.len(),
                i <= n,
                self.peers == old(self).peers,
                self.pending == old(self).pending,
                self.target_peers == old(self).target_peers,
                self.relay == old(self).relay,
                self.metrics == old(self).metrics,
                cache0 == self.relay.cache_v(),
                old(self).wf(),
                getdata_replies(cache0, list@, from) == r.deep_view() + getdata_replies(
                    cache0,
                    list@.skip(i as int),
                    from,
                ),
            decreases n - i,
        {
            let ghost tail = list@.skip(i as int);
            proof {
                assert(tail[0] == list@[i as int]);
                assert(tail.drop_first() =~= list@.skip(i + 1));
            }
            let e = &list[i];
            let hit: Option<Vec<u8>> = if e.kind == INV_TRANSACTION || e.kind
                == crate::message::INV_WITNESS_TRANSACTION {
                self.relay.get_tx(&e.hash)
            } else if e.kind == crate::message::INV_WTX {
                self.relay.get_tx_by_wtxid(&e.hash)
            } else {
                None
            };
            let ghost prev = r.deep_view();
            match hit {
                Some(b) => {
                    let ghost bv = b@;
                    let m = OutMsg { to: from, msg: Message::Tx(b) };
                    proof {
                        assert(m@.msg == MessageV::Tx(bv));
                    }
                    r.push(m);
                    proof {
                        assert(r.deep_view() =~= prev.push(m@));
                        assert(prev + (seq![m@] + getdata_replies(
                            cache0,
                            list@.skip(i + 1),
                            from,
                        )) =~= r.deep_view() + getdata_replies(cache0, list@.skip(i + 1), from));
                    }
                },
                None => {
                },
            }
            i += 1;
        }
        proof {
            assert(list@.skip(n as int).len() == 0);
            assert(r.deep_view() + Seq::<OutMsgV>::empty() =~= r.deep_view());
        }
        self.metrics.transactions_relayed = crate::metrics::bump_by(
            self.metrics.transactions_relayed,
            r.len() as u64,
        );
        r
    }

    /// Handles one `GetAddr`: replies with up to fifty randomly drawn peer
    /// addresses, never including the requester.
    pub fn handle_getaddr(&mut self, from: PeerAddr, now: i64) -> (r: Vec<OutMsg>)
        requires
            old(self).wf(),
        ensures
            final(self).wf(),
            getaddr_post(*old(self), *final(self), from, now, r.deep_view()),
    {
        broadcast use vstd::seq_lib::group_to_multiset_ensures;

        self.metrics.getaddr_messages_received = bump(self.metrics.getaddr_messages_received);
        let ghost peers0 = self.peers.deep_view();
        let n = self.peers.len();
        let mut cands: Vec<PeerAddr> = Vec::new();
        let mut i: usize = 0;
        proof {
            assert(peers0.skip(0) =~= peers0);
        }
        while i < n
            invariant
                n == self.peers@.len(),
                self.peers.deep_view() == peers0,
                i <= n,
                count_non_from(peers0, from) == cands@.len() + count_non_from(
                    peers0.skip(i as int),
                    from,
                ),
                forall|a: int|
                    0 <= a < cands@.len() ==> getaddr_cand(peers0, from, #[trigger] cands@[a]),
            decreases n - i,
        {
            let ghost tail = peers0.skip(i as int);
            proof {
                assert(peers0[i as int] == self.peers@[i as int]@);
                assert(tail[0] == peers0[i as int]);
                assert(tail.drop_first() =~= peers0.skip(i + 1));
            }
            let a = self.peers[i].addr;
            if !(a == from) {
                cands.push(a);
            }
            i += 1;
        }
        proof {
            assert(peers0.skip(n as int).len() == 0);
        }
        let ghost before = cands@;
        crate::shuffle::shuffle_addrs(&mut cands);
        proof {
            assert forall|a: int| 0 <= a < cands@.len() implies getaddr_cand(
                peers0,
                from,
                #[trigger] cands@[a],
            ) by {
                assert(cands@.to_multiset().count(cands@[a]) > 0);
                assert(before.contains(cands@[a]));
            }
        }
        let m = cands.len();
        let count = if GETADDR_RESPONSE_LIMIT < m {
            GETADDR_RESPONSE_LIMIT
        } else {
            m
        };
        let ts: u32 = (if now < 0 {
            0i64
        } else {
            now
        }) as u32;
        let mut list: Vec<AddressEntry> = Vec::new();
        let mut i2: usize = 0;
        while i2 < count
            invariant
                count <= m,
                m == cands@.len(),
                i2 <= count,
                ts == addr_timestamp(now),
                list@.len() == i2,
                forall|a: int|
                    0 <= a < cands@.len() ==> getaddr_cand(peers0, from, #[trigger] cands@[a]),
                forall|k: int|
                    0 <= k < i2 ==> getaddr_cand(peers0, from, (#[trigger] list@[k]).addr)
                        && list@[k].services == 0 && list@[k].timestamp == addr_timestamp(now),
            decreases count - i2,
        {
            list.push(AddressEntry { services: 0, addr: cands[i2], timestamp: ts });
            i2 += 1;
        }
        if list.len() == 0 {
            let r: Vec<OutMsg> = Vec::new();
            proof {
                assert(r.deep_view() =~= Seq::<OutMsgV>::empty());
            }
            r
        } else {
            let ghost list_dv = list@;
            let msg = OutMsg { to: from, msg: Message::Addr(list) };
            let mut r: Vec<OutMsg> = Vec::new();
            r.push(msg);
            proof {
                assert(msg@.msg == MessageV::Addr(list_dv)) by {
                    assert(list_dv.map_values(|e: AddressEntry| e) =~= list_dv);
                }
                assert(r.deep_view() =~= seq![msg@]);
            }
            r
        }
    }
}

/// The label used for peers whose user agent is blank.
pub open spec fn missing_agent_label() -> Seq<u8> {
    seq![
        60u8, 109u8, 105u8, 115u8, 115u8, 105u8, 110u8, 103u8, 45u8, 117u8, 115u8, 101u8, 114u8,
        45u8, 97u8, 103u8, 101u8, 110u8, 116u8, 62u8,
    ]
}

/// ASCII whitespace, as trimmed off agent labels.
pub open spec fn is_ascii_ws(b: u8) -> bool {
    b == 32 || b == 9 || b == 10 || b == 11 || b == 12 || b == 13
}

pub open spec fn trim_start_spec(s: Seq<u8>) -> Seq<u8>
    decreases s.len(),
{
    if s.len() > 0 && is_ascii_ws(s[0]) {
        trim_start_spec(s.drop_first())
    } else {
        s
    }
}

pub open spec fn trim_end_spec(s: Seq<u8>) -> Seq<u8>
    decreases s.len(),
{
    if s.len() > 0 && is_ascii_ws(s.last()) {
        trim_end_spec(s.drop_last())
    } else {
        s
    }
}

/// The byte string without leading and trailing ASCII whitespace.
pub open spec fn trim_spec(s: Seq<u8>) -> Seq<u8> {
    trim_end_spec(trim_start_spec(s))
}

/// A peer outside the three named flavors, shown by agent in telemetry.
pub open spec fn unclassified(h: PeerHandleV) -> bool {
    h.node_type != NodeType::Knots && h.node_type != NodeType::Core && h.node_type
        != NodeType::LibreRelay
}

/// The telemetry label of an unclassified peer: its trimmed agent, or the
/// missing-agent label when nothing is left.
pub open spec fn display_agent(h: PeerHandleV) -> Seq<u8> {
    if trim_spec(h.user_agent).len() == 0 {
        missing_agent_label()
    } else {
        trim_spec(h.user_agent)
    }
}

/// Number of unclassified peers whose label is `a`.
pub open spec fn agent_count(peers: Seq<PeerHandleV>, a: Seq<u8>) -> nat
    decreases peers.len(),
{
    if peers.len() == 0 {
        0
    } else {
        (if unclassified(peers[0]) && display_agent(peers[0]) == a {
            1nat
        } else {
            0nat
        }) + agent_count(peers.drop_first(), a)
    }
}

/// Exec mirror of `is_ascii_ws`.
fn is_ws_byte(b: u8) -> (r: bool)
    ensures
        r == is_ascii_ws(b),
{
    b == 32 || b == 9 || b == 10 || b == 11 || b == 12 || b == 13
}

/// Strips leading and trailing ASCII whitespace.
pub fn trim_ascii(v: &Vec<u8>) -> (r: Vec<u8>)
    ensures
        r@ == trim_spec(v@),
{
    let n = v.len();
    let mut a: usize = 0;
    proof {
        assert(v@.skip(0) =~= v@);
    }
    while a < n && is_ws_byte(v[a])
        invariant
            n == v@.len(),
            a <= n,
            trim_start_spec(v@) == trim_start_spec(v@.skip(a as int)),
        decreases n - a,
    {
        proof {
            assert(v@.skip(a as int)[0] == v@[a as int]);
            assert(v@.skip(a as int).drop_first() =~= v@.skip(a + 1));
        }
        a += 1;
    }
    proof {
        if a < n {
            assert(v@.skip(a as int)[0] == v@[a as int]);
        }
        assert(trim_start_spec(v@.skip(a as int)) == v@.skip(a as int));
        assert(v@.skip(a as int) =~= v@.subrange(a as int, n as int));
    }
    let mut b: usize = n;
    while b > a && is_ws_byte(v[b - 1])
        invariant
            n == v@.len(),
            a <= b <= n,
            trim_end_spec(v@.subrange(a as int, n as int)) == trim_end_spec(
                v@.subrange(a as int, b as int),
            ),
        decreases b,
    {
        proof {
            assert(v@.subrange(a as int, b as int).last() == v@[b - 1]);
            assert(v@.subrange(a as int, b as int).drop_last() =~= v@.subrange(
                a as int,
                b - 1,
            ));
        }
        b -= 1;
    }
    proof {
        if b > a {
            assert(v@.subrange(a as int, b as int).last() == v@[b - 1]);
        }
        assert(trim_end_spec(v@.subrange(a as int, b as int)) == v@.subrange(a as int, b as int));
    }
    vstd::slice::slice_to_vec(vstd::slice::slice_subrange(v.as_slice(), a, b))
}

/// One representative peer index per distinct label among the unclassified
/// peers, in first-appearance order.
#[verifier::spinoff_prover]
#[verifier::rlimit(100)]
fn collect_agent_reps(peers: &Vec<PeerHandle>) -> (reps: Vec<usize>)
    ensures
        forall|a: int|
            0 <= a < reps@.len() ==> (#[trigger] reps@[a]) < peers.deep_view().len()
                && unclassified(peers.deep_view()[reps@[a] as int]),
        forall|a: int, b: int|
            0 <= a < b < reps@.len() ==> display_agent(
                peers.deep_view()[(#[trigger] reps@[a]) as int],
            ) != display_agent(peers.deep_view()[(#[trigger] reps@[b]) as int]),
        forall|j: int|
            0 <= j < peers.deep_view().len() && unclassified(#[trigger] peers.deep_view()[j])
                ==> exists|a: int|
                0 <= a < reps@.len() && display_agent(
                    peers.deep_view()[(#[trigger] reps@[a]) as int],
                ) == display_agent(peers.deep_view()[j]),
{
    let n = peers.len();
    let mut reps: Vec<usize> = Vec::new();
    let mut i: usize = 0;
    while i < n
        invariant
            n == peers@.len(),
            i <= n,
            forall|a: int|
                0 <= a < reps@.len() ==> (#[trigger] reps@[a]) < peers.deep_view().len()
                    && unclassified(peers.deep_view()[reps@[a] as int]),
            forall|a: int, b: int|
                0 <= a < b < reps@.len() ==> display_agent(
                    peers.deep_view()[(#[trigger] reps@[a]) as int],
                ) != display_agent(peers.deep_view()[(#[trigger] reps@[b]) as int]),
            forall|j: int|
                0 <= j < i && unclassified(#[trigger] peers.deep_view()[j]) ==> exists|a: int|
                    0 <= a < reps@.len() && display_agent(
                        peers.deep_view()[(#[trigger] reps@[a]) as int],
                    ) == display_agent(peers.deep_view()[j]),
        decreases n - i,
    {
        proof {
            assert(peers.deep_view()[i as int] == peers@[i as int]@);
        }
        let p = &peers[i];
        let skip_it = match p.node_type {
            NodeType::Knots => true,
            NodeType::Core => true,
            NodeType::LibreRelay => true,
            _ => false,
        };
        if !skip_it {
            let d: Vec<u8> = display_of(p);
            proof {
                assert(d@ == display_agent(peers.deep_view()[i as int]));
            }
            let an = reps.len();
            let mut a: usize = 0;
            let mut found = false;
            #[verifier::loop_isolation(false)]
            while a < an
                invariant
                    an == reps@.len(),
                    a <= an,
                    !found ==> forall|b: int|
                        0 <= b < a ==> display_agent(
                            peers.deep_view()[(#[trigger] reps@[b]) as int],
                        ) != d@,
                    found ==> exists|b: int|
                        0 <= b < reps@.len() && display_agent(
                            peers.deep_view()[(#[trigger] reps@[b]) as int],
                        ) == d@,
                decreases an - a,
            {
                let idx = reps[a];
                proof {
                    assert(peers.deep_view()[idx as int] == peers@[idx as int]@);
                }
                let da = display_of(&peers[idx]);
                if bytes_eq(&da, &d) {
                    found = true;
                    break ;
                }
                a += 1;
            }
            if !found {
                let ghost prev = reps@;
                reps.push(i);
                proof {
                    assert(reps@ == prev.push(i));
                    assert forall|j: int|
                        0 <= j < i + 1 && unclassified(
                            #[trigger] peers.deep_view()[j],
                        ) implies exists|a: int|
                        0 <= a < reps@.len() && display_agent(
                            peers.deep_view()[(#[trigger] reps@[a]) as int],
                        ) == display_agent(peers.deep_view()[j]) by {
                        if j < i {
                            let a0 = choose|a0: int|
                                0 <= a0 < prev.len() && display_agent(
                                    peers.deep_view()[(#[trigger] prev[a0]) as int],
                                ) == display_agent(peers.deep_view()[j]);
                            assert(reps@[a0] == prev[a0]);
                        } else {
                            assert(reps@[prev.len() as int] == i);
                        }
                    }
                }
            }
        }
        i += 1;
    }
    reps
}

/// One series per representative: its label and the label's exact count
/// over the peer list.
fn count_agent_series(peers: &Vec<PeerHandle>, reps: &Vec<usize>) -> (r: Vec<(Vec<u8>, u64)>)
    requires
        forall|a: int| 0 <= a < reps@.len() ==> (#[trigger] reps@[a]) < peers.deep_view().len(),
    ensures
        r.deep_view().len() == reps@.len(),
        forall|a: int|
            0 <= a < r.deep_view().len() ==> (#[trigger] r.deep_view()[a]).0 == display_agent(
                peers.deep_view()[reps@[a] as int],
            ) && r.deep_view()[a].1 == agent_count(peers.deep_view(), r.deep_view()[a].0),
{
    let kn = reps.len();
    let mut r: Vec<(Vec<u8>, u64)> = Vec::new();
    let mut q: usize = 0;
    while q < kn
        invariant
            kn == reps@.len(),
            q <= kn,
            forall|a: int|
                0 <= a < reps@.len() ==> (#[trigger] reps@[a]) < peers.deep_view().len(),
            r.deep_view().len() == q,
            forall|a: int|
                0 <= a < q ==> (#[trigger] r.deep_view()[a]).0 == display_agent(
                    peers.deep_view()[reps@[a] as int],
                ) && r.deep_view()[a].1 == agent_count(peers.deep_view(), r.deep_view()[a].0),
        decreases kn - q,
    {
        let idx = reps[q];
        proof {
            assert(peers.deep_view()[idx as int] == peers@[idx as int]@);
        }
        let k = display_of(&peers[idx]);
        let c = count_display(peers, &k);
        let ghost prev = r.deep_view();
        let ghost kv = k@;
        r.push((k, c));
        proof {
            assert(r.deep_view() =~~= prev.push((kv, c)));
            assert forall|a: int|
                0 <= a < q + 1 implies (#[trigger] r.deep_view()[a]).0 == display_agent(
                peers.deep_view()[reps@[a] as int],
            ) && r.deep_view()[a].1 == agent_count(peers.deep_view(), r.deep_view()[a].0) by {
                if a < q {
                    assert(r.deep_view()[a] == prev[a]);
                }
            }
        }
        q += 1;
    }
    r
}

/// The telemetry label of one handle./// The telemetry label of one handle.
fn display_of(h: &PeerHandle) -> (r: Vec<u8>)
    ensures
        r@ == display_agent(h@),
{
    let t = trim_ascii(&h.user_agent);
    if t.len() == 0 {
        missing_agent_bytes()
    } else {
        t
    }
}

/// Counts the unclassified peers whose label is `key`.
fn count_display(peers: &Vec<PeerHandle>, key: &Vec<u8>) -> (r: u64)
    ensures
        r == agent_count(peers.deep_view(), key@),
{
    let ghost peers0 = peers.deep_view();
    let n = peers.len();
    let mut c: u64 = 0;
    let mut i: usize = 0;
    proof {
        assert(peers0.skip(0) =~= peers0);
    }
    while i < n
        invariant
            n == peers@.len(),
            peers.deep_view() == peers0,
            i <= n,
            c <= i,
            agent_count(peers0, key@) == c + agent_count(peers0.skip(i as int), key@),
        decreases n - i,
    {
        let ghost tail = peers0.skip(i as int);
        proof {
            assert(peers0[i as int] == peers@[i as int]@);
            assert(tail[0] == peers0[i as int]);
            assert(tail.drop_first() =~= peers0.skip(i + 1));
        }
        let p = &peers[i];
        let hit = match p.node_type {
            NodeType::Knots => false,
            NodeType::Core => false,
            NodeType::LibreRelay => false,
            _ => {
                let d = display_of(p);
                bytes_eq(&d, key)
            },
        };
        if hit {
            c += 1;
        }
        i += 1;
    }
    proof {
        assert(peers0.skip(n as int).len() == 0);
    }
    c
}

/// The gauges reflect the current peer list.
pub open spec fn gauges_current(m: PeerManager) -> bool {
    &&& m.metrics.knots_peers == count_bucket(m.peers_v(), NodeType::Knots)
    &&& m.metrics.core_peers == count_bucket(m.peers_v(), NodeType::Core)
    &&& m.metrics.libre_peers == count_bucket(m.peers_v(), NodeType::LibreRelay)
    &&& m.metrics.other_peers == count_other_bucket(m.peers_v())
    &&& m.metrics.connected_peers == m.peers_v().len()
}

/// The labelled series cover exactly the labels of unclassified peers, each
/// label once, and each value is the number of unclassified peers carrying
/// that label.
pub open spec fn agent_series_current(m: PeerManager) -> bool {
    let series = m.metrics.unclassified_agent_peers.deep_view();
    &&& forall|a: int, b: int|
        0 <= a < b < series.len() ==> (#[trigger] series[a]).0 != (#[trigger] series[b]).0
    &&& forall|a: int|
        0 <= a < series.len() ==> exists|j: int|
            0 <= j < m.peers_v().len() && unclassified(#[trigger] m.peers_v()[j])
                && display_agent(m.peers_v()[j]) == (#[trigger] series[a]).0
    &&& forall|j: int|
        0 <= j < m.peers_v().len() && unclassified(#[trigger] m.peers_v()[j]) ==> exists|a: int|
            0 <= a < series.len() && (#[trigger] series[a]).0 == display_agent(m.peers_v()[j])
    &&& forall|a: int|
        0 <= a < series.len() ==> (#[trigger] series[a]).1 == agent_count(
            m.peers_v(),
            series[a].0,
        )
}

/// Byte-vector equality.
pub fn bytes_eq(a: &Vec<u8>, b: &Vec<u8>) -> (r: bool)
    ensures
        r == (a@ == b@),
{
    let n = a.len();
    if n != b.len() {
        return false;
    }
    let mut i: usize = 0;
    while i < n
        invariant
            n == a@.len(),
            n == b@.len(),
            i <= n,
            forall|j: int| 0 <= j < i ==> a@[j] == b@[j],
        decreases n - i,
    {
        if a[i] != b[i] {
            return false;
        }
        i += 1;
    }
    proof {
        assert(a@ =~= b@);
    }
    true
}

/// The exec bytes of the missing-agent label.
fn missing_agent_bytes() -> (r: Vec<u8>)
    ensures
        r@ == missing_agent_label(),
{
    let arr: [u8; 20] = [
        60, 109, 105, 115, 115, 105, 110, 103, 45, 117, 115, 101, 114, 45, 97, 103, 101, 110, 116,
        62,
    ];
    let r = vstd::slice::slice_to_vec(arr.as_slice());
    proof {
        assert(r@ =~= missing_agent_label());
    }
    r
}

impl PeerManager {
    /// Recomputes the per-flavor gauges and the unclassified-agent series
    /// from the current peer list: one series per distinct label, whose
    /// value is the number of unclassified peers carrying it.
    pub fn update_peer_counts(&mut self)
        requires
            old(self).wf(),
        ensures
            final(self).wf(),
            final(self).peers == old(self).peers,
            final(self).pending == old(self).pending,
            final(self).relay == old(self).relay,
            final(self).target_peers == old(self).target_peers,
            gauges_current(*final(self)),
            agent_series_current(*final(self)),
            final(self).metrics == (Metrics {
                knots_peers: final(self).metrics.knots_peers,
                core_peers: final(self).metrics.core_peers,
                libre_peers: final(self).metrics.libre_peers,
                other_peers: final(self).metrics.other_peers,
                connected_peers: final(self).metrics.connected_peers,
                unclassified_agent_peers: final(self).metrics.unclassified_agent_peers,
                ..old(self).metrics
            }),
    {
        let ghost peers0 = self.peers.deep_view();
        let n = self.peers.len();
        let mut knots: u64 = 0;
        let mut core: u64 = 0;
        let mut libre: u64 = 0;
        let mut other: u64 = 0;
        let mut i: usize = 0;
        proof {
            assert(peers0.skip(0) =~= peers0);
        }
        while i < n
            invariant
                n == self.peers@.len(),
                self.peers.deep_view() == peers0,
                i <= n,
                knots + core + libre + other == i,
                count_bucket(peers0, NodeType::Knots) == knots + count_bucket(
                    peers0.skip(i as int),
                    NodeType::Knots,
                ),
                count_bucket(peers0, NodeType::Core) == core + count_bucket(
                    peers0.skip(i as int),
                    NodeType::Core,
                ),
                count_bucket(peers0, NodeType::LibreRelay) == libre + count_bucket(
                    peers0.skip(i as int),
                    NodeType::LibreRelay,
                ),
                count_other_bucket(peers0) == other + count_other_bucket(peers0.skip(i as int)),
            decreases n - i,
        {
            let ghost tail = peers0.skip(i as int);
            proof {
                assert(peers0[i as int] == self.peers@[i as int]@);
                assert(tail[0] == peers0[i as int]);
                assert(tail.drop_first() =~= peers0.skip(i + 1));
            }
            match self.peers[i].node_type {
                NodeType::Knots => {
                    knots += 1;
                },
                NodeType::Core => {
                    core += 1;
                },
                NodeType::LibreRelay => {
                    libre += 1;
                },
                _ => {
                    other += 1;
                },
            }
            i += 1;
        }
        proof {
            assert(peers0.skip(n as int).len() == 0);
        }
        let reps = collect_agent_reps(&self.peers);
        let agents = count_agent_series(&self.peers, &reps);
        let ghost reps_v = reps@;
        let ghost series = agents.deep_view();
        self.metrics.update_peer_counts(knots, core, libre, other);
        self.metrics.update_unclassified_agent_peers(agents);
        proof {
            assert(self.metrics.unclassified_agent_peers.deep_view() == series);
            assert forall|a: int, b: int|
                0 <= a < b < series.len() implies (#[trigger] series[a]).0 != (
            #[trigger] series[b]).0 by {
                assert(series[a].0 == display_agent(peers0[reps_v[a] as int]));
                assert(series[b].0 == display_agent(peers0[reps_v[b] as int]));
            }
            assert forall|a: int| 0 <= a < series.len() implies exists|j: int|
                0 <= j < peers0.len() && unclassified(#[trigger] peers0[j]) && display_agent(
                    peers0[j],
                ) == (#[trigger] series[a]).0 by {
                assert(unclassified(peers0[reps_v[a] as int]));
                assert(display_agent(peers0[reps_v[a] as int]) == series[a].0);
            }
            assert forall|j: int|
                0 <= j < peers0.len() && unclassified(#[trigger] peers0[j]) implies exists|a: int|
                0 <= a < series.len() && (#[trigger] series[a]).0 == display_agent(
                    peers0[j],
                ) by {
                let a0 = choose|a0: int|
                    0 <= a0 < reps_v.len() && display_agent(
                        peers0[(#[trigger] reps_v[a0]) as int],
                    ) == display_agent(peers0[j]);
                assert(series[a0].0 == display_agent(peers0[j]));
            }
        }
    }

    /// Removes every peer whose address was reported stale (its bounded
    /// queue refused a send) and refreshes the gauges: the only removal path
    /// besides a `Disconnected` event.
    pub fn prune_stale_peers(&mut self, stale: &Vec<PeerAddr>)
        requires
            old(self).wf(),
        ensures
            final(self).wf(),
            final(self).peers_v() == retained_peers(old(self).peers_v(), stale@),
            final(self).pending == old(self).pending,
            final(self).relay == old(self).relay,
            final(self).target_peers == old(self).target_peers,
            gauges_current(*final(self)),
            forall|a: int|
                0 <= a < stale@.len() ==> !final(self).has_peer(#[trigger] stale@[a]),
    {
        let ghost peers0 = self.peers.deep_view();
        let n = self.peers.len();
        let mut out: Vec<PeerHandle> = Vec::new();
        let mut i: usize = 0;
        proof {
            assert(peers0.skip(0) =~= peers0);
            assert(out.deep_view() + retained_peers(peers0, stale@) =~= retained_peers(
                peers0,
                stale@,
            ));
        }
        while i < n
            invariant
                n == self.peers@.len(),
                self.peers.deep_view() == peers0,
                i <= n,
                old(self).wf(),
                peers0 == old(self).peers_v(),
                out.deep_view().len() <= i,
                retained_peers(peers0, stale@) == out.deep_view() + retained_peers(
                    peers0.skip(i as int),
                    stale@,
                ),
                forall|a: int|
                    0 <= a < out.deep_view().len() ==> exists|j: int|
                        0 <= j < i && #[trigger] out.deep_view()[a] == peers0[j],
                forall|a: int, b: int|
                    0 <= a < b < out.deep_view().len() ==> (#[trigger] out.deep_view()[a]).addr
                        != (#[trigger] out.deep_view()[b]).addr,
                forall|a: int|
                    0 <= a < out.deep_view().len() ==> !stale@.contains(
                        (#[trigger] out.deep_view()[a]).addr,
                    ),
            decreases n - i,
        {
            let ghost tail = peers0.skip(i as int);
            proof {
                assert(peers0[i as int] == self.peers@[i as int]@);
                assert(tail[0] == peers0[i as int]);
                assert(tail.drop_first() =~= peers0.skip(i + 1));
            }
            let keep = !addr_in_list(stale, self.peers[i].addr);
            let ghost prev = out.deep_view();
            if keep {
                let copy = self.peers[i].duplicate();
                out.push(copy);
                proof {
                    assert(out.deep_view() =~= prev.push(peers0[i as int]));
                    assert(prev + (seq![tail[0]] + retained_peers(
                        peers0.skip(i + 1),
                        stale@,
                    )) =~= out.deep_view() + retained_peers(peers0.skip(i + 1), stale@));
                    assert forall|a: int, b: int|
                        0 <= a < b < out.deep_view().len() implies (
                    #[trigger] out.deep_view()[a]).addr != (#[trigger] out.deep_view()[b]).addr by {
                        if b == out.deep_view().len() - 1 {
                            let j = choose|j: int|
                                0 <= j < i && #[trigger] out.deep_view()[a] == peers0[j];
                        }
                    }
                }
            }
            i += 1;
        }
        proof {
            assert(peers0.skip(n as int).len() == 0);
            assert(out.deep_view() + Seq::<PeerHandleV>::empty() =~= out.deep_view());
        }
        self.peers = out;
        self.update_peer_counts();
        proof {
            assert forall|a: int| 0 <= a < stale@.len() implies !self.has_peer(
                #[trigger] stale@[a],
            ) by {
                if self.has_peer(stale@[a]) {
                    let j = choose|j: int|
                        0 <= j < self.peers_v().len() && (#[trigger] self.peers_v()[j]).addr
                            == stale@[a];
                    assert(stale@.contains(self.peers_v()[j].addr));
                }
            }
        }
    }
}

/// Whether `a` occurs in the list.
pub fn addr_in_list(list: &Vec<PeerAddr>, a: PeerAddr) -> (r: bool)
    ensures
        r == list@.contains(a),
{
    let n = list.len();
    let mut i: usize = 0;
    while i < n
        invariant
            n == list@.len(),
            i <= n,
            forall|j: int| 0 <= j < i ==> #[trigger] list@[j] != a,
        decreases n - i,
    {
        if list[i] == a {
            proof {
                assert(list@.contains(a));
            }
            return true;
        }
        i += 1;
    }
    proof {
        if list@.contains(a) {
            let j = choose|j: int| 0 <= j < list@.len() && #[trigger] list@[j] == a;
        }
    }
    false
}

/// Everything one dispatched message changes, by variant: `Inv`, `Tx`,
/// `GetData` and `GetAddr` act as their handlers say; every other variant is
/// ignored.
pub open spec fn message_post(
    pre: PeerManager,
    post: PeerManager,
    from: PeerAddr,
    msg: Message,
    now: i64,
    out: Seq<OutMsgV>,
) -> bool {
    match msg {
        Message::Inv(l) => inv_post(pre, post, from, l@, now, out),
        Message::Tx(b) => if crate::hashes::tx_parses(b@) {
            exists|t: [u8; 32], w: [u8; 32]|
                t@ == crate::hashes::txid_of(b@) && w@ == crate::hashes::wtxid_of(b@)
                    && #[trigger] tx_accept_post(pre, post, from, t, w, b@, out)
        } else {
            post == pre && out.len() == 0
        },
        Message::GetData(l) => getdata_post(pre, post, from, l@, out),
        Message::GetAddr => getaddr_post(pre, post, from, now, out),
        _ => post == pre && out.len() == 0,
    }
}

impl PeerManager {
    /// Dispatches one message received from a connected peer, per the relay
    /// policy; the returned intents are for the caller to send.
    pub fn handle_message(&mut self, from: PeerAddr, msg: Message, now: i64) -> (r: Vec<OutMsg>)
        requires
            old(self).wf(),
        ensures
            final(self).wf(),
            message_post(*old(self), *final(self), from, msg, now, r.deep_view()),
    {
        match msg {
            Message::Inv(l) => self.handle_inv(from, &l, now),
            Message::Tx(b) => {
                match crate::hashes::parse_tx_ids(b.as_slice()) {
                    Some((txid, wtxid)) => self.accept_tx(from, txid, wtxid, b, now),
                    None => {
                        let r: Vec<OutMsg> = Vec::new();
                        proof {
                            assert(r.deep_view() =~= Seq::<OutMsgV>::empty());
                        }
                        r
                    },
                }
            },
            Message::GetData(l) => self.handle_getdata(from, &l),
            Message::GetAddr => self.handle_getaddr(from, now),
            _ => {
                let r: Vec<OutMsg> = Vec::new();
                proof {
                    assert(r.deep_view() =~= Seq::<OutMsgV>::empty());
                }
                r
            },
        }
    }

    /// The fan-in loop's body: consumes one peer event, updating the peer
    /// list, the store, the relay tables and the telemetry, and returns the
    /// outbound intents.
    pub fn handle_event(
        &mut self,
        store: &mut crate::store::AddressDb,
        event: PeerEvent,
        now: i64,
    ) -> (r: Vec<OutMsg>)
        requires
            old(self).wf(),
            old(store).wf(),
        ensures
            final(self).wf(),
            final(store).wf(),
            match event {
                PeerEvent::Connected { .. } => {
                    &&& final(self).peers == old(self).peers
                    &&& final(self).pending == old(self).pending
                    &&& final(self).relay == old(self).relay
                    &&& gauges_current(*final(self))
                    &&& *final(store) == *old(store)
                    &&& r@.len() == 0
                },
                PeerEvent::Disconnected { addr, .. } => {
                    &&& final(self).peers_v() == remove_peer(old(self).peers_v(), addr)
                    &&& final(self).pending == old(self).pending
                    &&& final(self).relay == old(self).relay
                    &&& final(self).metrics.total_disconnections == bumped(
                        old(self).metrics.total_disconnections,
                    )
                    &&& gauges_current(*final(self))
                    &&& final(store).rows_v().len() == old(store).rows_v().len()
                    &&& (forall|j: int|
                        0 <= j < old(store).rows_v().len() && (#[trigger] old(
                            store,
                        ).rows_v()[j]).addr != addr ==> final(store).rows_v()[j] == old(
                            store,
                        ).rows_v()[j])
                    &&& (forall|j: int|
                        0 <= j < old(store).rows_v().len() && (#[trigger] old(
                            store,
                        ).rows_v()[j]).addr == addr ==> final(store).rows_v()[j]
                            == crate::store::failed_row(old(store).rows_v()[j]))
                    &&& r@.len() == 0
                },
                PeerEvent::Addresses { addrs, .. } => {
                    &&& final(self).peers == old(self).peers
                    &&& final(self).pending == old(self).pending
                    &&& final(self).relay == old(self).relay
                    &&& final(self).metrics.addr_messages_received == bumped(
                        old(self).metrics.addr_messages_received,
                    )
                    &&& final(store).rows_v() == crate::discovery::ingest_rows(
                        old(store).rows_v(),
                        addrs@,
                        now,
                    )
                    &&& final(self).metrics.nodes_discovered == bumped_by(
                        old(self).metrics.nodes_discovered,
                        crate::discovery::ingest_new_count(
                            old(store).rows_v(),
                            addrs@,
                            now,
                        ) as u64,
                    )
                    &&& r@.len() == 0
                },
                PeerEvent::Message { addr, message } => {
                    &&& message_post(*old(self), *final(self), addr, message, now, r.deep_view())
                    &&& *final(store) == *old(store)
                },
            },
    {
        match event {
            PeerEvent::Connected { .. } => {
                self.update_peer_counts();
                Vec::new()
            },
            PeerEvent::Disconnected { addr, .. } => {
                let mut one: Vec<PeerAddr> = Vec::new();
                one.push(addr);
                let ghost pre_counts = self.metrics;
                self.metrics.total_disconnections = bump(self.metrics.total_disconnections);
                self.remove_one_peer(addr);
                store.mark_failed(addr);
                self.update_peer_counts();
                Vec::new()
            },
            PeerEvent::Addresses { addrs, .. } => {
                self.metrics.addr_messages_received = bump(self.metrics.addr_messages_received);
                let fresh = crate::discovery::handle_new_addresses(store, &addrs, now);
                self.metrics.nodes_discovered = crate::metrics::bump_by(
                    self.metrics.nodes_discovered,
                    fresh,
                );
                Vec::new()
            },
            PeerEvent::Message { addr, message } => self.handle_message(addr, message, now),
        }
    }

    /// Removes the peer at `addr` from the list, if present.
    fn remove_one_peer(&mut self, addr: PeerAddr)
        requires
            old(self).wf(),
        ensures
            final(self).wf(),
            final(self).peers_v() == remove_peer(old(self).peers_v(), addr),
            final(self).pending == old(self).pending,
            final(self).relay == old(self).relay,
            final(self).metrics == old(self).metrics,
            final(self).target_peers == old(self).target_peers,
    {
        let ghost peers0 = self.peers.deep_view();
        let n = self.peers.len();
        let mut out: Vec<PeerHandle> = Vec::new();
        let mut i: usize = 0;
        proof {
            assert(peers0.skip(0) =~= peers0);
            assert(out.deep_view() + remove_peer(peers0, addr) =~= remove_peer(peers0, addr));
        }
        while i < n
            invariant
                n == self.peers@.len(),
                self.peers.deep_view() == peers0,
                i <= n,
                old(self).wf(),
                peers0 == old(self).peers_v(),
                out.deep_view().len() <= i,
                remove_peer(peers0, addr) == out.deep_view() + remove_peer(
                    peers0.skip(i as int),
                    addr,
                ),
                forall|a: int|
                    0 <= a < out.deep_view().len() ==> exists|j: int|
                        0 <= j < i && #[trigger] out.deep_view()[a] == peers0[j],
                forall|a: int, b: int|
                    0 <= a < b < out.deep_view().len() ==> (#[trigger] out.deep_view()[a]).addr
                        != (#[trigger] out.deep_view()[b]).addr,
            decreases n - i,
        {
            let ghost tail = peers0.skip(i as int);
            proof {
                assert(peers0[i as int] == self.peers@[i as int]@);
                assert(tail[0] == peers0[i as int]);
                assert(tail.drop_first() =~= peers0.skip(i + 1));
            }
            let keep = !(self.peers[i].addr == addr);
            let ghost prev = out.deep_view();
            if keep {
                let copy = self.peers[i].duplicate();
                out.push(copy);
                proof {
                    assert(out.deep_view() =~= prev.push(peers0[i as int]));
                    assert(prev + (seq![tail[0]] + remove_peer(peers0.skip(i + 1), addr)) =~= out.deep_view()
                        + remove_peer(peers0.skip(i + 1), addr));
                    assert forall|a: int, b: int|
                        0 <= a < b < out.deep_view().len() implies (
                    #[trigger] out.deep_view()[a]).addr != (#[trigger] out.deep_view()[b]).addr by {
                        if b == out.deep_view().len() - 1 {
                            let j = choose|j: int|
                                0 <= j < i && #[trigger] out.deep_view()[a] == peers0[j];
                        }
                    }
                }
            }
            i += 1;
        }
        proof {
            assert(peers0.skip(n as int).len() == 0);
            assert(out.deep_view() + Seq::<PeerHandleV>::empty() =~= out.deep_view());
        }
        self.peers = out;
    }
}

/// Seen-set idempotence: once a transaction has been accepted, accepting it
/// again (from any peer, with any bytes) re-announces nothing and leaves the
/// received counter where it was.
pub proof fn lemma_seen_set_idempotent(
    s0: PeerManager,
    s1: PeerManager,
    s2: PeerManager,
    from1: PeerAddr,
    from2: PeerAddr,
    txid: [u8; 32],
    wtxid: [u8; 32],
    b1: Seq<u8>,
    b2: Seq<u8>,
    out1: Seq<OutMsgV>,
    out2: Seq<OutMsgV>,
)
    requires
        tx_accept_post(s0, s1, from1, txid, wtxid, b1, out1),
        tx_accept_post(s1, s2, from2, txid, wtxid, b2, out2),
        !s0.relay.seen_has(txid@),
    ensures
        out2.len() == 0,
        s2.metrics == s1.metrics,
        s1.metrics.transactions_received == bumped(s0.metrics.transactions_received),
{
    assert(s1.relay.seen_has(txid@));
}


} // verus!
