use vstd::prelude::*;

use crate::addr::{is_public_addr, is_public_spec, PeerAddr};
use crate::message::AddressEntry;
use crate::node_type::NodeType;
use crate::peer::{PeerHandle, PeerHandleV};
use crate::shuffle::shuffle_addrs;
use crate::store::{rows_have_addr, upsert_row, AddressDb, NodeInfo, NodeInfoV};

verus! {

/// Unreachable rows older than this many seconds are pruned.
pub const PRUNE_AGE_SECS: i64 = 604800;

/// How many random peers are asked for addresses per discovery cycle.
pub const GETADDR_SAMPLE: usize = 10;

/// The row written for an address learned by gossip or seeding: flavor not
/// yet known, reachable, seen now, clean failure counter.
pub open spec fn gossip_row(a: PeerAddr, services: Option<u64>, now: i64) -> NodeInfoV {
    NodeInfoV {
        addr: a,
        node_type: NodeType::Unknown,
        user_agent: None,
        version: None,
        services: services,
        last_seen: now,
        last_connected: None,
        connection_failures: 0,
        is_reachable: true,
    }
}

/// The table after ingesting a gossiped address list: every public entry is
/// upserted as its gossip row (with the entry's services); non-public
/// entries change nothing.
pub open spec fn ingest_rows(v: Seq<NodeInfoV>, entries: Seq<AddressEntry>, now: i64) -> Seq<
    NodeInfoV,
>
    decreases entries.len(),
{
    if entries.len() == 0 {
        v
    } else {
        let v2 = if is_public_spec(entries[0].addr) {
            upsert_row(v, gossip_row(entries[0].addr, Some(entries[0].services), now))
        } else {
            v
        };
        ingest_rows(v2, entries.drop_first(), now)
    }
}

/// How many of the upserts above created a new row.
pub open spec fn ingest_new_count(v: Seq<NodeInfoV>, entries: Seq<AddressEntry>, now: i64) -> nat
    decreases entries.len(),
{
    if entries.len() == 0 {
        0
    } else {
        let is_pub = is_public_spec(entries[0].addr);
        let v2 = if is_pub {
            upsert_row(v, gossip_row(entries[0].addr, Some(entries[0].services), now))
        } else {
            v
        };
        (if is_pub && !rows_have_addr(v, entries[0].addr) {
            1nat
        } else {
            0nat
        }) + ingest_new_count(v2, entries.drop_first(), now)
    }
}

/// The table after ingesting seed addresses, all with the same services.
pub open spec fn ingest_seed_rows(
    v: Seq<NodeInfoV>,
    addrs: Seq<PeerAddr>,
    services: Option<u64>,
    now: i64,
) -> Seq<NodeInfoV>
    decreases addrs.len(),
{
    if addrs.len() == 0 {
        v
    } else {
        let v2 = if is_public_spec(addrs[0]) {
            upsert_row(v, gossip_row(addrs[0], services, now))
        } else {
            v
        };
        ingest_seed_rows(v2, addrs.drop_first(), services, now)
    }
}

/// How many of the seed upserts created a new row.
pub open spec fn ingest_seed_new_count(
    v: Seq<NodeInfoV>,
    addrs: Seq<PeerAddr>,
    services: Option<u64>,
    now: i64,
) -> nat
    decreases addrs.len(),
{
    if addrs.len() == 0 {
        0
    } else {
        let is_pub = is_public_spec(addrs[0]);
        let v2 = if is_pub {
            upsert_row(v, gossip_row(addrs[0], services, now))
        } else {
            v
        };
        (if is_pub && !rows_have_addr(v, addrs[0]) {
            1nat
        } else {
            0nat
        }) + ingest_seed_new_count(v2, addrs.drop_first(), services, now)
    }
}

/// `a` is the address of some handle in `peers`.
pub open spec fn peer_addr_in(peers: Seq<PeerHandleV>, a: PeerAddr) -> bool {
    exists|j: int| 0 <= j < peers.len() && (#[trigger] peers[j]).addr == a
}

/// Ingests gossiped addresses: every public address is upserted as an
/// unknown, reachable row seen now with the entry's services; non-public
/// addresses are discarded. Returns exactly how many rows were new.
pub fn handle_new_addresses(store: &mut AddressDb, entries: &Vec<AddressEntry>, now: i64) -> (r:
    u64)
    requires
        old(store).wf(),
    ensures
        final(store).wf(),
        final(store).rows_v() == ingest_rows(old(store).rows_v(), entries@, now),
        r == ingest_new_count(old(store).rows_v(), entries@, now),
{
    let ghost rows0 = store.rows_v();
    let n = entries.len();
    let mut new_count: u64 = 0;
    let mut i: usize = 0;
    proof {
        assert(entries@.skip(0) =~= entries@);
    }
    while i < n
        invariant
            n == entries@.len(),
            i <= n,
            new_count <= i,
            store.wf(),
            ingest_rows(rows0, entries@, now) == ingest_rows(
                store.rows_v(),
                entries@.skip(i as int),
                now,
            ),
            ingest_new_count(rows0, entries@, now) == new_count + ingest_new_count(
                store.rows_v(),
                entries@.skip(i as int),
                now,
            ),
        decreases n - i,
    {
        let entry = entries[i];
        let ghost tail = entries@.skip(i as int);
        proof {
            assert(tail[0] == entries@[i as int]);
            assert(tail.drop_first() =~= entries@.skip(i + 1));
        }
        if is_public_addr(entry.addr) {
            let info = NodeInfo {
                addr: entry.addr,
                node_type: NodeType::Unknown,
                user_agent: None,
                version: None,
                services: Some(entry.services),
                last_seen: now,
                last_connected: None,
                connection_failures: 0,
                is_reachable: true,
            };
            proof {
                assert(info@ =~= gossip_row(entry.addr, Some(entry.services), now));
            }
            let was_new = store.insert_or_update(&info);
            if was_new {
                new_count += 1;
            }
        }
        i += 1;
    }
    proof {
        assert(entries@.skip(n as int).len() == 0);
    }
    new_count
}

/// Stores seed addresses (from DNS resolution done by the caller) with the
/// given services, as unknown reachable rows seen now; non-public addresses
/// are discarded. Returns exactly how many rows were new.
pub fn store_socket_addrs(
    store: &mut AddressDb,
    addrs: &Vec<PeerAddr>,
    services: Option<u64>,
    now: i64,
) -> (r: u64)
    requires
        old(store).wf(),
    ensures
        final(store).wf(),
        final(store).rows_v() == ingest_seed_rows(old(store).rows_v(), addrs@, services, now),
        r == ingest_seed_new_count(old(store).rows_v(), addrs@, services, now),
{
    let ghost rows0 = store.rows_v();
    let n = addrs.len();
    let mut new_count: u64 = 0;
    let mut i: usize = 0;
    proof {
        assert(addrs@.skip(0) =~= addrs@);
    }
    while i < n
        invariant
            n == addrs@.len(),
            i <= n,
            new_count <= i,
            store.wf(),
            ingest_seed_rows(rows0, addrs@, services, now) == ingest_seed_rows(
                store.rows_v(),
                addrs@.skip(i as int),
                services,
                now,
            ),
            ingest_seed_new_count(rows0, addrs@, services, now) == new_count
                + ingest_seed_new_count(store.rows_v(), addrs@.skip(i as int), services, now),
        decreases n - i,
    {
        let a = addrs[i];
        let ghost tail = addrs@.skip(i as int);
        proof {
            assert(tail[0] == addrs@[i as int]);
            assert(tail.drop_first() =~= addrs@.skip(i + 1));
        }
        if is_public_addr(a) {
            let info = NodeInfo {
                addr: a,
                node_type: NodeType::Unknown,
                user_agent: None,
                version: None,
                services,
                last_seen: now,
                last_connected: None,
                connection_failures: 0,
                is_reachable: true,
            };
            proof {
                assert(info@ =~= gossip_row(a, services, now));
            }
            let was_new = store.insert_or_update(&info);
            if was_new {
                new_count += 1;
            }
        }
        i += 1;
    }
    proof {
        assert(addrs@.skip(n as int).len() == 0);
    }
    new_count
}

/// Picks up to `max` connected peers, uniformly at random, to ask for
/// addresses in a discovery cycle.
pub fn pick_getaddr_targets(peers: &Vec<PeerHandle>, max: usize) -> (r: Vec<PeerAddr>)
    ensures
        r@.len() == vstd::math::min(max as int, peers@.len() as int),
        forall|a: int|
            0 <= a < r@.len() ==> peer_addr_in(peers.deep_view(), #[trigger] r@[a]),
{
    broadcast use vstd::seq_lib::group_to_multiset_ensures;

    let n = peers.len();
    let mut cands: Vec<PeerAddr> = Vec::new();
    let mut i: usize = 0;
    while i < n
        invariant
            n == peers@.len(),
            i <= n,
            cands@.len() == i,
            forall|a: int|
                0 <= a < cands@.len() ==> peer_addr_in(peers.deep_view(), #[trigger] cands@[a]),
        decreases n - i,
    {
        proof {
            assert(peers.deep_view()[i as int] == peers@[i as int]@);
        }
        cands.push(peers[i].addr());
        i += 1;
    }
    let ghost before = cands@;
    shuffle_addrs(&mut cands);
    proof {
        assert forall|a: int| 0 <= a < cands@.len() implies peer_addr_in(
            peers.deep_view(),
            #[trigger] cands@[a],
        ) by {
            assert(cands@.to_multiset().count(cands@[a]) > 0);
            assert(before.contains(cands@[a]));
        }
    }
    let m = cands.len();
    let count = if max < m {
        max
    } else {
        m
    };
    let mut r: Vec<PeerAddr> = Vec::new();
    let mut i2: usize = 0;
    while i2 < count
        invariant
            count <= m,
            m == cands@.len(),
            i2 <= count,
            r@.len() == i2,
            forall|a: int|
                0 <= a < i2 ==> peer_addr_in(peers.deep_view(), #[trigger] r@[a]),
            forall|a: int|
                0 <= a < cands@.len() ==> peer_addr_in(peers.deep_view(), #[trigger] cands@[a]),
        decreases count - i2,
    {
        r.push(cands[i2]);
        i2 += 1;
    }
    r
}

} // verus!
