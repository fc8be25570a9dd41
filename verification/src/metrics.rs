use vstd::prelude::*;

use crate::node_type::NodeType;

verus! {

/// Adds one, stopping at the counter's maximum.
pub open spec fn bumped(x: u64) -> u64 {
    if x < u64::MAX {
        (x + 1) as u64
    } else {
        u64::MAX
    }
}

/// Adds `d`, stopping at the counter's maximum.
pub open spec fn bumped_by(x: u64, d: u64) -> u64 {
    if x + d <= u64::MAX {
        (x + d) as u64
    } else {
        u64::MAX
    }
}

/// Saturating exec counter increment.
pub fn bump(x: u64) -> (r: u64)
    ensures
        r == bumped(x),
{
    if x < u64::MAX {
        x + 1
    } else {
        u64::MAX
    }
}

/// Saturating exec counter addition.
pub fn bump_by(x: u64, d: u64) -> (r: u64)
    ensures
        r == bumped_by(x, d),
{
    if x <= u64::MAX - d {
        x + d
    } else {
        u64::MAX
    }
}

/// Process-wide counters and gauges; counters are monotonic, gauges are set
/// on every peer-count recomputation.
pub struct Metrics {
    pub connected_peers: u64,
    pub total_connections: u64,
    pub total_disconnections: u64,
    pub transactions_relayed: u64,
    pub transactions_received: u64,
    pub transactions_received_from_knots: u64,
    pub transactions_received_from_core: u64,
    pub transactions_received_from_libre: u64,
    pub transactions_received_from_other: u64,
    pub transactions_received_from_unknown: u64,
    pub unclassified_agent_peers: Vec<(Vec<u8>, u64)>,
    pub inv_messages_received: u64,
    pub addr_messages_received: u64,
    pub getaddr_messages_received: u64,
    pub knots_peers: u64,
    pub core_peers: u64,
    pub libre_peers: u64,
    pub other_peers: u64,
    pub discovery_runs: u64,
    pub nodes_discovered: u64,
    pub nodes_pruned: u64,
}

impl Metrics {
    /// All counters and gauges at zero, no labelled series.
    pub fn new() -> (r: Metrics)
        ensures
            r.connected_peers == 0,
            r.total_connections == 0,
            r.total_disconnections == 0,
            r.transactions_relayed == 0,
            r.transactions_received == 0,
            r.transactions_received_from_knots == 0,
            r.transactions_received_from_core == 0,
            r.transactions_received_from_libre == 0,
            r.transactions_received_from_other == 0,
            r.transactions_received_from_unknown == 0,
            r.unclassified_agent_peers@.len() == 0,
            r.inv_messages_received == 0,
            r.addr_messages_received == 0,
            r.getaddr_messages_received == 0,
            r.knots_peers == 0,
            r.core_peers == 0,
            r.libre_peers == 0,
            r.other_peers == 0,
            r.discovery_runs == 0,
            r.nodes_discovered == 0,
            r.nodes_pruned == 0,
    {
        Metrics {
            connected_peers: 0,
            total_connections: 0,
            total_disconnections: 0,
            transactions_relayed: 0,
            transactions_received: 0,
            transactions_received_from_knots: 0,
            transactions_received_from_core: 0,
            transactions_received_from_libre: 0,
            transactions_received_from_other: 0,
            transactions_received_from_unknown: 0,
            unclassified_agent_peers: Vec::new(),
            inv_messages_received: 0,
            addr_messages_received: 0,
            getaddr_messages_received: 0,
            knots_peers: 0,
            core_peers: 0,
            libre_peers: 0,
            other_peers: 0,
            discovery_runs: 0,
            nodes_discovered: 0,
            nodes_pruned: 0,
        }
    }

    /// Sets the per-flavor gauges and the connected-peer total.
    pub fn update_peer_counts(&mut self, knots: u64, core: u64, libre: u64, other: u64)
        requires
            knots + core + libre + other <= u64::MAX,
        ensures
            *final(self) == (Metrics {
                knots_peers: knots,
                core_peers: core,
                libre_peers: libre,
                other_peers: other,
                connected_peers: (knots + core + libre + other) as u64,
                ..*old(self)
            }),
    {
        self.knots_peers = knots;
        self.core_peers = core;
        self.libre_peers = libre;
        self.other_peers = other;
        self.connected_peers = knots + core + libre + other;
    }

    /// Bumps the per-source-flavor transaction counter.
    pub fn inc_transactions_received_from(&mut self, node_type: NodeType)
        ensures
            *final(self) == (match node_type {
                NodeType::Knots => Metrics {
                    transactions_received_from_knots: bumped(
                        old(self).transactions_received_from_knots,
                    ),
                    ..*old(self)
                },
                NodeType::Core => Metrics {
                    transactions_received_from_core: bumped(
                        old(self).transactions_received_from_core,
                    ),
                    ..*old(self)
                },
                NodeType::LibreRelay => Metrics {
                    transactions_received_from_libre: bumped(
                        old(self).transactions_received_from_libre,
                    ),
                    ..*old(self)
                },
                NodeType::Other => Metrics {
                    transactions_received_from_other: bumped(
                        old(self).transactions_received_from_other,
                    ),
                    ..*old(self)
                },
                NodeType::Unknown => Metrics {
                    transactions_received_from_unknown: bumped(
                        old(self).transactions_received_from_unknown,
                    ),
                    ..*old(self)
                },
            }),
    {
        match node_type {
            NodeType::Knots => {
                self.transactions_received_from_knots = bump(
                    self.transactions_received_from_knots,
                );
            },
            NodeType::Core => {
                self.transactions_received_from_core = bump(self.transactions_received_from_core);
            },
            NodeType::LibreRelay => {
                self.transactions_received_from_libre = bump(
                    self.transactions_received_from_libre,
                );
            },
            NodeType::Other => {
                self.transactions_received_from_other = bump(
                    self.transactions_received_from_other,
                );
            },
            NodeType::Unknown => {
                self.transactions_received_from_unknown = bump(
                    self.transactions_received_from_unknown,
                );
            },
        }
    }

    /// Replaces the labelled unclassified-agent series wholesale; the old
    /// series are fully cleared first, so no stale label survives.
    pub fn update_unclassified_agent_peers(&mut self, counts: Vec<(Vec<u8>, u64)>)
        ensures
            final(self).unclassified_agent_peers == counts,
            *final(self) == (Metrics { unclassified_agent_peers: counts, ..*old(self) }),
    {
        self.unclassified_agent_peers = counts;
    }
}

} // verus!
