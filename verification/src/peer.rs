use vstd::prelude::*;

use crate::addr::PeerAddr;
use crate::message::{AddressEntry, Message, PeerVersion};
use crate::node_type::{classify_spec, NodeType};
use crate::store::{NodeInfo, NodeInfoV};

verus! {

/// Mathematical value of a `PeerVersion`.
#[verifier::ext_equal]
pub struct PeerVersionV {
    pub version: u32,
    pub services: u64,
    pub timestamp: i64,
    pub user_agent: Seq<u8>,
    pub start_height: i32,
    pub relay: bool,
}

impl View for PeerVersion {
    type V = PeerVersionV;

    open spec fn view(&self) -> PeerVersionV {
        PeerVersionV {
            version: self.version,
            services: self.services,
            timestamp: self.timestamp,
            user_agent: self.user_agent@,
            start_height: self.start_height,
            relay: self.relay,
        }
    }
}

impl PeerVersion {
    /// A field-by-field copy.
    pub fn duplicate(&self) -> (r: PeerVersion)
        ensures
            r@ == self@,
    {
        let r = PeerVersion {
            version: self.version,
            services: self.services,
            timestamp: self.timestamp,
            user_agent: self.user_agent.clone(),
            start_height: self.start_height,
            relay: self.relay,
        };
        proof {
            assert(r@ =~= self@);
        }
        r
    }
}

/// What a peer endpoint reports to the manager.
pub enum PeerEvent {
    Connected { addr: PeerAddr, version: PeerVersion },
    Disconnected { addr: PeerAddr, reason: Vec<u8> },
    Message { addr: PeerAddr, message: Message },
    Addresses { addr: PeerAddr, addrs: Vec<AddressEntry> },
}

/// The manager's reference to a live peer: its address, classification, and
/// user-agent snapshot. The sending half of the peer's queue lives with the
/// connection itself.
#[derive(Debug)]
pub struct PeerHandle {
    pub addr: PeerAddr,
    pub node_type: NodeType,
    pub user_agent: Vec<u8>,
}

/// Mathematical value of a `PeerHandle`.
#[verifier::ext_equal]
pub struct PeerHandleV {
    pub addr: PeerAddr,
    pub node_type: NodeType,
    pub user_agent: Seq<u8>,
}

impl View for PeerHandle {
    type V = PeerHandleV;

    open spec fn view(&self) -> PeerHandleV {
        PeerHandleV { addr: self.addr, node_type: self.node_type, user_agent: self.user_agent@ }
    }
}

impl DeepView for PeerHandle {
    type V = PeerHandleV;

    open spec fn deep_view(&self) -> PeerHandleV {
        self.view()
    }
}

impl PeerHandle {
    pub fn addr(&self) -> (r: PeerAddr)
        ensures
            r == self.addr,
    {
        self.addr
    }

    pub fn node_type(&self) -> (r: NodeType)
        ensures
            r == self.node_type,
    {
        self.node_type
    }

    pub fn user_agent(&self) -> (r: &Vec<u8>)
        ensures
            r@ == self.user_agent@,
    {
        &self.user_agent
    }

    /// A field-by-field copy.
    pub fn duplicate(&self) -> (r: PeerHandle)
        ensures
            r@ == self@,
    {
        let r = PeerHandle {
            addr: self.addr,
            node_type: self.node_type,
            user_agent: self.user_agent.clone(),
        };
        proof {
            assert(r@ =~= self@);
        }
        r
    }
}

/// The handshake as a state machine: both sides send `Version` first, wait
/// for the peer's `Version`, answer with `Verack`, and wait for the peer's
/// `Verack`. Anything else received before completion is discarded.
pub enum HandshakeState {
    AwaitVersion,
    AwaitVerack { peer: PeerVersion },
    Established { peer: PeerVersion },
}

/// What one handshake step asks the caller to do.
pub struct HandshakeActions {
    /// Send a `Verack` now.
    pub send_verack: bool,
    /// The handshake completed with this peer version: classify, upsert the
    /// store row, and emit `Connected`.
    pub established: Option<PeerVersion>,
}

/// One step of the handshake: consumes one received message in the current
/// state. In `AwaitVersion`, a `Version` records the peer and asks for a
/// `Verack` to be sent; in `AwaitVerack`, a `Verack` completes the
/// handshake; every other message is ignored.
pub fn handshake_step(state: HandshakeState, msg: &Message) -> (r: (
    HandshakeState,
    HandshakeActions,
))
    ensures
        match state {
            HandshakeState::AwaitVersion => match msg {
                Message::Version(v) => {
                    &&& r.0 matches HandshakeState::AwaitVerack { peer } && peer@
                        == (PeerVersionV {
                        version: v.version,
                        services: v.services,
                        timestamp: v.timestamp,
                        user_agent: v.user_agent@,
                        start_height: v.start_height,
                        relay: v.relay,
                    })
                    &&& r.1.send_verack
                    &&& r.1.established is None
                },
                _ => r.0 is AwaitVersion && !r.1.send_verack && r.1.established is None,
            },
            HandshakeState::AwaitVerack { peer } => match msg {
                Message::Verack => {
                    &&& r.0 matches HandshakeState::Established { peer: p } && p@ == peer@
                    &&& !r.1.send_verack
                    &&& r.1.established matches Some(p2) && p2@ == peer@
                },
                _ => {
                    &&& r.0 matches HandshakeState::AwaitVerack { peer: p } && p@ == peer@
                    &&& !r.1.send_verack
                    &&& r.1.established is None
                },
            },
            HandshakeState::Established { peer } => {
                &&& r.0 matches HandshakeState::Established { peer: p } && p@ == peer@
                &&& !r.1.send_verack
                &&& r.1.established is None
            },
        },
{
    match state {
        HandshakeState::AwaitVersion => match msg {
            Message::Version(v) => {
                let pv = PeerVersion::from_version_message(v);
                (
                    HandshakeState::AwaitVerack { peer: pv },
                    HandshakeActions { send_verack: true, established: None },
                )
            },
            _ => (
                HandshakeState::AwaitVersion,
                HandshakeActions { send_verack: false, established: None },
            ),
        },
        HandshakeState::AwaitVerack { peer } => match msg {
            Message::Verack => {
                let copy = peer.duplicate();
                (
                    HandshakeState::Established { peer },
                    HandshakeActions { send_verack: false, established: Some(copy) },
                )
            },
            _ => (
                HandshakeState::AwaitVerack { peer },
                HandshakeActions { send_verack: false, established: None },
            ),
        },
        HandshakeState::Established { peer } => (
            HandshakeState::Established { peer },
            HandshakeActions { send_verack: false, established: None },
        ),
    }
}

/// The store row written when a handshake completes at time `now`: the peer
/// is classified from its agent, marked connected and reachable, with a
/// clean failure counter.
pub fn established_node_info(addr: PeerAddr, pv: &PeerVersion, now: i64) -> (r: NodeInfo)
    ensures
        r@ == (NodeInfoV {
            addr: addr,
            node_type: classify_spec(pv.user_agent@),
            user_agent: Some(pv.user_agent@),
            version: Some(pv.version as i32),
            services: Some(pv.services),
            last_seen: now,
            last_connected: Some(now),
            connection_failures: 0,
            is_reachable: true,
        }),
{
    let r = NodeInfo {
        addr,
        node_type: NodeType::from_user_agent(pv.user_agent.as_slice()),
        user_agent: Some(pv.user_agent.clone()),
        version: Some(pv.version as i32),
        services: Some(pv.services),
        last_seen: now,
        last_connected: Some(now),
        connection_failures: 0,
        is_reachable: true,
    };
    proof {
        assert(r@ =~= (NodeInfoV {
            addr: addr,
            node_type: classify_spec(pv.user_agent@),
            user_agent: Some(pv.user_agent@),
            version: Some(pv.version as i32),
            services: Some(pv.services),
            last_seen: now,
            last_connected: Some(now),
            connection_failures: 0,
            is_reachable: true,
        }));
    }
    r
}

/// What the endpoint does with one decoded message before anything reaches
/// the manager: answer pings itself, surface gossip as `Addresses`, and
/// forward the rest.
pub enum EndpointAction {
    Reply(Message),
    Event(PeerEvent),
}

/// Routes one received message inside the endpoint.
pub fn endpoint_dispatch(addr: PeerAddr, msg: Message) -> (r: EndpointAction)
    ensures
        match msg@ {
            crate::message::MessageV::Ping(n) => r matches EndpointAction::Reply(p) && p@
                == crate::message::MessageV::Pong(n),
            crate::message::MessageV::Addr(entries) => r matches EndpointAction::Event(
                PeerEvent::Addresses { addr: a, addrs },
            ) && a == addr && addrs.deep_view() == entries,
            _ => r matches EndpointAction::Event(PeerEvent::Message { addr: a, message }) && a
                == addr && message@ == msg@,
        },
{
    match msg {
        Message::Ping(n) => EndpointAction::Reply(Message::Pong(n)),
        Message::Addr(entries) => EndpointAction::Event(PeerEvent::Addresses { addr, addrs: entries }),
        other => EndpointAction::Event(PeerEvent::Message { addr, message: other }),
    }
}

} // verus!
