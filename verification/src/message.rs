use vstd::prelude::*;

use crate::addr::PeerAddr;
use vstd::slice::slice_to_vec;

verus! {

/// Protocol version advertised in outgoing `Version` messages; a modern
/// version so peers send newer capability messages during the handshake.
pub const ADVERTISED_PROTOCOL_VERSION: u32 = 70016;

/// Service bitmask advertised by this node: `NETWORK_LIMITED` (bit 10).
pub const SERVICES_NETWORK_LIMITED: u64 = 1024;

/// Inventory type code for a transaction announced by txid.
pub const INV_TRANSACTION: u32 = 1;

/// Inventory type code for a transaction announced by wtxid.
pub const INV_WTX: u32 = 5;

/// Inventory type code for a witness transaction request.
pub const INV_WITNESS_TRANSACTION: u32 = 0x40000001;

/// A network address as carried inside a `Version` payload: services plus
/// socket address, without a timestamp.
#[derive(Debug, Clone, Copy, PartialEq, Eq, Structural)]
pub struct NetAddress {
    pub services: u64,
    pub addr: PeerAddr,
}

/// One entry of an `Addr` or `AddrV2` payload.
#[derive(Debug, Clone, Copy, PartialEq, Eq, Structural)]
pub struct AddressEntry {
    pub services: u64,
    pub addr: PeerAddr,
    pub timestamp: u32,
}

impl DeepView for AddressEntry {
    type V = AddressEntry;

    open spec fn deep_view(&self) -> AddressEntry {
        *self
    }
}

/// One entry of an `Inv` or `GetData` payload: the raw inventory type code
/// and the 32-byte identifier.
#[derive(Debug, Clone, Copy)]
pub struct InvEntry {
    pub kind: u32,
    pub hash: [u8; 32],
}

/// Mathematical value of an `InvEntry`.
#[verifier::ext_equal]
pub struct InvEntryV {
    pub kind: u32,
    pub hash: Seq<u8>,
}

impl View for InvEntry {
    type V = InvEntryV;

    open spec fn view(&self) -> InvEntryV {
        InvEntryV { kind: self.kind, hash: self.hash.deep_view() }
    }
}

impl DeepView for InvEntry {
    type V = InvEntryV;

    open spec fn deep_view(&self) -> InvEntryV {
        self.view()
    }
}

impl InvEntryV {
    pub open spec fn wf(self) -> bool {
        self.hash.len() == 32
    }
}

/// The 32-byte relay key of an inventory entry: the identifier for
/// transaction-typed entries, nothing for blocks and other types.
pub open spec fn inventory_key_spec(inv: InvEntryV) -> Option<Seq<u8>> {
    if inv.kind == INV_TRANSACTION || inv.kind == INV_WTX || inv.kind == INV_WITNESS_TRANSACTION {
        Some(inv.hash)
    } else {
        None
    }
}

/// The relay key as an exec value: the hash array of a tx-typed entry.
pub open spec fn entry_relay_key(inv: InvEntry) -> Option<[u8; 32]> {
    if inv.kind == INV_TRANSACTION || inv.kind == INV_WTX || inv.kind == INV_WITNESS_TRANSACTION {
        Some(inv.hash)
    } else {
        None
    }
}

/// Extracts the relay key of an inventory entry; block-typed entries have
/// none and are ignored by the relay engine.
pub fn inventory_key(inv: &InvEntry) -> (r: Option<[u8; 32]>)
    ensures
        r == entry_relay_key(*inv),
        match r {
            Some(k) => inventory_key_spec(inv@) == Some(k.deep_view()),
            None => inventory_key_spec(inv@) is None,
        },
{
    if inv.kind == INV_TRANSACTION || inv.kind == INV_WTX || inv.kind == INV_WITNESS_TRANSACTION {
        Some(inv.hash)
    } else {
        None
    }
}

/// The payload of a `Version` message.
#[derive(Debug, Clone)]
pub struct VersionPayload {
    pub version: u32,
    pub services: u64,
    pub timestamp: i64,
    pub receiver: NetAddress,
    pub sender: NetAddress,
    pub nonce: u64,
    pub user_agent: Vec<u8>,
    pub start_height: i32,
    pub relay: bool,
}

/// Mathematical value of a `VersionPayload`.
#[verifier::ext_equal]
pub struct VersionV {
    pub version: u32,
    pub services: u64,
    pub timestamp: i64,
    pub receiver: NetAddress,
    pub sender: NetAddress,
    pub nonce: u64,
    pub user_agent: Seq<u8>,
    pub start_height: i32,
    pub relay: bool,
}

impl View for VersionPayload {
    type V = VersionV;

    open spec fn view(&self) -> VersionV {
        VersionV {
            version: self.version,
            services: self.services,
            timestamp: self.timestamp,
            receiver: self.receiver,
            sender: self.sender,
            nonce: self.nonce,
            user_agent: self.user_agent.deep_view(),
            start_height: self.start_height,
            relay: self.relay,
        }
    }
}

/// A typed wire message. `Tx` carries the raw consensus bytes of the
/// transaction; `Unknown` carries the command of a frame this node does not
/// interpret and never serializes.
#[derive(Debug, Clone)]
pub enum Message {
    Version(VersionPayload),
    Verack,
    SendAddrV2,
    WtxidRelay,
    Ping(u64),
    Pong(u64),
    FeeFilter(i64),
    Inv(Vec<InvEntry>),
    GetData(Vec<InvEntry>),
    Tx(Vec<u8>),
    GetAddr,
    Addr(Vec<AddressEntry>),
    AddrV2(Vec<AddressEntry>),
    Unknown { command: Vec<u8> },
}

/// Mathematical value of a `Message`.
#[verifier::ext_equal]
pub enum MessageV {
    Version(VersionV),
    Verack,
    SendAddrV2,
    WtxidRelay,
    Ping(u64),
    Pong(u64),
    FeeFilter(i64),
    Inv(Seq<InvEntryV>),
    GetData(Seq<InvEntryV>),
    Tx(Seq<u8>),
    GetAddr,
    Addr(Seq<AddressEntry>),
    AddrV2(Seq<AddressEntry>),
    Unknown { command: Seq<u8> },
}

impl View for Message {
    type V = MessageV;

    open spec fn view(&self) -> MessageV {
        match self {
            Message::Version(v) => MessageV::Version(v@),
            Message::Verack => MessageV::Verack,
            Message::SendAddrV2 => MessageV::SendAddrV2,
            Message::WtxidRelay => MessageV::WtxidRelay,
            Message::Ping(n) => MessageV::Ping(*n),
            Message::Pong(n) => MessageV::Pong(*n),
            Message::FeeFilter(f) => MessageV::FeeFilter(*f),
            Message::Inv(list) => MessageV::Inv(list.deep_view()),
            Message::GetData(list) => MessageV::GetData(list.deep_view()),
            Message::Tx(bytes) => MessageV::Tx(bytes.deep_view()),
            Message::GetAddr => MessageV::GetAddr,
            Message::Addr(list) => MessageV::Addr(list.deep_view()),
            Message::AddrV2(list) => MessageV::AddrV2(list.deep_view()),
            Message::Unknown { command } => MessageV::Unknown { command: command.deep_view() },
        }
    }
}

impl DeepView for Message {
    type V = MessageV;

    open spec fn deep_view(&self) -> MessageV {
        self.view()
    }
}

/// The fields of a peer's `Version` message that the node keeps per peer.
#[derive(Debug, Clone)]
pub struct PeerVersion {
    pub version: u32,
    pub services: u64,
    pub timestamp: i64,
    pub user_agent: Vec<u8>,
    pub start_height: i32,
    pub relay: bool,
}

impl PeerVersion {
    /// Snapshot of the relevant fields of a received `Version` payload.
    pub fn from_version_message(msg: &VersionPayload) -> (r: PeerVersion)
        ensures
            r.version == msg.version,
            r.services == msg.services,
            r.timestamp == msg.timestamp,
            r.user_agent@ == msg.user_agent@,
            r.start_height == msg.start_height,
            r.relay == msg.relay,
    {
        PeerVersion {
            version: msg.version,
            services: msg.services,
            timestamp: msg.timestamp,
            user_agent: msg.user_agent.clone(),
            start_height: msg.start_height,
            relay: msg.relay,
        }
    }
}

/// Builds the `Version` payload this node sends at the start of every
/// handshake. The caller supplies the current unix time and a fresh nonce.
pub fn build_version_message(
    our_addr: PeerAddr,
    their_addr: PeerAddr,
    start_height: i32,
    user_agent: &[u8],
    timestamp: i64,
    nonce: u64,
) -> (r: VersionPayload)
    ensures
        r@ == (VersionV {
            version: ADVERTISED_PROTOCOL_VERSION,
            services: SERVICES_NETWORK_LIMITED,
            timestamp: timestamp,
            receiver: NetAddress { services: 0, addr: their_addr },
            sender: NetAddress { services: SERVICES_NETWORK_LIMITED, addr: our_addr },
            nonce: nonce,
            user_agent: user_agent@,
            start_height: start_height,
            relay: true,
        }),
{
    let ua = slice_to_vec(user_agent);
    let r = VersionPayload {
        version: ADVERTISED_PROTOCOL_VERSION,
        services: SERVICES_NETWORK_LIMITED,
        timestamp,
        receiver: NetAddress { services: 0, addr: their_addr },
        sender: NetAddress { services: SERVICES_NETWORK_LIMITED, addr: our_addr },
        nonce,
        user_agent: ua,
        start_height,
        relay: true,
    };
    proof {
        assert(r@ =~= (VersionV {
            version: ADVERTISED_PROTOCOL_VERSION,
            services: SERVICES_NETWORK_LIMITED,
            timestamp: timestamp,
            receiver: NetAddress { services: 0, addr: their_addr },
            sender: NetAddress { services: SERVICES_NETWORK_LIMITED, addr: our_addr },
            nonce: nonce,
            user_agent: user_agent@,
            start_height: start_height,
            relay: true,
        }));
    }
    r
}

} // verus!
