//! A verified Bitcoin P2P relay core: the wire codec with its streaming
//! framer, user-agent classification, the address store, the handshake
//! state machine, the relay engine with its seen/requested/cache tables,
//! and the telemetry counters. The surrounding process (sockets, timers,
//! persistence, the metrics endpoint) drives these functions and performs
//! the I/O they decide on.
use vstd::prelude::*;

pub mod addr;
pub mod codec;
pub mod decode;
pub mod discovery;
pub mod framer;
pub mod hashes;
pub mod manager;
pub mod message;
pub mod metrics;
pub mod peer;
pub mod shuffle;
pub mod store;
pub mod node_type;
pub mod relay;
pub mod roundtrip;
pub mod wire;

pub use addr::{PeerAddr, PeerIp};
pub use codec::{serialize_message, CodecError};
pub use decode::parse_message;
pub use framer::drain_frames;
pub use message::{AddressEntry, InvEntry, Message, NetAddress, PeerVersion, VersionPayload};
pub use manager::{OutMsg, PeerManager};
pub use metrics::Metrics;
pub use peer::{EndpointAction, HandshakeActions, HandshakeState, PeerEvent, PeerHandle};
pub use node_type::NodeType;
pub use relay::{RelayState, TxEntry};
pub use store::{AddressDb, NodeInfo};

verus! {

} // verus!
