use vstd::prelude::*;

use crate::addr::{hi_byte, ip16_spec, lo_byte, push_ip16, push_seg, PeerAddr, PeerIp};
use crate::hashes::{checksum4, checksum_of};
use crate::message::{
    AddressEntry, InvEntry, InvEntryV, Message, MessageV, NetAddress, VersionPayload, VersionV,
};
use crate::wire::{
    push_i32_le, push_i64_le, push_u32_le, push_u64_le, push_varint, spec_i32_to_le_bytes,
    spec_i64_to_le_bytes, spec_varint,
};
use vstd::bytes::{spec_u32_to_le_bytes, spec_u64_to_le_bytes, u64_to_le_bytes};
use vstd::pervasive::unreached;

verus! {

/// Payloads above this size are fatal frame errors: the consumer discards its
/// whole accumulator and the connection is dropped.
pub const MAX_PAYLOAD_SIZE: usize = 4194304;

/// The four magic bytes of mainnet frames.
pub open spec fn magic_spec() -> Seq<u8> {
    seq![0xf9u8, 0xbeu8, 0xb4u8, 0xd9u8]
}

pub open spec fn cmd_version() -> Seq<u8> {
    seq![118u8, 101u8, 114u8, 115u8, 105u8, 111u8, 110u8, 0u8, 0u8, 0u8, 0u8, 0u8]
}

pub open spec fn cmd_verack() -> Seq<u8> {
    seq![118u8, 101u8, 114u8, 97u8, 99u8, 107u8, 0u8, 0u8, 0u8, 0u8, 0u8, 0u8]
}

pub open spec fn cmd_sendaddrv2() -> Seq<u8> {
    seq![115u8, 101u8, 110u8, 100u8, 97u8, 100u8, 100u8, 114u8, 118u8, 50u8, 0u8, 0u8]
}

pub open spec fn cmd_wtxidrelay() -> Seq<u8> {
    seq![119u8, 116u8, 120u8, 105u8, 100u8, 114u8, 101u8, 108u8, 97u8, 121u8, 0u8, 0u8]
}

pub open spec fn cmd_ping() -> Seq<u8> {
    seq![112u8, 105u8, 110u8, 103u8, 0u8, 0u8, 0u8, 0u8, 0u8, 0u8, 0u8, 0u8]
}

pub open spec fn cmd_pong() -> Seq<u8> {
    seq![112u8, 111u8, 110u8, 103u8, 0u8, 0u8, 0u8, 0u8, 0u8, 0u8, 0u8, 0u8]
}

pub open spec fn cmd_feefilter() -> Seq<u8> {
    seq![102u8, 101u8, 101u8, 102u8, 105u8, 108u8, 116u8, 101u8, 114u8, 0u8, 0u8, 0u8]
}

pub open spec fn cmd_inv() -> Seq<u8> {
    seq![105u8, 110u8, 118u8, 0u8, 0u8, 0u8, 0u8, 0u8, 0u8, 0u8, 0u8, 0u8]
}

pub open spec fn cmd_getdata() -> Seq<u8> {
    seq![103u8, 101u8, 116u8, 100u8, 97u8, 116u8, 97u8, 0u8, 0u8, 0u8, 0u8, 0u8]
}

pub open spec fn cmd_tx() -> Seq<u8> {
    seq![116u8, 120u8, 0u8, 0u8, 0u8, 0u8, 0u8, 0u8, 0u8, 0u8, 0u8, 0u8]
}

pub open spec fn cmd_getaddr() -> Seq<u8> {
    seq![103u8, 101u8, 116u8, 97u8, 100u8, 100u8, 114u8, 0u8, 0u8, 0u8, 0u8, 0u8]
}

pub open spec fn cmd_addr() -> Seq<u8> {
    seq![97u8, 100u8, 100u8, 114u8, 0u8, 0u8, 0u8, 0u8, 0u8, 0u8, 0u8, 0u8]
}

pub open spec fn cmd_addrv2() -> Seq<u8> {
    seq![97u8, 100u8, 100u8, 114u8, 118u8, 50u8, 0u8, 0u8, 0u8, 0u8, 0u8, 0u8]
}

/// The 12-byte command field of a message's frame.
pub open spec fn command_of(m: MessageV) -> Seq<u8> {
    match m {
        MessageV::Version(_) => cmd_version(),
        MessageV::Verack => cmd_verack(),
        MessageV::SendAddrV2 => cmd_sendaddrv2(),
        MessageV::WtxidRelay => cmd_wtxidrelay(),
        MessageV::Ping(_) => cmd_ping(),
        MessageV::Pong(_) => cmd_pong(),
        MessageV::FeeFilter(_) => cmd_feefilter(),
        MessageV::Inv(_) => cmd_inv(),
        MessageV::GetData(_) => cmd_getdata(),
        MessageV::Tx(_) => cmd_tx(),
        MessageV::GetAddr => cmd_getaddr(),
        MessageV::Addr(_) => cmd_addr(),
        MessageV::AddrV2(_) => cmd_addrv2(),
        MessageV::Unknown { command } => command,
    }
}

/// Wire form of a `Version`-style network address: services, 16-byte IP,
/// big-endian port.
pub open spec fn spec_netaddr(a: NetAddress) -> Seq<u8> {
    spec_u64_to_le_bytes(a.services) + ip16_spec(a.addr.ip) + seq![
        hi_byte(a.addr.port),
        lo_byte(a.addr.port),
    ]
}

/// Wire form of a `Version` payload.
pub open spec fn spec_version_payload(v: VersionV) -> Seq<u8> {
    spec_u32_to_le_bytes(v.version) + spec_u64_to_le_bytes(v.services) + spec_i64_to_le_bytes(
        v.timestamp,
    ) + spec_netaddr(v.receiver) + spec_netaddr(v.sender) + spec_u64_to_le_bytes(v.nonce)
        + spec_varint(v.user_agent.len() as u64) + v.user_agent + spec_i32_to_le_bytes(
        v.start_height,
    ) + seq![if v.relay { 1u8 } else { 0u8 }]
}

/// Wire form of one inventory entry: type code then 32-byte hash.
pub open spec fn spec_inv_entry(e: InvEntryV) -> Seq<u8> {
    spec_u32_to_le_bytes(e.kind) + e.hash
}

pub open spec fn spec_inv_entries(l: Seq<InvEntryV>) -> Seq<u8>
    decreases l.len(),
{
    if l.len() == 0 {
        Seq::empty()
    } else {
        spec_inv_entry(l[0]) + spec_inv_entries(l.drop_first())
    }
}

/// Wire form of one `Addr` entry: timestamp then network address.
pub open spec fn spec_addr_entry(e: AddressEntry) -> Seq<u8> {
    spec_u32_to_le_bytes(e.timestamp) + spec_netaddr(
        NetAddress { services: e.services, addr: e.addr },
    )
}

pub open spec fn spec_addr_entries(l: Seq<AddressEntry>) -> Seq<u8>
    decreases l.len(),
{
    if l.len() == 0 {
        Seq::empty()
    } else {
        spec_addr_entry(l[0]) + spec_addr_entries(l.drop_first())
    }
}

/// Wire form of one `AddrV2` entry: timestamp, services as varint, network
/// id, address length, address bytes, big-endian port.
pub open spec fn spec_addrv2_entry(e: AddressEntry) -> Seq<u8> {
    spec_u32_to_le_bytes(e.timestamp) + spec_varint(e.services) + (match e.addr.ip {
        PeerIp::V4(a, b, c, d) => seq![1u8, 4u8, a, b, c, d],
        PeerIp::V6(..) => seq![2u8, 16u8] + ip16_spec(e.addr.ip),
    }) + seq![hi_byte(e.addr.port), lo_byte(e.addr.port)]
}

pub open spec fn spec_addrv2_entries(l: Seq<AddressEntry>) -> Seq<u8>
    decreases l.len(),
{
    if l.len() == 0 {
        Seq::empty()
    } else {
        spec_addrv2_entry(l[0]) + spec_addrv2_entries(l.drop_first())
    }
}

/// Wire payload of a message. `Unknown` has no wire form; its payload here is
/// empty and it is never serialized.
pub open spec fn spec_payload(m: MessageV) -> Seq<u8> {
    match m {
        MessageV::Version(v) => spec_version_payload(v),
        MessageV::Verack => Seq::empty(),
        MessageV::SendAddrV2 => Seq::empty(),
        MessageV::WtxidRelay => Seq::empty(),
        MessageV::Ping(n) => spec_u64_to_le_bytes(n),
        MessageV::Pong(n) => spec_u64_to_le_bytes(n),
        MessageV::FeeFilter(f) => spec_i64_to_le_bytes(f),
        MessageV::Inv(l) => spec_varint(l.len() as u64) + spec_inv_entries(l),
        MessageV::GetData(l) => spec_varint(l.len() as u64) + spec_inv_entries(l),
        MessageV::Tx(b) => b,
        MessageV::GetAddr => Seq::empty(),
        MessageV::Addr(l) => spec_varint(l.len() as u64) + spec_addr_entries(l),
        MessageV::AddrV2(l) => spec_varint(l.len() as u64) + spec_addrv2_entries(l),
        MessageV::Unknown { .. } => Seq::empty(),
    }
}

/// The full frame of a message: magic, command, payload length, checksum,
/// payload.
pub open spec fn spec_frame(m: MessageV) -> Seq<u8> {
    magic_spec() + command_of(m) + spec_u32_to_le_bytes(spec_payload(m).len() as u32) + checksum_of(
        spec_payload(m),
    ) + spec_payload(m)
}

/// Every message variant except `Unknown` has a wire form.
pub open spec fn msg_serializable(m: MessageV) -> bool {
    !(m is Unknown)
}

pub open spec fn inv_entries_wf(l: Seq<InvEntryV>) -> bool {
    forall|i: int| 0 <= i < l.len() ==> (#[trigger] l[i]).wf()
}

pub open spec fn addr_entries_canonical(l: Seq<AddressEntry>) -> bool {
    forall|i: int| 0 <= i < l.len() ==> (#[trigger] l[i]).addr.is_canonical()
}

/// The addresses a message carries are canonical (no v4-mapped IPv6 values).
pub open spec fn msg_addrs_canonical(m: MessageV) -> bool {
    match m {
        MessageV::Version(v) => v.receiver.addr.is_canonical() && v.sender.addr.is_canonical(),
        MessageV::Addr(l) => addr_entries_canonical(l),
        MessageV::AddrV2(l) => addr_entries_canonical(l),
        _ => true,
    }
}

/// A message that fits in one frame and round trips: its payload is within
/// the size bound, its hashes have 32 bytes, and its addresses are canonical.
pub open spec fn msg_wf(m: MessageV) -> bool {
    &&& spec_payload(m).len() <= MAX_PAYLOAD_SIZE
    &&& msg_addrs_canonical(m)
    &&& match m {
        MessageV::Inv(l) => inv_entries_wf(l),
        MessageV::GetData(l) => inv_entries_wf(l),
        _ => true,
    }
}

/// Why a message could not be serialized or a frame could not be parsed.
#[derive(Debug, Clone, Copy, PartialEq, Eq, Structural)]
pub enum CodecError {
    /// `Unknown` messages have no wire form.
    Unserializable,
    /// The payload would exceed the 4 MiB frame bound.
    Oversized,
    /// A carried address is a v4-mapped IPv6 value and would not round trip.
    BadAddress,
    /// The bytes are not a well-formed frame of this network.
    Malformed,
}

proof fn lemma_inv_entries_push(l: Seq<InvEntryV>, e: InvEntryV)
    ensures
        spec_inv_entries(l.push(e)) == spec_inv_entries(l) + spec_inv_entry(e),
    decreases l.len(),
{
    if l.len() == 0 {
        assert(l.push(e).drop_first() =~= l);
        assert(spec_inv_entries(l.push(e)) =~= spec_inv_entries(l) + spec_inv_entry(e));
    } else {
        assert(l.push(e).drop_first() =~= l.drop_first().push(e));
        lemma_inv_entries_push(l.drop_first(), e);
        assert(l.push(e)[0] == l[0]);
        assert(spec_inv_entries(l.push(e)) =~= spec_inv_entries(l) + spec_inv_entry(e));
    }
}

proof fn lemma_addr_entries_push(l: Seq<AddressEntry>, e: AddressEntry)
    ensures
        spec_addr_entries(l.push(e)) == spec_addr_entries(l) + spec_addr_entry(e),
    decreases l.len(),
{
    if l.len() == 0 {
        assert(l.push(e).drop_first() =~= l);
        assert(spec_addr_entries(l.push(e)) =~= spec_addr_entries(l) + spec_addr_entry(e));
    } else {
        assert(l.push(e).drop_first() =~= l.drop_first().push(e));
        lemma_addr_entries_push(l.drop_first(), e);
        assert(l.push(e)[0] == l[0]);
        assert(spec_addr_entries(l.push(e)) =~= spec_addr_entries(l) + spec_addr_entry(e));
    }
}

proof fn lemma_addrv2_entries_push(l: Seq<AddressEntry>, e: AddressEntry)
    ensures
        spec_addrv2_entries(l.push(e)) == spec_addrv2_entries(l) + spec_addrv2_entry(e),
    decreases l.len(),
{
    if l.len() == 0 {
        assert(l.push(e).drop_first() =~= l);
        assert(spec_addrv2_entries(l.push(e)) =~= spec_addrv2_entries(l) + spec_addrv2_entry(e));
    } else {
        assert(l.push(e).drop_first() =~= l.drop_first().push(e));
        lemma_addrv2_entries_push(l.drop_first(), e);
        assert(l.push(e)[0] == l[0]);
        assert(spec_addrv2_entries(l.push(e)) =~= spec_addrv2_entries(l) + spec_addrv2_entry(e));
    }
}

/// Appends the wire form of a network address.
fn push_netaddr(out: &mut Vec<u8>, a: &NetAddress)
    ensures
        final(out)@ == old(out)@ + spec_netaddr(*a),
{
    push_u64_le(out, a.services);
    push_ip16(out, a.addr.ip);
    push_seg(out, a.addr.port);
    proof {
        assert(final(out)@ =~= old(out)@ + spec_netaddr(*a));
    }
}

/// Appends the wire form of one inventory entry.
fn push_inv_entry(out: &mut Vec<u8>, e: &InvEntry)
    ensures
        final(out)@ == old(out)@ + spec_inv_entry(e@),
{
    push_u32_le(out, e.kind);
    out.extend_from_slice(e.hash.as_slice());
    proof {
        assert(final(out)@ =~= old(out)@ + spec_inv_entry(e@));
    }
}

/// Appends the wire form of one `Addr` entry.
fn push_addr_entry(out: &mut Vec<u8>, e: &AddressEntry)
    ensures
        final(out)@ == old(out)@ + spec_addr_entry(*e),
{
    push_u32_le(out, e.timestamp);
    push_netaddr(out, &NetAddress { services: e.services, addr: e.addr });
    proof {
        assert(final(out)@ =~= old(out)@ + spec_addr_entry(*e));
    }
}

/// Appends the wire form of one `AddrV2` entry.
fn push_addrv2_entry(out: &mut Vec<u8>, e: &AddressEntry)
    ensures
        final(out)@ == old(out)@ + spec_addrv2_entry(*e),
{
    push_u32_le(out, e.timestamp);
    push_varint(out, e.services);
    match e.addr.ip {
        PeerIp::V4(a, b, c, d) => {
            out.push(1);
            out.push(4);
            out.push(a);
            out.push(b);
            out.push(c);
            out.push(d);
        },
        PeerIp::V6(..) => {
            out.push(2);
            out.push(16);
            push_ip16(out, e.addr.ip);
        },
    }
    push_seg(out, e.addr.port);
    proof {
        assert(final(out)@ =~= old(out)@ + spec_addrv2_entry(*e));
    }
}

/// Builds the payload bytes of a message; empty for `Unknown`, which is
/// handled by the caller.
fn encode_payload(msg: &Message) -> (out: Vec<u8>)
    ensures
        out@ == spec_payload(msg@),
{
    match msg {
        Message::Version(v) => encode_version_payload(v),
        Message::Verack => Vec::new(),
        Message::SendAddrV2 => Vec::new(),
        Message::WtxidRelay => Vec::new(),
        Message::Ping(n) => u64_to_le_bytes(*n),
        Message::Pong(n) => u64_to_le_bytes(*n),
        Message::FeeFilter(f) => u64_to_le_bytes(*f as u64),
        Message::Inv(l) => encode_inv_list(l),
        Message::GetData(l) => {
            let out = encode_inv_list(l);
            proof {
                assert(out@ == spec_payload(msg@));
            }
            out
        },
        Message::Tx(b) => b.clone(),
        Message::GetAddr => Vec::new(),
        Message::Addr(l) => encode_addr_list(l),
        Message::AddrV2(l) => encode_addrv2_list(l),
        Message::Unknown { .. } => Vec::new(),
    }
}

fn encode_version_payload(v: &VersionPayload) -> (out: Vec<u8>)
    ensures
        out@ == spec_version_payload(v@),
{
    let mut out: Vec<u8> = Vec::new();
    push_u32_le(&mut out, v.version);
    push_u64_le(&mut out, v.services);
    push_i64_le(&mut out, v.timestamp);
    push_netaddr(&mut out, &v.receiver);
    push_netaddr(&mut out, &v.sender);
    push_u64_le(&mut out, v.nonce);
    push_varint(&mut out, v.user_agent.len() as u64);
    out.extend_from_slice(v.user_agent.as_slice());
    push_i32_le(&mut out, v.start_height);
    let relay_byte: u8 = if v.relay {
        1
    } else {
        0
    };
    out.push(relay_byte);
    proof {
        assert(out@ =~= spec_version_payload(v@));
    }
    out
}

fn encode_inv_list(l: &Vec<InvEntry>) -> (out: Vec<u8>)
    ensures
        out@ == spec_varint(l@.len() as u64) + spec_inv_entries(l.deep_view()),
{
    let mut out: Vec<u8> = Vec::new();
    push_varint(&mut out, l.len() as u64);
    proof {
        assert(out@ =~= spec_varint(l@.len() as u64));
        assert(l.deep_view().take(0) =~= Seq::<InvEntryV>::empty());
    }
    let n = l.len();
    let mut i: usize = 0;
    while i < n
        invariant
            n == l@.len(),
            i <= n,
            out@ == spec_varint(l@.len() as u64) + spec_inv_entries(l.deep_view().take(i as int)),
        decreases n - i,
    {
        push_inv_entry(&mut out, &l[i]);
        proof {
            assert(l.deep_view()[i as int] == l@[i as int]@);
            lemma_inv_entries_push(l.deep_view().take(i as int), l.deep_view()[i as int]);
            assert(l.deep_view().take(i + 1) =~= l.deep_view().take(i as int).push(
                l.deep_view()[i as int],
            ));
            assert(out@ =~= spec_varint(l@.len() as u64) + spec_inv_entries(
                l.deep_view().take(i + 1),
            ));
        }
        i += 1;
    }
    proof {
        assert(l.deep_view().take(n as int) =~= l.deep_view());
    }
    out
}

fn encode_addr_list(l: &Vec<AddressEntry>) -> (out: Vec<u8>)
    ensures
        out@ == spec_varint(l@.len() as u64) + spec_addr_entries(l.deep_view()),
{
    let mut out: Vec<u8> = Vec::new();
    push_varint(&mut out, l.len() as u64);
    proof {
        assert(out@ =~= spec_varint(l@.len() as u64));
        assert(l.deep_view().take(0) =~= Seq::<AddressEntry>::empty());
    }
    let n = l.len();
    let mut i: usize = 0;
    while i < n
        invariant
            n == l@.len(),
            i <= n,
            out@ == spec_varint(l@.len() as u64) + spec_addr_entries(l.deep_view().take(i as int)),
        decreases n - i,
    {
        push_addr_entry(&mut out, &l[i]);
        proof {
            assert(l.deep_view()[i as int] == l@[i as int]);
            lemma_addr_entries_push(l.deep_view().take(i as int), l.deep_view()[i as int]);
            assert(l.deep_view().take(i + 1) =~= l.deep_view().take(i as int).push(
                l.deep_view()[i as int],
            ));
            assert(out@ =~= spec_varint(l@.len() as u64) + spec_addr_entries(
                l.deep_view().take(i + 1),
            ));
        }
        i += 1;
    }
    proof {
        assert(l.deep_view().take(n as int) =~= l.deep_view());
    }
    out
}

fn encode_addrv2_list(l: &Vec<AddressEntry>) -> (out: Vec<u8>)
    ensures
        out@ == spec_varint(l@.len() as u64) + spec_addrv2_entries(l.deep_view()),
{
    let mut out: Vec<u8> = Vec::new();
    push_varint(&mut out, l.len() as u64);
    proof {
        assert(out@ =~= spec_varint(l@.len() as u64));
        assert(l.deep_view().take(0) =~= Seq::<AddressEntry>::empty());
    }
    let n = l.len();
    let mut i: usize = 0;
    while i < n
        invariant
            n == l@.len(),
            i <= n,
            out@ == spec_varint(l@.len() as u64) + spec_addrv2_entries(
                l.deep_view().take(i as int),
            ),
        decreases n - i,
    {
        push_addrv2_entry(&mut out, &l[i]);
        proof {
            assert(l.deep_view()[i as int] == l@[i as int]);
            lemma_addrv2_entries_push(l.deep_view().take(i as int), l.deep_view()[i as int]);
            assert(l.deep_view().take(i + 1) =~= l.deep_view().take(i as int).push(
                l.deep_view()[i as int],
            ));
            assert(out@ =~= spec_varint(l@.len() as u64) + spec_addrv2_entries(
                l.deep_view().take(i + 1),
            ));
        }
        i += 1;
    }
    proof {
        assert(l.deep_view().take(n as int) =~= l.deep_view());
    }
    out
}

/// Exec mirror of `PeerAddr::is_canonical`.
fn addr_canonical(a: &PeerAddr) -> (r: bool)
    ensures
        r == a.is_canonical(),
{
    match a.ip {
        PeerIp::V4(..) => true,
        PeerIp::V6(s0, s1, s2, s3, s4, s5, _, _) => !(s0 == 0 && s1 == 0 && s2 == 0 && s3 == 0
            && s4 == 0 && s5 == 0xffff),
    }
}

/// All addresses of a list are canonical.
fn addrs_canonical(l: &Vec<AddressEntry>) -> (r: bool)
    ensures
        r == addr_entries_canonical(l.deep_view()),
{
    let n = l.len();
    let mut i: usize = 0;
    while i < n
        invariant
            n == l@.len(),
            i <= n,
            forall|k: int| 0 <= k < i ==> (#[trigger] l.deep_view()[k]).addr.is_canonical(),
        decreases n - i,
    {
        if !addr_canonical(&l[i].addr) {
            proof {
                assert(l.deep_view()[i as int] == l@[i as int]);
                assert(!(l.deep_view()[i as int]).addr.is_canonical());
            }
            return false;
        }
        proof {
            assert(l.deep_view()[i as int] == l@[i as int]);
        }
        i += 1;
    }
    true
}

/// The 12-byte command field for a serializable message.
fn command_bytes(msg: &Message) -> (r: [u8; 12])
    requires
        msg_serializable(msg@),
    ensures
        r@ == command_of(msg@),
{
    match msg {
        Message::Version(_) => {
            let c: [u8; 12] = [118, 101, 114, 115, 105, 111, 110, 0, 0, 0, 0, 0];
            proof {
                assert(c@ =~= cmd_version());
            }
            c
        },
        Message::Verack => {
            let c: [u8; 12] = [118, 101, 114, 97, 99, 107, 0, 0, 0, 0, 0, 0];
            proof {
                assert(c@ =~= cmd_verack());
            }
            c
        },
        Message::SendAddrV2 => {
            let c: [u8; 12] = [115, 101, 110, 100, 97, 100, 100, 114, 118, 50, 0, 0];
            proof {
                assert(c@ =~= cmd_sendaddrv2());
            }
            c
        },
        Message::WtxidRelay => {
            let c: [u8; 12] = [119, 116, 120, 105, 100, 114, 101, 108, 97, 121, 0, 0];
            proof {
                assert(c@ =~= cmd_wtxidrelay());
            }
            c
        },
        Message::Ping(_) => {
            let c: [u8; 12] = [112, 105, 110, 103, 0, 0, 0, 0, 0, 0, 0, 0];
            proof {
                assert(c@ =~= cmd_ping());
            }
            c
        },
        Message::Pong(_) => {
            let c: [u8; 12] = [112, 111, 110, 103, 0, 0, 0, 0, 0, 0, 0, 0];
            proof {
                assert(c@ =~= cmd_pong());
            }
            c
        },
        Message::FeeFilter(_) => {
            let c: [u8; 12] = [102, 101, 101, 102, 105, 108, 116, 101, 114, 0, 0, 0];
            proof {
                assert(c@ =~= cmd_feefilter());
            }
            c
        },
        Message::Inv(_) => {
            let c: [u8; 12] = [105, 110, 118, 0, 0, 0, 0, 0, 0, 0, 0, 0];
            proof {
                assert(c@ =~= cmd_inv());
            }
            c
        },
        Message::GetData(_) => {
            let c: [u8; 12] = [103, 101, 116, 100, 97, 116, 97, 0, 0, 0, 0, 0];
            proof {
                assert(c@ =~= cmd_getdata());
            }
            c
        },
        Message::Tx(_) => {
            let c: [u8; 12] = [116, 120, 0, 0, 0, 0, 0, 0, 0, 0, 0, 0];
            proof {
                assert(c@ =~= cmd_tx());
            }
            c
        },
        Message::GetAddr => {
            let c: [u8; 12] = [103, 101, 116, 97, 100, 100, 114, 0, 0, 0, 0, 0];
            proof {
                assert(c@ =~= cmd_getaddr());
            }
            c
        },
        Message::Addr(_) => {
            let c: [u8; 12] = [97, 100, 100, 114, 0, 0, 0, 0, 0, 0, 0, 0];
            proof {
                assert(c@ =~= cmd_addr());
            }
            c
        },
        Message::AddrV2(_) => {
            let c: [u8; 12] = [97, 100, 100, 114, 118, 50, 0, 0, 0, 0, 0, 0];
            proof {
                assert(c@ =~= cmd_addrv2());
            }
            c
        },
        Message::Unknown { .. } => unreached(),
    }
}

/// Serializes a message into a complete frame. Succeeds exactly on
/// serializable, well-formed messages; the errors say which check failed.
/// Payloads beyond the frame bound and v4-mapped IPv6 addresses are refused
/// up front: an oversized frame would only make the receiving side drop the
/// connection, and a mapped address would decode as its IPv4 form rather
/// than round trip.
pub fn serialize_message(msg: &Message) -> (r: Result<Vec<u8>, CodecError>)
    ensures
        r matches Ok(b) ==> msg_serializable(msg@) && msg_wf(msg@) && b@ == spec_frame(msg@),
        msg_serializable(msg@) && msg_wf(msg@) ==> r is Ok,
        !msg_serializable(msg@) ==> r == Result::<Vec<u8>, CodecError>::Err(
            CodecError::Unserializable,
        ),
        msg_serializable(msg@) && !msg_addrs_canonical(msg@) ==> r == Result::<
            Vec<u8>,
            CodecError,
        >::Err(CodecError::BadAddress),
        msg_serializable(msg@) && msg_addrs_canonical(msg@) && spec_payload(msg@).len()
            > MAX_PAYLOAD_SIZE ==> r == Result::<Vec<u8>, CodecError>::Err(CodecError::Oversized),
{
    if let Message::Unknown { .. } = msg {
        return Err(CodecError::Unserializable);
    }
    let canonical_ok = match msg {
        Message::Version(v) => addr_canonical(&v.receiver.addr) && addr_canonical(&v.sender.addr),
        Message::Addr(l) => addrs_canonical(l),
        Message::AddrV2(l) => addrs_canonical(l),
        _ => true,
    };
    if !canonical_ok {
        return Err(CodecError::BadAddress);
    }
    let payload = encode_payload(msg);
    if payload.len() > MAX_PAYLOAD_SIZE {
        return Err(CodecError::Oversized);
    }
    proof {
        assert(msg_wf(msg@)) by {
            match msg@ {
                MessageV::Inv(l) => {
                    assert(inv_entries_wf(l));
                },
                MessageV::GetData(l) => {
                    assert(inv_entries_wf(l));
                },
                _ => {
                },
            }
        }
    }
    let cmd = command_bytes(msg);
    let ck = checksum4(payload.as_slice());
    let mut out: Vec<u8> = Vec::new();
    out.push(0xf9);
    out.push(0xbe);
    out.push(0xb4);
    out.push(0xd9);
    proof {
        assert(out@ =~= magic_spec());
    }
    out.extend_from_slice(cmd.as_slice());
    push_u32_le(&mut out, payload.len() as u32);
    out.extend_from_slice(ck.as_slice());
    out.extend_from_slice(payload.as_slice());
    proof {
        assert(out@ =~= spec_frame(msg@));
    }
    Ok(out)
}

} // verus!
