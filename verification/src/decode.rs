use vstd::prelude::*;

use crate::addr::{ip_of_16_spec, read_ip16, read_seg, seg_of, PeerAddr, PeerIp};
use crate::codec::{
    cmd_addr, cmd_addrv2, cmd_feefilter, cmd_getaddr, cmd_getdata, cmd_inv, cmd_ping, cmd_pong,
    cmd_sendaddrv2, cmd_tx, cmd_verack, cmd_version, cmd_wtxidrelay, magic_spec, CodecError,
    MAX_PAYLOAD_SIZE,
};
use crate::hashes::{checksum4, checksum_of};
use crate::message::{AddressEntry, InvEntry, InvEntryV, Message, MessageV, NetAddress, VersionPayload, VersionV};
use crate::wire::{read_i32_le, read_i64_le, read_u32_le, read_u64_le, read_varint, spec_i32_from_le_bytes, spec_i64_from_le_bytes, spec_parse_varint};
use vstd::bytes::{spec_u32_from_le_bytes, spec_u64_from_le_bytes};
use vstd::slice::{slice_subrange, slice_to_vec};

verus! {

/// Network address read from 26 wire bytes.
pub open spec fn spec_parse_netaddr(s: Seq<u8>) -> NetAddress
    recommends
        s.len() == 26,
{
    NetAddress {
        services: spec_u64_from_le_bytes(s.subrange(0, 8)),
        addr: PeerAddr { ip: ip_of_16_spec(s.subrange(8, 24)), port: seg_of(s[24], s[25]) },
    }
}

/// `Version` payload parser: fixed fields, variable-length user agent,
/// start height, and a mandatory relay byte; the payload must be consumed
/// exactly.
pub open spec fn spec_parse_version(p: Seq<u8>) -> Option<VersionV> {
    if p.len() < 80 {
        None
    } else {
        match spec_parse_varint(p.skip(80)) {
            None => None,
            Some((ual, c)) => {
                if p.len() != 85 + c + ual {
                    None
                } else {
                    Some(
                        VersionV {
                            version: spec_u32_from_le_bytes(p.subrange(0, 4)),
                            services: spec_u64_from_le_bytes(p.subrange(4, 12)),
                            timestamp: spec_i64_from_le_bytes(p.subrange(12, 20)),
                            receiver: spec_parse_netaddr(p.subrange(20, 46)),
                            sender: spec_parse_netaddr(p.subrange(46, 72)),
                            nonce: spec_u64_from_le_bytes(p.subrange(72, 80)),
                            user_agent: p.subrange(80 + c, 80 + c + ual),
                            start_height: spec_i32_from_le_bytes(
                                p.subrange(80 + c + ual, 84 + c + ual),
                            ),
                            relay: p[p.len() - 1] != 0,
                        },
                    )
                }
            },
        }
    }
}

/// Exactly `n` inventory entries of 36 bytes each.
pub open spec fn spec_parse_inv_entries(p: Seq<u8>, n: nat) -> Option<Seq<InvEntryV>>
    decreases n,
{
    if n == 0 {
        if p.len() == 0 {
            Some(Seq::empty())
        } else {
            None
        }
    } else if p.len() < 36 {
        None
    } else {
        let e = InvEntryV {
            kind: spec_u32_from_le_bytes(p.subrange(0, 4)),
            hash: p.subrange(4, 36),
        };
        match spec_parse_inv_entries(p.skip(36), (n - 1) as nat) {
            None => None,
            Some(rest) => Some(seq![e] + rest),
        }
    }
}

/// An `Inv` or `GetData` payload: count then that many entries.
pub open spec fn spec_parse_inv(p: Seq<u8>) -> Option<Seq<InvEntryV>> {
    match spec_parse_varint(p) {
        None => None,
        Some((n, c)) => spec_parse_inv_entries(p.skip(c), n as nat),
    }
}

/// One `Addr` entry read from 30 wire bytes.
pub open spec fn spec_parse_addr_entry(s: Seq<u8>) -> AddressEntry
    recommends
        s.len() == 30,
{
    let na = spec_parse_netaddr(s.subrange(4, 30));
    AddressEntry {
        services: na.services,
        addr: na.addr,
        timestamp: spec_u32_from_le_bytes(s.subrange(0, 4)),
    }
}

/// Exactly `n` `Addr` entries of 30 bytes each.
pub open spec fn spec_parse_addr_entries(p: Seq<u8>, n: nat) -> Option<Seq<AddressEntry>>
    decreases n,
{
    if n == 0 {
        if p.len() == 0 {
            Some(Seq::empty())
        } else {
            None
        }
    } else if p.len() < 30 {
        None
    } else {
        match spec_parse_addr_entries(p.skip(30), (n - 1) as nat) {
            None => None,
            Some(rest) => Some(seq![spec_parse_addr_entry(p.subrange(0, 30))] + rest),
        }
    }
}

pub open spec fn spec_parse_addr(p: Seq<u8>) -> Option<Seq<AddressEntry>> {
    match spec_parse_varint(p) {
        None => None,
        Some((n, c)) => spec_parse_addr_entries(p.skip(c), n as nat),
    }
}

/// One `AddrV2` entry; `Some((None, consumed))` is an entry of a network
/// family other than plain IPv4/IPv6, which is discarded.
pub open spec fn spec_parse_addrv2_entry(p: Seq<u8>) -> Option<(Option<AddressEntry>, int)> {
    if p.len() < 4 {
        None
    } else {
        match spec_parse_varint(p.skip(4)) {
            None => None,
            Some((sv, c1)) => {
                let netoff = 4 + c1;
                if p.len() <= netoff {
                    None
                } else {
                    let net = p[netoff];
                    match spec_parse_varint(p.skip(netoff + 1)) {
                        None => None,
                        Some((alen, c2)) => {
                            let aoff = netoff + 1 + c2;
                            if alen > 512 || p.len() < aoff + alen + 2 {
                                None
                            } else {
                                let abytes = p.subrange(aoff, aoff + alen);
                                let port = seg_of(p[aoff + alen], p[aoff + alen + 1]);
                                let t = spec_u32_from_le_bytes(p.subrange(0, 4));
                                let consumed = aoff + alen + 2;
                                if net == 1 {
                                    if alen != 4 {
                                        None
                                    } else {
                                        Some(
                                            (
                                                Some(
                                                    AddressEntry {
                                                        services: sv,
                                                        addr: PeerAddr {
                                                            ip: PeerIp::V4(
                                                                abytes[0],
                                                                abytes[1],
                                                                abytes[2],
                                                                abytes[3],
                                                            ),
                                                            port: port,
                                                        },
                                                        timestamp: t,
                                                    },
                                                ),
                                                consumed,
                                            ),
                                        )
                                    }
                                } else if net == 2 {
                                    if alen != 16 {
                                        None
                                    } else {
                                        Some(
                                            (
                                                Some(
                                                    AddressEntry {
                                                        services: sv,
                                                        addr: PeerAddr {
                                                            ip: ip_of_16_spec(abytes),
                                                            port: port,
                                                        },
                                                        timestamp: t,
                                                    },
                                                ),
                                                consumed,
                                            ),
                                        )
                                    }
                                } else {
                                    Some((None, consumed))
                                }
                            }
                        },
                    }
                }
            },
        }
    }
}

/// Exactly `n` `AddrV2` entries; discarded families contribute nothing to the
/// result.
pub open spec fn spec_parse_addrv2_entries(p: Seq<u8>, n: nat) -> Option<Seq<AddressEntry>>
    decreases n,
{
    if n == 0 {
        if p.len() == 0 {
            Some(Seq::empty())
        } else {
            None
        }
    } else {
        match spec_parse_addrv2_entry(p) {
            None => None,
            Some((opt, c)) => match spec_parse_addrv2_entries(p.skip(c), (n - 1) as nat) {
                None => None,
                Some(rest) => Some(
                    match opt {
                        Some(e) => seq![e] + rest,
                        None => rest,
                    },
                ),
            },
        }
    }
}

pub open spec fn spec_parse_addrv2(p: Seq<u8>) -> Option<Seq<AddressEntry>> {
    match spec_parse_varint(p) {
        None => None,
        Some((n, c)) => spec_parse_addrv2_entries(p.skip(c), n as nat),
    }
}

/// Payload parser, dispatched on the command field; an unrecognized command
/// yields `Unknown` whatever its payload holds.
pub open spec fn spec_parse_payload(cmd: Seq<u8>, p: Seq<u8>) -> Option<MessageV> {
    if cmd == cmd_version() {
        match spec_parse_version(p) {
            None => None,
            Some(v) => Some(MessageV::Version(v)),
        }
    } else if cmd == cmd_verack() {
        if p.len() == 0 {
            Some(MessageV::Verack)
        } else {
            None
        }
    } else if cmd == cmd_sendaddrv2() {
        if p.len() == 0 {
            Some(MessageV::SendAddrV2)
        } else {
            None
        }
    } else if cmd == cmd_wtxidrelay() {
        if p.len() == 0 {
            Some(MessageV::WtxidRelay)
        } else {
            None
        }
    } else if cmd == cmd_ping() {
        if p.len() == 8 {
            Some(MessageV::Ping(spec_u64_from_le_bytes(p)))
        } else {
            None
        }
    } else if cmd == cmd_pong() {
        if p.len() == 8 {
            Some(MessageV::Pong(spec_u64_from_le_bytes(p)))
        } else {
            None
        }
    } else if cmd == cmd_feefilter() {
        if p.len() == 8 {
            Some(MessageV::FeeFilter(spec_i64_from_le_bytes(p)))
        } else {
            None
        }
    } else if cmd == cmd_inv() {
        match spec_parse_inv(p) {
            None => None,
            Some(l) => Some(MessageV::Inv(l)),
        }
    } else if cmd == cmd_getdata() {
        match spec_parse_inv(p) {
            None => None,
            Some(l) => Some(MessageV::GetData(l)),
        }
    } else if cmd == cmd_tx() {
        Some(MessageV::Tx(p))
    } else if cmd == cmd_getaddr() {
        if p.len() == 0 {
            Some(MessageV::GetAddr)
        } else {
            None
        }
    } else if cmd == cmd_addr() {
        match spec_parse_addr(p) {
            None => None,
            Some(l) => Some(MessageV::Addr(l)),
        }
    } else if cmd == cmd_addrv2() {
        match spec_parse_addrv2(p) {
            None => None,
            Some(l) => Some(MessageV::AddrV2(l)),
        }
    } else {
        Some(MessageV::Unknown { command: cmd })
    }
}

/// Frame parser: magic, size bound, exact length, checksum, then payload.
pub open spec fn spec_parse_frame(s: Seq<u8>) -> Option<MessageV> {
    if s.len() < 24 {
        None
    } else {
        let plen = spec_u32_from_le_bytes(s.subrange(16, 20)) as int;
        if s.subrange(0, 4) != magic_spec() {
            None
        } else if plen > MAX_PAYLOAD_SIZE {
            None
        } else if s.len() != 24 + plen {
            None
        } else {
            let payload = s.skip(24);
            if s.subrange(20, 24) != checksum_of(payload) {
                None
            } else {
                spec_parse_payload(s.subrange(4, 16), payload)
            }
        }
    }
}

/// Copies 32 bytes at `off` into a hash array.
pub fn read_hash32(s: &[u8], off: usize) -> (r: [u8; 32])
    requires
        off + 32 <= s@.len(),
    ensures
        r@ == s@.subrange(off as int, off + 32),
{
    let n = s.len();
    let mut h: [u8; 32] = [0; 32];
    let mut j: usize = 0;
    while j < 32
        invariant
            n == s@.len(),
            off + 32 <= s@.len(),
            j <= 32,
            h@.len() == 32,
            forall|k: int| 0 <= k < j ==> h@[k] == s@[off + k],
        decreases 32 - j,
    {
        h[j] = s[off + j];
        j += 1;
    }
    proof {
        assert(h@ =~= s@.subrange(off as int, off + 32));
    }
    h
}

/// Whether the command field (bytes 4..16) equals `t`.
pub fn cmd_matches(s: &[u8], t: &[u8; 12]) -> (r: bool)
    requires
        16 <= s@.len(),
    ensures
        r == (s@.subrange(4, 16) == t@),
{
    let mut j: usize = 0;
    while j < 12
        invariant
            16 <= s@.len(),
            j <= 12,
            forall|k: int| 0 <= k < j ==> s@[4 + k] == t@[k],
        decreases 12 - j,
    {
        if s[4 + j] != t[j] {
            proof {
                assert(s@.subrange(4, 16)[j as int] == s@[4 + j]);
            }
            return false;
        }
        j += 1;
    }
    proof {
        assert(s@.subrange(4, 16) =~= t@);
    }
    true
}

/// Reads a 26-byte network address at `off`.
pub fn read_netaddr(s: &[u8], off: usize) -> (r: NetAddress)
    requires
        off + 26 <= s@.len(),
    ensures
        r == spec_parse_netaddr(s@.subrange(off as int, off + 26)),
{
    let n = s.len();
    let services = crate::wire::read_u64_le(s, off);
    let ip = read_ip16(s, off + 8);
    let port = read_seg(s, off + 24);
    proof {
        let sub = s@.subrange(off as int, off + 26);
        assert(sub.subrange(0, 8) =~= s@.subrange(off as int, off + 8));
        assert(sub.subrange(8, 24) =~= s@.subrange(off + 8, off + 24));
        assert(sub[24] == s@[off + 24]);
        assert(sub[25] == s@[off + 25]);
    }
    NetAddress { services, addr: PeerAddr { ip, port } }
}


/// Parses a `Version` payload.
fn parse_version_payload(p: &[u8]) -> (r: Option<VersionPayload>)
    ensures
        match r {
            Some(v) => spec_parse_version(p@) == Some(v@),
            None => spec_parse_version(p@) is None,
        },
{
    let n = p.len();
    if n < 80 {
        return None;
    }
    let vi = read_varint(p, 80);
    let (ual64, c) = match vi {
        None => { return None; },
        Some(x) => x,
    };
    if n < 85 + c {
        return None;
    }
    let rem = n - 85 - c;
    if ual64 != rem as u64 {
        return None;
    }
    let ual = rem;
    let version = read_u32_le(p, 0);
    let services = read_u64_le(p, 4);
    let timestamp = read_i64_le(p, 12);
    let receiver = read_netaddr(p, 20);
    let sender = read_netaddr(p, 46);
    let nonce = read_u64_le(p, 72);
    let ua = slice_to_vec(slice_subrange(p, 80 + c, 80 + c + ual));
    let start_height = read_i32_le(p, 80 + c + ual);
    let relay = p[n - 1] != 0;
    let v = VersionPayload {
        version,
        services,
        timestamp,
        receiver,
        sender,
        nonce,
        user_agent: ua,
        start_height,
        relay,
    };
    proof {
        match spec_parse_version(p@) {
            Option::None => {
                assert(false);
            },
            Option::Some(sv) => {
                assert(v@ =~= sv);
            },
        }
    }
    Some(v)
}

/// Parses an `Inv` or `GetData` payload.
fn parse_inv_list(p: &[u8]) -> (r: Option<Vec<InvEntry>>)
    ensures
        match r {
            Some(v) => spec_parse_inv(p@) == Some(v.deep_view()),
            None => spec_parse_inv(p@) is None,
        },
{
    let n = p.len();
    proof {
        assert(p@.skip(0) =~= p@);
    }
    let (cnt, c) = match read_varint(p, 0) {
        None => { return None; },
        Some(x) => x,
    };
    let mut out: Vec<InvEntry> = Vec::new();
    let mut off: usize = c;
    let mut i: u64 = 0;
    proof {
        assert(out.deep_view() =~= Seq::<InvEntryV>::empty());
    }
    while i < cnt
        invariant
            n == p@.len(),
            off <= n,
            i <= cnt,
            spec_parse_inv(p@) == (match spec_parse_inv_entries(
                p@.skip(off as int),
                (cnt - i) as nat,
            ) {
                Option::None => Option::<Seq<InvEntryV>>::None,
                Option::Some(rest) => Option::Some(out.deep_view() + rest),
            }),
        decreases cnt - i,
    {
        if n - off < 36 {
            return None;
        }
        let kind = read_u32_le(p, off);
        let hash = read_hash32(p, off + 4);
        let e = InvEntry { kind, hash };
        let ghost tail = p@.skip(off as int);
        let ghost prev = out.deep_view();
        proof {
            assert(tail.subrange(0, 4) =~= p@.subrange(off as int, off + 4));
            assert(tail.subrange(4, 36) =~= p@.subrange(off + 4, off + 36));
            assert(tail.skip(36) =~= p@.skip(off + 36));
            assert(e@ =~= (InvEntryV {
                kind: spec_u32_from_le_bytes(tail.subrange(0, 4)),
                hash: tail.subrange(4, 36),
            }));
        }
        out.push(e);
        proof {
            assert(out.deep_view() =~= prev.push(e@));
            match spec_parse_inv_entries(p@.skip(off + 36), (cnt - i - 1) as nat) {
                Option::None => {},
                Option::Some(rest) => {
                    assert(prev + (seq![e@] + rest) =~= prev.push(e@) + rest);
                },
            }
        }
        off += 36;
        i += 1;
    }
    if n != off {
        return None;
    }
    proof {
        assert(p@.skip(off as int).len() == 0);
        assert(out.deep_view() + Seq::<InvEntryV>::empty() =~= out.deep_view());
    }
    Some(out)
}

/// Parses an `Addr` payload.
fn parse_addr_list(p: &[u8]) -> (r: Option<Vec<AddressEntry>>)
    ensures
        match r {
            Some(v) => spec_parse_addr(p@) == Some(v.deep_view()),
            None => spec_parse_addr(p@) is None,
        },
{
    let n = p.len();
    proof {
        assert(p@.skip(0) =~= p@);
    }
    let (cnt, c) = match read_varint(p, 0) {
        None => { return None; },
        Some(x) => x,
    };
    let mut out: Vec<AddressEntry> = Vec::new();
    let mut off: usize = c;
    let mut i: u64 = 0;
    proof {
        assert(out.deep_view() =~= Seq::<AddressEntry>::empty());
    }
    while i < cnt
        invariant
            n == p@.len(),
            off <= n,
            i <= cnt,
            spec_parse_addr(p@) == (match spec_parse_addr_entries(
                p@.skip(off as int),
                (cnt - i) as nat,
            ) {
                Option::None => Option::<Seq<AddressEntry>>::None,
                Option::Some(rest) => Option::Some(out.deep_view() + rest),
            }),
        decreases cnt - i,
    {
        if n - off < 30 {
            return None;
        }
        let timestamp = read_u32_le(p, off);
        let na = read_netaddr(p, off + 4);
        let e = AddressEntry { services: na.services, addr: na.addr, timestamp };
        let ghost tail = p@.skip(off as int);
        let ghost prev = out.deep_view();
        proof {
            let s30 = tail.subrange(0, 30);
            assert(s30.subrange(0, 4) =~= p@.subrange(off as int, off + 4));
            assert(s30.subrange(4, 30) =~= p@.subrange(off + 4, off + 30));
            assert(tail.skip(30) =~= p@.skip(off + 30));
            assert(e == spec_parse_addr_entry(s30));
        }
        out.push(e);
        proof {
            assert(out.deep_view() =~= prev.push(e));
            match spec_parse_addr_entries(p@.skip(off + 30), (cnt - i - 1) as nat) {
                Option::None => {},
                Option::Some(rest) => {
                    assert(prev + (seq![e] + rest) =~= prev.push(e) + rest);
                },
            }
        }
        off += 30;
        i += 1;
    }
    if n != off {
        return None;
    }
    proof {
        assert(p@.skip(off as int).len() == 0);
        assert(out.deep_view() + Seq::<AddressEntry>::empty() =~= out.deep_view());
    }
    Some(out)
}

/// Parses one `AddrV2` entry starting at `off`.
fn parse_addrv2_entry(p: &[u8], off: usize) -> (r: Option<(Option<AddressEntry>, usize)>)
    requires
        off <= p@.len(),
    ensures
        match r {
            Some((opt, c)) => spec_parse_addrv2_entry(p@.skip(off as int)) == Some(
                (opt, c as int),
            ) && 1 <= c && off + c <= p@.len(),
            None => spec_parse_addrv2_entry(p@.skip(off as int)) is None,
        },
{
    let n = p.len();
    let ghost tail = p@.skip(off as int);
    if n - off < 4 {
        return None;
    }
    let t = read_u32_le(p, off);
    proof {
        assert(tail.subrange(0, 4) =~= p@.subrange(off as int, off + 4));
        assert(tail.skip(4) =~= p@.skip(off + 4));
    }
    let (sv, c1) = match read_varint(p, off + 4) {
        None => { return None; },
        Some(x) => x,
    };
    let netoff = off + 4 + c1;
    if n <= netoff {
        return None;
    }
    let net = p[netoff];
    proof {
        assert(tail[4 + c1] == p@[netoff as int]);
        assert(tail.skip(4 + c1 + 1) =~= p@.skip(netoff + 1));
    }
    let (alen64, c2) = match read_varint(p, netoff + 1) {
        None => { return None; },
        Some(x) => x,
    };
    let aoff = netoff + 1 + c2;
    if alen64 > 512 {
        return None;
    }
    let alen = alen64 as usize;
    if n - aoff < 2 {
        return None;
    }
    if alen > n - aoff - 2 {
        return None;
    }
    let port = read_seg(p, aoff + alen);
    let consumed = aoff + alen + 2 - off;
    proof {
        assert(tail.subrange(4 + c1 + 1 + c2, 4 + c1 + 1 + c2 + alen) =~= p@.subrange(
            aoff as int,
            aoff + alen,
        ));
        assert(tail[4 + c1 + 1 + c2 + alen] == p@[aoff + alen]);
        assert(tail[4 + c1 + 1 + c2 + alen + 1] == p@[aoff + alen + 1]);
    }
    if net == 1 {
        if alen != 4 {
            return None;
        }
        let e = AddressEntry {
            services: sv,
            addr: PeerAddr {
                ip: PeerIp::V4(p[aoff], p[aoff + 1], p[aoff + 2], p[aoff + 3]),
                port,
            },
            timestamp: t,
        };
        proof {
            let abytes = tail.subrange(4 + c1 + 1 + c2, 4 + c1 + 1 + c2 + alen);
            assert(abytes[0] == p@[aoff as int]);
            assert(abytes[1] == p@[aoff + 1]);
            assert(abytes[2] == p@[aoff + 2]);
            assert(abytes[3] == p@[aoff + 3]);
        }
        Some((Some(e), consumed))
    } else if net == 2 {
        if alen != 16 {
            return None;
        }
        let ip = read_ip16(p, aoff);
        let e = AddressEntry { services: sv, addr: PeerAddr { ip, port }, timestamp: t };
        proof {
            assert(tail.subrange(4 + c1 + 1 + c2, 4 + c1 + 1 + c2 + alen) =~= p@.subrange(
                aoff as int,
                aoff + 16,
            ));
        }
        Some((Some(e), consumed))
    } else {
        Some((None, consumed))
    }
}

/// The exec `AddrV2` list parser returns exactly what the spec parser says.
pub open spec fn spec_parse_addrv2_result(p: Seq<u8>, r: Option<Vec<AddressEntry>>) -> bool {
    match r {
        Some(v) => spec_parse_addrv2(p) == Some(v.deep_view()),
        None => spec_parse_addrv2(p) is None,
    }
}

/// Loop invariant of the `AddrV2` list parser: the whole parse equals the
/// accumulator plus whatever the remaining entries parse to.
pub open spec fn addrv2_loop_inv(p: Seq<u8>, off: int, remaining: nat, acc: Seq<AddressEntry>) -> bool {
    spec_parse_addrv2(p) == (match spec_parse_addrv2_entries(p.skip(off), remaining) {
        Option::None => Option::<Seq<AddressEntry>>::None,
        Option::Some(rest) => Option::Some(acc + rest),
    })
}



/// Parses an `AddrV2` payload.
fn parse_addrv2_list(p: &[u8]) -> (r: Option<Vec<AddressEntry>>)
    ensures
        spec_parse_addrv2_result(p@, r),
{
    let n = p.len();
    proof {
        assert(p@.skip(0) =~= p@);
    }
    let (cnt, c) = match read_varint(p, 0) {
        None => { return None; },
        Some(x) => x,
    };
    let mut out: Vec<AddressEntry> = Vec::new();
    let mut off: usize = c;
    let mut i: u64 = 0;
    proof {
        assert(out.deep_view() =~= Seq::<AddressEntry>::empty());
    }
    while i < cnt
        invariant
            n == p@.len(),
            off <= n,
            i <= cnt,
            addrv2_loop_inv(p@, off as int, (cnt - i) as nat, out.deep_view()),
        decreases cnt - i,
    {
        let (opt, consumed) = match parse_addrv2_entry(p, off) {
            None => { return None; },
            Some(x) => x,
        };
        let ghost prev = out.deep_view();
        if let Some(e) = opt {
            out.push(e);
            proof {
                assert(out.deep_view() =~= prev.push(e));
            }
        }
        proof {
            assert(p@.skip(off as int).skip(consumed as int) =~= p@.skip(off + consumed));
            if let Option::Some(rest) = spec_parse_addrv2_entries(
                p@.skip(off + consumed),
                (cnt - i - 1) as nat,
            ) {
                if let Option::Some(e) = opt {
                    assert(prev + (seq![e] + rest) =~= prev.push(e) + rest);
                }
            }
        }
        off += consumed;
        i += 1;
    }
    if n != off {
        return None;
    }
    proof {
        assert(p@.skip(off as int).len() == 0);
        assert(out.deep_view() + Seq::<AddressEntry>::empty() =~= out.deep_view());
    }
    Some(out)
}

/// Parses one complete frame into a typed message; succeeds exactly when the
/// spec-level frame parser does.
pub fn parse_message(data: &[u8]) -> (r: Result<Message, CodecError>)
    ensures
        match r {
            Ok(m) => spec_parse_frame(data@) == Some(m@),
            Err(e) => (spec_parse_frame(data@) is None) && e == CodecError::Malformed,
        },
{
    let n = data.len();
    if n < 24 {
        return Err(CodecError::Malformed);
    }
    proof {
        assert(data@.subrange(0, 4)[0] == data@[0]);
        assert(data@.subrange(0, 4)[1] == data@[1]);
        assert(data@.subrange(0, 4)[2] == data@[2]);
        assert(data@.subrange(0, 4)[3] == data@[3]);
    }
    if !(data[0] == 0xf9 && data[1] == 0xbe && data[2] == 0xb4 && data[3] == 0xd9) {
        return Err(CodecError::Malformed);
    }
    proof {
        assert(data@.subrange(0, 4) =~= magic_spec());
    }
    let plen32 = read_u32_le(data, 16);
    if plen32 > MAX_PAYLOAD_SIZE as u32 {
        return Err(CodecError::Malformed);
    }
    let plen = plen32 as usize;
    if n != 24 + plen {
        return Err(CodecError::Malformed);
    }
    let payload = slice_subrange(data, 24, n);
    proof {
        assert(payload@ =~= data@.skip(24));
    }
    let ck = checksum4(payload);
    proof {
        assert(data@.subrange(20, 24)[0] == data@[20]);
        assert(data@.subrange(20, 24)[1] == data@[21]);
        assert(data@.subrange(20, 24)[2] == data@[22]);
        assert(data@.subrange(20, 24)[3] == data@[23]);
    }
    if !(data[20] == ck[0] && data[21] == ck[1] && data[22] == ck[2] && data[23] == ck[3]) {
        return Err(CodecError::Malformed);
    }
    proof {
        assert(data@.subrange(20, 24) =~= checksum_of(data@.skip(24)));
    }
    let c_version: [u8; 12] = [118, 101, 114, 115, 105, 111, 110, 0, 0, 0, 0, 0];
    let c_verack: [u8; 12] = [118, 101, 114, 97, 99, 107, 0, 0, 0, 0, 0, 0];
    let c_sendaddrv2: [u8; 12] = [115, 101, 110, 100, 97, 100, 100, 114, 118, 50, 0, 0];
    let c_wtxidrelay: [u8; 12] = [119, 116, 120, 105, 100, 114, 101, 108, 97, 121, 0, 0];
    let c_ping: [u8; 12] = [112, 105, 110, 103, 0, 0, 0, 0, 0, 0, 0, 0];
    let c_pong: [u8; 12] = [112, 111, 110, 103, 0, 0, 0, 0, 0, 0, 0, 0];
    let c_feefilter: [u8; 12] = [102, 101, 101, 102, 105, 108, 116, 101, 114, 0, 0, 0];
    let c_inv: [u8; 12] = [105, 110, 118, 0, 0, 0, 0, 0, 0, 0, 0, 0];
    let c_getdata: [u8; 12] = [103, 101, 116, 100, 97, 116, 97, 0, 0, 0, 0, 0];
    let c_tx: [u8; 12] = [116, 120, 0, 0, 0, 0, 0, 0, 0, 0, 0, 0];
    let c_getaddr: [u8; 12] = [103, 101, 116, 97, 100, 100, 114, 0, 0, 0, 0, 0];
    let c_addr: [u8; 12] = [97, 100, 100, 114, 0, 0, 0, 0, 0, 0, 0, 0];
    let c_addrv2: [u8; 12] = [97, 100, 100, 114, 118, 50, 0, 0, 0, 0, 0, 0];
    proof {
        assert(c_version@ =~= cmd_version());
        assert(c_verack@ =~= cmd_verack());
        assert(c_sendaddrv2@ =~= cmd_sendaddrv2());
        assert(c_wtxidrelay@ =~= cmd_wtxidrelay());
        assert(c_ping@ =~= cmd_ping());
        assert(c_pong@ =~= cmd_pong());
        assert(c_feefilter@ =~= cmd_feefilter());
        assert(c_inv@ =~= cmd_inv());
        assert(c_getdata@ =~= cmd_getdata());
        assert(c_tx@ =~= cmd_tx());
        assert(c_getaddr@ =~= cmd_getaddr());
        assert(c_addr@ =~= cmd_addr());
        assert(c_addrv2@ =~= cmd_addrv2());
    }
    if cmd_matches(data, &c_version) {
        match parse_version_payload(payload) {
            Some(v) => Ok(Message::Version(v)),
            None => Err(CodecError::Malformed),
        }
    } else if cmd_matches(data, &c_verack) {
        if plen == 0 {
            Ok(Message::Verack)
        } else {
            Err(CodecError::Malformed)
        }
    } else if cmd_matches(data, &c_sendaddrv2) {
        if plen == 0 {
            Ok(Message::SendAddrV2)
        } else {
            Err(CodecError::Malformed)
        }
    } else if cmd_matches(data, &c_wtxidrelay) {
        if plen == 0 {
            Ok(Message::WtxidRelay)
        } else {
            Err(CodecError::Malformed)
        }
    } else if cmd_matches(data, &c_ping) {
        if plen == 8 {
            proof {
                assert(payload@.subrange(0, 8) =~= payload@);
            }
            Ok(Message::Ping(read_u64_le(payload, 0)))
        } else {
            Err(CodecError::Malformed)
        }
    } else if cmd_matches(data, &c_pong) {
        if plen == 8 {
            proof {
                assert(payload@.subrange(0, 8) =~= payload@);
            }
            Ok(Message::Pong(read_u64_le(payload, 0)))
        } else {
            Err(CodecError::Malformed)
        }
    } else if cmd_matches(data, &c_feefilter) {
        if plen == 8 {
            proof {
                assert(payload@.subrange(0, 8) =~= payload@);
            }
            Ok(Message::FeeFilter(read_i64_le(payload, 0)))
        } else {
            Err(CodecError::Malformed)
        }
    } else if cmd_matches(data, &c_inv) {
        match parse_inv_list(payload) {
            Some(l) => Ok(Message::Inv(l)),
            None => Err(CodecError::Malformed),
        }
    } else if cmd_matches(data, &c_getdata) {
        match parse_inv_list(payload) {
            Some(l) => Ok(Message::GetData(l)),
            None => Err(CodecError::Malformed),
        }
    } else if cmd_matches(data, &c_tx) {
        Ok(Message::Tx(slice_to_vec(payload)))
    } else if cmd_matches(data, &c_getaddr) {
        if plen == 0 {
            Ok(Message::GetAddr)
        } else {
            Err(CodecError::Malformed)
        }
    } else if cmd_matches(data, &c_addr) {
        match parse_addr_list(payload) {
            Some(l) => Ok(Message::Addr(l)),
            None => Err(CodecError::Malformed),
        }
    } else if cmd_matches(data, &c_addrv2) {
        match parse_addrv2_list(payload) {
            Some(l) => Ok(Message::AddrV2(l)),
            None => Err(CodecError::Malformed),
        }
    } else {
        Ok(Message::Unknown { command: slice_to_vec(slice_subrange(data, 4, 16)) })
    }
}

} // verus!
