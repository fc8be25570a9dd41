use vstd::prelude::*;

use crate::addr::{hi_byte, ip16_spec, lemma_ip16_round_trip, lemma_seg_round_trip, lo_byte};
use crate::codec::{
    cmd_addr, cmd_addrv2, cmd_feefilter, cmd_getaddr, cmd_getdata, cmd_inv, cmd_ping, cmd_pong,
    cmd_sendaddrv2, cmd_tx, cmd_verack, cmd_version, cmd_wtxidrelay, command_of, magic_spec,
    msg_serializable, msg_wf, spec_addr_entries, spec_addr_entry, spec_addrv2_entries,
    spec_addrv2_entry, spec_frame, spec_inv_entries, spec_inv_entry, spec_netaddr, spec_payload,
    spec_version_payload, MAX_PAYLOAD_SIZE,
};
use crate::decode::{
    spec_parse_addr, spec_parse_addr_entries, spec_parse_addr_entry, spec_parse_addrv2,
    spec_parse_addrv2_entries, spec_parse_addrv2_entry, spec_parse_frame, spec_parse_inv,
    spec_parse_inv_entries, spec_parse_netaddr, spec_parse_payload, spec_parse_version,
};
use crate::message::{AddressEntry, InvEntryV, MessageV, NetAddress, VersionV};
use crate::wire::{
    lemma_i32_le_round_trip, lemma_i64_le_round_trip, lemma_varint_round_trip, spec_varint,
};
use vstd::bytes::{
    lemma_auto_spec_u16_to_from_le_bytes, lemma_auto_spec_u32_to_from_le_bytes,
    lemma_auto_spec_u64_to_from_le_bytes, spec_u32_to_le_bytes, spec_u64_to_le_bytes,
};

verus! {

/// The thirteen known command fields are pairwise distinct.
pub proof fn lemma_commands_distinct()
    ensures
        cmd_version() != cmd_verack(),
        cmd_version() != cmd_sendaddrv2(),
        cmd_version() != cmd_wtxidrelay(),
        cmd_version() != cmd_ping(),
        cmd_version() != cmd_pong(),
        cmd_version() != cmd_feefilter(),
        cmd_version() != cmd_inv(),
        cmd_version() != cmd_getdata(),
        cmd_version() != cmd_tx(),
        cmd_version() != cmd_getaddr(),
        cmd_version() != cmd_addr(),
        cmd_version() != cmd_addrv2(),
        cmd_verack() != cmd_sendaddrv2(),
        cmd_verack() != cmd_wtxidrelay(),
        cmd_verack() != cmd_ping(),
        cmd_verack() != cmd_pong(),
        cmd_verack() != cmd_feefilter(),
        cmd_verack() != cmd_inv(),
        cmd_verack() != cmd_getdata(),
        cmd_verack() != cmd_tx(),
        cmd_verack() != cmd_getaddr(),
        cmd_verack() != cmd_addr(),
        cmd_verack() != cmd_addrv2(),
        cmd_sendaddrv2() != cmd_wtxidrelay(),
        cmd_sendaddrv2() != cmd_ping(),
        cmd_sendaddrv2() != cmd_pong(),
        cmd_sendaddrv2() != cmd_feefilter(),
        cmd_sendaddrv2() != cmd_inv(),
        cmd_sendaddrv2() != cmd_getdata(),
        cmd_sendaddrv2() != cmd_tx(),
        cmd_sendaddrv2() != cmd_getaddr(),
        cmd_sendaddrv2() != cmd_addr(),
        cmd_sendaddrv2() != cmd_addrv2(),
        cmd_wtxidrelay() != cmd_ping(),
        cmd_wtxidrelay() != cmd_pong(),
        cmd_wtxidrelay() != cmd_feefilter(),
        cmd_wtxidrelay() != cmd_inv(),
        cmd_wtxidrelay() != cmd_getdata(),
        cmd_wtxidrelay() != cmd_tx(),
        cmd_wtxidrelay() != cmd_getaddr(),
        cmd_wtxidrelay() != cmd_addr(),
        cmd_wtxidrelay() != cmd_addrv2(),
        cmd_ping() != cmd_pong(),
        cmd_ping() != cmd_feefilter(),
        cmd_ping() != cmd_inv(),
        cmd_ping() != cmd_getdata(),
        cmd_ping() != cmd_tx(),
        cmd_ping() != cmd_getaddr(),
        cmd_ping() != cmd_addr(),
        cmd_ping() != cmd_addrv2(),
        cmd_pong() != cmd_feefilter(),
        cmd_pong() != cmd_inv(),
        cmd_pong() != cmd_getdata(),
        cmd_pong() != cmd_tx(),
        cmd_pong() != cmd_getaddr(),
        cmd_pong() != cmd_addr(),
        cmd_pong() != cmd_addrv2(),
        cmd_feefilter() != cmd_inv(),
        cmd_feefilter() != cmd_getdata(),
        cmd_feefilter() != cmd_tx(),
        cmd_feefilter() != cmd_getaddr(),
        cmd_feefilter() != cmd_addr(),
        cmd_feefilter() != cmd_addrv2(),
        cmd_inv() != cmd_getdata(),
        cmd_inv() != cmd_tx(),
        cmd_inv() != cmd_getaddr(),
        cmd_inv() != cmd_addr(),
        cmd_inv() != cmd_addrv2(),
        cmd_getdata() != cmd_tx(),
        cmd_getdata() != cmd_getaddr(),
        cmd_getdata() != cmd_addr(),
        cmd_getdata() != cmd_addrv2(),
        cmd_tx() != cmd_getaddr(),
        cmd_tx() != cmd_addr(),
        cmd_tx() != cmd_addrv2(),
        cmd_getaddr() != cmd_addr(),
        cmd_getaddr() != cmd_addrv2(),
        cmd_addr() != cmd_addrv2(),
{
    assert(cmd_version()[3] != cmd_verack()[3]);
    assert(cmd_version()[0] != cmd_sendaddrv2()[0]);
    assert(cmd_version()[0] != cmd_wtxidrelay()[0]);
    assert(cmd_version()[0] != cmd_ping()[0]);
    assert(cmd_version()[0] != cmd_pong()[0]);
    assert(cmd_version()[0] != cmd_feefilter()[0]);
    assert(cmd_version()[0] != cmd_inv()[0]);
    assert(cmd_version()[0] != cmd_getdata()[0]);
    assert(cmd_version()[0] != cmd_tx()[0]);
    assert(cmd_version()[0] != cmd_getaddr()[0]);
    assert(cmd_version()[0] != cmd_addr()[0]);
    assert(cmd_version()[0] != cmd_addrv2()[0]);
    assert(cmd_verack()[0] != cmd_sendaddrv2()[0]);
    assert(cmd_verack()[0] != cmd_wtxidrelay()[0]);
    assert(cmd_verack()[0] != cmd_ping()[0]);
    assert(cmd_verack()[0] != cmd_pong()[0]);
    assert(cmd_verack()[0] != cmd_feefilter()[0]);
    assert(cmd_verack()[0] != cmd_inv()[0]);
    assert(cmd_verack()[0] != cmd_getdata()[0]);
    assert(cmd_verack()[0] != cmd_tx()[0]);
    assert(cmd_verack()[0] != cmd_getaddr()[0]);
    assert(cmd_verack()[0] != cmd_addr()[0]);
    assert(cmd_verack()[0] != cmd_addrv2()[0]);
    assert(cmd_sendaddrv2()[0] != cmd_wtxidrelay()[0]);
    assert(cmd_sendaddrv2()[0] != cmd_ping()[0]);
    assert(cmd_sendaddrv2()[0] != cmd_pong()[0]);
    assert(cmd_sendaddrv2()[0] != cmd_feefilter()[0]);
    assert(cmd_sendaddrv2()[0] != cmd_inv()[0]);
    assert(cmd_sendaddrv2()[0] != cmd_getdata()[0]);
    assert(cmd_sendaddrv2()[0] != cmd_tx()[0]);
    assert(cmd_sendaddrv2()[0] != cmd_getaddr()[0]);
    assert(cmd_sendaddrv2()[0] != cmd_addr()[0]);
    assert(cmd_sendaddrv2()[0] != cmd_addrv2()[0]);
    assert(cmd_wtxidrelay()[0] != cmd_ping()[0]);
    assert(cmd_wtxidrelay()[0] != cmd_pong()[0]);
    assert(cmd_wtxidrelay()[0] != cmd_feefilter()[0]);
    assert(cmd_wtxidrelay()[0] != cmd_inv()[0]);
    assert(cmd_wtxidrelay()[0] != cmd_getdata()[0]);
    assert(cmd_wtxidrelay()[0] != cmd_tx()[0]);
    assert(cmd_wtxidrelay()[0] != cmd_getaddr()[0]);
    assert(cmd_wtxidrelay()[0] != cmd_addr()[0]);
    assert(cmd_wtxidrelay()[0] != cmd_addrv2()[0]);
    assert(cmd_ping()[1] != cmd_pong()[1]);
    assert(cmd_ping()[0] != cmd_feefilter()[0]);
    assert(cmd_ping()[0] != cmd_inv()[0]);
    assert(cmd_ping()[0] != cmd_getdata()[0]);
    assert(cmd_ping()[0] != cmd_tx()[0]);
    assert(cmd_ping()[0] != cmd_getaddr()[0]);
    assert(cmd_ping()[0] != cmd_addr()[0]);
    assert(cmd_ping()[0] != cmd_addrv2()[0]);
    assert(cmd_pong()[0] != cmd_feefilter()[0]);
    assert(cmd_pong()[0] != cmd_inv()[0]);
    assert(cmd_pong()[0] != cmd_getdata()[0]);
    assert(cmd_pong()[0] != cmd_tx()[0]);
    assert(cmd_pong()[0] != cmd_getaddr()[0]);
    assert(cmd_pong()[0] != cmd_addr()[0]);
    assert(cmd_pong()[0] != cmd_addrv2()[0]);
    assert(cmd_feefilter()[0] != cmd_inv()[0]);
    assert(cmd_feefilter()[0] != cmd_getdata()[0]);
    assert(cmd_feefilter()[0] != cmd_tx()[0]);
    assert(cmd_feefilter()[0] != cmd_getaddr()[0]);
    assert(cmd_feefilter()[0] != cmd_addr()[0]);
    assert(cmd_feefilter()[0] != cmd_addrv2()[0]);
    assert(cmd_inv()[0] != cmd_getdata()[0]);
    assert(cmd_inv()[0] != cmd_tx()[0]);
    assert(cmd_inv()[0] != cmd_getaddr()[0]);
    assert(cmd_inv()[0] != cmd_addr()[0]);
    assert(cmd_inv()[0] != cmd_addrv2()[0]);
    assert(cmd_getdata()[0] != cmd_tx()[0]);
    assert(cmd_getdata()[3] != cmd_getaddr()[3]);
    assert(cmd_getdata()[0] != cmd_addr()[0]);
    assert(cmd_getdata()[0] != cmd_addrv2()[0]);
    assert(cmd_tx()[0] != cmd_getaddr()[0]);
    assert(cmd_tx()[0] != cmd_addr()[0]);
    assert(cmd_tx()[0] != cmd_addrv2()[0]);
    assert(cmd_getaddr()[0] != cmd_addr()[0]);
    assert(cmd_getaddr()[0] != cmd_addrv2()[0]);
    assert(cmd_addr()[4] != cmd_addrv2()[4]);
}

/// A network address whose IP is canonical reads back from its wire form.
proof fn lemma_netaddr_round_trip(a: NetAddress)
    requires
        a.addr.is_canonical(),
    ensures
        spec_netaddr(a).len() == 26,
        spec_parse_netaddr(spec_netaddr(a)) == a,
{
    lemma_auto_spec_u64_to_from_le_bytes();
    lemma_ip16_round_trip(a.addr.ip);
    lemma_seg_round_trip(a.addr.port);
    let enc = spec_netaddr(a);
    assert(spec_u64_to_le_bytes(a.services).len() == 8);
    assert(enc.subrange(0, 8) =~= spec_u64_to_le_bytes(a.services));
    assert(enc.subrange(8, 24) =~= ip16_spec(a.addr.ip));
    assert(enc[24] == hi_byte(a.addr.port));
    assert(enc[25] == lo_byte(a.addr.port));
}

/// A well-formed `Version` payload reads back to the same value.
proof fn lemma_version_round_trip(v: VersionV)
    requires
        v.receiver.addr.is_canonical(),
        v.sender.addr.is_canonical(),
        v.user_agent.len() <= MAX_PAYLOAD_SIZE,
    ensures
        spec_parse_version(spec_version_payload(v)) == Some(v),
{
    lemma_auto_spec_u16_to_from_le_bytes();
    lemma_auto_spec_u32_to_from_le_bytes();
    lemma_auto_spec_u64_to_from_le_bytes();
    lemma_i64_le_round_trip(v.timestamp);
    lemma_i32_le_round_trip(v.start_height);
    lemma_netaddr_round_trip(v.receiver);
    lemma_netaddr_round_trip(v.sender);
    let ual = v.user_agent.len() as u64;
    let vb = spec_varint(ual);
    let p = spec_version_payload(v);
    lemma_varint_round_trip(
        ual,
        v.user_agent + crate::wire::spec_i32_to_le_bytes(v.start_height) + seq![
            if v.relay {
                1u8
            } else {
                0u8
            },
        ],
    );
    assert(spec_u32_to_le_bytes(v.version).len() == 4);
    assert(spec_u64_to_le_bytes(v.services).len() == 8);
    assert(spec_u64_to_le_bytes(v.nonce).len() == 8);
    assert(p.len() == 85 + vb.len() + v.user_agent.len());
    assert(p.subrange(0, 4) =~= spec_u32_to_le_bytes(v.version));
    assert(p.subrange(4, 12) =~= spec_u64_to_le_bytes(v.services));
    assert(p.subrange(12, 20) =~= crate::wire::spec_i64_to_le_bytes(v.timestamp));
    assert(p.subrange(20, 46) =~= spec_netaddr(v.receiver));
    assert(p.subrange(46, 72) =~= spec_netaddr(v.sender));
    assert(p.subrange(72, 80) =~= spec_u64_to_le_bytes(v.nonce));
    assert(p.skip(80) =~= vb + (v.user_agent + crate::wire::spec_i32_to_le_bytes(v.start_height)
        + seq![
        if v.relay {
            1u8
        } else {
            0u8
        },
    ]));
    let c = vb.len() as int;
    assert(ual as int == v.user_agent.len());
    assert forall|i: int| 0 <= i < v.user_agent.len() implies p[80 + c + i] == v.user_agent[i] by {
        assert(p.skip(80)[c + i] == p[80 + c + i]);
    }
    assert(p.subrange(80 + c, 80 + c + ual as int) =~= v.user_agent);
    assert(p.subrange(80 + c + ual as int, 84 + c + ual as int)
        =~= crate::wire::spec_i32_to_le_bytes(v.start_height));
    assert(p[p.len() - 1] == (if v.relay {
        1u8
    } else {
        0u8
    }));
    match spec_parse_version(p) {
        None => {
            assert(false);
        },
        Some(got) => {
            assert(got =~= v);
        },
    }
}

/// Well-formed inventory entries read back from their wire form.
proof fn lemma_inv_entries_round_trip(l: Seq<InvEntryV>)
    requires
        forall|i: int| 0 <= i < l.len() ==> (#[trigger] l[i]).wf(),
    ensures
        spec_inv_entries(l).len() == 36 * l.len(),
        spec_parse_inv_entries(spec_inv_entries(l), l.len() as nat) == Some(l),
    decreases l.len(),
{
    lemma_auto_spec_u32_to_from_le_bytes();
    if l.len() == 0 {
    } else {
        let e = l[0];
        let enc = spec_inv_entries(l);
        assert(spec_u32_to_le_bytes(e.kind).len() == 4);
        assert(spec_inv_entry(e).len() == 36);
        assert(l.drop_first().len() == l.len() - 1);
        assert(forall|i: int|
            0 <= i < l.drop_first().len() ==> (#[trigger] l.drop_first()[i]).wf());
        lemma_inv_entries_round_trip(l.drop_first());
        assert(enc.subrange(0, 4) =~= spec_u32_to_le_bytes(e.kind));
        assert(enc.subrange(4, 36) =~= e.hash);
        assert(enc.skip(36) =~= spec_inv_entries(l.drop_first()));
        let got = InvEntryV { kind: e.kind, hash: e.hash };
        assert(got =~= e);
        assert(seq![e] + l.drop_first() =~= l);
    }
}

/// Well-formed `Addr` entries read back from their wire form.
proof fn lemma_addr_entries_round_trip(l: Seq<AddressEntry>)
    requires
        forall|i: int| 0 <= i < l.len() ==> (#[trigger] l[i]).addr.is_canonical(),
    ensures
        spec_addr_entries(l).len() == 30 * l.len(),
        spec_parse_addr_entries(spec_addr_entries(l), l.len() as nat) == Some(l),
    decreases l.len(),
{
    lemma_auto_spec_u32_to_from_le_bytes();
    if l.len() == 0 {
    } else {
        let e = l[0];
        let enc = spec_addr_entries(l);
        let na = NetAddress { services: e.services, addr: e.addr };
        lemma_netaddr_round_trip(na);
        assert(spec_u32_to_le_bytes(e.timestamp).len() == 4);
        assert(spec_addr_entry(e).len() == 30);
        assert(forall|i: int|
            0 <= i < l.drop_first().len() ==> (#[trigger] l.drop_first()[i]).addr.is_canonical());
        lemma_addr_entries_round_trip(l.drop_first());
        let s30 = enc.subrange(0, 30);
        assert(s30 =~= spec_addr_entry(e));
        assert(s30.subrange(0, 4) =~= spec_u32_to_le_bytes(e.timestamp));
        assert(s30.subrange(4, 30) =~= spec_netaddr(na));
        assert(enc.skip(30) =~= spec_addr_entries(l.drop_first()));
        assert(seq![e] + l.drop_first() =~= l);
    }
}

/// A canonical `AddrV2` entry reads back from its wire form, whatever
/// follows it.
proof fn lemma_addrv2_entry_round_trip(e: AddressEntry, rest: Seq<u8>)
    requires
        e.addr.is_canonical(),
    ensures
        spec_addrv2_entry(e).len() >= 7,
        spec_parse_addrv2_entry(spec_addrv2_entry(e) + rest) == Some(
            (Some(e), spec_addrv2_entry(e).len() as int),
        ),
{
    lemma_auto_spec_u32_to_from_le_bytes();
    lemma_seg_round_trip(e.addr.port);
    lemma_ip16_round_trip(e.addr.ip);
    let enc = spec_addrv2_entry(e);
    let p = enc + rest;
    let vb = spec_varint(e.services);
    let mid = (match e.addr.ip {
        crate::addr::PeerIp::V4(a, b, c, d) => seq![1u8, 4u8, a, b, c, d],
        crate::addr::PeerIp::V6(..) => seq![2u8, 16u8] + ip16_spec(e.addr.ip),
    });
    let tailp = seq![hi_byte(e.addr.port), lo_byte(e.addr.port)];
    lemma_varint_round_trip(e.services, mid + tailp + rest);
    assert(spec_u32_to_le_bytes(e.timestamp).len() == 4);
    assert(p.subrange(0, 4) =~= spec_u32_to_le_bytes(e.timestamp));
    assert(p.skip(4) =~= vb + (mid + tailp + rest));
    let c1 = vb.len() as int;
    assert(p[4 + c1] == mid[0]);
    assert(p.skip(4 + c1 + 1) =~= mid.skip(1) + (tailp + rest));
    match e.addr.ip {
        crate::addr::PeerIp::V4(a, b, c, d) => {
            assert(mid.skip(1) + (tailp + rest) =~= seq![4u8] + (seq![a, b, c, d] + tailp + rest));
            lemma_varint_round_trip(4u64, seq![a, b, c, d] + tailp + rest);
            assert(spec_varint(4u64) =~= seq![4u8]);
            let aoff = 4 + c1 + 1 + 1;
            assert(p.subrange(aoff, aoff + 4) =~= seq![a, b, c, d]);
            assert(p[aoff + 4] == hi_byte(e.addr.port));
            assert(p[aoff + 5] == lo_byte(e.addr.port));
            assert(enc.len() == aoff + 6);
            match spec_parse_addrv2_entry(p) {
                None => {
                    assert(false);
                },
                Some((opt, consumed)) => {
                    assert(consumed == enc.len());
                    assert(opt == Some(e));
                },
            }
        },
        crate::addr::PeerIp::V6(..) => {
            let ipb = ip16_spec(e.addr.ip);
            assert(mid.skip(1) + (tailp + rest) =~= seq![16u8] + (ipb + tailp + rest));
            lemma_varint_round_trip(16u64, ipb + tailp + rest);
            assert(spec_varint(16u64) =~= seq![16u8]);
            let aoff = 4 + c1 + 1 + 1;
            assert(p.subrange(aoff, aoff + 16) =~= ipb);
            assert(p[aoff + 16] == hi_byte(e.addr.port));
            assert(p[aoff + 17] == lo_byte(e.addr.port));
            assert(enc.len() == aoff + 18);
            match spec_parse_addrv2_entry(p) {
                None => {
                    assert(false);
                },
                Some((opt, consumed)) => {
                    assert(consumed == enc.len());
                    assert(opt == Some(e));
                },
            }
        },
    }
}

/// Canonical `AddrV2` entries read back from their wire form.
proof fn lemma_addrv2_entries_round_trip(l: Seq<AddressEntry>)
    requires
        forall|i: int| 0 <= i < l.len() ==> (#[trigger] l[i]).addr.is_canonical(),
    ensures
        spec_addrv2_entries(l).len() >= l.len(),
        spec_parse_addrv2_entries(spec_addrv2_entries(l), l.len() as nat) == Some(l),
    decreases l.len(),
{
    if l.len() == 0 {
    } else {
        let e = l[0];
        let rest_enc = spec_addrv2_entries(l.drop_first());
        assert(forall|i: int|
            0 <= i < l.drop_first().len() ==> (#[trigger] l.drop_first()[i]).addr.is_canonical());
        lemma_addrv2_entries_round_trip(l.drop_first());
        lemma_addrv2_entry_round_trip(e, rest_enc);
        let enc_e = spec_addrv2_entry(e);
        let enc = spec_addrv2_entries(l);
        assert(enc == enc_e + rest_enc);
        assert(enc.skip(enc_e.len() as int) =~= rest_enc);
        assert(seq![e] + l.drop_first() =~= l);
    }
}

/// Decoding an encoded frame yields the original message: the codec round
/// trip for every serializable, well-formed message.
#[verifier::rlimit(100)]
pub proof fn lemma_codec_round_trip(m: MessageV)
    requires
        msg_serializable(m),
        msg_wf(m),
    ensures
        spec_parse_frame(spec_frame(m)) == Some(m),
{
    lemma_auto_spec_u16_to_from_le_bytes();
    lemma_auto_spec_u32_to_from_le_bytes();
    lemma_auto_spec_u64_to_from_le_bytes();
    lemma_commands_distinct();
    let payload = spec_payload(m);
    let cmd = command_of(m);
    let f = spec_frame(m);
    let lenb = spec_u32_to_le_bytes(payload.len() as u32);
    assert(cmd.len() == 12) by {
        match m {
            MessageV::Unknown { .. } => {
                assert(false);
            },
            _ => {
            },
        }
    }
    assert(lenb.len() == 4);
    assert(f.len() == 24 + payload.len());
    assert(f.subrange(0, 4) =~= magic_spec());
    assert(f.subrange(4, 16) =~= cmd);
    assert(f.subrange(16, 20) =~= lenb);
    assert(f.subrange(20, 24) =~= crate::hashes::checksum_of(payload));
    assert(f.skip(24) =~= payload);
    assert(payload.len() <= MAX_PAYLOAD_SIZE);
    assert((payload.len() as u32) as int == payload.len());
    match m {
        MessageV::Version(v) => {
            assert(payload.len() >= v.user_agent.len());
            lemma_version_round_trip(v);
        },
        MessageV::Verack => {
        },
        MessageV::SendAddrV2 => {
        },
        MessageV::WtxidRelay => {
        },
        MessageV::Ping(n) => {
            assert(spec_u64_to_le_bytes(n).len() == 8);
        },
        MessageV::Pong(n) => {
            assert(spec_u64_to_le_bytes(n).len() == 8);
        },
        MessageV::FeeFilter(x) => {
            lemma_i64_le_round_trip(x);
        },
        MessageV::Inv(l) => {
            lemma_inv_entries_round_trip(l);
            assert(l.len() <= MAX_PAYLOAD_SIZE);
            lemma_varint_round_trip(l.len() as u64, spec_inv_entries(l));
            let c = spec_varint(l.len() as u64).len() as int;
            assert(payload.skip(c) =~= spec_inv_entries(l));
            assert((l.len() as u64) as nat == l.len());
        },
        MessageV::GetData(l) => {
            lemma_inv_entries_round_trip(l);
            assert(l.len() <= MAX_PAYLOAD_SIZE);
            lemma_varint_round_trip(l.len() as u64, spec_inv_entries(l));
            let c = spec_varint(l.len() as u64).len() as int;
            assert(payload.skip(c) =~= spec_inv_entries(l));
            assert((l.len() as u64) as nat == l.len());
        },
        MessageV::Tx(_) => {
        },
        MessageV::GetAddr => {
        },
        MessageV::Addr(l) => {
            lemma_addr_entries_round_trip(l);
            assert(l.len() <= MAX_PAYLOAD_SIZE);
            lemma_varint_round_trip(l.len() as u64, spec_addr_entries(l));
            let c = spec_varint(l.len() as u64).len() as int;
            assert(payload.skip(c) =~= spec_addr_entries(l));
            assert((l.len() as u64) as nat == l.len());
        },
        MessageV::AddrV2(l) => {
            lemma_addrv2_entries_round_trip(l);
            assert(l.len() <= MAX_PAYLOAD_SIZE);
            lemma_varint_round_trip(l.len() as u64, spec_addrv2_entries(l));
            let c = spec_varint(l.len() as u64).len() as int;
            assert(payload.skip(c) =~= spec_addrv2_entries(l));
            assert((l.len() as u64) as nat == l.len());
        },
        MessageV::Unknown { .. } => {
            assert(false);
        },
    }
}

} // verus!
