use crab_router::{drain_frames, parse_message, serialize_message, CodecError};
use crab_router::{AddressEntry, InvEntry, Message, NetAddress, PeerAddr, PeerIp, VersionPayload};

fn v4(a: u8, b: u8, c: u8, d: u8, port: u16) -> PeerAddr {
    PeerAddr { ip: PeerIp::V4(a, b, c, d), port }
}

fn sample_version() -> VersionPayload {
    VersionPayload {
        version: 70016,
        services: 1024,
        timestamp: 1700000000,
        receiver: NetAddress { services: 0, addr: v4(93, 184, 216, 34, 8333) },
        sender: NetAddress { services: 1024, addr: v4(198, 18, 0, 1, 8333) },
        nonce: 0xdeadbeef,
        user_agent: b"/Crab Router:1.0.0/".to_vec(),
        start_height: 830000,
        relay: true,
    }
}

#[test]
fn ping_round_trip() {
    let bytes = serialize_message(&Message::Ping(0x1122334455667788)).unwrap();
    match parse_message(&bytes).unwrap() {
        Message::Ping(n) => assert_eq!(n, 0x1122334455667788),
        other => panic!("wrong variant: {:?}", other),
    }
}

#[test]
fn pong_round_trip() {
    let bytes = serialize_message(&Message::Pong(7)).unwrap();
    assert!(matches!(parse_message(&bytes).unwrap(), Message::Pong(7)));
}

#[test]
fn empty_payload_variants_round_trip() {
    for msg in [Message::Verack, Message::SendAddrV2, Message::WtxidRelay, Message::GetAddr] {
        let bytes = serialize_message(&msg).unwrap();
        let back = parse_message(&bytes).unwrap();
        assert_eq!(
            std::mem::discriminant(&msg),
            std::mem::discriminant(&back),
            "variant changed for {:?}",
            msg
        );
    }
}

#[test]
fn feefilter_round_trip() {
    let bytes = serialize_message(&Message::FeeFilter(-1000)).unwrap();
    assert!(matches!(parse_message(&bytes).unwrap(), Message::FeeFilter(-1000)));
}

#[test]
fn version_round_trip() {
    let v = sample_version();
    let bytes = serialize_message(&Message::Version(v.clone())).unwrap();
    match parse_message(&bytes).unwrap() {
        Message::Version(got) => {
            assert_eq!(got.version, v.version);
            assert_eq!(got.services, v.services);
            assert_eq!(got.timestamp, v.timestamp);
            assert_eq!(got.receiver, v.receiver);
            assert_eq!(got.sender, v.sender);
            assert_eq!(got.nonce, v.nonce);
            assert_eq!(got.user_agent, v.user_agent);
            assert_eq!(got.start_height, v.start_height);
            assert_eq!(got.relay, v.relay);
        },
        other => panic!("wrong variant: {:?}", other),
    }
}

#[test]
fn inv_round_trip() {
    let list = vec![
        InvEntry { kind: 1, hash: [0x11; 32] },
        InvEntry { kind: 5, hash: [0x22; 32] },
        InvEntry { kind: 2, hash: [0x33; 32] },
    ];
    let bytes = serialize_message(&Message::Inv(list.clone())).unwrap();
    match parse_message(&bytes).unwrap() {
        Message::Inv(got) => {
            assert_eq!(got.len(), 3);
            for (a, b) in got.iter().zip(list.iter()) {
                assert_eq!(a.kind, b.kind);
                assert_eq!(a.hash, b.hash);
            }
        },
        other => panic!("wrong variant: {:?}", other),
    }
}

#[test]
fn getdata_round_trip() {
    let list = vec![InvEntry { kind: 0x40000001, hash: [0xab; 32] }];
    let bytes = serialize_message(&Message::GetData(list)).unwrap();
    match parse_message(&bytes).unwrap() {
        Message::GetData(got) => {
            assert_eq!(got.len(), 1);
            assert_eq!(got[0].kind, 0x40000001);
            assert_eq!(got[0].hash, [0xab; 32]);
        },
        other => panic!("wrong variant: {:?}", other),
    }
}

#[test]
fn tx_round_trip() {
    let payload = vec![1u8, 2, 3, 4, 5];
    let bytes = serialize_message(&Message::Tx(payload.clone())).unwrap();
    match parse_message(&bytes).unwrap() {
        Message::Tx(got) => assert_eq!(got, payload),
        other => panic!("wrong variant: {:?}", other),
    }
}

#[test]
fn addr_round_trip() {
    let list = vec![
        AddressEntry { services: 1033, addr: v4(8, 8, 8, 8, 8333), timestamp: 1700000001 },
        AddressEntry {
            services: 0,
            addr: PeerAddr { ip: PeerIp::V6(0x2001, 0xdb8, 0, 0, 0, 0, 0, 5), port: 8333 },
            timestamp: 12,
        },
    ];
    let bytes = serialize_message(&Message::Addr(list.clone())).unwrap();
    match parse_message(&bytes).unwrap() {
        Message::Addr(got) => assert_eq!(got, list),
        other => panic!("wrong variant: {:?}", other),
    }
}

#[test]
fn addrv2_round_trip() {
    let list = vec![
        AddressEntry { services: 1024, addr: v4(1, 2, 3, 4, 1234), timestamp: 99 },
        AddressEntry {
            services: 0xfd00,
            addr: PeerAddr { ip: PeerIp::V6(0xfe80, 0, 0, 0, 1, 2, 3, 4), port: 65535 },
            timestamp: 0,
        },
    ];
    let bytes = serialize_message(&Message::AddrV2(list.clone())).unwrap();
    match parse_message(&bytes).unwrap() {
        Message::AddrV2(got) => assert_eq!(got, list),
        other => panic!("wrong variant: {:?}", other),
    }
}

#[test]
fn unknown_is_not_serializable() {
    let r = serialize_message(&Message::Unknown { command: b"mempool\0\0\0\0\0".to_vec() });
    assert_eq!(r.unwrap_err(), CodecError::Unserializable);
}

#[test]
fn unknown_command_parses_as_unknown() {
    // A frame for the unhandled `mempool` command with an empty payload.
    let raw = bitcoin::consensus::encode::serialize(&bitcoin::p2p::message::RawNetworkMessage::new(
        bitcoin::p2p::Magic::BITCOIN,
        bitcoin::p2p::message::NetworkMessage::MemPool,
    ));
    match parse_message(&raw).unwrap() {
        Message::Unknown { command } => {
            assert_eq!(&command[..7], b"mempool");
        },
        other => panic!("wrong variant: {:?}", other),
    }
}

#[test]
fn encoding_matches_reference_ping() {
    let ours = serialize_message(&Message::Ping(42)).unwrap();
    let theirs = bitcoin::consensus::encode::serialize(
        &bitcoin::p2p::message::RawNetworkMessage::new(
            bitcoin::p2p::Magic::BITCOIN,
            bitcoin::p2p::message::NetworkMessage::Ping(42),
        ),
    );
    assert_eq!(ours, theirs);
}

#[test]
fn encoding_matches_reference_inv() {
    let txid: bitcoin::Txid = "1111111111111111111111111111111111111111111111111111111111111111"
        .parse()
        .unwrap();
    let ours = serialize_message(&Message::Inv(vec![InvEntry {
        kind: 1,
        hash: <bitcoin::Txid as bitcoin::hashes::Hash>::to_byte_array(txid),
    }]))
    .unwrap();
    let theirs = bitcoin::consensus::encode::serialize(
        &bitcoin::p2p::message::RawNetworkMessage::new(
            bitcoin::p2p::Magic::BITCOIN,
            bitcoin::p2p::message::NetworkMessage::Inv(vec![
                bitcoin::p2p::message_blockdata::Inventory::Transaction(txid),
            ]),
        ),
    );
    assert_eq!(ours, theirs);
}

#[test]
fn two_frames_drain_whole() {
    let mut acc = serialize_message(&Message::Ping(1)).unwrap();
    acc.extend_from_slice(&serialize_message(&Message::Pong(2)).unwrap());
    let (msgs, fatal) = drain_frames(&mut acc);
    assert!(!fatal);
    assert_eq!(msgs.len(), 2);
    assert!(matches!(msgs[0], Message::Ping(1)));
    assert!(matches!(msgs[1], Message::Pong(2)));
    assert!(acc.is_empty());
}

#[test]
fn two_frames_drain_any_chunking() {
    let mut whole = serialize_message(&Message::Ping(1)).unwrap();
    whole.extend_from_slice(&serialize_message(&Message::Verack).unwrap());
    for split in 0..whole.len() + 1 {
        let mut acc: Vec<u8> = whole[..split].to_vec();
        let (first, fatal1) = drain_frames(&mut acc);
        assert!(!fatal1);
        acc.extend_from_slice(&whole[split..]);
        let (second, fatal2) = drain_frames(&mut acc);
        assert!(!fatal2);
        assert_eq!(first.len() + second.len(), 2, "split at {}", split);
        assert!(acc.is_empty(), "tail left at split {}", split);
    }
}

#[test]
fn partial_frame_stays_in_accumulator() {
    let whole = serialize_message(&Message::Ping(9)).unwrap();
    let mut acc: Vec<u8> = whole[..10].to_vec();
    let (msgs, fatal) = drain_frames(&mut acc);
    assert!(msgs.is_empty());
    assert!(!fatal);
    assert_eq!(acc, &whole[..10]);
}

#[test]
fn oversized_frame_is_fatal() {
    let mut acc = vec![0xf9, 0xbe, 0xb4, 0xd9];
    acc.extend_from_slice(b"tx\0\0\0\0\0\0\0\0\0\0");
    acc.extend_from_slice(&(5 * 1024 * 1024u32).to_le_bytes());
    acc.extend_from_slice(&[0, 0, 0, 0]);
    let (msgs, fatal) = drain_frames(&mut acc);
    assert!(msgs.is_empty());
    assert!(fatal);
    assert!(acc.is_empty());
}

#[test]
fn corrupt_checksum_frame_is_skipped() {
    let mut bad = serialize_message(&Message::Ping(5)).unwrap();
    bad[20] ^= 0xff;
    let mut acc = bad;
    acc.extend_from_slice(&serialize_message(&Message::Pong(6)).unwrap());
    let (msgs, fatal) = drain_frames(&mut acc);
    assert!(!fatal);
    assert_eq!(msgs.len(), 1);
    assert!(matches!(msgs[0], Message::Pong(6)));
}

#[test]
fn wrong_magic_is_malformed() {
    let mut bytes = serialize_message(&Message::Ping(5)).unwrap();
    bytes[0] = 0x0b;
    assert_eq!(parse_message(&bytes).unwrap_err(), CodecError::Malformed);
}
