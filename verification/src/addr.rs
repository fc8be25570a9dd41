use vstd::prelude::*;

verus! {

/// An IP address as plain values: four octets for IPv4, eight 16-bit segments
/// for IPv6.
#[derive(Debug, Clone, Copy, PartialEq, Eq, Structural, Hash)]
pub enum PeerIp {
    V4(u8, u8, u8, u8),
    V6(u16, u16, u16, u16, u16, u16, u16, u16),
}

/// A socket address: IP plus TCP port.
#[derive(Debug, Clone, Copy, PartialEq, Eq, Structural, Hash)]
pub struct PeerAddr {
    pub ip: PeerIp,
    pub port: u16,
}

impl PeerIp {
    pub open spec fn is_v6(self) -> bool {
        self is V6
    }

    /// An IPv6 value whose segments spell the v4-mapped prefix
    /// (`::ffff:a.b.c.d`) is not canonical: such an address is represented as
    /// `V4` instead.
    pub open spec fn is_canonical(self) -> bool {
        match self {
            PeerIp::V4(..) => true,
            PeerIp::V6(s0, s1, s2, s3, s4, s5, _, _) => !(s0 == 0 && s1 == 0 && s2 == 0 && s3 == 0
                && s4 == 0 && s5 == 0xffff),
        }
    }
}

impl PeerAddr {
    pub open spec fn is_canonical(self) -> bool {
        self.ip.is_canonical()
    }

    /// Whether the exec value's IP is IPv6; mirror of the spec-side check.
    pub fn ip_is_v6(&self) -> (r: bool)
        ensures
            r == self.ip.is_v6(),
    {
        match self.ip {
            PeerIp::V4(..) => false,
            PeerIp::V6(..) => true,
        }
    }
}

/// A publicly routable address: an IPv4 address that is not private, loopback,
/// link-local, multicast, broadcast, or documentation; or an IPv6 address that
/// is not loopback, multicast, or unspecified.
pub open spec fn is_public_spec(addr: PeerAddr) -> bool {
    match addr.ip {
        PeerIp::V4(a, b, c, d) => {
            let private = a == 10 || (a == 172 && 16 <= b && b <= 31) || (a == 192 && b == 168);
            let loopback = a == 127;
            let link_local = a == 169 && b == 254;
            let multicast = 224 <= a && a <= 239;
            let broadcast = a == 255 && b == 255 && c == 255 && d == 255;
            let documentation = (a == 192 && b == 0 && c == 2) || (a == 198 && b == 51 && c == 100)
                || (a == 203 && b == 0 && c == 113);
            !private && !loopback && !link_local && !multicast && !broadcast && !documentation
        },
        PeerIp::V6(s0, s1, s2, s3, s4, s5, s6, s7) => {
            let loopback = s0 == 0 && s1 == 0 && s2 == 0 && s3 == 0 && s4 == 0 && s5 == 0 && s6
                == 0 && s7 == 1;
            let multicast = s0 >= 0xff00;
            let unspecified = s0 == 0 && s1 == 0 && s2 == 0 && s3 == 0 && s4 == 0 && s5 == 0 && s6
                == 0 && s7 == 0;
            !loopback && !multicast && !unspecified
        },
    }
}

/// Filter used on every address learned from DNS seeding or gossip.
pub fn is_public_addr(addr: PeerAddr) -> (r: bool)
    ensures
        r == is_public_spec(addr),
{
    match addr.ip {
        PeerIp::V4(a, b, c, d) => {
            let private = a == 10 || (a == 172 && 16 <= b && b <= 31) || (a == 192 && b == 168);
            let loopback = a == 127;
            let link_local = a == 169 && b == 254;
            let multicast = 224 <= a && a <= 239;
            let broadcast = a == 255 && b == 255 && c == 255 && d == 255;
            let documentation = (a == 192 && b == 0 && c == 2) || (a == 198 && b == 51 && c == 100)
                || (a == 203 && b == 0 && c == 113);
            !private && !loopback && !link_local && !multicast && !broadcast && !documentation
        },
        PeerIp::V6(s0, s1, s2, s3, s4, s5, s6, s7) => {
            let loopback = s0 == 0 && s1 == 0 && s2 == 0 && s3 == 0 && s4 == 0 && s5 == 0 && s6
                == 0 && s7 == 1;
            let multicast = s0 >= 0xff00;
            let unspecified = s0 == 0 && s1 == 0 && s2 == 0 && s3 == 0 && s4 == 0 && s5 == 0 && s6
                == 0 && s7 == 0;
            !loopback && !multicast && !unspecified
        },
    }
}

/// High byte of a 16-bit value (big-endian order).
pub open spec fn hi_byte(x: u16) -> u8 {
    (x / 256) as u8
}

/// Low byte of a 16-bit value.
pub open spec fn lo_byte(x: u16) -> u8 {
    (x % 256) as u8
}

/// The 16-bit value spelled by a big-endian byte pair.
pub open spec fn seg_of(b0: u8, b1: u8) -> u16 {
    (b0 as u16 * 256 + b1 as u16) as u16
}

pub proof fn lemma_seg_round_trip(x: u16)
    ensures
        seg_of(hi_byte(x), lo_byte(x)) == x,
        hi_byte(x) < 256,
{
    assert(x / 256 < 256 && x % 256 < 256 && (x / 256) * 256 + x % 256 == x) by (nonlinear_arith);
}

pub proof fn lemma_seg_bytes(b0: u8, b1: u8)
    ensures
        hi_byte(seg_of(b0, b1)) == b0,
        lo_byte(seg_of(b0, b1)) == b1,
{
    assert((b0 as u16 * 256 + b1 as u16) / 256 == b0 as u16 && (b0 as u16 * 256 + b1 as u16) % 256
        == b1 as u16) by (nonlinear_arith);
}

/// The 16-byte network form of an IP: IPv6 segments big-endian, IPv4 as the
/// v4-mapped IPv6 address `::ffff:a.b.c.d`.
pub open spec fn ip16_spec(ip: PeerIp) -> Seq<u8> {
    match ip {
        PeerIp::V4(a, b, c, d) => seq![
            0u8, 0u8, 0u8, 0u8, 0u8, 0u8, 0u8, 0u8, 0u8, 0u8, 0xffu8, 0xffu8, a, b, c, d,
        ],
        PeerIp::V6(s0, s1, s2, s3, s4, s5, s6, s7) => seq![
            hi_byte(s0), lo_byte(s0), hi_byte(s1), lo_byte(s1), hi_byte(s2), lo_byte(s2),
            hi_byte(s3), lo_byte(s3), hi_byte(s4), lo_byte(s4), hi_byte(s5), lo_byte(s5),
            hi_byte(s6), lo_byte(s6), hi_byte(s7), lo_byte(s7),
        ],
    }
}

/// Reads the 16-byte network form back into an IP; the v4-mapped pattern
/// decodes to `V4`.
pub open spec fn ip_of_16_spec(s: Seq<u8>) -> PeerIp
    recommends
        s.len() == 16,
{
    if s[0] == 0 && s[1] == 0 && s[2] == 0 && s[3] == 0 && s[4] == 0 && s[5] == 0 && s[6] == 0
        && s[7] == 0 && s[8] == 0 && s[9] == 0 && s[10] == 0xff && s[11] == 0xff {
        PeerIp::V4(s[12], s[13], s[14], s[15])
    } else {
        PeerIp::V6(
            seg_of(s[0], s[1]),
            seg_of(s[2], s[3]),
            seg_of(s[4], s[5]),
            seg_of(s[6], s[7]),
            seg_of(s[8], s[9]),
            seg_of(s[10], s[11]),
            seg_of(s[12], s[13]),
            seg_of(s[14], s[15]),
        )
    }
}

/// For canonical IPs the 16-byte form decodes back to the same IP.
pub proof fn lemma_ip16_round_trip(ip: PeerIp)
    requires
        ip.is_canonical(),
    ensures
        ip16_spec(ip).len() == 16,
        ip_of_16_spec(ip16_spec(ip)) == ip,
{
    match ip {
        PeerIp::V4(..) => {
        },
        PeerIp::V6(s0, s1, s2, s3, s4, s5, s6, s7) => {
            lemma_seg_round_trip(s0);
            lemma_seg_round_trip(s1);
            lemma_seg_round_trip(s2);
            lemma_seg_round_trip(s3);
            lemma_seg_round_trip(s4);
            lemma_seg_round_trip(s5);
            lemma_seg_round_trip(s6);
            lemma_seg_round_trip(s7);
            if s0 == 0 && s1 == 0 && s2 == 0 && s3 == 0 && s4 == 0 {
                assert(s5 != 0xffff);
                assert(hi_byte(s5) != 0xff || lo_byte(s5) != 0xff) by {
                    lemma_seg_round_trip(s5);
                }
            }
        },
    }
}

/// Appends the 16-byte network form of `ip` to `out`.
pub fn push_ip16(out: &mut Vec<u8>, ip: PeerIp)
    ensures
        final(out)@ == old(out)@ + ip16_spec(ip),
{
    match ip {
        PeerIp::V4(a, b, c, d) => {
            out.push(0);
            out.push(0);
            out.push(0);
            out.push(0);
            out.push(0);
            out.push(0);
            out.push(0);
            out.push(0);
            out.push(0);
            out.push(0);
            out.push(0xff);
            out.push(0xff);
            out.push(a);
            out.push(b);
            out.push(c);
            out.push(d);
            proof {
                assert(final(out)@ =~= old(out)@ + ip16_spec(ip));
            }
        },
        PeerIp::V6(s0, s1, s2, s3, s4, s5, s6, s7) => {
            push_seg(out, s0);
            push_seg(out, s1);
            push_seg(out, s2);
            push_seg(out, s3);
            push_seg(out, s4);
            push_seg(out, s5);
            push_seg(out, s6);
            push_seg(out, s7);
            proof {
                assert(final(out)@ =~= old(out)@ + ip16_spec(ip));
            }
        },
    }
}

/// Appends one 16-bit segment, big-endian.
pub fn push_seg(out: &mut Vec<u8>, x: u16)
    ensures
        final(out)@ == old(out)@ + seq![hi_byte(x), lo_byte(x)],
{
    out.push((x / 256) as u8);
    out.push((x % 256) as u8);
    proof {
        assert(final(out)@ =~= old(out)@ + seq![hi_byte(x), lo_byte(x)]);
    }
}

/// Reads a 16-byte network-form IP starting at `off`.
pub fn read_ip16(s: &[u8], off: usize) -> (r: PeerIp)
    requires
        off + 16 <= s@.len(),
    ensures
        r == ip_of_16_spec(s@.subrange(off as int, off + 16)),
{
    let ghost sub = s@.subrange(off as int, off + 16);
    let mapped = s[off] == 0 && s[off + 1] == 0 && s[off + 2] == 0 && s[off + 3] == 0 && s[off + 4]
        == 0 && s[off + 5] == 0 && s[off + 6] == 0 && s[off + 7] == 0 && s[off + 8] == 0 && s[off
        + 9] == 0 && s[off + 10] == 0xff && s[off + 11] == 0xff;
    if mapped {
        PeerIp::V4(s[off + 12], s[off + 13], s[off + 14], s[off + 15])
    } else {
        PeerIp::V6(
            read_seg(s, off),
            read_seg(s, off + 2),
            read_seg(s, off + 4),
            read_seg(s, off + 6),
            read_seg(s, off + 8),
            read_seg(s, off + 10),
            read_seg(s, off + 12),
            read_seg(s, off + 14),
        )
    }
}

/// Reads one big-endian 16-bit segment at `off`.
pub fn read_seg(s: &[u8], off: usize) -> (r: u16)
    requires
        off + 2 <= s@.len(),
    ensures
        r == seg_of(s@[off as int], s@[off + 1]),
{
    (s[off] as u16) * 256 + (s[off + 1] as u16)
}

} // verus!
