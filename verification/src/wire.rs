use vstd::prelude::*;

use vstd::bytes::{
    lemma_auto_spec_u16_to_from_le_bytes, lemma_auto_spec_u32_to_from_le_bytes,
    lemma_auto_spec_u64_to_from_le_bytes, spec_u16_from_le_bytes, spec_u16_to_le_bytes,
    spec_u32_from_le_bytes, spec_u32_to_le_bytes, spec_u64_from_le_bytes, spec_u64_to_le_bytes,
    u16_from_le_bytes, u16_to_le_bytes, u32_from_le_bytes, u32_to_le_bytes, u64_from_le_bytes,
    u64_to_le_bytes,
};
use vstd::slice::slice_subrange;

verus! {

/// Little-endian bytes of a signed 64-bit value (two's complement).
pub open spec fn spec_i64_to_le_bytes(x: i64) -> Seq<u8> {
    spec_u64_to_le_bytes(x as u64)
}

/// Little-endian bytes of a signed 32-bit value (two's complement).
pub open spec fn spec_i32_to_le_bytes(x: i32) -> Seq<u8> {
    spec_u32_to_le_bytes(x as u32)
}

pub open spec fn spec_i64_from_le_bytes(s: Seq<u8>) -> i64 {
    spec_u64_from_le_bytes(s) as i64
}

pub open spec fn spec_i32_from_le_bytes(s: Seq<u8>) -> i32 {
    spec_u32_from_le_bytes(s) as i32
}

/// Appends the two little-endian bytes of `x`.
pub fn push_u16_le(out: &mut Vec<u8>, x: u16)
    ensures
        final(out)@ == old(out)@ + spec_u16_to_le_bytes(x),
{
    let mut b = u16_to_le_bytes(x);
    out.append(&mut b);
}

/// Appends the four little-endian bytes of `x`.
pub fn push_u32_le(out: &mut Vec<u8>, x: u32)
    ensures
        final(out)@ == old(out)@ + spec_u32_to_le_bytes(x),
{
    let mut b = u32_to_le_bytes(x);
    out.append(&mut b);
}

/// Appends the eight little-endian bytes of `x`.
pub fn push_u64_le(out: &mut Vec<u8>, x: u64)
    ensures
        final(out)@ == old(out)@ + spec_u64_to_le_bytes(x),
{
    let mut b = u64_to_le_bytes(x);
    out.append(&mut b);
}

pub fn push_i64_le(out: &mut Vec<u8>, x: i64)
    ensures
        final(out)@ == old(out)@ + spec_i64_to_le_bytes(x),
{
    push_u64_le(out, x as u64);
}

pub fn push_i32_le(out: &mut Vec<u8>, x: i32)
    ensures
        final(out)@ == old(out)@ + spec_i32_to_le_bytes(x),
{
    push_u32_le(out, x as u32);
}

/// Reads a little-endian u16 at `off`.
pub fn read_u16_le(s: &[u8], off: usize) -> (r: u16)
    requires
        off + 2 <= s@.len(),
    ensures
        r == spec_u16_from_le_bytes(s@.subrange(off as int, off + 2)),
{
    let n = s.len();
    u16_from_le_bytes(slice_subrange(s, off, off + 2))
}

/// Reads a little-endian u32 at `off`.
pub fn read_u32_le(s: &[u8], off: usize) -> (r: u32)
    requires
        off + 4 <= s@.len(),
    ensures
        r == spec_u32_from_le_bytes(s@.subrange(off as int, off + 4)),
{
    let n = s.len();
    u32_from_le_bytes(slice_subrange(s, off, off + 4))
}

/// Reads a little-endian u64 at `off`.
pub fn read_u64_le(s: &[u8], off: usize) -> (r: u64)
    requires
        off + 8 <= s@.len(),
    ensures
        r == spec_u64_from_le_bytes(s@.subrange(off as int, off + 8)),
{
    let n = s.len();
    u64_from_le_bytes(slice_subrange(s, off, off + 8))
}

pub fn read_i64_le(s: &[u8], off: usize) -> (r: i64)
    requires
        off + 8 <= s@.len(),
    ensures
        r == spec_i64_from_le_bytes(s@.subrange(off as int, off + 8)),
{
    read_u64_le(s, off) as i64
}

pub fn read_i32_le(s: &[u8], off: usize) -> (r: i32)
    requires
        off + 4 <= s@.len(),
    ensures
        r == spec_i32_from_le_bytes(s@.subrange(off as int, off + 4)),
{
    read_u32_le(s, off) as i32
}

/// Round trips of the signed helpers.
pub proof fn lemma_i64_le_round_trip(x: i64)
    ensures
        spec_i64_to_le_bytes(x).len() == 8,
        spec_i64_from_le_bytes(spec_i64_to_le_bytes(x)) == x,
{
    lemma_auto_spec_u64_to_from_le_bytes();
    let u = x as u64;
    assert(spec_u64_to_le_bytes(u).len() == 8);
    assert(spec_u64_from_le_bytes(spec_u64_to_le_bytes(u)) == u);
    assert(x as u64 as i64 == x) by (bit_vector);
}

pub proof fn lemma_i32_le_round_trip(x: i32)
    ensures
        spec_i32_to_le_bytes(x).len() == 4,
        spec_i32_from_le_bytes(spec_i32_to_le_bytes(x)) == x,
{
    lemma_auto_spec_u32_to_from_le_bytes();
    let u = x as u32;
    assert(spec_u32_to_le_bytes(u).len() == 4);
    assert(spec_u32_from_le_bytes(spec_u32_to_le_bytes(u)) == u);
    assert(x as u32 as i32 == x) by (bit_vector);
}

/// Bitcoin variable-length integer encoding: one byte below 0xfd, otherwise a
/// marker byte followed by the value in 2, 4 or 8 little-endian bytes, always
/// in the shortest form.
pub open spec fn spec_varint(n: u64) -> Seq<u8> {
    if n < 0xfd {
        seq![n as u8]
    } else if n <= 0xffff {
        seq![0xfdu8] + spec_u16_to_le_bytes(n as u16)
    } else if n <= 0xffffffff {
        seq![0xfeu8] + spec_u32_to_le_bytes(n as u32)
    } else {
        seq![0xffu8] + spec_u64_to_le_bytes(n)
    }
}

/// Parses a variable-length integer from the front of `s`, returning the
/// value and the number of bytes consumed; rejects non-minimal encodings.
pub open spec fn spec_parse_varint(s: Seq<u8>) -> Option<(u64, int)> {
    if s.len() == 0 {
        None
    } else {
        let b = s[0];
        if b < 0xfd {
            Some((b as u64, 1))
        } else if b == 0xfd {
            if s.len() < 3 {
                None
            } else {
                let v = spec_u16_from_le_bytes(s.subrange(1, 3));
                if v < 0xfd {
                    None
                } else {
                    Some((v as u64, 3))
                }
            }
        } else if b == 0xfe {
            if s.len() < 5 {
                None
            } else {
                let v = spec_u32_from_le_bytes(s.subrange(1, 5));
                if v <= 0xffff {
                    None
                } else {
                    Some((v as u64, 5))
                }
            }
        } else {
            if s.len() < 9 {
                None
            } else {
                let v = spec_u64_from_le_bytes(s.subrange(1, 9));
                if v <= 0xffffffff {
                    None
                } else {
                    Some((v, 9))
                }
            }
        }
    }
}

/// Appends the varint encoding of `n`.
pub fn push_varint(out: &mut Vec<u8>, n: u64)
    ensures
        final(out)@ == old(out)@ + spec_varint(n),
{
    if n < 0xfd {
        out.push(n as u8);
        proof {
            assert(final(out)@ =~= old(out)@ + spec_varint(n));
        }
    } else if n <= 0xffff {
        out.push(0xfd);
        push_u16_le(out, n as u16);
        proof {
            assert(final(out)@ =~= old(out)@ + spec_varint(n));
        }
    } else if n <= 0xffffffff {
        out.push(0xfe);
        push_u32_le(out, n as u32);
        proof {
            assert(final(out)@ =~= old(out)@ + spec_varint(n));
        }
    } else {
        out.push(0xff);
        push_u64_le(out, n);
        proof {
            assert(final(out)@ =~= old(out)@ + spec_varint(n));
        }
    }
}

/// Parses a varint at offset `off`; mirror of `spec_parse_varint` on the
/// suffix starting there.
pub fn read_varint(s: &[u8], off: usize) -> (r: Option<(u64, usize)>)
    requires
        off <= s@.len(),
    ensures
        match r {
            Some((v, c)) => spec_parse_varint(s@.skip(off as int)) == Some((v, c as int)) && off + c
                <= s@.len(),
            None => spec_parse_varint(s@.skip(off as int)) is None,
        },
{
    let n = s.len();
    let ghost tail = s@.skip(off as int);
    if off >= n {
        return None;
    }
    let b = s[off];
    proof {
        assert(tail[0] == s@[off as int]);
    }
    if b < 0xfd {
        Some((b as u64, 1))
    } else if b == 0xfd {
        if n - off < 3 {
            None
        } else {
            let v = read_u16_le(s, off + 1);
            proof {
                assert(s@.subrange(off + 1, off + 3) =~= tail.subrange(1, 3));
            }
            if v < 0xfd {
                None
            } else {
                Some((v as u64, 3))
            }
        }
    } else if b == 0xfe {
        if n - off < 5 {
            None
        } else {
            let v = read_u32_le(s, off + 1);
            proof {
                assert(s@.subrange(off + 1, off + 5) =~= tail.subrange(1, 5));
            }
            if v <= 0xffff {
                None
            } else {
                Some((v as u64, 5))
            }
        }
    } else {
        if n - off < 9 {
            None
        } else {
            let v = read_u64_le(s, off + 1);
            proof {
                assert(s@.subrange(off + 1, off + 9) =~= tail.subrange(1, 9));
            }
            if v <= 0xffffffff {
                None
            } else {
                Some((v, 9))
            }
        }
    }
}

/// Parsing the encoding of `n`, with anything after it, yields `n` and
/// consumes exactly the encoding.
pub proof fn lemma_varint_round_trip(n: u64, rest: Seq<u8>)
    ensures
        1 <= spec_varint(n).len() <= 9,
        spec_parse_varint(spec_varint(n) + rest) == Some((n, spec_varint(n).len() as int)),
{
    lemma_auto_spec_u16_to_from_le_bytes();
    lemma_auto_spec_u32_to_from_le_bytes();
    lemma_auto_spec_u64_to_from_le_bytes();
    let e = spec_varint(n);
    let s = e + rest;
    if n < 0xfd {
        assert(s[0] == n as u8);
    } else if n <= 0xffff {
        assert(s[0] == 0xfdu8);
        assert(s.subrange(1, 3) =~= spec_u16_to_le_bytes(n as u16));
    } else if n <= 0xffffffff {
        assert(s[0] == 0xfeu8);
        assert(s.subrange(1, 5) =~= spec_u32_to_le_bytes(n as u32));
        assert(n as u32 as u64 == n) by (bit_vector)
            requires
                n <= 0xffffffff,
        ;
    } else {
        assert(s[0] == 0xffu8);
        assert(s.subrange(1, 9) =~= spec_u64_to_le_bytes(n));
    }
}

} // verus!
