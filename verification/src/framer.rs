use vstd::prelude::*;

use crate::codec::{msg_serializable, msg_wf, spec_frame, CodecError, MAX_PAYLOAD_SIZE};
use crate::decode::{parse_message, spec_parse_frame};
use crate::message::{Message, MessageV};
use crate::roundtrip::lemma_codec_round_trip;
use crate::wire::read_u32_le;
use vstd::bytes::spec_u32_from_le_bytes;

verus! {

/// What draining an accumulator yields: the decoded messages, the bytes left
/// over, and whether an oversized frame forced the connection down.
#[verifier::ext_equal]
pub struct DrainResult {
    pub msgs: Seq<MessageV>,
    pub tail: Seq<u8>,
    pub fatal: bool,
}

/// The streaming consumer, mathematically: pull complete frames off the
/// front, keep a partial frame as the tail, stop and clear everything on an
/// oversized length field; a frame that fails to parse is skipped.
pub open spec fn spec_drain(s: Seq<u8>) -> DrainResult
    decreases s.len(),
{
    if s.len() < 24 {
        DrainResult { msgs: Seq::empty(), tail: s, fatal: false }
    } else {
        let plen = spec_u32_from_le_bytes(s.subrange(16, 20)) as int;
        if plen > MAX_PAYLOAD_SIZE {
            DrainResult { msgs: Seq::empty(), tail: Seq::empty(), fatal: true }
        } else if s.len() < 24 + plen {
            DrainResult { msgs: Seq::empty(), tail: s, fatal: false }
        } else {
            let frame = s.subrange(0, 24 + plen);
            let rest = spec_drain(s.skip(24 + plen));
            match spec_parse_frame(frame) {
                Some(m) => DrainResult { msgs: seq![m] + rest.msgs, tail: rest.tail, fatal: rest.fatal },
                None => rest,
            }
        }
    }
}

/// Pulls every complete frame off the front of the accumulator, leaving a
/// partial tail in place. Returns the decoded messages and whether an
/// oversized frame was met; in that case the accumulator is emptied and the
/// caller must drop the connection.
pub fn drain_frames(acc: &mut Vec<u8>) -> (r: (Vec<Message>, bool))
    ensures
        r.0.deep_view() == spec_drain(old(acc)@).msgs,
        final(acc)@ == spec_drain(old(acc)@).tail,
        r.1 == spec_drain(old(acc)@).fatal,
{
    let ghost s0 = acc@;
    let mut out: Vec<Message> = Vec::new();
    proof {
        assert(out.deep_view() =~= Seq::<MessageV>::empty());
    }
    loop
        invariant
            s0 == old(acc)@,
            spec_drain(s0).msgs == out.deep_view() + spec_drain(acc@).msgs,
            spec_drain(s0).tail == spec_drain(acc@).tail,
            spec_drain(s0).fatal == spec_drain(acc@).fatal,
        decreases acc@.len(),
    {
        let n = acc.len();
        if n < 24 {
            proof {
                assert(out.deep_view() + Seq::<MessageV>::empty() =~= out.deep_view());
            }
            return (out, false);
        }
        let plen32 = read_u32_le(acc.as_slice(), 16);
        if plen32 > MAX_PAYLOAD_SIZE as u32 {
            acc.clear();
            proof {
                assert(out.deep_view() + Seq::<MessageV>::empty() =~= out.deep_view());
            }
            return (out, true);
        }
        let plen = plen32 as usize;
        if n < 24 + plen {
            proof {
                assert(out.deep_view() + Seq::<MessageV>::empty() =~= out.deep_view());
            }
            return (out, false);
        }
        let frame_len = 24 + plen;
        let ghost s = acc@;
        let tail_vec = acc.split_off(frame_len);
        let parsed = parse_message(acc.as_slice());
        proof {
            assert(acc@ =~= s.subrange(0, 24 + plen as int));
            assert(tail_vec@ =~= s.skip(24 + plen as int));
        }
        let ghost prev = out.deep_view();
        match parsed {
            Ok(m) => {
                out.push(m);
                proof {
                    assert(out.deep_view() =~= prev.push(m@));
                    assert(prev + (seq![m@] + spec_drain(tail_vec@).msgs) =~= prev.push(m@)
                        + spec_drain(tail_vec@).msgs);
                }
            },
            Err(_) => {
            },
        }
        *acc = tail_vec;
    }
}

/// Draining `s1` and then appending `s2` to the leftover tail yields the same
/// messages, tail and outcome as draining the concatenation at once: the
/// consumer does not care where chunk boundaries fall.
pub proof fn lemma_drain_incremental(s1: Seq<u8>, s2: Seq<u8>)
    requires
        !spec_drain(s1).fatal,
    ensures
        spec_drain(s1 + s2).msgs == spec_drain(s1).msgs + spec_drain(
            spec_drain(s1).tail + s2,
        ).msgs,
        spec_drain(s1 + s2).tail == spec_drain(spec_drain(s1).tail + s2).tail,
        spec_drain(s1 + s2).fatal == spec_drain(spec_drain(s1).tail + s2).fatal,
    decreases s1.len(),
{
    let d1 = spec_drain(s1);
    if s1.len() < 24 {
        assert(d1.tail == s1);
        assert(d1.msgs + spec_drain(s1 + s2).msgs =~= spec_drain(s1 + s2).msgs);
    } else {
        let plen = spec_u32_from_le_bytes(s1.subrange(16, 20)) as int;
        assert(plen <= MAX_PAYLOAD_SIZE);
        if s1.len() < 24 + plen {
            assert(d1.tail == s1);
            assert(d1.msgs + spec_drain(s1 + s2).msgs =~= spec_drain(s1 + s2).msgs);
        } else {
            let w = s1 + s2;
            assert(w.subrange(16, 20) =~= s1.subrange(16, 20));
            assert(w.subrange(0, 24 + plen) =~= s1.subrange(0, 24 + plen));
            assert(w.skip(24 + plen) =~= s1.skip(24 + plen) + s2);
            let rest1 = s1.skip(24 + plen);
            assert(spec_drain(rest1).fatal == d1.fatal);
            lemma_drain_incremental(rest1, s2);
            assert(spec_drain(rest1).tail == d1.tail);
            match spec_parse_frame(s1.subrange(0, 24 + plen)) {
                Some(m) => {
                    assert(seq![m] + (spec_drain(rest1).msgs + spec_drain(d1.tail + s2).msgs)
                        =~= (seq![m] + spec_drain(rest1).msgs) + spec_drain(d1.tail + s2).msgs);
                },
                None => {
                },
            }
        }
    }
}

/// No prefix of an accumulator whose drain is not fatal drains fatally.
pub proof fn lemma_drain_prefix_not_fatal(s: Seq<u8>, i: int)
    requires
        !spec_drain(s).fatal,
        0 <= i <= s.len(),
    ensures
        !spec_drain(s.take(i)).fatal,
    decreases s.len(),
{
    let p = s.take(i);
    if p.len() < 24 {
    } else {
        assert(s.len() >= 24);
        assert(p.subrange(16, 20) =~= s.subrange(16, 20));
        let plen = spec_u32_from_le_bytes(s.subrange(16, 20)) as int;
        assert(plen <= MAX_PAYLOAD_SIZE);
        if p.len() < 24 + plen {
        } else {
            assert(s.len() >= 24 + plen);
            let rest = s.skip(24 + plen);
            assert(spec_drain(rest).fatal == spec_drain(s).fatal);
            assert(p.skip(24 + plen) =~= rest.take(i - 24 - plen));
            lemma_drain_prefix_not_fatal(rest, i - 24 - plen);
        }
    }
}

/// Draining one well-formed frame followed by anything yields that frame's
/// message and then whatever the rest drains to.
pub proof fn lemma_drain_frame_prefix(m: MessageV, rest: Seq<u8>)
    requires
        msg_serializable(m),
        msg_wf(m),
    ensures
        spec_drain(spec_frame(m) + rest).msgs == seq![m] + spec_drain(rest).msgs,
        spec_drain(spec_frame(m) + rest).tail == spec_drain(rest).tail,
        spec_drain(spec_frame(m) + rest).fatal == spec_drain(rest).fatal,
{
    vstd::bytes::lemma_auto_spec_u32_to_from_le_bytes();
    lemma_codec_round_trip(m);
    let f = spec_frame(m);
    let payload = crate::codec::spec_payload(m);
    let w = f + rest;
    assert(crate::codec::command_of(m).len() == 12) by {
        match m {
            MessageV::Unknown { .. } => {
                assert(false);
            },
            _ => {
            },
        }
    }
    assert(f.len() == 24 + payload.len());
    assert(w.subrange(16, 20) =~= spec_u32_to_le_bytes_alias(payload.len() as u32));
    assert((payload.len() as u32) as int == payload.len());
    assert(w.subrange(0, 24 + payload.len() as int) =~= f);
    assert(w.skip(24 + payload.len() as int) =~= rest);
}

/// Short name so the subrange assert above stays readable.
pub open spec fn spec_u32_to_le_bytes_alias(x: u32) -> Seq<u8> {
    vstd::bytes::spec_u32_to_le_bytes(x)
}

/// Two well-formed frames concatenated drain to exactly their two messages,
/// wherever the chunk boundary falls: feeding the first `i` bytes and then
/// the rest (appended to the leftover tail) yields the two messages and an
/// empty tail.
pub proof fn lemma_two_frames_resync(m1: MessageV, m2: MessageV, i: int)
    requires
        msg_serializable(m1),
        msg_wf(m1),
        msg_serializable(m2),
        msg_wf(m2),
        0 <= i <= (spec_frame(m1) + spec_frame(m2)).len(),
    ensures
        ({
            let c = spec_frame(m1) + spec_frame(m2);
            let d1 = spec_drain(c.take(i));
            let d2 = spec_drain(d1.tail + c.skip(i));
            &&& !d1.fatal
            &&& !d2.fatal
            &&& d1.msgs + d2.msgs == seq![m1, m2]
            &&& d2.tail.len() == 0
        }),
{
    let c = spec_frame(m1) + spec_frame(m2);
    lemma_drain_frame_prefix(m2, Seq::empty());
    assert(spec_frame(m2) + Seq::<u8>::empty() =~= spec_frame(m2));
    lemma_drain_frame_prefix(m1, spec_frame(m2));
    assert(spec_drain(c).msgs =~= seq![m1, m2]);
    assert(!spec_drain(c).fatal);
    lemma_drain_prefix_not_fatal(c, i);
    lemma_drain_incremental(c.take(i), c.skip(i));
    assert(c.take(i) + c.skip(i) =~= c);
    let d1 = spec_drain(c.take(i));
    let d2 = spec_drain(d1.tail + c.skip(i));
    assert(d1.msgs + d2.msgs == spec_drain(c).msgs);
}

} // verus!
