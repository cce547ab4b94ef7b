//! Wire framing: every packet on the socket, in either direction, is a two-byte
//! big-endian length prefix followed by that many payload bytes. The framing is
//! the whole wire contract; a payload must fit in 16 bits.
use vstd::prelude::*;

use crate::PacketBuildError;

verus! {

/// Largest payload one frame can carry.
pub const MAX_PAYLOAD_LEN: usize = 65535;

/// Big-endian two-byte encoding of a 16-bit value.
pub open spec fn spec_u16_be(v: u16) -> Seq<u8> {
    seq![(v / 256) as u8, (v % 256) as u8]
}

/// The 16-bit value read from two big-endian bytes.
pub open spec fn spec_u16_from_be(b0: u8, b1: u8) -> u16 {
    (b0 as int * 256 + b1 as int) as u16
}

pub proof fn lemma_u16_be_roundtrip(v: u16)
    ensures
        spec_u16_from_be(spec_u16_be(v)[0], spec_u16_be(v)[1]) == v,
{
    assert(v as int / 256 * 256 + v as int % 256 == v as int) by (nonlinear_arith);
    assert(0 <= v as int / 256 < 256) by (nonlinear_arith);
    assert(0 <= v as int % 256 < 256) by (nonlinear_arith);
}

/// Appends the big-endian encoding of `v`.
pub fn push_u16_be(out: &mut Vec<u8>, v: u16)
    ensures
        final(out)@ == old(out)@ + spec_u16_be(v),
{
    proof {
        assert(0 <= v as int / 256 < 256) by (nonlinear_arith);
    }
    out.push((v / 256) as u8);
    out.push((v % 256) as u8);
    proof {
        assert(out@ =~= old(out)@ + spec_u16_be(v));
    }
}

/// Reads a big-endian 16-bit value at `pos`.
pub fn read_u16_be(buf: &Vec<u8>, pos: usize) -> (r: u16)
    requires
        pos + 2 <= buf@.len(),
    ensures
        r == spec_u16_from_be(buf@[pos as int], buf@[pos as int + 1]),
{
    let _blen = buf.len();
    let b0 = buf[pos];
    let b1 = buf[pos + 1];
    b0 as u16 * 256 + b1 as u16
}

/// One frame: the length prefix followed by the payload. Meaningful only for
/// payloads that satisfy [`valid_payload`].
pub open spec fn spec_frame(payload: Seq<u8>) -> Seq<u8> {
    spec_u16_be(payload.len() as u16) + payload
}

/// A payload fits the two-byte length prefix.
pub open spec fn valid_payload(payload: Seq<u8>) -> bool {
    payload.len() <= MAX_PAYLOAD_LEN
}

/// The byte stream carrying the given payloads as consecutive frames.
pub open spec fn spec_frames(payloads: Seq<Seq<u8>>) -> Seq<u8>
    decreases payloads.len(),
{
    if payloads.len() == 0 {
        Seq::empty()
    } else {
        spec_frame(payloads[0]) + spec_frames(payloads.drop_first())
    }
}

/// Splits one frame off the front of a byte stream: the payload and the number
/// of bytes consumed. `None` when no complete frame is present yet.
pub open spec fn spec_parse_frame(s: Seq<u8>) -> Option<(Seq<u8>, int)> {
    if s.len() < 2 {
        None
    } else {
        let n = spec_u16_from_be(s[0], s[1]) as int;
        if s.len() < 2 + n {
            None
        } else {
            Some((s.subrange(2, 2 + n), 2 + n))
        }
    }
}

/// Parses a whole byte stream as consecutive complete frames.
pub open spec fn spec_parse_frames(s: Seq<u8>) -> Option<Seq<Seq<u8>>>
    decreases s.len(),
{
    if s.len() == 0 {
        Some(Seq::empty())
    } else {
        match spec_parse_frame(s) {
            None => None,
            Some((p, used)) => match spec_parse_frames(s.skip(used)) {
                None => None,
                Some(rest) => Some(seq![p] + rest),
            },
        }
    }
}

/// A frame parses back to exactly the payload it was built from, and consumes
/// exactly its own bytes, whatever follows it on the stream.
pub proof fn lemma_parse_frame_of(payload: Seq<u8>, rest: Seq<u8>)
    requires
        valid_payload(payload),
    ensures
        spec_parse_frame(spec_frame(payload) + rest) == Some(
            (payload, 2 + payload.len() as int),
        ),
{
    let s = spec_frame(payload) + rest;
    lemma_u16_be_roundtrip(payload.len() as u16);
    assert(s[0] == spec_u16_be(payload.len() as u16)[0]);
    assert(s[1] == spec_u16_be(payload.len() as u16)[1]);
    assert(spec_u16_from_be(s[0], s[1]) == payload.len() as u16);
    assert(s.subrange(2, 2 + payload.len() as int) =~= payload);
}

/// A stream of frames parses back to exactly the payloads it was built from:
/// no frame is split by, or bleeds into, another.
pub proof fn lemma_parse_frames_of(payloads: Seq<Seq<u8>>)
    requires
        forall|i: int| 0 <= i < payloads.len() ==> valid_payload(#[trigger] payloads[i]),
    ensures
        spec_parse_frames(spec_frames(payloads)) == Some(payloads),
    decreases payloads.len(),
{
    if payloads.len() == 0 {
        assert(spec_parse_frames(spec_frames(payloads)) =~~= Some(payloads));
    } else {
        let p = payloads[0];
        let rest = spec_frames(payloads.drop_first());
        let s = spec_frame(p) + rest;
        lemma_parse_frame_of(p, rest);
        assert(s.len() >= 2);
        assert(s.skip(2 + p.len() as int) =~= rest);
        lemma_parse_frames_of(payloads.drop_first());
        assert(seq![p] + payloads.drop_first() =~= payloads);
    }
}

/// Appending one frame extends the framed stream.
pub proof fn lemma_frames_push(payloads: Seq<Seq<u8>>, p: Seq<u8>)
    ensures
        spec_frames(payloads.push(p)) == spec_frames(payloads) + spec_frame(p),
{
    lemma_frames_concat(payloads, seq![p]);
    assert(payloads + seq![p] =~= payloads.push(p));
    assert(seq![p].drop_first() =~= Seq::<Seq<u8>>::empty());
    assert(seq![p][0] == p);
    assert(spec_frames(Seq::<Seq<u8>>::empty()) == Seq::<u8>::empty());
    assert(spec_frames(seq![p].drop_first()) == Seq::<u8>::empty());
    assert(spec_frames(seq![p]) =~= spec_frame(p));
}

/// Concatenating two framed streams frames the concatenation of their payloads.
pub proof fn lemma_frames_concat(a: Seq<Seq<u8>>, b: Seq<Seq<u8>>)
    ensures
        spec_frames(a + b) == spec_frames(a) + spec_frames(b),
    decreases a.len(),
{
    if a.len() == 0 {
        assert(a + b =~= b);
        assert(spec_frames(a + b) =~= spec_frames(a) + spec_frames(b));
    } else {
        lemma_frames_concat(a.drop_first(), b);
        assert((a + b).drop_first() =~= a.drop_first() + b);
        assert(spec_frames(a + b) =~= spec_frames(a) + spec_frames(b));
    }
}

/// Wraps a payload in one frame; rejects a payload longer than the length
/// prefix can state.
pub fn frame_payload(payload: &Vec<u8>) -> (r: Result<Vec<u8>, PacketBuildError>)
    ensures
        match r {
            Ok(f) => valid_payload(payload@) && f@ == spec_frame(payload@),
            Err(e) => {
                &&& payload@.len() > MAX_PAYLOAD_LEN
                &&& e matches PacketBuildError::PayloadTooLarge(n)
                &&& n == payload@.len()
            },
        },
{
    if payload.len() > MAX_PAYLOAD_LEN {
        return Err(PacketBuildError::PayloadTooLarge(payload.len()));
    }
    let mut out: Vec<u8> = Vec::new();
    push_u16_be(&mut out, payload.len() as u16);
    let mut i: usize = 0;
    while i < payload.len()
        invariant
            i <= payload@.len(),
            out@ == spec_u16_be(payload@.len() as u16) + payload@.subrange(0, i as int),
        decreases payload@.len() - i,
    {
        out.push(payload[i]);
        i = i + 1;
        proof {
            assert(out@ =~= spec_u16_be(payload@.len() as u16) + payload@.subrange(0, i as int));
        }
    }
    proof {
        assert(payload@.subrange(0, payload@.len() as int) =~= payload@);
    }
    Ok(out)
}

/// Splits one frame off `buf` at `pos`: the payload and the position just past
/// it. `None` when the bytes from `pos` on do not yet hold a complete frame.
pub fn parse_frame_at(buf: &Vec<u8>, pos: usize) -> (r: Option<(Vec<u8>, usize)>)
    requires
        pos <= buf@.len(),
    ensures
        match r {
            Some((p, newpos)) => {
                &&& spec_parse_frame(buf@.skip(pos as int)) == Some(
                    (p@, newpos - pos),
                )
                &&& pos < newpos <= buf@.len()
            },
            None => spec_parse_frame(buf@.skip(pos as int)) is None,
        },
{
    let ghost s = buf@.skip(pos as int);
    if buf.len() - pos < 2 {
        return None;
    }
    let n = read_u16_be(buf, pos) as usize;
    assert(s[0] == buf@[pos as int] && s[1] == buf@[pos as int + 1]);
    if buf.len() - pos - 2 < n {
        return None;
    }
    let blen = buf.len();
    let mut p: Vec<u8> = Vec::new();
    let mut i: usize = 0;
    while i < n
        invariant
            i <= n,
            pos + 2 + n <= blen,
            blen == buf@.len(),
            p@ == buf@.subrange(pos as int + 2, pos as int + 2 + i as int),
        decreases n - i,
    {
        p.push(buf[pos + 2 + i]);
        i = i + 1;
        proof {
            assert(p@ =~= buf@.subrange(pos as int + 2, pos as int + 2 + i as int));
        }
    }
    proof {
        assert(s.subrange(2, 2 + n as int) =~= buf@.subrange(
            pos as int + 2,
            pos as int + 2 + n as int,
        ));
    }
    Some((p, pos + 2 + n))
}

} // verus!
