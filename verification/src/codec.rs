//! The message codec: typed encode/decode between message values and byte
//! payloads. Every encoder has a matching decoder, and a proved round trip:
//! decoding an encoding yields the original message. Length-carrying fields
//! use a two-byte big-endian count, so no counted field may exceed 65535
//! elements; encoding rejects anything larger.
//!
//! Decoders are written as functions from the front of a byte sequence to a
//! value and a consumed length, and compose by `skip`.
use vstd::prelude::*;

use crate::messages::ControllableInfo;
use crate::messages::BallPrediction;
use crate::messages::ConnectionSettings;
use crate::messages::CoreMessage;
use crate::messages::FieldInfo;
use crate::messages::GamePacket;
use crate::messages::InterfaceMessage;
use crate::messages::MatchComm;
use crate::messages::MatchConfiguration;
use crate::messages::PlayerInput;
use crate::messages::RenderingStatus;
use crate::PacketParseError;
use crate::messages::ControllableTeamInfo;
use crate::messages::CoreMessageV;
use crate::messages::InterfaceMessageV;
use crate::messages::ControllableTeamInfoV;
use crate::render::RenderGroup;
use crate::render::RenderGroupV;
use crate::render::rmsgs_view;
use crate::state_builder::DesiredGameState;
use crate::state_builder::DesiredGameStateV;
use crate::render::BallAnchor;
use crate::render::CarAnchor;
use crate::render::Line3D;
use crate::render::RelativeAnchor;
use crate::render::RenderAnchor;
use crate::state_builder::DesiredBallState;
use crate::state_builder::DesiredCarState;
use crate::state_builder::DesiredMatchInfo;
use crate::state_builder::DesiredPhysics;
use crate::render::Color;
use crate::render::PolyLine3D;
use crate::render::PolyLine3DV;
use crate::render::RenderMessage;
use crate::render::RenderMessageV;
use crate::render::Vector3;
use crate::state_builder::RotatorPartial;
use crate::state_builder::Vector3Partial;
use crate::wire::spec_u16_be;
use crate::wire::spec_u16_from_be;
use crate::wire::lemma_u16_be_roundtrip;
use crate::wire::push_u16_be;
use crate::PacketBuildError;

verus! {

/// Dropping `a` then `b` elements drops `a + b` elements.
pub proof fn lemma_skip_add(s: Seq<u8>, a: int, b: int)
    requires
        0 <= a,
        0 <= b,
        a + b <= s.len(),
    ensures
        s.skip(a).skip(b) == s.skip(a + b),
{
    assert(s.skip(a).skip(b) =~= s.skip(a + b));
}

// ---------------------------------------------------------------------------
// primitives
// ---------------------------------------------------------------------------

pub open spec fn enc_u8(v: u8) -> Seq<u8> {
    seq![v]
}

pub open spec fn dec_u8(s: Seq<u8>) -> Option<(u8, int)> {
    if s.len() >= 1 {
        Some((s[0], 1int))
    } else {
        None
    }
}

pub proof fn lemma_dec_enc_u8(v: u8, rest: Seq<u8>)
    ensures
        dec_u8(enc_u8(v) + rest) == Some((v, 1int)),
{
}

pub open spec fn enc_u16(v: u16) -> Seq<u8> {
    spec_u16_be(v)
}

pub open spec fn dec_u16(s: Seq<u8>) -> Option<(u16, int)> {
    if s.len() >= 2 {
        Some((spec_u16_from_be(s[0], s[1]), 2int))
    } else {
        None
    }
}

pub proof fn lemma_dec_enc_u16(v: u16, rest: Seq<u8>)
    ensures
        dec_u16(enc_u16(v) + rest) == Some((v, 2int)),
{
    lemma_u16_be_roundtrip(v);
}

pub open spec fn enc_u32(v: u32) -> Seq<u8> {
    seq![
        ((v >> 24) & 0xff) as u8,
        ((v >> 16) & 0xff) as u8,
        ((v >> 8) & 0xff) as u8,
        (v & 0xff) as u8,
    ]
}

/// The 32-bit value read from four big-endian bytes.
pub open spec fn u32_from_be(b0: u8, b1: u8, b2: u8, b3: u8) -> u32 {
    ((b0 as u32) << 24) | ((b1 as u32) << 16) | ((b2 as u32) << 8) | (b3 as u32)
}

pub open spec fn dec_u32(s: Seq<u8>) -> Option<(u32, int)> {
    if s.len() >= 4 {
        Some((u32_from_be(s[0], s[1], s[2], s[3]), 4int))
    } else {
        None
    }
}

pub proof fn lemma_u32_be_roundtrip(v: u32)
    ensures
        u32_from_be(
            ((v >> 24) & 0xff) as u8,
            ((v >> 16) & 0xff) as u8,
            ((v >> 8) & 0xff) as u8,
            (v & 0xff) as u8,
        ) == v,
{
    assert((((((v >> 24) & 0xff) as u8) as u32) << 24) | (((((v >> 16) & 0xff) as u8) as u32)
        << 16) | (((((v >> 8) & 0xff) as u8) as u32) << 8) | (((v & 0xff) as u8) as u32) == v)
        by (bit_vector);
}

pub proof fn lemma_dec_enc_u32(v: u32, rest: Seq<u8>)
    ensures
        dec_u32(enc_u32(v) + rest) == Some((v, 4int)),
{
    lemma_u32_be_roundtrip(v);
}

pub open spec fn enc_bool(b: bool) -> Seq<u8> {
    seq![if b { 1u8 } else { 0u8 }]
}

pub open spec fn dec_bool(s: Seq<u8>) -> Option<(bool, int)> {
    if s.len() >= 1 {
        if s[0] == 0u8 {
            Some((false, 1int))
        } else if s[0] == 1u8 {
            Some((true, 1int))
        } else {
            None
        }
    } else {
        None
    }
}

pub proof fn lemma_dec_enc_bool(b: bool, rest: Seq<u8>)
    ensures
        dec_bool(enc_bool(b) + rest) == Some((b, 1int)),
{
}

/// A counted byte field: a two-byte big-endian length, then the bytes.
pub open spec fn enc_bytes(d: Seq<u8>) -> Seq<u8> {
    enc_u16(d.len() as u16) + d
}

/// A byte field fits its two-byte count.
pub open spec fn valid_bytes(d: Seq<u8>) -> bool {
    d.len() <= 65535
}

pub open spec fn dec_bytes(s: Seq<u8>) -> Option<(Seq<u8>, int)> {
    match dec_u16(s) {
        None => None,
        Some((n, _)) => {
            if s.len() >= 2 + n {
                Some((s.subrange(2, 2 + n as int), 2 + n as int))
            } else {
                None
            }
        },
    }
}

pub proof fn lemma_dec_enc_bytes(d: Seq<u8>, rest: Seq<u8>)
    requires
        valid_bytes(d),
    ensures
        dec_bytes(enc_bytes(d) + rest) == Some((d, enc_bytes(d).len() as int)),
{
    let s = enc_bytes(d) + rest;
    lemma_dec_enc_u16(d.len() as u16, d + rest);
    assert(s =~= enc_u16(d.len() as u16) + (d + rest));
    assert(s.subrange(2, 2 + d.len() as int) =~= d);
}

// ---------------------------------------------------------------------------
// exec primitives
// ---------------------------------------------------------------------------

/// Appends the big-endian encoding of `v`.
pub fn push_u32_be(out: &mut Vec<u8>, v: u32)
    ensures
        final(out)@ == old(out)@ + enc_u32(v),
{
    out.push(((v >> 24) & 0xff) as u8);
    out.push(((v >> 16) & 0xff) as u8);
    out.push(((v >> 8) & 0xff) as u8);
    out.push((v & 0xff) as u8);
    proof {
        assert(out@ =~= old(out)@ + enc_u32(v));
    }
}

/// Appends one byte encoding `b`.
pub fn push_bool(out: &mut Vec<u8>, b: bool)
    ensures
        final(out)@ == old(out)@ + enc_bool(b),
{
    out.push(if b { 1u8 } else { 0u8 });
    proof {
        assert(out@ =~= old(out)@ + enc_bool(b));
    }
}

/// Appends a counted byte field; rejects one longer than its count can state.
pub fn push_bytes(out: &mut Vec<u8>, d: &Vec<u8>) -> (r: Result<(), PacketBuildError>)
    ensures
        match r {
            Ok(()) => valid_bytes(d@) && final(out)@ == old(out)@ + enc_bytes(d@),
            Err(e) => {
                &&& !valid_bytes(d@)
                &&& final(out)@ == old(out)@
                &&& e matches PacketBuildError::PayloadTooLarge(n)
                &&& n == d@.len()
            },
        },
{
    if d.len() > 65535 {
        return Err(PacketBuildError::PayloadTooLarge(d.len()));
    }
    push_u16_be(out, d.len() as u16);
    let mut i: usize = 0;
    while i < d.len()
        invariant
            i <= d@.len(),
            out@ == old(out)@ + enc_u16(d@.len() as u16) + d@.subrange(0, i as int),
        decreases d@.len() - i,
    {
        out.push(d[i]);
        i = i + 1;
        proof {
            assert(out@ =~= old(out)@ + enc_u16(d@.len() as u16) + d@.subrange(0, i as int));
        }
    }
    proof {
        assert(d@.subrange(0, d@.len() as int) =~= d@);
        assert(out@ =~= old(out)@ + enc_bytes(d@));
    }
    Ok(())
}

/// Reads one byte at `pos`.
pub fn decode_u8(buf: &Vec<u8>, pos: usize) -> (r: Option<(u8, usize)>)
    requires
        pos <= buf@.len(),
    ensures
        match r {
            Some((v, np)) => dec_u8(buf@.skip(pos as int)) == Some((v, np - pos)) && pos < np
                <= buf@.len(),
            None => dec_u8(buf@.skip(pos as int)) is None,
        },
{
    if buf.len() - pos < 1 {
        return None;
    }
    Some((buf[pos], pos + 1))
}

/// Reads a big-endian 16-bit value at `pos`.
pub fn decode_u16(buf: &Vec<u8>, pos: usize) -> (r: Option<(u16, usize)>)
    requires
        pos <= buf@.len(),
    ensures
        match r {
            Some((v, np)) => dec_u16(buf@.skip(pos as int)) == Some((v, np - pos)) && pos < np
                <= buf@.len(),
            None => dec_u16(buf@.skip(pos as int)) is None,
        },
{
    if buf.len() - pos < 2 {
        return None;
    }
    let b0 = buf[pos];
    let b1 = buf[pos + 1];
    Some((b0 as u16 * 256 + b1 as u16, pos + 2))
}

/// Reads a big-endian 32-bit value at `pos`.
pub fn decode_u32(buf: &Vec<u8>, pos: usize) -> (r: Option<(u32, usize)>)
    requires
        pos <= buf@.len(),
    ensures
        match r {
            Some((v, np)) => dec_u32(buf@.skip(pos as int)) == Some((v, np - pos)) && pos < np
                <= buf@.len(),
            None => dec_u32(buf@.skip(pos as int)) is None,
        },
{
    if buf.len() - pos < 4 {
        return None;
    }
    let b0 = buf[pos];
    let b1 = buf[pos + 1];
    let b2 = buf[pos + 2];
    let b3 = buf[pos + 3];
    let v = ((b0 as u32) << 24) | ((b1 as u32) << 16) | ((b2 as u32) << 8) | (b3 as u32);
    proof {
        let s = buf@.skip(pos as int);
        assert(s[0] == b0 && s[1] == b1 && s[2] == b2 && s[3] == b3);
    }
    Some((v, pos + 4))
}

/// Reads one boolean byte at `pos`.
pub fn decode_bool(buf: &Vec<u8>, pos: usize) -> (r: Option<(bool, usize)>)
    requires
        pos <= buf@.len(),
    ensures
        match r {
            Some((v, np)) => dec_bool(buf@.skip(pos as int)) == Some((v, np - pos)) && pos < np
                <= buf@.len(),
            None => dec_bool(buf@.skip(pos as int)) is None,
        },
{
    if buf.len() - pos < 1 {
        return None;
    }
    let b = buf[pos];
    if b == 0 {
        Some((false, pos + 1))
    } else if b == 1 {
        Some((true, pos + 1))
    } else {
        None
    }
}

/// Reads a counted byte field at `pos`.
pub fn decode_bytes(buf: &Vec<u8>, pos: usize) -> (r: Option<(Vec<u8>, usize)>)
    requires
        pos <= buf@.len(),
    ensures
        match r {
            Some((v, np)) => dec_bytes(buf@.skip(pos as int)) == Some((v@, np - pos)) && pos < np
                <= buf@.len(),
            None => dec_bytes(buf@.skip(pos as int)) is None,
        },
{
    let ghost s = buf@.skip(pos as int);
    let (n16, p1) = match decode_u16(buf, pos) {
        Some(r) => r,
        None => {
            return None;
        },
    };
    let n = n16 as usize;
    let blen = buf.len();
    if blen - p1 < n {
        return None;
    }
    let mut v: Vec<u8> = Vec::new();
    let mut i: usize = 0;
    while i < n
        invariant
            i <= n,
            p1 + n <= blen,
            blen == buf@.len(),
            v@ == buf@.subrange(p1 as int, p1 as int + i as int),
        decreases n - i,
    {
        v.push(buf[p1 + i]);
        i = i + 1;
        proof {
            assert(v@ =~= buf@.subrange(p1 as int, p1 as int + i as int));
        }
    }
    proof {
        assert(s.subrange(2, 2 + n as int) =~= buf@.subrange(p1 as int, p1 as int + n as int));
    }
    Some((v, p1 + n))
}

// ---------------------------------------------------------------------------
// optional 32-bit fields and coordinate triples
// ---------------------------------------------------------------------------

#[verifier::opaque]
pub open spec fn enc_opt_u32(o: Option<u32>) -> Seq<u8> {
    match o {
        None => seq![0u8],
        Some(v) => seq![1u8] + enc_u32(v),
    }
}

#[verifier::opaque]
pub open spec fn dec_opt_u32(s: Seq<u8>) -> Option<(Option<u32>, int)> {
    match dec_u8(s) {
        None => None,
        Some((tag, _)) => {
            if tag == 0 {
                Some((None::<u32>, 1int))
            } else if tag == 1 {
                match dec_u32(s.skip(1)) {
                    None => None,
                    Some((v, n)) => Some((Some(v), 1 + n)),
                }
            } else {
                None
            }
        },
    }
}

pub proof fn lemma_dec_enc_opt_u32(o: Option<u32>, rest: Seq<u8>)
    ensures
        dec_opt_u32(enc_opt_u32(o) + rest) == Some((o, enc_opt_u32(o).len() as int)),
{
    reveal(enc_opt_u32);
    reveal(dec_opt_u32);
    let s = enc_opt_u32(o) + rest;
    match o {
        None => {
            assert(s[0] == 0u8);
        },
        Some(v) => {
            assert(s[0] == 1u8);
            assert(s.skip(1) =~= enc_u32(v) + rest);
            lemma_dec_enc_u32(v, rest);
        },
    }
}

pub fn push_opt_u32(out: &mut Vec<u8>, o: &Option<u32>)
    ensures
        final(out)@ == old(out)@ + enc_opt_u32(*o),
{
    proof { reveal(enc_opt_u32); }
    match o {
        None => {
            out.push(0u8);
        },
        Some(v) => {
            out.push(1u8);
            push_u32_be(out, *v);
        },
    }
    proof {
        assert(out@ =~= old(out)@ + enc_opt_u32(*o));
    }
}

pub fn decode_opt_u32(buf: &Vec<u8>, pos: usize) -> (r: Option<(Option<u32>, usize)>)
    requires
        pos <= buf@.len(),
    ensures
        match r {
            Some((v, np)) => dec_opt_u32(buf@.skip(pos as int)) == Some((v, np - pos)) && pos < np
                <= buf@.len(),
            None => dec_opt_u32(buf@.skip(pos as int)) is None,
        },
{
    proof { reveal(dec_opt_u32); }
    let (tag, p1) = match decode_u8(buf, pos) {
        Some(r) => r,
        None => {
            return None;
        },
    };
    if tag == 0 {
        Some((None, p1))
    } else if tag == 1 {
        proof {
            lemma_skip_add(buf@, pos as int, 1);
        }
        let (v, p2) = match decode_u32(buf, p1) {
            Some(r) => r,
            None => {
                return None;
            },
        };
        Some((Some(v), p2))
    } else {
        None
    }
}

/// Three optional 32-bit fields in a row: the shared layout of a partial
/// vector and a partial rotation.
#[verifier::opaque]
pub open spec fn enc_3opt(a: Option<u32>, b: Option<u32>, c: Option<u32>) -> Seq<u8> {
    enc_opt_u32(a) + enc_opt_u32(b) + enc_opt_u32(c)
}

#[verifier::opaque]
pub open spec fn dec_3opt(s: Seq<u8>) -> Option<((Option<u32>, Option<u32>, Option<u32>), int)> {
    match dec_opt_u32(s) {
        None => None,
        Some((a, n1)) => match dec_opt_u32(s.skip(n1)) {
            None => None,
            Some((b, n2)) => match dec_opt_u32(s.skip(n1).skip(n2)) {
                None => None,
                Some((c, n3)) => Some(((a, b, c), n1 + n2 + n3)),
            },
        },
    }
}

#[verifier::rlimit(50)]
pub proof fn lemma_dec_enc_3opt(a: Option<u32>, b: Option<u32>, c: Option<u32>, rest: Seq<u8>)
    ensures
        dec_3opt(enc_3opt(a, b, c) + rest) == Some(
            ((a, b, c), enc_3opt(a, b, c).len() as int),
        ),
{
    reveal(enc_3opt);
    reveal(dec_3opt);
    let s = enc_3opt(a, b, c) + rest;
    assert(s =~= enc_opt_u32(a) + (enc_opt_u32(b) + enc_opt_u32(c) + rest));
    lemma_dec_enc_opt_u32(a, enc_opt_u32(b) + enc_opt_u32(c) + rest);
    let n1 = enc_opt_u32(a).len() as int;
    assert(s.skip(n1) =~= enc_opt_u32(b) + (enc_opt_u32(c) + rest));
    lemma_dec_enc_opt_u32(b, enc_opt_u32(c) + rest);
    let n2 = enc_opt_u32(b).len() as int;
    assert(s.skip(n1).skip(n2) =~= enc_opt_u32(c) + rest);
    lemma_dec_enc_opt_u32(c, rest);
}

pub fn push_3opt(out: &mut Vec<u8>, a: &Option<u32>, b: &Option<u32>, c: &Option<u32>)
    ensures
        final(out)@ == old(out)@ + enc_3opt(*a, *b, *c),
{
    proof { reveal(enc_3opt); }
    push_opt_u32(out, a);
    push_opt_u32(out, b);
    push_opt_u32(out, c);
    proof {
        assert(out@ =~= old(out)@ + enc_3opt(*a, *b, *c));
    }
}

pub fn decode_3opt(buf: &Vec<u8>, pos: usize) -> (r: Option<
    ((Option<u32>, Option<u32>, Option<u32>), usize),
>)
    requires
        pos <= buf@.len(),
    ensures
        match r {
            Some((v, np)) => dec_3opt(buf@.skip(pos as int)) == Some((v, np - pos)) && pos < np
                <= buf@.len(),
            None => dec_3opt(buf@.skip(pos as int)) is None,
        },
{
    proof { reveal(dec_3opt); }
    let (a, p1) = match decode_opt_u32(buf, pos) {
        Some(r) => r,
        None => {
            return None;
        },
    };
    proof {
        lemma_skip_add(buf@, pos as int, p1 - pos);
    }
    let (b, p2) = match decode_opt_u32(buf, p1) {
        Some(r) => r,
        None => {
            return None;
        },
    };
    proof {
        lemma_skip_add(buf@, p1 as int, p2 - p1);
    }
    let (c, p3) = match decode_opt_u32(buf, p2) {
        Some(r) => r,
        None => {
            return None;
        },
    };
    Some(((a, b, c), p3))
}

// ---------------------------------------------------------------------------
// render and desired-state building blocks
// ---------------------------------------------------------------------------

#[verifier::opaque]
pub open spec fn enc_vector3(v: Vector3) -> Seq<u8> {
    enc_u32(v.x) + enc_u32(v.y) + enc_u32(v.z)
}

#[verifier::opaque]
pub open spec fn dec_vector3(s: Seq<u8>) -> Option<(Vector3, int)> {
    match dec_u32(s) {
        None => None,
        Some((x, n1)) => match dec_u32(s.skip(n1)) {
            None => None,
            Some((y, n2)) => match dec_u32(s.skip(n1).skip(n2)) {
                None => None,
                Some((z, n3)) => Some((Vector3 { x, y, z }, n1 + n2 + n3)),
            },
        },
    }
}

pub proof fn lemma_dec_enc_vector3(v: Vector3, rest: Seq<u8>)
    ensures
        dec_vector3(enc_vector3(v) + rest) == Some((v, enc_vector3(v).len() as int)),
{
    reveal(enc_vector3);
    reveal(dec_vector3);
    let s = enc_vector3(v) + rest;
    assert(s =~= enc_u32(v.x) + (enc_u32(v.y) + enc_u32(v.z) + rest));
    lemma_dec_enc_u32(v.x, enc_u32(v.y) + enc_u32(v.z) + rest);
    assert(s.skip(4) =~= enc_u32(v.y) + (enc_u32(v.z) + rest));
    lemma_dec_enc_u32(v.y, enc_u32(v.z) + rest);
    assert(s.skip(4).skip(4) =~= enc_u32(v.z) + rest);
    lemma_dec_enc_u32(v.z, rest);
}

pub fn push_vector3(out: &mut Vec<u8>, v: &Vector3)
    ensures
        final(out)@ == old(out)@ + enc_vector3(*v),
{
    proof { reveal(enc_vector3); }
    push_u32_be(out, v.x);
    push_u32_be(out, v.y);
    push_u32_be(out, v.z);
    proof {
        assert(out@ =~= old(out)@ + enc_vector3(*v));
    }
}

pub fn decode_vector3(buf: &Vec<u8>, pos: usize) -> (r: Option<(Vector3, usize)>)
    requires
        pos <= buf@.len(),
    ensures
        match r {
            Some((v, np)) => dec_vector3(buf@.skip(pos as int)) == Some((v, np - pos)) && pos < np
                <= buf@.len(),
            None => dec_vector3(buf@.skip(pos as int)) is None,
        },
{
    proof { reveal(dec_vector3); }
    let (x, p1) = match decode_u32(buf, pos) {
        Some(r) => r,
        None => {
            return None;
        },
    };
    proof {
        lemma_skip_add(buf@, pos as int, p1 - pos);
    }
    let (y, p2) = match decode_u32(buf, p1) {
        Some(r) => r,
        None => {
            return None;
        },
    };
    proof {
        lemma_skip_add(buf@, p1 as int, p2 - p1);
    }
    let (z, p3) = match decode_u32(buf, p2) {
        Some(r) => r,
        None => {
            return None;
        },
    };
    Some((Vector3 { x, y, z }, p3))
}

pub open spec fn enc_color(c: Color) -> Seq<u8> {
    seq![c.r, c.g, c.b, c.a]
}

pub open spec fn dec_color(s: Seq<u8>) -> Option<(Color, int)> {
    if s.len() >= 4 {
        Some((Color { r: s[0], g: s[1], b: s[2], a: s[3] }, 4int))
    } else {
        None
    }
}

pub proof fn lemma_dec_enc_color(c: Color, rest: Seq<u8>)
    ensures
        dec_color(enc_color(c) + rest) == Some((c, 4int)),
{
}

pub fn push_color(out: &mut Vec<u8>, c: &Color)
    ensures
        final(out)@ == old(out)@ + enc_color(*c),
{
    out.push(c.r);
    out.push(c.g);
    out.push(c.b);
    out.push(c.a);
    proof {
        assert(out@ =~= old(out)@ + enc_color(*c));
    }
}

pub fn decode_color(buf: &Vec<u8>, pos: usize) -> (r: Option<(Color, usize)>)
    requires
        pos <= buf@.len(),
    ensures
        match r {
            Some((v, np)) => dec_color(buf@.skip(pos as int)) == Some((v, np - pos)) && pos < np
                <= buf@.len(),
            None => dec_color(buf@.skip(pos as int)) is None,
        },
{
    if buf.len() - pos < 4 {
        return None;
    }
    let c = Color { r: buf[pos], g: buf[pos + 1], b: buf[pos + 2], a: buf[pos + 3] };
    proof {
        let s = buf@.skip(pos as int);
        assert(s[0] == buf@[pos as int] && s[1] == buf@[pos as int + 1] && s[2] == buf@[pos as int
            + 2] && s[3] == buf@[pos as int + 3]);
    }
    Some((c, pos + 4))
}

#[verifier::opaque]
pub open spec fn enc_ci(ci: ControllableInfo) -> Seq<u8> {
    enc_u32(ci.index) + enc_u32(ci.identifier)
}

#[verifier::opaque]
pub open spec fn dec_ci(s: Seq<u8>) -> Option<(ControllableInfo, int)> {
    match dec_u32(s) {
        None => None,
        Some((index, n1)) => match dec_u32(s.skip(n1)) {
            None => None,
            Some((identifier, n2)) => Some((ControllableInfo { index, identifier }, n1 + n2)),
        },
    }
}

pub proof fn lemma_dec_enc_ci(ci: ControllableInfo, rest: Seq<u8>)
    ensures
        dec_ci(enc_ci(ci) + rest) == Some((ci, enc_ci(ci).len() as int)),
{
    reveal(enc_ci);
    reveal(dec_ci);
    let s = enc_ci(ci) + rest;
    assert(s =~= enc_u32(ci.index) + (enc_u32(ci.identifier) + rest));
    lemma_dec_enc_u32(ci.index, enc_u32(ci.identifier) + rest);
    assert(s.skip(4) =~= enc_u32(ci.identifier) + rest);
    lemma_dec_enc_u32(ci.identifier, rest);
}

pub fn push_ci(out: &mut Vec<u8>, ci: &ControllableInfo)
    ensures
        final(out)@ == old(out)@ + enc_ci(*ci),
{
    proof { reveal(enc_ci); }
    push_u32_be(out, ci.index);
    push_u32_be(out, ci.identifier);
    proof {
        assert(out@ =~= old(out)@ + enc_ci(*ci));
    }
}

pub fn decode_ci(buf: &Vec<u8>, pos: usize) -> (r: Option<(ControllableInfo, usize)>)
    requires
        pos <= buf@.len(),
    ensures
        match r {
            Some((v, np)) => dec_ci(buf@.skip(pos as int)) == Some((v, np - pos)) && pos < np
                <= buf@.len(),
            None => dec_ci(buf@.skip(pos as int)) is None,
        },
{
    proof { reveal(dec_ci); }
    let (index, p1) = match decode_u32(buf, pos) {
        Some(r) => r,
        None => {
            return None;
        },
    };
    proof {
        lemma_skip_add(buf@, pos as int, p1 - pos);
    }
    let (identifier, p2) = match decode_u32(buf, p1) {
        Some(r) => r,
        None => {
            return None;
        },
    };
    Some((ControllableInfo { index, identifier }, p2))
}

#[verifier::opaque]
pub open spec fn enc_v3p(v: Vector3Partial) -> Seq<u8> {
    enc_3opt(v.x, v.y, v.z)
}

#[verifier::opaque]
pub open spec fn dec_v3p(s: Seq<u8>) -> Option<(Vector3Partial, int)> {
    match dec_3opt(s) {
        None => None,
        Some(((x, y, z), n)) => Some((Vector3Partial { x, y, z }, n)),
    }
}

pub proof fn lemma_dec_enc_v3p(v: Vector3Partial, rest: Seq<u8>)
    ensures
        dec_v3p(enc_v3p(v) + rest) == Some((v, enc_v3p(v).len() as int)),
{
    reveal(enc_v3p);
    reveal(dec_v3p);
    lemma_dec_enc_3opt(v.x, v.y, v.z, rest);
}

pub fn push_v3p(out: &mut Vec<u8>, v: &Vector3Partial)
    ensures
        final(out)@ == old(out)@ + enc_v3p(*v),
{
    proof { reveal(enc_v3p); }
    push_3opt(out, &v.x, &v.y, &v.z);
}

pub fn decode_v3p(buf: &Vec<u8>, pos: usize) -> (r: Option<(Vector3Partial, usize)>)
    requires
        pos <= buf@.len(),
    ensures
        match r {
            Some((v, np)) => dec_v3p(buf@.skip(pos as int)) == Some((v, np - pos)) && pos < np
                <= buf@.len(),
            None => dec_v3p(buf@.skip(pos as int)) is None,
        },
{
    proof { reveal(dec_v3p); }
    match decode_3opt(buf, pos) {
        Some(((x, y, z), np)) => Some((Vector3Partial { x, y, z }, np)),
        None => None,
    }
}

#[verifier::opaque]
pub open spec fn enc_rotp(v: RotatorPartial) -> Seq<u8> {
    enc_3opt(v.pitch, v.yaw, v.roll)
}

#[verifier::opaque]
pub open spec fn dec_rotp(s: Seq<u8>) -> Option<(RotatorPartial, int)> {
    match dec_3opt(s) {
        None => None,
        Some(((pitch, yaw, roll), n)) => Some((RotatorPartial { pitch, yaw, roll }, n)),
    }
}

pub proof fn lemma_dec_enc_rotp(v: RotatorPartial, rest: Seq<u8>)
    ensures
        dec_rotp(enc_rotp(v) + rest) == Some((v, enc_rotp(v).len() as int)),
{
    reveal(enc_rotp);
    reveal(dec_rotp);
    lemma_dec_enc_3opt(v.pitch, v.yaw, v.roll, rest);
}

pub fn push_rotp(out: &mut Vec<u8>, v: &RotatorPartial)
    ensures
        final(out)@ == old(out)@ + enc_rotp(*v),
{
    proof { reveal(enc_rotp); }
    push_3opt(out, &v.pitch, &v.yaw, &v.roll);
}

pub fn decode_rotp(buf: &Vec<u8>, pos: usize) -> (r: Option<(RotatorPartial, usize)>)
    requires
        pos <= buf@.len(),
    ensures
        match r {
            Some((v, np)) => dec_rotp(buf@.skip(pos as int)) == Some((v, np - pos)) && pos < np
                <= buf@.len(),
            None => dec_rotp(buf@.skip(pos as int)) is None,
        },
{
    proof { reveal(dec_rotp); }
    match decode_3opt(buf, pos) {
        Some(((pitch, yaw, roll), np)) => Some((RotatorPartial { pitch, yaw, roll }, np)),
        None => None,
    }
}

#[verifier::opaque]
pub open spec fn enc_opt_v3p(o: Option<Vector3Partial>) -> Seq<u8> {
    match o {
        None => seq![0u8],
        Some(v) => seq![1u8] + enc_v3p(v),
    }
}

#[verifier::opaque]
pub open spec fn dec_opt_v3p(s: Seq<u8>) -> Option<(Option<Vector3Partial>, int)> {
    match dec_u8(s) {
        None => None,
        Some((tag, _)) => {
            if tag == 0 {
                Some((None::<Vector3Partial>, 1int))
            } else if tag == 1 {
                match dec_v3p(s.skip(1)) {
                    None => None,
                    Some((v, n)) => Some((Some(v), 1 + n)),
                }
            } else {
                None
            }
        },
    }
}

pub proof fn lemma_dec_enc_opt_v3p(o: Option<Vector3Partial>, rest: Seq<u8>)
    ensures
        dec_opt_v3p(enc_opt_v3p(o) + rest) == Some((o, enc_opt_v3p(o).len() as int)),
{
    reveal(enc_opt_v3p);
    reveal(dec_opt_v3p);
    let s = enc_opt_v3p(o) + rest;
    match o {
        None => {
            assert(s[0] == 0u8);
        },
        Some(v) => {
            assert(s[0] == 1u8);
            assert(s.skip(1) =~= enc_v3p(v) + rest);
            lemma_dec_enc_v3p(v, rest);
        },
    }
}

pub fn push_opt_v3p(out: &mut Vec<u8>, o: &Option<Vector3Partial>)
    ensures
        final(out)@ == old(out)@ + enc_opt_v3p(*o),
{
    proof { reveal(enc_opt_v3p); }
    match o {
        None => {
            out.push(0u8);
        },
        Some(v) => {
            out.push(1u8);
            push_v3p(out, v);
        },
    }
    proof {
        assert(out@ =~= old(out)@ + enc_opt_v3p(*o));
    }
}

pub fn decode_opt_v3p(buf: &Vec<u8>, pos: usize) -> (r: Option<(Option<Vector3Partial>, usize)>)
    requires
        pos <= buf@.len(),
    ensures
        match r {
            Some((v, np)) => dec_opt_v3p(buf@.skip(pos as int)) == Some((v, np - pos)) && pos < np
                <= buf@.len(),
            None => dec_opt_v3p(buf@.skip(pos as int)) is None,
        },
{
    proof { reveal(dec_opt_v3p); }
    let (tag, p1) = match decode_u8(buf, pos) {
        Some(r) => r,
        None => {
            return None;
        },
    };
    if tag == 0 {
        Some((None, p1))
    } else if tag == 1 {
        proof {
            lemma_skip_add(buf@, pos as int, 1);
        }
        let (v, p2) = match decode_v3p(buf, p1) {
            Some(r) => r,
            None => {
                return None;
            },
        };
        Some((Some(v), p2))
    } else {
        None
    }
}

#[verifier::opaque]
pub open spec fn enc_opt_rotp(o: Option<RotatorPartial>) -> Seq<u8> {
    match o {
        None => seq![0u8],
        Some(v) => seq![1u8] + enc_rotp(v),
    }
}

#[verifier::opaque]
pub open spec fn dec_opt_rotp(s: Seq<u8>) -> Option<(Option<RotatorPartial>, int)> {
    match dec_u8(s) {
        None => None,
        Some((tag, _)) => {
            if tag == 0 {
                Some((None::<RotatorPartial>, 1int))
            } else if tag == 1 {
                match dec_rotp(s.skip(1)) {
                    None => None,
                    Some((v, n)) => Some((Some(v), 1 + n)),
                }
            } else {
                None
            }
        },
    }
}

pub proof fn lemma_dec_enc_opt_rotp(o: Option<RotatorPartial>, rest: Seq<u8>)
    ensures
        dec_opt_rotp(enc_opt_rotp(o) + rest) == Some((o, enc_opt_rotp(o).len() as int)),
{
    reveal(enc_opt_rotp);
    reveal(dec_opt_rotp);
    let s = enc_opt_rotp(o) + rest;
    match o {
        None => {
            assert(s[0] == 0u8);
        },
        Some(v) => {
            assert(s[0] == 1u8);
            assert(s.skip(1) =~= enc_rotp(v) + rest);
            lemma_dec_enc_rotp(v, rest);
        },
    }
}

pub fn push_opt_rotp(out: &mut Vec<u8>, o: &Option<RotatorPartial>)
    ensures
        final(out)@ == old(out)@ + enc_opt_rotp(*o),
{
    proof { reveal(enc_opt_rotp); }
    match o {
        None => {
            out.push(0u8);
        },
        Some(v) => {
            out.push(1u8);
            push_rotp(out, v);
        },
    }
    proof {
        assert(out@ =~= old(out)@ + enc_opt_rotp(*o));
    }
}

pub fn decode_opt_rotp(buf: &Vec<u8>, pos: usize) -> (r: Option<(Option<RotatorPartial>, usize)>)
    requires
        pos <= buf@.len(),
    ensures
        match r {
            Some((v, np)) => dec_opt_rotp(buf@.skip(pos as int)) == Some((v, np - pos)) && pos < np
                <= buf@.len(),
            None => dec_opt_rotp(buf@.skip(pos as int)) is None,
        },
{
    proof { reveal(dec_opt_rotp); }
    let (tag, p1) = match decode_u8(buf, pos) {
        Some(r) => r,
        None => {
            return None;
        },
    };
    if tag == 0 {
        Some((None, p1))
    } else if tag == 1 {
        proof {
            lemma_skip_add(buf@, pos as int, 1);
        }
        let (v, p2) = match decode_rotp(buf, p1) {
            Some(r) => r,
            None => {
                return None;
            },
        };
        Some((Some(v), p2))
    } else {
        None
    }
}

#[verifier::opaque]
pub open spec fn enc_physics(p: DesiredPhysics) -> Seq<u8> {
    enc_opt_v3p(p.location) + enc_opt_rotp(p.rotation) + enc_opt_v3p(p.velocity) + enc_opt_v3p(
        p.angular_velocity,
    )
}

#[verifier::opaque]
pub open spec fn dec_physics(s: Seq<u8>) -> Option<(DesiredPhysics, int)> {
    match dec_opt_v3p(s) {
        None => None,
        Some((location, n1)) => match dec_opt_rotp(s.skip(n1)) {
            None => None,
            Some((rotation, n2)) => match dec_opt_v3p(s.skip(n1).skip(n2)) {
                None => None,
                Some((velocity, n3)) => match dec_opt_v3p(s.skip(n1).skip(n2).skip(n3)) {
                    None => None,
                    Some((angular_velocity, n4)) => Some(
                        (
                            DesiredPhysics { location, rotation, velocity, angular_velocity },
                            n1 + n2 + n3 + n4,
                        ),
                    ),
                },
            },
        },
    }
}

#[verifier::rlimit(50)]
pub proof fn lemma_dec_enc_physics(p: DesiredPhysics, rest: Seq<u8>)
    ensures
        dec_physics(enc_physics(p) + rest) == Some((p, enc_physics(p).len() as int)),
{
    reveal(enc_physics);
    reveal(dec_physics);
    let s = enc_physics(p) + rest;
    let e1 = enc_opt_v3p(p.location);
    let e2 = enc_opt_rotp(p.rotation);
    let e3 = enc_opt_v3p(p.velocity);
    let e4 = enc_opt_v3p(p.angular_velocity);
    assert(s =~= e1 + (e2 + e3 + e4 + rest));
    lemma_dec_enc_opt_v3p(p.location, e2 + e3 + e4 + rest);
    assert(s.skip(e1.len() as int) =~= e2 + (e3 + e4 + rest));
    lemma_dec_enc_opt_rotp(p.rotation, e3 + e4 + rest);
    assert(s.skip(e1.len() as int).skip(e2.len() as int) =~= e3 + (e4 + rest));
    lemma_dec_enc_opt_v3p(p.velocity, e4 + rest);
    assert(s.skip(e1.len() as int).skip(e2.len() as int).skip(e3.len() as int) =~= e4 + rest);
    lemma_dec_enc_opt_v3p(p.angular_velocity, rest);
}

pub fn push_physics(out: &mut Vec<u8>, p: &DesiredPhysics)
    ensures
        final(out)@ == old(out)@ + enc_physics(*p),
{
    proof { reveal(enc_physics); }
    push_opt_v3p(out, &p.location);
    push_opt_rotp(out, &p.rotation);
    push_opt_v3p(out, &p.velocity);
    push_opt_v3p(out, &p.angular_velocity);
    proof {
        assert(out@ =~= old(out)@ + enc_physics(*p));
    }
}

pub fn decode_physics(buf: &Vec<u8>, pos: usize) -> (r: Option<(DesiredPhysics, usize)>)
    requires
        pos <= buf@.len(),
    ensures
        match r {
            Some((v, np)) => dec_physics(buf@.skip(pos as int)) == Some((v, np - pos)) && pos < np
                <= buf@.len(),
            None => dec_physics(buf@.skip(pos as int)) is None,
        },
{
    proof { reveal(dec_physics); }
    let (location, p1) = match decode_opt_v3p(buf, pos) {
        Some(r) => r,
        None => {
            return None;
        },
    };
    proof {
        lemma_skip_add(buf@, pos as int, p1 - pos);
    }
    let (rotation, p2) = match decode_opt_rotp(buf, p1) {
        Some(r) => r,
        None => {
            return None;
        },
    };
    proof {
        lemma_skip_add(buf@, p1 as int, p2 - p1);
    }
    let (velocity, p3) = match decode_opt_v3p(buf, p2) {
        Some(r) => r,
        None => {
            return None;
        },
    };
    proof {
        lemma_skip_add(buf@, p2 as int, p3 - p2);
    }
    let (angular_velocity, p4) = match decode_opt_v3p(buf, p3) {
        Some(r) => r,
        None => {
            return None;
        },
    };
    Some((DesiredPhysics { location, rotation, velocity, angular_velocity }, p4))
}

#[verifier::opaque]
pub open spec fn enc_opt_physics(o: Option<DesiredPhysics>) -> Seq<u8> {
    match o {
        None => seq![0u8],
        Some(v) => seq![1u8] + enc_physics(v),
    }
}

#[verifier::opaque]
pub open spec fn dec_opt_physics(s: Seq<u8>) -> Option<(Option<DesiredPhysics>, int)> {
    match dec_u8(s) {
        None => None,
        Some((tag, _)) => {
            if tag == 0 {
                Some((None::<DesiredPhysics>, 1int))
            } else if tag == 1 {
                match dec_physics(s.skip(1)) {
                    None => None,
                    Some((v, n)) => Some((Some(v), 1 + n)),
                }
            } else {
                None
            }
        },
    }
}

pub proof fn lemma_dec_enc_opt_physics(o: Option<DesiredPhysics>, rest: Seq<u8>)
    ensures
        dec_opt_physics(enc_opt_physics(o) + rest) == Some((o, enc_opt_physics(o).len() as int)),
{
    reveal(enc_opt_physics);
    reveal(dec_opt_physics);
    let s = enc_opt_physics(o) + rest;
    match o {
        None => {
            assert(s[0] == 0u8);
        },
        Some(v) => {
            assert(s[0] == 1u8);
            assert(s.skip(1) =~= enc_physics(v) + rest);
            lemma_dec_enc_physics(v, rest);
        },
    }
}

pub fn push_opt_physics(out: &mut Vec<u8>, o: &Option<DesiredPhysics>)
    ensures
        final(out)@ == old(out)@ + enc_opt_physics(*o),
{
    proof { reveal(enc_opt_physics); }
    match o {
        None => {
            out.push(0u8);
        },
        Some(v) => {
            out.push(1u8);
            push_physics(out, v);
        },
    }
    proof {
        assert(out@ =~= old(out)@ + enc_opt_physics(*o));
    }
}

pub fn decode_opt_physics(buf: &Vec<u8>, pos: usize) -> (r: Option<(Option<DesiredPhysics>, usize)>)
    requires
        pos <= buf@.len(),
    ensures
        match r {
            Some((v, np)) => dec_opt_physics(buf@.skip(pos as int)) == Some((v, np - pos)) && pos
                < np <= buf@.len(),
            None => dec_opt_physics(buf@.skip(pos as int)) is None,
        },
{
    proof { reveal(dec_opt_physics); }
    let (tag, p1) = match decode_u8(buf, pos) {
        Some(r) => r,
        None => {
            return None;
        },
    };
    if tag == 0 {
        Some((None, p1))
    } else if tag == 1 {
        proof {
            lemma_skip_add(buf@, pos as int, 1);
        }
        let (v, p2) = match decode_physics(buf, p1) {
            Some(r) => r,
            None => {
                return None;
            },
        };
        Some((Some(v), p2))
    } else {
        None
    }
}

#[verifier::opaque]
pub open spec fn enc_car(c: DesiredCarState) -> Seq<u8> {
    enc_opt_physics(c.physics) + enc_opt_u32(c.boost_amount)
}

#[verifier::opaque]
pub open spec fn dec_car(s: Seq<u8>) -> Option<(DesiredCarState, int)> {
    match dec_opt_physics(s) {
        None => None,
        Some((physics, n1)) => match dec_opt_u32(s.skip(n1)) {
            None => None,
            Some((boost_amount, n2)) => Some((DesiredCarState { physics, boost_amount }, n1 + n2)),
        },
    }
}

pub proof fn lemma_dec_enc_car(c: DesiredCarState, rest: Seq<u8>)
    ensures
        dec_car(enc_car(c) + rest) == Some((c, enc_car(c).len() as int)),
{
    reveal(enc_car);
    reveal(dec_car);
    let s = enc_car(c) + rest;
    let e1 = enc_opt_physics(c.physics);
    assert(s =~= e1 + (enc_opt_u32(c.boost_amount) + rest));
    lemma_dec_enc_opt_physics(c.physics, enc_opt_u32(c.boost_amount) + rest);
    assert(s.skip(e1.len() as int) =~= enc_opt_u32(c.boost_amount) + rest);
    lemma_dec_enc_opt_u32(c.boost_amount, rest);
}

pub fn push_car(out: &mut Vec<u8>, c: &DesiredCarState)
    ensures
        final(out)@ == old(out)@ + enc_car(*c),
{
    proof { reveal(enc_car); }
    push_opt_physics(out, &c.physics);
    push_opt_u32(out, &c.boost_amount);
    proof {
        assert(out@ =~= old(out)@ + enc_car(*c));
    }
}

pub fn decode_car(buf: &Vec<u8>, pos: usize) -> (r: Option<(DesiredCarState, usize)>)
    requires
        pos <= buf@.len(),
    ensures
        match r {
            Some((v, np)) => dec_car(buf@.skip(pos as int)) == Some((v, np - pos)) && pos < np
                <= buf@.len(),
            None => dec_car(buf@.skip(pos as int)) is None,
        },
{
    proof { reveal(dec_car); }
    let (physics, p1) = match decode_opt_physics(buf, pos) {
        Some(r) => r,
        None => {
            return None;
        },
    };
    proof {
        lemma_skip_add(buf@, pos as int, p1 - pos);
    }
    let (boost_amount, p2) = match decode_opt_u32(buf, p1) {
        Some(r) => r,
        None => {
            return None;
        },
    };
    Some((DesiredCarState { physics, boost_amount }, p2))
}

#[verifier::opaque]
pub open spec fn enc_ball(b: DesiredBallState) -> Seq<u8> {
    enc_physics(b.physics)
}

#[verifier::opaque]
pub open spec fn dec_ball(s: Seq<u8>) -> Option<(DesiredBallState, int)> {
    match dec_physics(s) {
        None => None,
        Some((physics, n)) => Some((DesiredBallState { physics }, n)),
    }
}

pub proof fn lemma_dec_enc_ball(b: DesiredBallState, rest: Seq<u8>)
    ensures
        dec_ball(enc_ball(b) + rest) == Some((b, enc_ball(b).len() as int)),
{
    reveal(enc_ball);
    reveal(dec_ball);
    lemma_dec_enc_physics(b.physics, rest);
}

pub fn push_ball(out: &mut Vec<u8>, b: &DesiredBallState)
    ensures
        final(out)@ == old(out)@ + enc_ball(*b),
{
    proof { reveal(enc_ball); }
    push_physics(out, &b.physics);
}

pub fn decode_ball(buf: &Vec<u8>, pos: usize) -> (r: Option<(DesiredBallState, usize)>)
    requires
        pos <= buf@.len(),
    ensures
        match r {
            Some((v, np)) => dec_ball(buf@.skip(pos as int)) == Some((v, np - pos)) && pos < np
                <= buf@.len(),
            None => dec_ball(buf@.skip(pos as int)) is None,
        },
{
    proof { reveal(dec_ball); }
    match decode_physics(buf, pos) {
        Some((physics, np)) => Some((DesiredBallState { physics }, np)),
        None => None,
    }
}

#[verifier::opaque]
pub open spec fn enc_matchinfo(m: DesiredMatchInfo) -> Seq<u8> {
    enc_opt_u32(m.world_gravity_z) + enc_opt_u32(m.game_speed)
}

#[verifier::opaque]
pub open spec fn dec_matchinfo(s: Seq<u8>) -> Option<(DesiredMatchInfo, int)> {
    match dec_opt_u32(s) {
        None => None,
        Some((world_gravity_z, n1)) => match dec_opt_u32(s.skip(n1)) {
            None => None,
            Some((game_speed, n2)) => Some(
                (DesiredMatchInfo { world_gravity_z, game_speed }, n1 + n2),
            ),
        },
    }
}

pub proof fn lemma_dec_enc_matchinfo(m: DesiredMatchInfo, rest: Seq<u8>)
    ensures
        dec_matchinfo(enc_matchinfo(m) + rest) == Some((m, enc_matchinfo(m).len() as int)),
{
    reveal(enc_matchinfo);
    reveal(dec_matchinfo);
    let s = enc_matchinfo(m) + rest;
    let e1 = enc_opt_u32(m.world_gravity_z);
    assert(s =~= e1 + (enc_opt_u32(m.game_speed) + rest));
    lemma_dec_enc_opt_u32(m.world_gravity_z, enc_opt_u32(m.game_speed) + rest);
    assert(s.skip(e1.len() as int) =~= enc_opt_u32(m.game_speed) + rest);
    lemma_dec_enc_opt_u32(m.game_speed, rest);
}

pub fn push_matchinfo(out: &mut Vec<u8>, m: &DesiredMatchInfo)
    ensures
        final(out)@ == old(out)@ + enc_matchinfo(*m),
{
    proof { reveal(enc_matchinfo); }
    push_opt_u32(out, &m.world_gravity_z);
    push_opt_u32(out, &m.game_speed);
    proof {
        assert(out@ =~= old(out)@ + enc_matchinfo(*m));
    }
}

pub fn decode_matchinfo(buf: &Vec<u8>, pos: usize) -> (r: Option<(DesiredMatchInfo, usize)>)
    requires
        pos <= buf@.len(),
    ensures
        match r {
            Some((v, np)) => dec_matchinfo(buf@.skip(pos as int)) == Some((v, np - pos)) && pos
                < np <= buf@.len(),
            None => dec_matchinfo(buf@.skip(pos as int)) is None,
        },
{
    proof { reveal(dec_matchinfo); }
    let (world_gravity_z, p1) = match decode_opt_u32(buf, pos) {
        Some(r) => r,
        None => {
            return None;
        },
    };
    proof {
        lemma_skip_add(buf@, pos as int, p1 - pos);
    }
    let (game_speed, p2) = match decode_opt_u32(buf, p1) {
        Some(r) => r,
        None => {
            return None;
        },
    };
    Some((DesiredMatchInfo { world_gravity_z, game_speed }, p2))
}

#[verifier::opaque]
pub open spec fn enc_opt_matchinfo(o: Option<DesiredMatchInfo>) -> Seq<u8> {
    match o {
        None => seq![0u8],
        Some(v) => seq![1u8] + enc_matchinfo(v),
    }
}

#[verifier::opaque]
pub open spec fn dec_opt_matchinfo(s: Seq<u8>) -> Option<(Option<DesiredMatchInfo>, int)> {
    match dec_u8(s) {
        None => None,
        Some((tag, _)) => {
            if tag == 0 {
                Some((None::<DesiredMatchInfo>, 1int))
            } else if tag == 1 {
                match dec_matchinfo(s.skip(1)) {
                    None => None,
                    Some((v, n)) => Some((Some(v), 1 + n)),
                }
            } else {
                None
            }
        },
    }
}

pub proof fn lemma_dec_enc_opt_matchinfo(o: Option<DesiredMatchInfo>, rest: Seq<u8>)
    ensures
        dec_opt_matchinfo(enc_opt_matchinfo(o) + rest) == Some(
            (o, enc_opt_matchinfo(o).len() as int),
        ),
{
    reveal(enc_opt_matchinfo);
    reveal(dec_opt_matchinfo);
    let s = enc_opt_matchinfo(o) + rest;
    match o {
        None => {
            assert(s[0] == 0u8);
        },
        Some(v) => {
            assert(s[0] == 1u8);
            assert(s.skip(1) =~= enc_matchinfo(v) + rest);
            lemma_dec_enc_matchinfo(v, rest);
        },
    }
}

pub fn push_opt_matchinfo(out: &mut Vec<u8>, o: &Option<DesiredMatchInfo>)
    ensures
        final(out)@ == old(out)@ + enc_opt_matchinfo(*o),
{
    proof { reveal(enc_opt_matchinfo); }
    match o {
        None => {
            out.push(0u8);
        },
        Some(v) => {
            out.push(1u8);
            push_matchinfo(out, v);
        },
    }
    proof {
        assert(out@ =~= old(out)@ + enc_opt_matchinfo(*o));
    }
}

pub fn decode_opt_matchinfo(buf: &Vec<u8>, pos: usize) -> (r: Option<
    (Option<DesiredMatchInfo>, usize),
>)
    requires
        pos <= buf@.len(),
    ensures
        match r {
            Some((v, np)) => dec_opt_matchinfo(buf@.skip(pos as int)) == Some((v, np - pos)) && pos
                < np <= buf@.len(),
            None => dec_opt_matchinfo(buf@.skip(pos as int)) is None,
        },
{
    proof { reveal(dec_opt_matchinfo); }
    let (tag, p1) = match decode_u8(buf, pos) {
        Some(r) => r,
        None => {
            return None;
        },
    };
    if tag == 0 {
        Some((None, p1))
    } else if tag == 1 {
        proof {
            lemma_skip_add(buf@, pos as int, 1);
        }
        let (v, p2) = match decode_matchinfo(buf, p1) {
            Some(r) => r,
            None => {
                return None;
            },
        };
        Some((Some(v), p2))
    } else {
        None
    }
}

#[verifier::opaque]
pub open spec fn enc_relanchor(a: RelativeAnchor) -> Seq<u8> {
    match a {
        RelativeAnchor::CarAnchor(c) => seq![0u8] + enc_u32(c.index) + enc_vector3(c.local),
        RelativeAnchor::BallAnchor(b) => seq![1u8] + enc_u32(b.index) + enc_vector3(b.local),
    }
}

#[verifier::opaque]
pub open spec fn dec_relanchor(s: Seq<u8>) -> Option<(RelativeAnchor, int)> {
    match dec_u8(s) {
        None => None,
        Some((tag, _)) => {
            if tag == 0 || tag == 1 {
                match dec_u32(s.skip(1)) {
                    None => None,
                    Some((index, n1)) => match dec_vector3(s.skip(1).skip(n1)) {
                        None => None,
                        Some((local, n2)) => Some(
                            (
                                if tag == 0 {
                                    RelativeAnchor::CarAnchor(CarAnchor { index, local })
                                } else {
                                    RelativeAnchor::BallAnchor(BallAnchor { index, local })
                                },
                                1 + n1 + n2,
                            ),
                        ),
                    },
                }
            } else {
                None
            }
        },
    }
}

pub proof fn lemma_dec_enc_relanchor(a: RelativeAnchor, rest: Seq<u8>)
    ensures
        dec_relanchor(enc_relanchor(a) + rest) == Some((a, enc_relanchor(a).len() as int)),
{
    reveal(enc_relanchor);
    reveal(dec_relanchor);
    let s = enc_relanchor(a) + rest;
    match a {
        RelativeAnchor::CarAnchor(c) => {
            assert(s[0] == 0u8);
            assert(s.skip(1) =~= enc_u32(c.index) + (enc_vector3(c.local) + rest));
            lemma_dec_enc_u32(c.index, enc_vector3(c.local) + rest);
            assert(s.skip(1).skip(4) =~= enc_vector3(c.local) + rest);
            lemma_dec_enc_vector3(c.local, rest);
        },
        RelativeAnchor::BallAnchor(b) => {
            assert(s[0] == 1u8);
            assert(s.skip(1) =~= enc_u32(b.index) + (enc_vector3(b.local) + rest));
            lemma_dec_enc_u32(b.index, enc_vector3(b.local) + rest);
            assert(s.skip(1).skip(4) =~= enc_vector3(b.local) + rest);
            lemma_dec_enc_vector3(b.local, rest);
        },
    }
}

pub fn push_relanchor(out: &mut Vec<u8>, a: &RelativeAnchor)
    ensures
        final(out)@ == old(out)@ + enc_relanchor(*a),
{
    proof { reveal(enc_relanchor); }
    match a {
        RelativeAnchor::CarAnchor(c) => {
            out.push(0u8);
            push_u32_be(out, c.index);
            push_vector3(out, &c.local);
        },
        RelativeAnchor::BallAnchor(b) => {
            out.push(1u8);
            push_u32_be(out, b.index);
            push_vector3(out, &b.local);
        },
    }
    proof {
        assert(out@ =~= old(out)@ + enc_relanchor(*a));
    }
}

pub fn decode_relanchor(buf: &Vec<u8>, pos: usize) -> (r: Option<(RelativeAnchor, usize)>)
    requires
        pos <= buf@.len(),
    ensures
        match r {
            Some((v, np)) => dec_relanchor(buf@.skip(pos as int)) == Some((v, np - pos)) && pos
                < np <= buf@.len(),
            None => dec_relanchor(buf@.skip(pos as int)) is None,
        },
{
    proof { reveal(dec_relanchor); }
    let (tag, p1) = match decode_u8(buf, pos) {
        Some(r) => r,
        None => {
            return None;
        },
    };
    if tag > 1 {
        return None;
    }
    proof {
        lemma_skip_add(buf@, pos as int, 1);
    }
    let (index, p2) = match decode_u32(buf, p1) {
        Some(r) => r,
        None => {
            return None;
        },
    };
    proof {
        lemma_skip_add(buf@, p1 as int, p2 - p1);
    }
    let (local, p3) = match decode_vector3(buf, p2) {
        Some(r) => r,
        None => {
            return None;
        },
    };
    if tag == 0 {
        Some((RelativeAnchor::CarAnchor(CarAnchor { index, local }), p3))
    } else {
        Some((RelativeAnchor::BallAnchor(BallAnchor { index, local }), p3))
    }
}

#[verifier::opaque]
pub open spec fn enc_opt_relanchor(o: Option<RelativeAnchor>) -> Seq<u8> {
    match o {
        None => seq![0u8],
        Some(v) => seq![1u8] + enc_relanchor(v),
    }
}

#[verifier::opaque]
pub open spec fn dec_opt_relanchor(s: Seq<u8>) -> Option<(Option<RelativeAnchor>, int)> {
    match dec_u8(s) {
        None => None,
        Some((tag, _)) => {
            if tag == 0 {
                Some((None::<RelativeAnchor>, 1int))
            } else if tag == 1 {
                match dec_relanchor(s.skip(1)) {
                    None => None,
                    Some((v, n)) => Some((Some(v), 1 + n)),
                }
            } else {
                None
            }
        },
    }
}

pub proof fn lemma_dec_enc_opt_relanchor(o: Option<RelativeAnchor>, rest: Seq<u8>)
    ensures
        dec_opt_relanchor(enc_opt_relanchor(o) + rest) == Some(
            (o, enc_opt_relanchor(o).len() as int),
        ),
{
    reveal(enc_opt_relanchor);
    reveal(dec_opt_relanchor);
    let s = enc_opt_relanchor(o) + rest;
    match o {
        None => {
            assert(s[0] == 0u8);
        },
        Some(v) => {
            assert(s[0] == 1u8);
            assert(s.skip(1) =~= enc_relanchor(v) + rest);
            lemma_dec_enc_relanchor(v, rest);
        },
    }
}

pub fn push_opt_relanchor(out: &mut Vec<u8>, o: &Option<RelativeAnchor>)
    ensures
        final(out)@ == old(out)@ + enc_opt_relanchor(*o),
{
    proof { reveal(enc_opt_relanchor); }
    match o {
        None => {
            out.push(0u8);
        },
        Some(v) => {
            out.push(1u8);
            push_relanchor(out, v);
        },
    }
    proof {
        assert(out@ =~= old(out)@ + enc_opt_relanchor(*o));
    }
}

pub fn decode_opt_relanchor(buf: &Vec<u8>, pos: usize) -> (r: Option<
    (Option<RelativeAnchor>, usize),
>)
    requires
        pos <= buf@.len(),
    ensures
        match r {
            Some((v, np)) => dec_opt_relanchor(buf@.skip(pos as int)) == Some((v, np - pos)) && pos
                < np <= buf@.len(),
            None => dec_opt_relanchor(buf@.skip(pos as int)) is None,
        },
{
    proof { reveal(dec_opt_relanchor); }
    let (tag, p1) = match decode_u8(buf, pos) {
        Some(r) => r,
        None => {
            return None;
        },
    };
    if tag == 0 {
        Some((None, p1))
    } else if tag == 1 {
        proof {
            lemma_skip_add(buf@, pos as int, 1);
        }
        let (v, p2) = match decode_relanchor(buf, p1) {
            Some(r) => r,
            None => {
                return None;
            },
        };
        Some((Some(v), p2))
    } else {
        None
    }
}

#[verifier::opaque]
pub open spec fn enc_anchor(a: RenderAnchor) -> Seq<u8> {
    enc_vector3(a.world) + enc_opt_relanchor(a.relative)
}

#[verifier::opaque]
pub open spec fn dec_anchor(s: Seq<u8>) -> Option<(RenderAnchor, int)> {
    match dec_vector3(s) {
        None => None,
        Some((world, n1)) => match dec_opt_relanchor(s.skip(n1)) {
            None => None,
            Some((relative, n2)) => Some((RenderAnchor { world, relative }, n1 + n2)),
        },
    }
}

pub proof fn lemma_dec_enc_anchor(a: RenderAnchor, rest: Seq<u8>)
    ensures
        dec_anchor(enc_anchor(a) + rest) == Some((a, enc_anchor(a).len() as int)),
{
    reveal(enc_anchor);
    reveal(dec_anchor);
    let s = enc_anchor(a) + rest;
    let e1 = enc_vector3(a.world);
    assert(s =~= e1 + (enc_opt_relanchor(a.relative) + rest));
    lemma_dec_enc_vector3(a.world, enc_opt_relanchor(a.relative) + rest);
    assert(s.skip(e1.len() as int) =~= enc_opt_relanchor(a.relative) + rest);
    lemma_dec_enc_opt_relanchor(a.relative, rest);
}

pub fn push_anchor(out: &mut Vec<u8>, a: &RenderAnchor)
    ensures
        final(out)@ == old(out)@ + enc_anchor(*a),
{
    proof { reveal(enc_anchor); }
    push_vector3(out, &a.world);
    push_opt_relanchor(out, &a.relative);
    proof {
        assert(out@ =~= old(out)@ + enc_anchor(*a));
    }
}

pub fn decode_anchor(buf: &Vec<u8>, pos: usize) -> (r: Option<(RenderAnchor, usize)>)
    requires
        pos <= buf@.len(),
    ensures
        match r {
            Some((v, np)) => dec_anchor(buf@.skip(pos as int)) == Some((v, np - pos)) && pos < np
                <= buf@.len(),
            None => dec_anchor(buf@.skip(pos as int)) is None,
        },
{
    proof { reveal(dec_anchor); }
    let (world, p1) = match decode_vector3(buf, pos) {
        Some(r) => r,
        None => {
            return None;
        },
    };
    proof {
        lemma_skip_add(buf@, pos as int, p1 - pos);
    }
    let (relative, p2) = match decode_opt_relanchor(buf, p1) {
        Some(r) => r,
        None => {
            return None;
        },
    };
    Some((RenderAnchor { world, relative }, p2))
}

#[verifier::opaque]
pub open spec fn enc_line3d(l: Line3D) -> Seq<u8> {
    enc_anchor(l.start) + enc_anchor(l.end) + enc_color(l.color)
}

#[verifier::opaque]
pub open spec fn dec_line3d(s: Seq<u8>) -> Option<(Line3D, int)> {
    match dec_anchor(s) {
        None => None,
        Some((start, n1)) => match dec_anchor(s.skip(n1)) {
            None => None,
            Some((end, n2)) => match dec_color(s.skip(n1).skip(n2)) {
                None => None,
                Some((color, n3)) => Some((Line3D { start, end, color }, n1 + n2 + n3)),
            },
        },
    }
}

pub proof fn lemma_dec_enc_line3d(l: Line3D, rest: Seq<u8>)
    ensures
        dec_line3d(enc_line3d(l) + rest) == Some((l, enc_line3d(l).len() as int)),
{
    reveal(enc_line3d);
    reveal(dec_line3d);
    let s = enc_line3d(l) + rest;
    let e1 = enc_anchor(l.start);
    let e2 = enc_anchor(l.end);
    assert(s =~= e1 + (e2 + enc_color(l.color) + rest));
    lemma_dec_enc_anchor(l.start, e2 + enc_color(l.color) + rest);
    assert(s.skip(e1.len() as int) =~= e2 + (enc_color(l.color) + rest));
    lemma_dec_enc_anchor(l.end, enc_color(l.color) + rest);
    assert(s.skip(e1.len() as int).skip(e2.len() as int) =~= enc_color(l.color) + rest);
    lemma_dec_enc_color(l.color, rest);
}

pub fn push_line3d(out: &mut Vec<u8>, l: &Line3D)
    ensures
        final(out)@ == old(out)@ + enc_line3d(*l),
{
    proof { reveal(enc_line3d); }
    push_anchor(out, &l.start);
    push_anchor(out, &l.end);
    push_color(out, &l.color);
    proof {
        assert(out@ =~= old(out)@ + enc_line3d(*l));
    }
}

pub fn decode_line3d(buf: &Vec<u8>, pos: usize) -> (r: Option<(Line3D, usize)>)
    requires
        pos <= buf@.len(),
    ensures
        match r {
            Some((v, np)) => dec_line3d(buf@.skip(pos as int)) == Some((v, np - pos)) && pos < np
                <= buf@.len(),
            None => dec_line3d(buf@.skip(pos as int)) is None,
        },
{
    proof { reveal(dec_line3d); }
    let (start, p1) = match decode_anchor(buf, pos) {
        Some(r) => r,
        None => {
            return None;
        },
    };
    proof {
        lemma_skip_add(buf@, pos as int, p1 - pos);
    }
    let (end, p2) = match decode_anchor(buf, p1) {
        Some(r) => r,
        None => {
            return None;
        },
    };
    proof {
        lemma_skip_add(buf@, p1 as int, p2 - p1);
    }
    let (color, p3) = match decode_color(buf, p2) {
        Some(r) => r,
        None => {
            return None;
        },
    };
    Some((Line3D { start, end, color }, p3))
}

// ---------------------------------------------------------------------------
// counted lists of controllable assignments
// ---------------------------------------------------------------------------

pub open spec fn enc_ci_items(items: Seq<ControllableInfo>) -> Seq<u8>
    decreases items.len(),
{
    if items.len() == 0 {
        Seq::empty()
    } else {
        enc_ci(items[0]) + enc_ci_items(items.drop_first())
    }
}

pub proof fn lemma_enc_ci_items_snoc(items: Seq<ControllableInfo>, x: ControllableInfo)
    ensures
        enc_ci_items(items.push(x)) == enc_ci_items(items) + enc_ci(x),
    decreases items.len(),
{
    if items.len() == 0 {
        assert(items.push(x).drop_first() =~= Seq::<ControllableInfo>::empty());
        assert(items.push(x)[0] == x);
        assert(enc_ci_items(items.push(x)) == enc_ci(x) + enc_ci_items(
            Seq::<ControllableInfo>::empty(),
        ));
        assert(enc_ci_items(items.push(x)) =~= enc_ci_items(items) + enc_ci(x));
    } else {
        assert(items.push(x).drop_first() =~= items.drop_first().push(x));
        assert(items.push(x)[0] == items[0]);
        lemma_enc_ci_items_snoc(items.drop_first(), x);
        assert(enc_ci_items(items.push(x)) =~= enc_ci_items(items) + enc_ci(x));
    }
}

pub open spec fn dec_ci_items(s: Seq<u8>, count: int) -> Option<(Seq<ControllableInfo>, int)>
    decreases count,
{
    if count <= 0 {
        Some((Seq::<ControllableInfo>::empty(), 0int))
    } else {
        match dec_ci(s) {
            None => None,
            Some((v, n)) => match dec_ci_items(s.skip(n), count - 1) {
                None => None,
                Some((items, m)) => Some((seq![v] + items, n + m)),
            },
        }
    }
}

pub proof fn lemma_dec_enc_ci_items(items: Seq<ControllableInfo>, rest: Seq<u8>)
    ensures
        dec_ci_items(enc_ci_items(items) + rest, items.len() as int) == Some(
            (items, enc_ci_items(items).len() as int),
        ),
    decreases items.len(),
{
    if items.len() == 0 {
        assert(enc_ci_items(items) + rest =~= rest);
        assert(items =~= Seq::<ControllableInfo>::empty());
    } else {
        let e0 = enc_ci(items[0]);
        let tailenc = enc_ci_items(items.drop_first());
        let s = enc_ci_items(items) + rest;
        assert(s =~= e0 + (tailenc + rest));
        lemma_dec_enc_ci(items[0], tailenc + rest);
        assert(s.skip(e0.len() as int) =~= tailenc + rest);
        lemma_dec_enc_ci_items(items.drop_first(), rest);
        assert(seq![items[0]] + items.drop_first() =~= items);
    }
}

/// A counted list: a two-byte big-endian count, then the items.
pub open spec fn enc_ci_list(items: Seq<ControllableInfo>) -> Seq<u8> {
    enc_u16(items.len() as u16) + enc_ci_items(items)
}

pub open spec fn dec_ci_list(s: Seq<u8>) -> Option<(Seq<ControllableInfo>, int)> {
    match dec_u16(s) {
        None => None,
        Some((n, _)) => match dec_ci_items(s.skip(2), n as int) {
            None => None,
            Some((items, m)) => Some((items, 2 + m)),
        },
    }
}

pub proof fn lemma_dec_enc_ci_list(items: Seq<ControllableInfo>, rest: Seq<u8>)
    requires
        items.len() <= 65535,
    ensures
        dec_ci_list(enc_ci_list(items) + rest) == Some((items, enc_ci_list(items).len() as int)),
{
    let s = enc_ci_list(items) + rest;
    assert(s =~= enc_u16(items.len() as u16) + (enc_ci_items(items) + rest));
    lemma_dec_enc_u16(items.len() as u16, enc_ci_items(items) + rest);
    assert(s.skip(2) =~= enc_ci_items(items) + rest);
    lemma_dec_enc_ci_items(items, rest);
}

pub fn push_ci_list(out: &mut Vec<u8>, items: &Vec<ControllableInfo>) -> (r: Result<
    (),
    PacketBuildError,
>)
    ensures
        match r {
            Ok(()) => items@.len() <= 65535 && final(out)@ == old(out)@ + enc_ci_list(items@),
            Err(e) => {
                &&& items@.len() > 65535
                &&& final(out)@ == old(out)@
                &&& e matches PacketBuildError::PayloadTooLarge(n)
                &&& n == items@.len()
            },
        },
{
    if items.len() > 65535 {
        return Err(PacketBuildError::PayloadTooLarge(items.len()));
    }
    push_u16_be(out, items.len() as u16);
    let mut k: usize = 0;
    proof {
        assert(items@.take(0) =~= Seq::<ControllableInfo>::empty());
    }
    while k < items.len()
        invariant
            k <= items@.len(),
            out@ == old(out)@ + enc_u16(items@.len() as u16) + enc_ci_items(items@.take(k as int)),
        decreases items@.len() - k,
    {
        push_ci(out, &items[k]);
        proof {
            lemma_enc_ci_items_snoc(items@.take(k as int), items@[k as int]);
            assert(items@.take(k as int).push(items@[k as int]) =~= items@.take(k as int + 1));
            assert(out@ =~= old(out)@ + enc_u16(items@.len() as u16) + enc_ci_items(
                items@.take(k as int + 1),
            ));
        }
        k = k + 1;
    }
    proof {
        assert(items@.take(items@.len() as int) =~= items@);
        assert(out@ =~= old(out)@ + enc_ci_list(items@));
    }
    Ok(())
}

#[verifier::loop_isolation(false)]
pub fn decode_ci_list(buf: &Vec<u8>, pos: usize) -> (r: Option<(Vec<ControllableInfo>, usize)>)
    requires
        pos <= buf@.len(),
    ensures
        match r {
            Some((v, np)) => dec_ci_list(buf@.skip(pos as int)) == Some((v@, np - pos)) && pos < np
                <= buf@.len(),
            None => dec_ci_list(buf@.skip(pos as int)) is None,
        },
{
    let (n16, p1) = match decode_u16(buf, pos) {
        Some(r) => r,
        None => {
            return None;
        },
    };
    let n = n16 as usize;
    proof {
        lemma_skip_add(buf@, pos as int, 2);
    }
    let mut res: Vec<ControllableInfo> = Vec::new();
    let mut p: usize = p1;
    let mut k: usize = 0;
    while k < n
        invariant
            k <= n,
            pos < p1 <= p <= buf@.len(),
            res@.len() == k,
            dec_ci_items(buf@.skip(p1 as int), n as int) == (match dec_ci_items(
                buf@.skip(p as int),
                n - k,
            ) {
                None => None::<(Seq<ControllableInfo>, int)>,
                Some((items, m)) => Some((res@ + items, (p - p1) + m)),
            }),
        decreases n - k,
    {
        let (v, pnew) = match decode_ci(buf, p) {
            Some(r) => r,
            None => {
                proof {
                    assert(dec_ci_items(buf@.skip(p as int), n - k) is None);
                }
                return None;
            },
        };
        proof {
            lemma_skip_add(buf@, p as int, pnew - p);
            let inner = dec_ci_items(buf@.skip(pnew as int), n - k - 1);
            match inner {
                None => {
                    assert(dec_ci_items(buf@.skip(p as int), n - k) is None);
                },
                Some((items2, m2)) => {
                    assert(dec_ci_items(buf@.skip(p as int), n - k) == Some(
                        (seq![v] + items2, (pnew - p) + m2),
                    ));
                    assert(res@ + (seq![v] + items2) =~= res@.push(v) + items2);
                },
            }
        }
        res.push(v);
        p = pnew;
        k = k + 1;
    }
    proof {
        assert(res@ + Seq::<ControllableInfo>::empty() =~= res@);
    }
    Some((res, p))
}

// ---------------------------------------------------------------------------
// counted lists of polyline points
// ---------------------------------------------------------------------------

pub open spec fn enc_vector3_items(items: Seq<Vector3>) -> Seq<u8>
    decreases items.len(),
{
    if items.len() == 0 {
        Seq::empty()
    } else {
        enc_vector3(items[0]) + enc_vector3_items(items.drop_first())
    }
}

pub proof fn lemma_enc_vector3_items_snoc(items: Seq<Vector3>, x: Vector3)
    ensures
        enc_vector3_items(items.push(x)) == enc_vector3_items(items) + enc_vector3(x),
    decreases items.len(),
{
    if items.len() == 0 {
        assert(items.push(x).drop_first() =~= Seq::<Vector3>::empty());
        assert(items.push(x)[0] == x);
        assert(enc_vector3_items(items.push(x)) == enc_vector3(x) + enc_vector3_items(
            Seq::<Vector3>::empty(),
        ));
        assert(enc_vector3_items(items.push(x)) =~= enc_vector3_items(items) + enc_vector3(x));
    } else {
        assert(items.push(x).drop_first() =~= items.drop_first().push(x));
        assert(items.push(x)[0] == items[0]);
        lemma_enc_vector3_items_snoc(items.drop_first(), x);
        assert(enc_vector3_items(items.push(x)) =~= enc_vector3_items(items) + enc_vector3(x));
    }
}

pub open spec fn dec_vector3_items(s: Seq<u8>, count: int) -> Option<(Seq<Vector3>, int)>
    decreases count,
{
    if count <= 0 {
        Some((Seq::<Vector3>::empty(), 0int))
    } else {
        match dec_vector3(s) {
            None => None,
            Some((v, n)) => match dec_vector3_items(s.skip(n), count - 1) {
                None => None,
                Some((items, m)) => Some((seq![v] + items, n + m)),
            },
        }
    }
}

pub proof fn lemma_dec_enc_vector3_items(items: Seq<Vector3>, rest: Seq<u8>)
    ensures
        dec_vector3_items(enc_vector3_items(items) + rest, items.len() as int) == Some(
            (items, enc_vector3_items(items).len() as int),
        ),
    decreases items.len(),
{
    if items.len() == 0 {
        assert(enc_vector3_items(items) + rest =~= rest);
        assert(items =~= Seq::<Vector3>::empty());
    } else {
        let e0 = enc_vector3(items[0]);
        let tailenc = enc_vector3_items(items.drop_first());
        let s = enc_vector3_items(items) + rest;
        assert(s =~= e0 + (tailenc + rest));
        lemma_dec_enc_vector3(items[0], tailenc + rest);
        assert(s.skip(e0.len() as int) =~= tailenc + rest);
        lemma_dec_enc_vector3_items(items.drop_first(), rest);
        assert(seq![items[0]] + items.drop_first() =~= items);
    }
}

/// A counted list: a two-byte big-endian count, then the items.
pub open spec fn enc_vector3_list(items: Seq<Vector3>) -> Seq<u8> {
    enc_u16(items.len() as u16) + enc_vector3_items(items)
}

pub open spec fn dec_vector3_list(s: Seq<u8>) -> Option<(Seq<Vector3>, int)> {
    match dec_u16(s) {
        None => None,
        Some((n, _)) => match dec_vector3_items(s.skip(2), n as int) {
            None => None,
            Some((items, m)) => Some((items, 2 + m)),
        },
    }
}

pub proof fn lemma_dec_enc_vector3_list(items: Seq<Vector3>, rest: Seq<u8>)
    requires
        items.len() <= 65535,
    ensures
        dec_vector3_list(enc_vector3_list(items) + rest) == Some((items, enc_vector3_list(items).len() as int)),
{
    let s = enc_vector3_list(items) + rest;
    assert(s =~= enc_u16(items.len() as u16) + (enc_vector3_items(items) + rest));
    lemma_dec_enc_u16(items.len() as u16, enc_vector3_items(items) + rest);
    assert(s.skip(2) =~= enc_vector3_items(items) + rest);
    lemma_dec_enc_vector3_items(items, rest);
}

pub fn push_vector3_list(out: &mut Vec<u8>, items: &Vec<Vector3>) -> (r: Result<
    (),
    PacketBuildError,
>)
    ensures
        match r {
            Ok(()) => items@.len() <= 65535 && final(out)@ == old(out)@ + enc_vector3_list(items@),
            Err(e) => {
                &&& items@.len() > 65535
                &&& final(out)@ == old(out)@
                &&& e matches PacketBuildError::PayloadTooLarge(n)
                &&& n == items@.len()
            },
        },
{
    if items.len() > 65535 {
        return Err(PacketBuildError::PayloadTooLarge(items.len()));
    }
    push_u16_be(out, items.len() as u16);
    let mut k: usize = 0;
    proof {
        assert(items@.take(0) =~= Seq::<Vector3>::empty());
    }
    while k < items.len()
        invariant
            k <= items@.len(),
            out@ == old(out)@ + enc_u16(items@.len() as u16) + enc_vector3_items(items@.take(k as int)),
        decreases items@.len() - k,
    {
        push_vector3(out, &items[k]);
        proof {
            lemma_enc_vector3_items_snoc(items@.take(k as int), items@[k as int]);
            assert(items@.take(k as int).push(items@[k as int]) =~= items@.take(k as int + 1));
            assert(out@ =~= old(out)@ + enc_u16(items@.len() as u16) + enc_vector3_items(
                items@.take(k as int + 1),
            ));
        }
        k = k + 1;
    }
    proof {
        assert(items@.take(items@.len() as int) =~= items@);
        assert(out@ =~= old(out)@ + enc_vector3_list(items@));
    }
    Ok(())
}

#[verifier::loop_isolation(false)]
pub fn decode_vector3_list(buf: &Vec<u8>, pos: usize) -> (r: Option<(Vec<Vector3>, usize)>)
    requires
        pos <= buf@.len(),
    ensures
        match r {
            Some((v, np)) => dec_vector3_list(buf@.skip(pos as int)) == Some((v@, np - pos)) && pos < np
                <= buf@.len(),
            None => dec_vector3_list(buf@.skip(pos as int)) is None,
        },
{
    let (n16, p1) = match decode_u16(buf, pos) {
        Some(r) => r,
        None => {
            return None;
        },
    };
    let n = n16 as usize;
    proof {
        lemma_skip_add(buf@, pos as int, 2);
    }
    let mut res: Vec<Vector3> = Vec::new();
    let mut p: usize = p1;
    let mut k: usize = 0;
    while k < n
        invariant
            k <= n,
            pos < p1 <= p <= buf@.len(),
            res@.len() == k,
            dec_vector3_items(buf@.skip(p1 as int), n as int) == (match dec_vector3_items(
                buf@.skip(p as int),
                n - k,
            ) {
                None => None::<(Seq<Vector3>, int)>,
                Some((items, m)) => Some((res@ + items, (p - p1) + m)),
            }),
        decreases n - k,
    {
        let (v, pnew) = match decode_vector3(buf, p) {
            Some(r) => r,
            None => {
                proof {
                    assert(dec_vector3_items(buf@.skip(p as int), n - k) is None);
                }
                return None;
            },
        };
        proof {
            lemma_skip_add(buf@, p as int, pnew - p);
            let inner = dec_vector3_items(buf@.skip(pnew as int), n - k - 1);
            match inner {
                None => {
                    assert(dec_vector3_items(buf@.skip(p as int), n - k) is None);
                },
                Some((items2, m2)) => {
                    assert(dec_vector3_items(buf@.skip(p as int), n - k) == Some(
                        (seq![v] + items2, (pnew - p) + m2),
                    ));
                    assert(res@ + (seq![v] + items2) =~= res@.push(v) + items2);
                },
            }
        }
        res.push(v);
        p = pnew;
        k = k + 1;
    }
    proof {
        assert(res@ + Seq::<Vector3>::empty() =~= res@);
    }
    Some((res, p))
}

// ---------------------------------------------------------------------------
// counted lists of desired car states
// ---------------------------------------------------------------------------

pub open spec fn enc_car_items(items: Seq<DesiredCarState>) -> Seq<u8>
    decreases items.len(),
{
    if items.len() == 0 {
        Seq::empty()
    } else {
        enc_car(items[0]) + enc_car_items(items.drop_first())
    }
}

pub proof fn lemma_enc_car_items_snoc(items: Seq<DesiredCarState>, x: DesiredCarState)
    ensures
        enc_car_items(items.push(x)) == enc_car_items(items) + enc_car(x),
    decreases items.len(),
{
    if items.len() == 0 {
        assert(items.push(x).drop_first() =~= Seq::<DesiredCarState>::empty());
        assert(items.push(x)[0] == x);
        assert(enc_car_items(items.push(x)) == enc_car(x) + enc_car_items(
            Seq::<DesiredCarState>::empty(),
        ));
        assert(enc_car_items(items.push(x)) =~= enc_car_items(items) + enc_car(x));
    } else {
        assert(items.push(x).drop_first() =~= items.drop_first().push(x));
        assert(items.push(x)[0] == items[0]);
        lemma_enc_car_items_snoc(items.drop_first(), x);
        assert(enc_car_items(items.push(x)) =~= enc_car_items(items) + enc_car(x));
    }
}

pub open spec fn dec_car_items(s: Seq<u8>, count: int) -> Option<(Seq<DesiredCarState>, int)>
    decreases count,
{
    if count <= 0 {
        Some((Seq::<DesiredCarState>::empty(), 0int))
    } else {
        match dec_car(s) {
            None => None,
            Some((v, n)) => match dec_car_items(s.skip(n), count - 1) {
                None => None,
                Some((items, m)) => Some((seq![v] + items, n + m)),
            },
        }
    }
}

pub proof fn lemma_dec_enc_car_items(items: Seq<DesiredCarState>, rest: Seq<u8>)
    ensures
        dec_car_items(enc_car_items(items) + rest, items.len() as int) == Some(
            (items, enc_car_items(items).len() as int),
        ),
    decreases items.len(),
{
    if items.len() == 0 {
        assert(enc_car_items(items) + rest =~= rest);
        assert(items =~= Seq::<DesiredCarState>::empty());
    } else {
        let e0 = enc_car(items[0]);
        let tailenc = enc_car_items(items.drop_first());
        let s = enc_car_items(items) + rest;
        assert(s =~= e0 + (tailenc + rest));
        lemma_dec_enc_car(items[0], tailenc + rest);
        assert(s.skip(e0.len() as int) =~= tailenc + rest);
        lemma_dec_enc_car_items(items.drop_first(), rest);
        assert(seq![items[0]] + items.drop_first() =~= items);
    }
}

/// A counted list: a two-byte big-endian count, then the items.
pub open spec fn enc_car_list(items: Seq<DesiredCarState>) -> Seq<u8> {
    enc_u16(items.len() as u16) + enc_car_items(items)
}

pub open spec fn dec_car_list(s: Seq<u8>) -> Option<(Seq<DesiredCarState>, int)> {
    match dec_u16(s) {
        None => None,
        Some((n, _)) => match dec_car_items(s.skip(2), n as int) {
            None => None,
            Some((items, m)) => Some((items, 2 + m)),
        },
    }
}

pub proof fn lemma_dec_enc_car_list(items: Seq<DesiredCarState>, rest: Seq<u8>)
    requires
        items.len() <= 65535,
    ensures
        dec_car_list(enc_car_list(items) + rest) == Some((items, enc_car_list(items).len() as int)),
{
    let s = enc_car_list(items) + rest;
    assert(s =~= enc_u16(items.len() as u16) + (enc_car_items(items) + rest));
    lemma_dec_enc_u16(items.len() as u16, enc_car_items(items) + rest);
    assert(s.skip(2) =~= enc_car_items(items) + rest);
    lemma_dec_enc_car_items(items, rest);
}

pub fn push_car_list(out: &mut Vec<u8>, items: &Vec<DesiredCarState>) -> (r: Result<
    (),
    PacketBuildError,
>)
    ensures
        match r {
            Ok(()) => items@.len() <= 65535 && final(out)@ == old(out)@ + enc_car_list(items@),
            Err(e) => {
                &&& items@.len() > 65535
                &&& final(out)@ == old(out)@
                &&& e matches PacketBuildError::PayloadTooLarge(n)
                &&& n == items@.len()
            },
        },
{
    if items.len() > 65535 {
        return Err(PacketBuildError::PayloadTooLarge(items.len()));
    }
    push_u16_be(out, items.len() as u16);
    let mut k: usize = 0;
    proof {
        assert(items@.take(0) =~= Seq::<DesiredCarState>::empty());
    }
    while k < items.len()
        invariant
            k <= items@.len(),
            out@ == old(out)@ + enc_u16(items@.len() as u16) + enc_car_items(items@.take(k as int)),
        decreases items@.len() - k,
    {
        push_car(out, &items[k]);
        proof {
            lemma_enc_car_items_snoc(items@.take(k as int), items@[k as int]);
            assert(items@.take(k as int).push(items@[k as int]) =~= items@.take(k as int + 1));
            assert(out@ =~= old(out)@ + enc_u16(items@.len() as u16) + enc_car_items(
                items@.take(k as int + 1),
            ));
        }
        k = k + 1;
    }
    proof {
        assert(items@.take(items@.len() as int) =~= items@);
        assert(out@ =~= old(out)@ + enc_car_list(items@));
    }
    Ok(())
}

#[verifier::loop_isolation(false)]
pub fn decode_car_list(buf: &Vec<u8>, pos: usize) -> (r: Option<(Vec<DesiredCarState>, usize)>)
    requires
        pos <= buf@.len(),
    ensures
        match r {
            Some((v, np)) => dec_car_list(buf@.skip(pos as int)) == Some((v@, np - pos)) && pos < np
                <= buf@.len(),
            None => dec_car_list(buf@.skip(pos as int)) is None,
        },
{
    let (n16, p1) = match decode_u16(buf, pos) {
        Some(r) => r,
        None => {
            return None;
        },
    };
    let n = n16 as usize;
    proof {
        lemma_skip_add(buf@, pos as int, 2);
    }
    let mut res: Vec<DesiredCarState> = Vec::new();
    let mut p: usize = p1;
    let mut k: usize = 0;
    while k < n
        invariant
            k <= n,
            pos < p1 <= p <= buf@.len(),
            res@.len() == k,
            dec_car_items(buf@.skip(p1 as int), n as int) == (match dec_car_items(
                buf@.skip(p as int),
                n - k,
            ) {
                None => None::<(Seq<DesiredCarState>, int)>,
                Some((items, m)) => Some((res@ + items, (p - p1) + m)),
            }),
        decreases n - k,
    {
        let (v, pnew) = match decode_car(buf, p) {
            Some(r) => r,
            None => {
                proof {
                    assert(dec_car_items(buf@.skip(p as int), n - k) is None);
                }
                return None;
            },
        };
        proof {
            lemma_skip_add(buf@, p as int, pnew - p);
            let inner = dec_car_items(buf@.skip(pnew as int), n - k - 1);
            match inner {
                None => {
                    assert(dec_car_items(buf@.skip(p as int), n - k) is None);
                },
                Some((items2, m2)) => {
                    assert(dec_car_items(buf@.skip(p as int), n - k) == Some(
                        (seq![v] + items2, (pnew - p) + m2),
                    ));
                    assert(res@ + (seq![v] + items2) =~= res@.push(v) + items2);
                },
            }
        }
        res.push(v);
        p = pnew;
        k = k + 1;
    }
    proof {
        assert(res@ + Seq::<DesiredCarState>::empty() =~= res@);
    }
    Some((res, p))
}

// ---------------------------------------------------------------------------
// counted lists of desired ball states
// ---------------------------------------------------------------------------

pub open spec fn enc_ball_items(items: Seq<DesiredBallState>) -> Seq<u8>
    decreases items.len(),
{
    if items.len() == 0 {
        Seq::empty()
    } else {
        enc_ball(items[0]) + enc_ball_items(items.drop_first())
    }
}

pub proof fn lemma_enc_ball_items_snoc(items: Seq<DesiredBallState>, x: DesiredBallState)
    ensures
        enc_ball_items(items.push(x)) == enc_ball_items(items) + enc_ball(x),
    decreases items.len(),
{
    if items.len() == 0 {
        assert(items.push(x).drop_first() =~= Seq::<DesiredBallState>::empty());
        assert(items.push(x)[0] == x);
        assert(enc_ball_items(items.push(x)) == enc_ball(x) + enc_ball_items(
            Seq::<DesiredBallState>::empty(),
        ));
        assert(enc_ball_items(items.push(x)) =~= enc_ball_items(items) + enc_ball(x));
    } else {
        assert(items.push(x).drop_first() =~= items.drop_first().push(x));
        assert(items.push(x)[0] == items[0]);
        lemma_enc_ball_items_snoc(items.drop_first(), x);
        assert(enc_ball_items(items.push(x)) =~= enc_ball_items(items) + enc_ball(x));
    }
}

pub open spec fn dec_ball_items(s: Seq<u8>, count: int) -> Option<(Seq<DesiredBallState>, int)>
    decreases count,
{
    if count <= 0 {
        Some((Seq::<DesiredBallState>::empty(), 0int))
    } else {
        match dec_ball(s) {
            None => None,
            Some((v, n)) => match dec_ball_items(s.skip(n), count - 1) {
                None => None,
                Some((items, m)) => Some((seq![v] + items, n + m)),
            },
        }
    }
}

pub proof fn lemma_dec_enc_ball_items(items: Seq<DesiredBallState>, rest: Seq<u8>)
    ensures
        dec_ball_items(enc_ball_items(items) + rest, items.len() as int) == Some(
            (items, enc_ball_items(items).len() as int),
        ),
    decreases items.len(),
{
    if items.len() == 0 {
        assert(enc_ball_items(items) + rest =~= rest);
        assert(items =~= Seq::<DesiredBallState>::empty());
    } else {
        let e0 = enc_ball(items[0]);
        let tailenc = enc_ball_items(items.drop_first());
        let s = enc_ball_items(items) + rest;
        assert(s =~= e0 + (tailenc + rest));
        lemma_dec_enc_ball(items[0], tailenc + rest);
        assert(s.skip(e0.len() as int) =~= tailenc + rest);
        lemma_dec_enc_ball_items(items.drop_first(), rest);
        assert(seq![items[0]] + items.drop_first() =~= items);
    }
}

/// A counted list: a two-byte big-endian count, then the items.
pub open spec fn enc_ball_list(items: Seq<DesiredBallState>) -> Seq<u8> {
    enc_u16(items.len() as u16) + enc_ball_items(items)
}

pub open spec fn dec_ball_list(s: Seq<u8>) -> Option<(Seq<DesiredBallState>, int)> {
    match dec_u16(s) {
        None => None,
        Some((n, _)) => match dec_ball_items(s.skip(2), n as int) {
            None => None,
            Some((items, m)) => Some((items, 2 + m)),
        },
    }
}

pub proof fn lemma_dec_enc_ball_list(items: Seq<DesiredBallState>, rest: Seq<u8>)
    requires
        items.len() <= 65535,
    ensures
        dec_ball_list(enc_ball_list(items) + rest) == Some((items, enc_ball_list(items).len() as int)),
{
    let s = enc_ball_list(items) + rest;
    assert(s =~= enc_u16(items.len() as u16) + (enc_ball_items(items) + rest));
    lemma_dec_enc_u16(items.len() as u16, enc_ball_items(items) + rest);
    assert(s.skip(2) =~= enc_ball_items(items) + rest);
    lemma_dec_enc_ball_items(items, rest);
}

pub fn push_ball_list(out: &mut Vec<u8>, items: &Vec<DesiredBallState>) -> (r: Result<
    (),
    PacketBuildError,
>)
    ensures
        match r {
            Ok(()) => items@.len() <= 65535 && final(out)@ == old(out)@ + enc_ball_list(items@),
            Err(e) => {
                &&& items@.len() > 65535
                &&& final(out)@ == old(out)@
                &&& e matches PacketBuildError::PayloadTooLarge(n)
                &&& n == items@.len()
            },
        },
{
    if items.len() > 65535 {
        return Err(PacketBuildError::PayloadTooLarge(items.len()));
    }
    push_u16_be(out, items.len() as u16);
    let mut k: usize = 0;
    proof {
        assert(items@.take(0) =~= Seq::<DesiredBallState>::empty());
    }
    while k < items.len()
        invariant
            k <= items@.len(),
            out@ == old(out)@ + enc_u16(items@.len() as u16) + enc_ball_items(items@.take(k as int)),
        decreases items@.len() - k,
    {
        push_ball(out, &items[k]);
        proof {
            lemma_enc_ball_items_snoc(items@.take(k as int), items@[k as int]);
            assert(items@.take(k as int).push(items@[k as int]) =~= items@.take(k as int + 1));
            assert(out@ =~= old(out)@ + enc_u16(items@.len() as u16) + enc_ball_items(
                items@.take(k as int + 1),
            ));
        }
        k = k + 1;
    }
    proof {
        assert(items@.take(items@.len() as int) =~= items@);
        assert(out@ =~= old(out)@ + enc_ball_list(items@));
    }
    Ok(())
}

#[verifier::loop_isolation(false)]
pub fn decode_ball_list(buf: &Vec<u8>, pos: usize) -> (r: Option<(Vec<DesiredBallState>, usize)>)
    requires
        pos <= buf@.len(),
    ensures
        match r {
            Some((v, np)) => dec_ball_list(buf@.skip(pos as int)) == Some((v@, np - pos)) && pos < np
                <= buf@.len(),
            None => dec_ball_list(buf@.skip(pos as int)) is None,
        },
{
    let (n16, p1) = match decode_u16(buf, pos) {
        Some(r) => r,
        None => {
            return None;
        },
    };
    let n = n16 as usize;
    proof {
        lemma_skip_add(buf@, pos as int, 2);
    }
    let mut res: Vec<DesiredBallState> = Vec::new();
    let mut p: usize = p1;
    let mut k: usize = 0;
    while k < n
        invariant
            k <= n,
            pos < p1 <= p <= buf@.len(),
            res@.len() == k,
            dec_ball_items(buf@.skip(p1 as int), n as int) == (match dec_ball_items(
                buf@.skip(p as int),
                n - k,
            ) {
                None => None::<(Seq<DesiredBallState>, int)>,
                Some((items, m)) => Some((res@ + items, (p - p1) + m)),
            }),
        decreases n - k,
    {
        let (v, pnew) = match decode_ball(buf, p) {
            Some(r) => r,
            None => {
                proof {
                    assert(dec_ball_items(buf@.skip(p as int), n - k) is None);
                }
                return None;
            },
        };
        proof {
            lemma_skip_add(buf@, p as int, pnew - p);
            let inner = dec_ball_items(buf@.skip(pnew as int), n - k - 1);
            match inner {
                None => {
                    assert(dec_ball_items(buf@.skip(p as int), n - k) is None);
                },
                Some((items2, m2)) => {
                    assert(dec_ball_items(buf@.skip(p as int), n - k) == Some(
                        (seq![v] + items2, (pnew - p) + m2),
                    ));
                    assert(res@ + (seq![v] + items2) =~= res@.push(v) + items2);
                },
            }
        }
        res.push(v);
        p = pnew;
        k = k + 1;
    }
    proof {
        assert(res@ + Seq::<DesiredBallState>::empty() =~= res@);
    }
    Some((res, p))
}

// ---------------------------------------------------------------------------
// render messages and groups
// ---------------------------------------------------------------------------

pub open spec fn enc_polyline(p: PolyLine3DV) -> Seq<u8> {
    enc_vector3_list(p.points) + enc_color(p.color)
}

pub open spec fn valid_polyline(p: PolyLine3DV) -> bool {
    p.points.len() <= 65535
}

pub open spec fn dec_polyline(s: Seq<u8>) -> Option<(PolyLine3DV, int)> {
    match dec_vector3_list(s) {
        None => None,
        Some((points, n1)) => match dec_color(s.skip(n1)) {
            None => None,
            Some((color, n2)) => Some((PolyLine3DV { points, color }, n1 + n2)),
        },
    }
}

pub proof fn lemma_dec_enc_polyline(p: PolyLine3DV, rest: Seq<u8>)
    requires
        valid_polyline(p),
    ensures
        dec_polyline(enc_polyline(p) + rest) == Some((p, enc_polyline(p).len() as int)),
{
    let s = enc_polyline(p) + rest;
    let e1 = enc_vector3_list(p.points);
    assert(s =~= e1 + (enc_color(p.color) + rest));
    lemma_dec_enc_vector3_list(p.points, enc_color(p.color) + rest);
    assert(s.skip(e1.len() as int) =~= enc_color(p.color) + rest);
    lemma_dec_enc_color(p.color, rest);
}

pub fn push_polyline(out: &mut Vec<u8>, p: &PolyLine3D) -> (r: Result<(), PacketBuildError>)
    ensures
        match r {
            Ok(()) => valid_polyline(p@) && final(out)@ == old(out)@ + enc_polyline(p@),
            Err(e) => {
                &&& !valid_polyline(p@)
                &&& final(out)@ == old(out)@
                &&& e is PayloadTooLarge
            },
        },
{
    match push_vector3_list(out, &p.points) {
        Ok(()) => {},
        Err(e) => {
            return Err(e);
        },
    }
    push_color(out, &p.color);
    proof {
        assert(out@ =~= old(out)@ + enc_polyline(p@));
    }
    Ok(())
}

pub fn decode_polyline(buf: &Vec<u8>, pos: usize) -> (r: Option<(PolyLine3D, usize)>)
    requires
        pos <= buf@.len(),
    ensures
        match r {
            Some((v, np)) => dec_polyline(buf@.skip(pos as int)) == Some((v@, np - pos)) && pos
                < np <= buf@.len(),
            None => dec_polyline(buf@.skip(pos as int)) is None,
        },
{
    let (points, p1) = match decode_vector3_list(buf, pos) {
        Some(r) => r,
        None => {
            return None;
        },
    };
    proof {
        lemma_skip_add(buf@, pos as int, p1 - pos);
    }
    let (color, p2) = match decode_color(buf, p1) {
        Some(r) => r,
        None => {
            return None;
        },
    };
    Some((PolyLine3D { points, color }, p2))
}

pub open spec fn enc_rmsg(m: RenderMessageV) -> Seq<u8> {
    match m {
        RenderMessageV::Line3D(l) => seq![0u8] + enc_line3d(l),
        RenderMessageV::PolyLine3D(p) => seq![1u8] + enc_polyline(p),
    }
}

pub open spec fn valid_rmsg(m: RenderMessageV) -> bool {
    match m {
        RenderMessageV::Line3D(_) => true,
        RenderMessageV::PolyLine3D(p) => valid_polyline(p),
    }
}

pub open spec fn dec_rmsg(s: Seq<u8>) -> Option<(RenderMessageV, int)> {
    match dec_u8(s) {
        None => None,
        Some((tag, _)) => {
            if tag == 0 {
                match dec_line3d(s.skip(1)) {
                    None => None,
                    Some((l, n)) => Some((RenderMessageV::Line3D(l), 1 + n)),
                }
            } else if tag == 1 {
                match dec_polyline(s.skip(1)) {
                    None => None,
                    Some((p, n)) => Some((RenderMessageV::PolyLine3D(p), 1 + n)),
                }
            } else {
                None
            }
        },
    }
}

pub proof fn lemma_dec_enc_rmsg(m: RenderMessageV, rest: Seq<u8>)
    requires
        valid_rmsg(m),
    ensures
        dec_rmsg(enc_rmsg(m) + rest) == Some((m, enc_rmsg(m).len() as int)),
{
    let s = enc_rmsg(m) + rest;
    match m {
        RenderMessageV::Line3D(l) => {
            assert(s[0] == 0u8);
            assert(s.skip(1) =~= enc_line3d(l) + rest);
            lemma_dec_enc_line3d(l, rest);
        },
        RenderMessageV::PolyLine3D(p) => {
            assert(s[0] == 1u8);
            assert(s.skip(1) =~= enc_polyline(p) + rest);
            lemma_dec_enc_polyline(p, rest);
        },
    }
}

/// Whether this render message fits the codec's counted fields.
pub fn rmsg_encodable(m: &RenderMessage) -> (r: bool)
    ensures
        r == valid_rmsg(m@),
{
    match m {
        RenderMessage::Line3D(_) => true,
        RenderMessage::PolyLine3D(p) => p.points.len() <= 65535,
    }
}

pub fn push_rmsg(out: &mut Vec<u8>, m: &RenderMessage) -> (r: Result<(), PacketBuildError>)
    ensures
        match r {
            Ok(()) => valid_rmsg(m@) && final(out)@ == old(out)@ + enc_rmsg(m@),
            Err(e) => {
                &&& !valid_rmsg(m@)
                &&& final(out)@ == old(out)@
                &&& e is PayloadTooLarge
            },
        },
{
    match m {
        RenderMessage::Line3D(l) => {
            out.push(0u8);
            push_line3d(out, l);
        },
        RenderMessage::PolyLine3D(p) => {
            if p.points.len() > 65535 {
                return Err(PacketBuildError::PayloadTooLarge(p.points.len()));
            }
            out.push(1u8);
            let res = push_polyline(out, p);
            match res {
                Ok(()) => {},
                Err(e) => {
                    return Err(e);
                },
            }
        },
    }
    proof {
        assert(out@ =~= old(out)@ + enc_rmsg(m@));
    }
    Ok(())
}

pub fn decode_rmsg(buf: &Vec<u8>, pos: usize) -> (r: Option<(RenderMessage, usize)>)
    requires
        pos <= buf@.len(),
    ensures
        match r {
            Some((v, np)) => dec_rmsg(buf@.skip(pos as int)) == Some((v@, np - pos)) && pos < np
                <= buf@.len(),
            None => dec_rmsg(buf@.skip(pos as int)) is None,
        },
{
    let (tag, p1) = match decode_u8(buf, pos) {
        Some(r) => r,
        None => {
            return None;
        },
    };
    if tag == 0 {
        proof {
            lemma_skip_add(buf@, pos as int, 1);
        }
        let (l, p2) = match decode_line3d(buf, p1) {
            Some(r) => r,
            None => {
                return None;
            },
        };
        Some((RenderMessage::Line3D(l), p2))
    } else if tag == 1 {
        proof {
            lemma_skip_add(buf@, pos as int, 1);
        }
        let (p, p2) = match decode_polyline(buf, p1) {
            Some(r) => r,
            None => {
                return None;
            },
        };
        Some((RenderMessage::PolyLine3D(p), p2))
    } else {
        None
    }
}

pub open spec fn enc_rmsg_items(items: Seq<RenderMessageV>) -> Seq<u8>
    decreases items.len(),
{
    if items.len() == 0 {
        Seq::empty()
    } else {
        enc_rmsg(items[0]) + enc_rmsg_items(items.drop_first())
    }
}

pub proof fn lemma_enc_rmsg_items_snoc(items: Seq<RenderMessageV>, x: RenderMessageV)
    ensures
        enc_rmsg_items(items.push(x)) == enc_rmsg_items(items) + enc_rmsg(x),
    decreases items.len(),
{
    if items.len() == 0 {
        assert(items.push(x).drop_first() =~= Seq::<RenderMessageV>::empty());
        assert(items.push(x)[0] == x);
        assert(enc_rmsg_items(items.push(x)) == enc_rmsg(x) + enc_rmsg_items(
            Seq::<RenderMessageV>::empty(),
        ));
        assert(enc_rmsg_items(items.push(x)) =~= enc_rmsg_items(items) + enc_rmsg(x));
    } else {
        assert(items.push(x).drop_first() =~= items.drop_first().push(x));
        assert(items.push(x)[0] == items[0]);
        lemma_enc_rmsg_items_snoc(items.drop_first(), x);
        assert(enc_rmsg_items(items.push(x)) =~= enc_rmsg_items(items) + enc_rmsg(x));
    }
}

pub open spec fn dec_rmsg_items(s: Seq<u8>, count: int) -> Option<(Seq<RenderMessageV>, int)>
    decreases count,
{
    if count <= 0 {
        Some((Seq::<RenderMessageV>::empty(), 0int))
    } else {
        match dec_rmsg(s) {
            None => None,
            Some((v, n)) => match dec_rmsg_items(s.skip(n), count - 1) {
                None => None,
                Some((items, m)) => Some((seq![v] + items, n + m)),
            },
        }
    }
}

pub proof fn lemma_dec_enc_rmsg_items(items: Seq<RenderMessageV>, rest: Seq<u8>)
    requires
        forall|i: int| 0 <= i < items.len() ==> valid_rmsg(#[trigger] items[i]),
    ensures
        dec_rmsg_items(enc_rmsg_items(items) + rest, items.len() as int) == Some(
            (items, enc_rmsg_items(items).len() as int),
        ),
    decreases items.len(),
{
    if items.len() == 0 {
        assert(enc_rmsg_items(items) + rest =~= rest);
        assert(items =~= Seq::<RenderMessageV>::empty());
    } else {
        let e0 = enc_rmsg(items[0]);
        let tailenc = enc_rmsg_items(items.drop_first());
        let s = enc_rmsg_items(items) + rest;
        assert(s =~= e0 + (tailenc + rest));
        lemma_dec_enc_rmsg(items[0], tailenc + rest);
        assert(s.skip(e0.len() as int) =~= tailenc + rest);
        lemma_dec_enc_rmsg_items(items.drop_first(), rest);
        assert(seq![items[0]] + items.drop_first() =~= items);
    }
}

/// A render-message list fits the codec's counted fields.
pub open spec fn valid_rmsg_list(items: Seq<RenderMessageV>) -> bool {
    items.len() <= 65535 && forall|i: int| 0 <= i < items.len() ==> valid_rmsg(#[trigger] items[i])
}

pub open spec fn enc_rmsg_list(items: Seq<RenderMessageV>) -> Seq<u8> {
    enc_u16(items.len() as u16) + enc_rmsg_items(items)
}

pub open spec fn dec_rmsg_list(s: Seq<u8>) -> Option<(Seq<RenderMessageV>, int)> {
    match dec_u16(s) {
        None => None,
        Some((n, _)) => match dec_rmsg_items(s.skip(2), n as int) {
            None => None,
            Some((items, m)) => Some((items, 2 + m)),
        },
    }
}

pub proof fn lemma_dec_enc_rmsg_list(items: Seq<RenderMessageV>, rest: Seq<u8>)
    requires
        valid_rmsg_list(items),
    ensures
        dec_rmsg_list(enc_rmsg_list(items) + rest) == Some(
            (items, enc_rmsg_list(items).len() as int),
        ),
{
    let s = enc_rmsg_list(items) + rest;
    assert(s =~= enc_u16(items.len() as u16) + (enc_rmsg_items(items) + rest));
    lemma_dec_enc_u16(items.len() as u16, enc_rmsg_items(items) + rest);
    assert(s.skip(2) =~= enc_rmsg_items(items) + rest);
    lemma_dec_enc_rmsg_items(items, rest);
}

#[verifier::loop_isolation(false)]
pub fn push_rmsg_list(out: &mut Vec<u8>, items: &Vec<RenderMessage>) -> (r: Result<
    (),
    PacketBuildError,
>)
    ensures
        match r {
            Ok(()) => valid_rmsg_list(rmsgs_view(items@)) && final(out)@ == old(out)@
                + enc_rmsg_list(rmsgs_view(items@)),
            Err(e) => {
                &&& !valid_rmsg_list(rmsgs_view(items@))
                &&& final(out)@ == old(out)@
                &&& e is PayloadTooLarge
            },
        },
{
    let ghost views = rmsgs_view(items@);
    if items.len() > 65535 {
        return Err(PacketBuildError::PayloadTooLarge(items.len()));
    }
    let mut k: usize = 0;
    while k < items.len()
        invariant
            k <= items@.len(),
            forall|i: int| 0 <= i < k ==> valid_rmsg(#[trigger] views[i]),
        decreases items@.len() - k,
    {
        if !rmsg_encodable(&items[k]) {
            proof {
                assert(rmsgs_view(items@)[k as int] == items@[k as int]@);
            }
            return Err(PacketBuildError::PayloadTooLarge(items.len()));
        }
        k = k + 1;
    }
    push_u16_be(out, items.len() as u16);
    let mut k: usize = 0;
    proof {
        assert(views.take(0) =~= Seq::<RenderMessageV>::empty());
    }
    while k < items.len()
        invariant
            k <= items@.len(),
            out@ == old(out)@ + enc_u16(items@.len() as u16) + enc_rmsg_items(
                views.take(k as int),
            ),
        decreases items@.len() - k,
    {
        let res = push_rmsg(out, &items[k]);
        match res {
            Ok(()) => {},
            Err(e) => {
                return Err(e);
            },
        }
        proof {
            lemma_enc_rmsg_items_snoc(views.take(k as int), views[k as int]);
            assert(views.take(k as int).push(views[k as int]) =~= views.take(k as int + 1));
            assert(out@ =~= old(out)@ + enc_u16(items@.len() as u16) + enc_rmsg_items(
                views.take(k as int + 1),
            ));
        }
        k = k + 1;
    }
    proof {
        assert(views.take(views.len() as int) =~= views);
        assert(out@ =~= old(out)@ + enc_rmsg_list(views));
    }
    Ok(())
}

#[verifier::loop_isolation(false)]
pub fn decode_rmsg_list(buf: &Vec<u8>, pos: usize) -> (r: Option<(Vec<RenderMessage>, usize)>)
    requires
        pos <= buf@.len(),
    ensures
        match r {
            Some((v, np)) => dec_rmsg_list(buf@.skip(pos as int)) == Some(
                (rmsgs_view(v@), np - pos),
            ) && pos < np <= buf@.len(),
            None => dec_rmsg_list(buf@.skip(pos as int)) is None,
        },
{
    let (n16, p1) = match decode_u16(buf, pos) {
        Some(r) => r,
        None => {
            return None;
        },
    };
    let n = n16 as usize;
    proof {
        lemma_skip_add(buf@, pos as int, 2);
    }
    let mut res: Vec<RenderMessage> = Vec::new();
    let mut p: usize = p1;
    let mut k: usize = 0;
    proof {
        assert(rmsgs_view(res@) =~= Seq::<RenderMessageV>::empty());
    }
    while k < n
        invariant
            k <= n,
            pos < p1 <= p <= buf@.len(),
            res@.len() == k,
            dec_rmsg_items(buf@.skip(p1 as int), n as int) == (match dec_rmsg_items(
                buf@.skip(p as int),
                n - k,
            ) {
                None => None::<(Seq<RenderMessageV>, int)>,
                Some((items, m)) => Some((rmsgs_view(res@) + items, (p - p1) + m)),
            }),
        decreases n - k,
    {
        let (v, pnew) = match decode_rmsg(buf, p) {
            Some(r) => r,
            None => {
                proof {
                    assert(dec_rmsg_items(buf@.skip(p as int), n - k) is None);
                }
                return None;
            },
        };
        proof {
            lemma_skip_add(buf@, p as int, pnew - p);
            let inner = dec_rmsg_items(buf@.skip(pnew as int), n - k - 1);
            match inner {
                None => {
                    assert(dec_rmsg_items(buf@.skip(p as int), n - k) is None);
                },
                Some((items2, m2)) => {
                    assert(dec_rmsg_items(buf@.skip(p as int), n - k) == Some(
                        (seq![v@] + items2, (pnew - p) + m2),
                    ));
                    assert(rmsgs_view(res@) + (seq![v@] + items2) =~= rmsgs_view(res@.push(v))
                        + items2);
                },
            }
        }
        res.push(v);
        p = pnew;
        k = k + 1;
    }
    proof {
        assert(rmsgs_view(res@) + Seq::<RenderMessageV>::empty() =~= rmsgs_view(res@));
    }
    Some((res, p))
}

// ---------------------------------------------------------------------------
// render groups, desired game state, controllable team info
// ---------------------------------------------------------------------------

pub open spec fn enc_rgroup(g: RenderGroupV) -> Seq<u8> {
    enc_rmsg_list(g.render_messages) + enc_u32(g.id as u32)
}

pub open spec fn valid_rgroup(g: RenderGroupV) -> bool {
    valid_rmsg_list(g.render_messages)
}

pub open spec fn dec_rgroup(s: Seq<u8>) -> Option<(RenderGroupV, int)> {
    match dec_rmsg_list(s) {
        None => None,
        Some((render_messages, n1)) => match dec_u32(s.skip(n1)) {
            None => None,
            Some((idbits, n2)) => Some(
                (RenderGroupV { render_messages, id: idbits as i32 }, n1 + n2),
            ),
        },
    }
}

pub proof fn lemma_dec_enc_rgroup(g: RenderGroupV, rest: Seq<u8>)
    requires
        valid_rgroup(g),
    ensures
        dec_rgroup(enc_rgroup(g) + rest) == Some((g, enc_rgroup(g).len() as int)),
{
    let s = enc_rgroup(g) + rest;
    let e1 = enc_rmsg_list(g.render_messages);
    assert(s =~= e1 + (enc_u32(g.id as u32) + rest));
    lemma_dec_enc_rmsg_list(g.render_messages, enc_u32(g.id as u32) + rest);
    assert(s.skip(e1.len() as int) =~= enc_u32(g.id as u32) + rest);
    lemma_dec_enc_u32(g.id as u32, rest);
    let id = g.id;
    assert((id as u32) as i32 == id) by (bit_vector);
}

pub fn push_rgroup(out: &mut Vec<u8>, g: &RenderGroup) -> (r: Result<(), PacketBuildError>)
    ensures
        match r {
            Ok(()) => valid_rgroup(g@) && final(out)@ == old(out)@ + enc_rgroup(g@),
            Err(e) => {
                &&& !valid_rgroup(g@)
                &&& final(out)@ == old(out)@
                &&& e is PayloadTooLarge
            },
        },
{
    let res = push_rmsg_list(out, &g.render_messages);
    match res {
        Ok(()) => {},
        Err(e) => {
            return Err(e);
        },
    }
    push_u32_be(out, #[verifier::truncate] (g.id as u32));
    proof {
        assert(out@ =~= old(out)@ + enc_rgroup(g@));
    }
    Ok(())
}

pub fn decode_rgroup(buf: &Vec<u8>, pos: usize) -> (r: Option<(RenderGroup, usize)>)
    requires
        pos <= buf@.len(),
    ensures
        match r {
            Some((v, np)) => dec_rgroup(buf@.skip(pos as int)) == Some((v@, np - pos)) && pos < np
                <= buf@.len(),
            None => dec_rgroup(buf@.skip(pos as int)) is None,
        },
{
    let (render_messages, p1) = match decode_rmsg_list(buf, pos) {
        Some(r) => r,
        None => {
            return None;
        },
    };
    proof {
        lemma_skip_add(buf@, pos as int, p1 - pos);
    }
    let (idbits, p2) = match decode_u32(buf, p1) {
        Some(r) => r,
        None => {
            return None;
        },
    };
    Some((RenderGroup { render_messages, id: #[verifier::truncate] (idbits as i32) }, p2))
}

pub open spec fn enc_dgs(d: DesiredGameStateV) -> Seq<u8> {
    enc_ball_list(d.ball_states) + enc_car_list(d.car_states) + enc_opt_matchinfo(d.match_info)
}

pub open spec fn valid_dgs(d: DesiredGameStateV) -> bool {
    d.ball_states.len() <= 65535 && d.car_states.len() <= 65535
}

pub open spec fn dec_dgs(s: Seq<u8>) -> Option<(DesiredGameStateV, int)> {
    match dec_ball_list(s) {
        None => None,
        Some((ball_states, n1)) => match dec_car_list(s.skip(n1)) {
            None => None,
            Some((car_states, n2)) => match dec_opt_matchinfo(s.skip(n1).skip(n2)) {
                None => None,
                Some((match_info, n3)) => Some(
                    (DesiredGameStateV { ball_states, car_states, match_info }, n1 + n2 + n3),
                ),
            },
        },
    }
}

pub proof fn lemma_dec_enc_dgs(d: DesiredGameStateV, rest: Seq<u8>)
    requires
        valid_dgs(d),
    ensures
        dec_dgs(enc_dgs(d) + rest) == Some((d, enc_dgs(d).len() as int)),
{
    let s = enc_dgs(d) + rest;
    let e1 = enc_ball_list(d.ball_states);
    let e2 = enc_car_list(d.car_states);
    let e3 = enc_opt_matchinfo(d.match_info);
    assert(s =~= e1 + (e2 + e3 + rest));
    lemma_dec_enc_ball_list(d.ball_states, e2 + e3 + rest);
    assert(s.skip(e1.len() as int) =~= e2 + (e3 + rest));
    lemma_dec_enc_car_list(d.car_states, e3 + rest);
    assert(s.skip(e1.len() as int).skip(e2.len() as int) =~= e3 + rest);
    lemma_dec_enc_opt_matchinfo(d.match_info, rest);
}

pub fn push_dgs(out: &mut Vec<u8>, d: &DesiredGameState) -> (r: Result<(), PacketBuildError>)
    ensures
        match r {
            Ok(()) => valid_dgs(d@) && final(out)@ == old(out)@ + enc_dgs(d@),
            Err(e) => {
                &&& !valid_dgs(d@)
                &&& final(out)@ == old(out)@
                &&& e is PayloadTooLarge
            },
        },
{
    if d.ball_states.len() > 65535 {
        return Err(PacketBuildError::PayloadTooLarge(d.ball_states.len()));
    }
    if d.car_states.len() > 65535 {
        return Err(PacketBuildError::PayloadTooLarge(d.car_states.len()));
    }
    let res = push_ball_list(out, &d.ball_states);
    match res {
        Ok(()) => {},
        Err(e) => {
            return Err(e);
        },
    }
    let res = push_car_list(out, &d.car_states);
    match res {
        Ok(()) => {},
        Err(e) => {
            return Err(e);
        },
    }
    push_opt_matchinfo(out, &d.match_info);
    proof {
        assert(out@ =~= old(out)@ + enc_dgs(d@));
    }
    Ok(())
}

pub fn decode_dgs(buf: &Vec<u8>, pos: usize) -> (r: Option<(DesiredGameState, usize)>)
    requires
        pos <= buf@.len(),
    ensures
        match r {
            Some((v, np)) => dec_dgs(buf@.skip(pos as int)) == Some((v@, np - pos)) && pos < np
                <= buf@.len(),
            None => dec_dgs(buf@.skip(pos as int)) is None,
        },
{
    let (ball_states, p1) = match decode_ball_list(buf, pos) {
        Some(r) => r,
        None => {
            return None;
        },
    };
    proof {
        lemma_skip_add(buf@, pos as int, p1 - pos);
    }
    let (car_states, p2) = match decode_car_list(buf, p1) {
        Some(r) => r,
        None => {
            return None;
        },
    };
    proof {
        lemma_skip_add(buf@, p1 as int, p2 - p1);
    }
    let (match_info, p3) = match decode_opt_matchinfo(buf, p2) {
        Some(r) => r,
        None => {
            return None;
        },
    };
    Some((DesiredGameState { ball_states, car_states, match_info }, p3))
}

pub open spec fn enc_cti(c: ControllableTeamInfoV) -> Seq<u8> {
    enc_u32(c.team) + enc_ci_list(c.controllables)
}

pub open spec fn valid_cti(c: ControllableTeamInfoV) -> bool {
    c.controllables.len() <= 65535
}

pub open spec fn dec_cti(s: Seq<u8>) -> Option<(ControllableTeamInfoV, int)> {
    match dec_u32(s) {
        None => None,
        Some((team, n1)) => match dec_ci_list(s.skip(n1)) {
            None => None,
            Some((controllables, n2)) => Some(
                (ControllableTeamInfoV { team, controllables }, n1 + n2),
            ),
        },
    }
}

pub proof fn lemma_dec_enc_cti(c: ControllableTeamInfoV, rest: Seq<u8>)
    requires
        valid_cti(c),
    ensures
        dec_cti(enc_cti(c) + rest) == Some((c, enc_cti(c).len() as int)),
{
    let s = enc_cti(c) + rest;
    assert(s =~= enc_u32(c.team) + (enc_ci_list(c.controllables) + rest));
    lemma_dec_enc_u32(c.team, enc_ci_list(c.controllables) + rest);
    assert(s.skip(4) =~= enc_ci_list(c.controllables) + rest);
    lemma_dec_enc_ci_list(c.controllables, rest);
}

pub fn push_cti(out: &mut Vec<u8>, c: &ControllableTeamInfo) -> (r: Result<(), PacketBuildError>)
    ensures
        match r {
            Ok(()) => valid_cti(c@) && final(out)@ == old(out)@ + enc_cti(c@),
            Err(e) => {
                &&& !valid_cti(c@)
                &&& final(out)@ == old(out)@
                &&& e is PayloadTooLarge
            },
        },
{
    if c.controllables.len() > 65535 {
        return Err(PacketBuildError::PayloadTooLarge(c.controllables.len()));
    }
    push_u32_be(out, c.team);
    let res = push_ci_list(out, &c.controllables);
    match res {
        Ok(()) => {},
        Err(e) => {
            return Err(e);
        },
    }
    proof {
        assert(out@ =~= old(out)@ + enc_cti(c@));
    }
    Ok(())
}

pub fn decode_cti(buf: &Vec<u8>, pos: usize) -> (r: Option<(ControllableTeamInfo, usize)>)
    requires
        pos <= buf@.len(),
    ensures
        match r {
            Some((v, np)) => dec_cti(buf@.skip(pos as int)) == Some((v@, np - pos)) && pos < np
                <= buf@.len(),
            None => dec_cti(buf@.skip(pos as int)) is None,
        },
{
    let (team, p1) = match decode_u32(buf, pos) {
        Some(r) => r,
        None => {
            return None;
        },
    };
    proof {
        lemma_skip_add(buf@, pos as int, p1 - pos);
    }
    let (controllables, p2) = match decode_ci_list(buf, p1) {
        Some(r) => r,
        None => {
            return None;
        },
    };
    Some((ControllableTeamInfo { team, controllables }, p2))
}

// ---------------------------------------------------------------------------
// whole messages: one tag byte, then the body. The two taxonomies use
// disjoint tag ranges, so neither can be read as the other.
// ---------------------------------------------------------------------------

pub open spec fn enc_core(m: CoreMessageV) -> Seq<u8> {
    match m {
        CoreMessageV::ControllableTeamInfo(c) => seq![1u8] + enc_cti(c),
        CoreMessageV::MatchConfiguration(d) => seq![2u8] + enc_bytes(d),
        CoreMessageV::FieldInfo(d) => seq![3u8] + enc_bytes(d),
        CoreMessageV::GamePacket(d) => seq![4u8] + enc_bytes(d),
        CoreMessageV::BallPrediction(d) => seq![5u8] + enc_bytes(d),
        CoreMessageV::MatchComm(d) => seq![6u8] + enc_bytes(d),
        CoreMessageV::RenderingStatus(d) => seq![7u8] + enc_bytes(d),
        CoreMessageV::PingRequest => seq![8u8],
        CoreMessageV::PingResponse => seq![9u8],
        CoreMessageV::DisconnectSignal => seq![10u8],
    }
}

/// A server-to-client message fits the codec's counted fields.
pub open spec fn valid_core(m: CoreMessageV) -> bool {
    match m {
        CoreMessageV::ControllableTeamInfo(c) => valid_cti(c),
        CoreMessageV::MatchConfiguration(d) => valid_bytes(d),
        CoreMessageV::FieldInfo(d) => valid_bytes(d),
        CoreMessageV::GamePacket(d) => valid_bytes(d),
        CoreMessageV::BallPrediction(d) => valid_bytes(d),
        CoreMessageV::MatchComm(d) => valid_bytes(d),
        CoreMessageV::RenderingStatus(d) => valid_bytes(d),
        CoreMessageV::PingRequest => true,
        CoreMessageV::PingResponse => true,
        CoreMessageV::DisconnectSignal => true,
    }
}

pub open spec fn dec_core(s: Seq<u8>) -> Option<(CoreMessageV, int)> {
    match dec_u8(s) {
        None => None,
        Some((tag, _)) => {
            if tag == 1 {
                match dec_cti(s.skip(1)) {
                    None => None,
                    Some((c, n)) => Some((CoreMessageV::ControllableTeamInfo(c), 1 + n)),
                }
            } else if tag == 2 {
                match dec_bytes(s.skip(1)) {
                    None => None,
                    Some((d, n)) => Some((CoreMessageV::MatchConfiguration(d), 1 + n)),
                }
            } else if tag == 3 {
                match dec_bytes(s.skip(1)) {
                    None => None,
                    Some((d, n)) => Some((CoreMessageV::FieldInfo(d), 1 + n)),
                }
            } else if tag == 4 {
                match dec_bytes(s.skip(1)) {
                    None => None,
                    Some((d, n)) => Some((CoreMessageV::GamePacket(d), 1 + n)),
                }
            } else if tag == 5 {
                match dec_bytes(s.skip(1)) {
                    None => None,
                    Some((d, n)) => Some((CoreMessageV::BallPrediction(d), 1 + n)),
                }
            } else if tag == 6 {
                match dec_bytes(s.skip(1)) {
                    None => None,
                    Some((d, n)) => Some((CoreMessageV::MatchComm(d), 1 + n)),
                }
            } else if tag == 7 {
                match dec_bytes(s.skip(1)) {
                    None => None,
                    Some((d, n)) => Some((CoreMessageV::RenderingStatus(d), 1 + n)),
                }
            } else if tag == 8 {
                Some((CoreMessageV::PingRequest, 1int))
            } else if tag == 9 {
                Some((CoreMessageV::PingResponse, 1int))
            } else if tag == 10 {
                Some((CoreMessageV::DisconnectSignal, 1int))
            } else {
                None
            }
        },
    }
}

/// A whole payload decoded as one server-to-client message, rejecting
/// trailing bytes.
pub open spec fn spec_parse_core(s: Seq<u8>) -> Option<CoreMessageV> {
    match dec_core(s) {
        Some((m, n)) => if n == s.len() {
            Some(m)
        } else {
            None
        },
        None => None,
    }
}

pub proof fn lemma_dec_enc_core(m: CoreMessageV, rest: Seq<u8>)
    requires
        valid_core(m),
    ensures
        dec_core(enc_core(m) + rest) == Some((m, enc_core(m).len() as int)),
{
    let s = enc_core(m) + rest;
    match m {
        CoreMessageV::ControllableTeamInfo(c) => {
            assert(s.skip(1) =~= enc_cti(c) + rest);
            lemma_dec_enc_cti(c, rest);
        },
        CoreMessageV::MatchConfiguration(d) => {
            assert(s.skip(1) =~= enc_bytes(d) + rest);
            lemma_dec_enc_bytes(d, rest);
        },
        CoreMessageV::FieldInfo(d) => {
            assert(s.skip(1) =~= enc_bytes(d) + rest);
            lemma_dec_enc_bytes(d, rest);
        },
        CoreMessageV::GamePacket(d) => {
            assert(s.skip(1) =~= enc_bytes(d) + rest);
            lemma_dec_enc_bytes(d, rest);
        },
        CoreMessageV::BallPrediction(d) => {
            assert(s.skip(1) =~= enc_bytes(d) + rest);
            lemma_dec_enc_bytes(d, rest);
        },
        CoreMessageV::MatchComm(d) => {
            assert(s.skip(1) =~= enc_bytes(d) + rest);
            lemma_dec_enc_bytes(d, rest);
        },
        CoreMessageV::RenderingStatus(d) => {
            assert(s.skip(1) =~= enc_bytes(d) + rest);
            lemma_dec_enc_bytes(d, rest);
        },
        _ => {},
    }
}

/// Decoding an encoded server-to-client message yields the original message.
pub proof fn lemma_core_roundtrip(m: CoreMessageV)
    requires
        valid_core(m),
    ensures
        spec_parse_core(enc_core(m)) == Some(m),
{
    lemma_dec_enc_core(m, Seq::empty());
    assert(enc_core(m) + Seq::<u8>::empty() =~= enc_core(m));
}

pub open spec fn enc_interface(m: InterfaceMessageV) -> Seq<u8> {
    match m {
        InterfaceMessageV::ConnectionSettings {
            agent_id,
            wants_ball_predictions,
            wants_comms,
            close_between_matches,
        } => seq![32u8] + enc_bytes(agent_id) + enc_bool(wants_ball_predictions) + enc_bool(
            wants_comms,
        ) + enc_bool(close_between_matches),
        InterfaceMessageV::PlayerInput { index, data } => seq![33u8] + enc_u32(index) + enc_bytes(
            data,
        ),
        InterfaceMessageV::MatchComm(d) => seq![34u8] + enc_bytes(d),
        InterfaceMessageV::RenderGroup(g) => seq![35u8] + enc_rgroup(g),
        InterfaceMessageV::DesiredGameState(d) => seq![36u8] + enc_dgs(d),
        InterfaceMessageV::PingResponse => seq![37u8],
        InterfaceMessageV::InitComplete => seq![38u8],
    }
}

/// A client-to-server message fits the codec's counted fields.
pub open spec fn valid_interface(m: InterfaceMessageV) -> bool {
    match m {
        InterfaceMessageV::ConnectionSettings { agent_id, .. } => valid_bytes(agent_id),
        InterfaceMessageV::PlayerInput { data, .. } => valid_bytes(data),
        InterfaceMessageV::MatchComm(d) => valid_bytes(d),
        InterfaceMessageV::RenderGroup(g) => valid_rgroup(g),
        InterfaceMessageV::DesiredGameState(d) => valid_dgs(d),
        InterfaceMessageV::PingResponse => true,
        InterfaceMessageV::InitComplete => true,
    }
}

pub open spec fn dec_interface(s: Seq<u8>) -> Option<(InterfaceMessageV, int)> {
    match dec_u8(s) {
        None => None,
        Some((tag, _)) => {
            if tag == 32 {
                match dec_bytes(s.skip(1)) {
                    None => None,
                    Some((agent_id, n1)) => match dec_bool(s.skip(1).skip(n1)) {
                        None => None,
                        Some((wants_ball_predictions, n2)) => match dec_bool(
                            s.skip(1).skip(n1).skip(n2),
                        ) {
                            None => None,
                            Some((wants_comms, n3)) => match dec_bool(
                                s.skip(1).skip(n1).skip(n2).skip(n3),
                            ) {
                                None => None,
                                Some((close_between_matches, n4)) => Some(
                                    (
                                        InterfaceMessageV::ConnectionSettings {
                                            agent_id,
                                            wants_ball_predictions,
                                            wants_comms,
                                            close_between_matches,
                                        },
                                        1 + n1 + n2 + n3 + n4,
                                    ),
                                ),
                            },
                        },
                    },
                }
            } else if tag == 33 {
                match dec_u32(s.skip(1)) {
                    None => None,
                    Some((index, n1)) => match dec_bytes(s.skip(1).skip(n1)) {
                        None => None,
                        Some((data, n2)) => Some(
                            (InterfaceMessageV::PlayerInput { index, data }, 1 + n1 + n2),
                        ),
                    },
                }
            } else if tag == 34 {
                match dec_bytes(s.skip(1)) {
                    None => None,
                    Some((d, n)) => Some((InterfaceMessageV::MatchComm(d), 1 + n)),
                }
            } else if tag == 35 {
                match dec_rgroup(s.skip(1)) {
                    None => None,
                    Some((g, n)) => Some((InterfaceMessageV::RenderGroup(g), 1 + n)),
                }
            } else if tag == 36 {
                match dec_dgs(s.skip(1)) {
                    None => None,
                    Some((d, n)) => Some((InterfaceMessageV::DesiredGameState(d), 1 + n)),
                }
            } else if tag == 37 {
                Some((InterfaceMessageV::PingResponse, 1int))
            } else if tag == 38 {
                Some((InterfaceMessageV::InitComplete, 1int))
            } else {
                None
            }
        },
    }
}

/// A whole payload decoded as one client-to-server message, rejecting
/// trailing bytes.
pub open spec fn spec_parse_interface(s: Seq<u8>) -> Option<InterfaceMessageV> {
    match dec_interface(s) {
        Some((m, n)) => if n == s.len() {
            Some(m)
        } else {
            None
        },
        None => None,
    }
}

#[verifier::rlimit(100)]
pub proof fn lemma_dec_enc_interface(m: InterfaceMessageV, rest: Seq<u8>)
    requires
        valid_interface(m),
    ensures
        dec_interface(enc_interface(m) + rest) == Some((m, enc_interface(m).len() as int)),
{
    let s = enc_interface(m) + rest;
    match m {
        InterfaceMessageV::ConnectionSettings {
            agent_id,
            wants_ball_predictions,
            wants_comms,
            close_between_matches,
        } => {
            let e1 = enc_bytes(agent_id);
            let e2 = enc_bool(wants_ball_predictions);
            let e3 = enc_bool(wants_comms);
            let e4 = enc_bool(close_between_matches);
            assert(s.skip(1) =~= e1 + (e2 + e3 + e4 + rest));
            lemma_dec_enc_bytes(agent_id, e2 + e3 + e4 + rest);
            assert(s.skip(1).skip(e1.len() as int) =~= e2 + (e3 + e4 + rest));
            lemma_dec_enc_bool(wants_ball_predictions, e3 + e4 + rest);
            assert(s.skip(1).skip(e1.len() as int).skip(1) =~= e3 + (e4 + rest));
            lemma_dec_enc_bool(wants_comms, e4 + rest);
            assert(s.skip(1).skip(e1.len() as int).skip(1).skip(1) =~= e4 + rest);
            lemma_dec_enc_bool(close_between_matches, rest);
        },
        InterfaceMessageV::PlayerInput { index, data } => {
            assert(s.skip(1) =~= enc_u32(index) + (enc_bytes(data) + rest));
            lemma_dec_enc_u32(index, enc_bytes(data) + rest);
            assert(s.skip(1).skip(4) =~= enc_bytes(data) + rest);
            lemma_dec_enc_bytes(data, rest);
        },
        InterfaceMessageV::MatchComm(d) => {
            assert(s.skip(1) =~= enc_bytes(d) + rest);
            lemma_dec_enc_bytes(d, rest);
        },
        InterfaceMessageV::RenderGroup(g) => {
            assert(s.skip(1) =~= enc_rgroup(g) + rest);
            lemma_dec_enc_rgroup(g, rest);
        },
        InterfaceMessageV::DesiredGameState(d) => {
            assert(s.skip(1) =~= enc_dgs(d) + rest);
            lemma_dec_enc_dgs(d, rest);
        },
        _ => {},
    }
}

/// Decoding an encoded client-to-server message yields the original message.
pub proof fn lemma_interface_roundtrip(m: InterfaceMessageV)
    requires
        valid_interface(m),
    ensures
        spec_parse_interface(enc_interface(m)) == Some(m),
{
    lemma_dec_enc_interface(m, Seq::empty());
    assert(enc_interface(m) + Seq::<u8>::empty() =~= enc_interface(m));
}

/// The taxonomies are disjoint on the wire: a client-to-server encoding never
/// reads as a server-to-client message, nor the reverse.
pub proof fn lemma_taxonomies_disjoint(mi: InterfaceMessageV, mc: CoreMessageV)
    ensures
        spec_parse_core(enc_interface(mi)) is None,
        spec_parse_interface(enc_core(mc)) is None,
{
    assert(enc_interface(mi)[0] >= 32);
    assert(enc_core(mc)[0] <= 10);
}

// ---------------------------------------------------------------------------
// whole messages, executable
// ---------------------------------------------------------------------------

/// Encodes one server-to-client message as a payload.
pub fn encode_core_message(m: &CoreMessage) -> (r: Result<Vec<u8>, PacketBuildError>)
    ensures
        match r {
            Ok(v) => valid_core(m@) && v@ == enc_core(m@),
            Err(e) => !valid_core(m@) && e is PayloadTooLarge,
        },
{
    let mut out: Vec<u8> = Vec::new();
    match m {
        CoreMessage::ControllableTeamInfo(c) => {
            out.push(1u8);
            match push_cti(&mut out, c) {
                Ok(()) => {},
                Err(e) => {
                    return Err(e);
                },
            }
        },
        CoreMessage::MatchConfiguration(d) => {
            out.push(2u8);
            match push_bytes(&mut out, &d.data) {
                Ok(()) => {},
                Err(e) => {
                    return Err(e);
                },
            }
        },
        CoreMessage::FieldInfo(d) => {
            out.push(3u8);
            match push_bytes(&mut out, &d.data) {
                Ok(()) => {},
                Err(e) => {
                    return Err(e);
                },
            }
        },
        CoreMessage::GamePacket(d) => {
            out.push(4u8);
            match push_bytes(&mut out, &d.data) {
                Ok(()) => {},
                Err(e) => {
                    return Err(e);
                },
            }
        },
        CoreMessage::BallPrediction(d) => {
            out.push(5u8);
            match push_bytes(&mut out, &d.data) {
                Ok(()) => {},
                Err(e) => {
                    return Err(e);
                },
            }
        },
        CoreMessage::MatchComm(d) => {
            out.push(6u8);
            match push_bytes(&mut out, &d.data) {
                Ok(()) => {},
                Err(e) => {
                    return Err(e);
                },
            }
        },
        CoreMessage::RenderingStatus(d) => {
            out.push(7u8);
            match push_bytes(&mut out, &d.data) {
                Ok(()) => {},
                Err(e) => {
                    return Err(e);
                },
            }
        },
        CoreMessage::PingRequest => {
            out.push(8u8);
        },
        CoreMessage::PingResponse => {
            out.push(9u8);
        },
        CoreMessage::DisconnectSignal => {
            out.push(10u8);
        },
    }
    proof {
        assert(out@ =~= enc_core(m@));
    }
    Ok(out)
}

/// Encodes one client-to-server message as a payload.
pub fn encode_interface_message(m: &InterfaceMessage) -> (r: Result<Vec<u8>, PacketBuildError>)
    ensures
        match r {
            Ok(v) => valid_interface(m@) && v@ == enc_interface(m@),
            Err(e) => !valid_interface(m@) && e is PayloadTooLarge,
        },
{
    let mut out: Vec<u8> = Vec::new();
    match m {
        InterfaceMessage::ConnectionSettings(cs) => {
            out.push(32u8);
            match push_bytes(&mut out, &cs.agent_id) {
                Ok(()) => {},
                Err(e) => {
                    return Err(e);
                },
            }
            push_bool(&mut out, cs.wants_ball_predictions);
            push_bool(&mut out, cs.wants_comms);
            push_bool(&mut out, cs.close_between_matches);
        },
        InterfaceMessage::PlayerInput(pi) => {
            out.push(33u8);
            push_u32_be(&mut out, pi.index);
            match push_bytes(&mut out, &pi.data) {
                Ok(()) => {},
                Err(e) => {
                    return Err(e);
                },
            }
        },
        InterfaceMessage::MatchComm(d) => {
            out.push(34u8);
            match push_bytes(&mut out, &d.data) {
                Ok(()) => {},
                Err(e) => {
                    return Err(e);
                },
            }
        },
        InterfaceMessage::RenderGroup(g) => {
            out.push(35u8);
            match push_rgroup(&mut out, g) {
                Ok(()) => {},
                Err(e) => {
                    return Err(e);
                },
            }
        },
        InterfaceMessage::DesiredGameState(d) => {
            out.push(36u8);
            match push_dgs(&mut out, d) {
                Ok(()) => {},
                Err(e) => {
                    return Err(e);
                },
            }
        },
        InterfaceMessage::PingResponse => {
            out.push(37u8);
        },
        InterfaceMessage::InitComplete => {
            out.push(38u8);
        },
    }
    proof {
        assert(out@ =~= enc_interface(m@));
    }
    Ok(out)
}

/// Decodes one server-to-client message from `pos`.
pub fn decode_core_message(buf: &Vec<u8>, pos: usize) -> (r: Option<(CoreMessage, usize)>)
    requires
        pos <= buf@.len(),
    ensures
        match r {
            Some((v, np)) => dec_core(buf@.skip(pos as int)) == Some((v@, np - pos)) && pos < np
                <= buf@.len(),
            None => dec_core(buf@.skip(pos as int)) is None,
        },
{
    let (tag, p1) = match decode_u8(buf, pos) {
        Some(r) => r,
        None => {
            return None;
        },
    };
    proof {
        lemma_skip_add(buf@, pos as int, 1);
    }
    if tag == 1 {
        match decode_cti(buf, p1) {
            Some((c, np)) => Some((CoreMessage::ControllableTeamInfo(c), np)),
            None => None,
        }
    } else if tag == 2 {
        match decode_bytes(buf, p1) {
            Some((data, np)) => Some((CoreMessage::MatchConfiguration(MatchConfiguration { data }), np)),
            None => None,
        }
    } else if tag == 3 {
        match decode_bytes(buf, p1) {
            Some((data, np)) => Some((CoreMessage::FieldInfo(FieldInfo { data }), np)),
            None => None,
        }
    } else if tag == 4 {
        match decode_bytes(buf, p1) {
            Some((data, np)) => Some((CoreMessage::GamePacket(GamePacket { data }), np)),
            None => None,
        }
    } else if tag == 5 {
        match decode_bytes(buf, p1) {
            Some((data, np)) => Some((CoreMessage::BallPrediction(BallPrediction { data }), np)),
            None => None,
        }
    } else if tag == 6 {
        match decode_bytes(buf, p1) {
            Some((data, np)) => Some((CoreMessage::MatchComm(MatchComm { data }), np)),
            None => None,
        }
    } else if tag == 7 {
        match decode_bytes(buf, p1) {
            Some((data, np)) => Some((CoreMessage::RenderingStatus(RenderingStatus { data }), np)),
            None => None,
        }
    } else if tag == 8 {
        Some((CoreMessage::PingRequest, p1))
    } else if tag == 9 {
        Some((CoreMessage::PingResponse, p1))
    } else if tag == 10 {
        Some((CoreMessage::DisconnectSignal, p1))
    } else {
        None
    }
}

/// Decodes one client-to-server message from `pos`.
pub fn decode_interface_message(buf: &Vec<u8>, pos: usize) -> (r: Option<(InterfaceMessage, usize)>)
    requires
        pos <= buf@.len(),
    ensures
        match r {
            Some((v, np)) => dec_interface(buf@.skip(pos as int)) == Some((v@, np - pos)) && pos
                < np <= buf@.len(),
            None => dec_interface(buf@.skip(pos as int)) is None,
        },
{
    let (tag, p1) = match decode_u8(buf, pos) {
        Some(r) => r,
        None => {
            return None;
        },
    };
    proof {
        lemma_skip_add(buf@, pos as int, 1);
    }
    if tag == 32 {
        let (agent_id, p2) = match decode_bytes(buf, p1) {
            Some(r) => r,
            None => {
                return None;
            },
        };
        proof {
            lemma_skip_add(buf@, p1 as int, p2 - p1);
        }
        let (wants_ball_predictions, p3) = match decode_bool(buf, p2) {
            Some(r) => r,
            None => {
                return None;
            },
        };
        proof {
            lemma_skip_add(buf@, p2 as int, p3 - p2);
        }
        let (wants_comms, p4) = match decode_bool(buf, p3) {
            Some(r) => r,
            None => {
                return None;
            },
        };
        proof {
            lemma_skip_add(buf@, p3 as int, p4 - p3);
        }
        let (close_between_matches, p5) = match decode_bool(buf, p4) {
            Some(r) => r,
            None => {
                return None;
            },
        };
        Some(
            (
                InterfaceMessage::ConnectionSettings(
                    ConnectionSettings {
                        agent_id,
                        wants_ball_predictions,
                        wants_comms,
                        close_between_matches,
                    },
                ),
                p5,
            ),
        )
    } else if tag == 33 {
        let (index, p2) = match decode_u32(buf, p1) {
            Some(r) => r,
            None => {
                return None;
            },
        };
        proof {
            lemma_skip_add(buf@, p1 as int, p2 - p1);
        }
        let (data, p3) = match decode_bytes(buf, p2) {
            Some(r) => r,
            None => {
                return None;
            },
        };
        Some((InterfaceMessage::PlayerInput(PlayerInput { index, data }), p3))
    } else if tag == 34 {
        match decode_bytes(buf, p1) {
            Some((data, np)) => Some((InterfaceMessage::MatchComm(MatchComm { data }), np)),
            None => None,
        }
    } else if tag == 35 {
        match decode_rgroup(buf, p1) {
            Some((g, np)) => Some((InterfaceMessage::RenderGroup(g), np)),
            None => None,
        }
    } else if tag == 36 {
        match decode_dgs(buf, p1) {
            Some((d, np)) => Some((InterfaceMessage::DesiredGameState(d), np)),
            None => None,
        }
    } else if tag == 37 {
        Some((InterfaceMessage::PingResponse, p1))
    } else if tag == 38 {
        Some((InterfaceMessage::InitComplete, p1))
    } else {
        None
    }
}

/// Decodes a whole received payload as one server-to-client message; fails on
/// any payload the codec did not produce.
pub fn parse_core_payload(payload: &Vec<u8>) -> (r: Result<CoreMessage, PacketParseError>)
    ensures
        match r {
            Ok(m) => spec_parse_core(payload@) == Some(m@),
            Err(e) => spec_parse_core(payload@) is None && e is InvalidPayload,
        },
{
    proof {
        assert(payload@.skip(0) =~= payload@);
    }
    match decode_core_message(payload, 0) {
        Some((m, np)) => {
            if np == payload.len() {
                Ok(m)
            } else {
                Err(PacketParseError::InvalidPayload)
            }
        },
        None => Err(PacketParseError::InvalidPayload),
    }
}

/// Decodes a whole payload as one client-to-server message; fails on any
/// payload the codec did not produce.
pub fn parse_interface_payload(payload: &Vec<u8>) -> (r: Result<InterfaceMessage, PacketParseError>)
    ensures
        match r {
            Ok(m) => spec_parse_interface(payload@) == Some(m@),
            Err(e) => spec_parse_interface(payload@) is None && e is InvalidPayload,
        },
{
    proof {
        assert(payload@.skip(0) =~= payload@);
    }
    match decode_interface_message(payload, 0) {
        Some((m, np)) => {
            if np == payload.len() {
                Ok(m)
            } else {
                Err(PacketParseError::InvalidPayload)
            }
        },
        None => Err(PacketParseError::InvalidPayload),
    }
}

} // verus!
