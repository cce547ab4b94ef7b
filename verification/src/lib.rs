//! Client-side runtime for a game-simulation server speaking a length-prefixed
//! binary message protocol over one TCP connection.
//!
//! The library holds everything that can be stated and proved: the wire framing
//! (a two-byte big-endian length prefix), the message codec, the startup
//! handshake collector, the incoming-message dispatcher with its
//! ball-prediction pairing rule, and the coordinator state machine that owns
//! the single reader/writer of the socket. The socket itself, the worker
//! threads and the readiness plumbing live in the unverified shell around this
//! crate and hand plain values in and out.
use vstd::prelude::*;

use crate::messages::CoreMessage;
use crate::messages::CoreMessageV;
use crate::messages::InterfaceMessage;
use crate::messages::InterfaceMessageV;
use crate::messages::imsgs_view;

pub mod agents;
pub mod codec;
pub mod dispatch;
pub mod handshake;
pub mod messages;
pub mod render;
pub mod runtime;
pub mod state_builder;
pub mod util;
pub mod wire;

verus! {

/// Building an outgoing packet failed.
#[derive(Debug)]
pub enum PacketBuildError {
    /// The encoded payload does not fit the two-byte length prefix.
    PayloadTooLarge(usize),
}

/// A received payload did not decode as a message of the expected taxonomy.
#[derive(Debug)]
pub enum PacketParseError {
    /// The payload bytes are not a valid encoding of any server message.
    InvalidPayload,
}

/// The encoded payloads of a batch of client-to-server messages.
pub open spec fn interface_payloads(ms: Seq<InterfaceMessageV>) -> Seq<Seq<u8>> {
    Seq::new(ms.len(), |i: int| codec::enc_interface(ms[i]))
}

/// Every message of the batch encodes, and every encoding fits one frame.
pub open spec fn valid_outgoing_batch(ms: Seq<InterfaceMessageV>) -> bool {
    forall|i: int|
        0 <= i < ms.len() ==> codec::valid_interface(#[trigger] ms[i]) && codec::enc_interface(
            ms[i],
        ).len() <= 65535
}

/// Encodes one client-to-server message and wraps it in one frame: the
/// two-byte big-endian length of the payload, then the payload. Fails with
/// `PayloadTooLarge` exactly when a counted field, or the whole payload,
/// exceeds what a two-byte count can state.
pub fn build_packet_payload(m: &InterfaceMessage) -> (r: Result<Vec<u8>, PacketBuildError>)
    ensures
        match r {
            Ok(f) => {
                &&& codec::valid_interface(m@)
                &&& codec::enc_interface(m@).len() <= 65535
                &&& f@ == wire::spec_frame(codec::enc_interface(m@))
            },
            Err(e) => {
                &&& e is PayloadTooLarge
                &&& !(codec::valid_interface(m@) && codec::enc_interface(m@).len() <= 65535)
            },
        },
{
    let payload = match codec::encode_interface_message(m) {
        Ok(p) => p,
        Err(e) => {
            return Err(e);
        },
    };
    wire::frame_payload(&payload)
}

/// Encodes one server-to-client message and wraps it in one frame. The
/// server's side of the same wire contract; it lets a test, or a recorded
/// session, produce the exact bytes the client expects to receive.
pub fn build_core_packet_payload(m: &CoreMessage) -> (r: Result<Vec<u8>, PacketBuildError>)
    ensures
        match r {
            Ok(f) => {
                &&& codec::valid_core(m@)
                &&& codec::enc_core(m@).len() <= 65535
                &&& f@ == wire::spec_frame(codec::enc_core(m@))
            },
            Err(e) => {
                &&& e is PayloadTooLarge
                &&& !(codec::valid_core(m@) && codec::enc_core(m@).len() <= 65535)
            },
        },
{
    let payload = match codec::encode_core_message(m) {
        Ok(p) => p,
        Err(e) => {
            return Err(e);
        },
    };
    wire::frame_payload(&payload)
}

/// Encodes a whole batch of client-to-server messages as consecutive frames,
/// for one combined write: the single-writer funnel hands exactly these bytes
/// to the transport, so no frame is ever split by another.
#[verifier::loop_isolation(false)]
pub fn build_packets_payload(msgs: &Vec<InterfaceMessage>) -> (r: Result<Vec<u8>, PacketBuildError>)
    ensures
        match r {
            Ok(b) => valid_outgoing_batch(imsgs_view(msgs@)) && b@ == wire::spec_frames(
                interface_payloads(imsgs_view(msgs@)),
            ),
            Err(e) => e is PayloadTooLarge && !valid_outgoing_batch(imsgs_view(msgs@)),
        },
{
    let ghost views = imsgs_view(msgs@);
    let mut out: Vec<u8> = Vec::new();
    let mut k: usize = 0;
    proof {
        assert(interface_payloads(views.take(0)) =~= Seq::<Seq<u8>>::empty());
    }
    while k < msgs.len()
        invariant
            k <= msgs@.len(),
            out@ == wire::spec_frames(interface_payloads(views.take(k as int))),
            forall|i: int|
                0 <= i < k ==> codec::valid_interface(#[trigger] views[i]) && codec::enc_interface(
                    views[i],
                ).len() <= 65535,
        decreases msgs@.len() - k,
    {
        let mut f = match build_packet_payload(&msgs[k]) {
            Ok(f) => f,
            Err(e) => {
                proof {
                    assert(views[k as int] == msgs@[k as int]@);
                }
                return Err(e);
            },
        };
        out.append(&mut f);
        proof {
            wire::lemma_frames_push(
                interface_payloads(views.take(k as int)),
                codec::enc_interface(views[k as int]),
            );
            assert(interface_payloads(views.take(k as int)).push(
                codec::enc_interface(views[k as int]),
            ) =~= interface_payloads(views.take(k as int + 1)));
        }
        k = k + 1;
    }
    proof {
        assert(views.take(views.len() as int) =~= views);
    }
    Ok(out)
}

/// One framed message read back is the message that was framed: splitting the
/// frame yields the exact payload, and the payload decodes to the original.
pub proof fn lemma_packet_roundtrip(m: InterfaceMessageV)
    requires
        codec::valid_interface(m),
        codec::enc_interface(m).len() <= 65535,
    ensures
        wire::spec_parse_frame(wire::spec_frame(codec::enc_interface(m))) == Some(
            (codec::enc_interface(m), wire::spec_frame(codec::enc_interface(m)).len() as int),
        ),
        codec::spec_parse_interface(codec::enc_interface(m)) == Some(m),
{
    wire::lemma_parse_frame_of(codec::enc_interface(m), Seq::empty());
    assert(wire::spec_frame(codec::enc_interface(m)) + Seq::<u8>::empty() =~= wire::spec_frame(
        codec::enc_interface(m),
    ));
    codec::lemma_interface_roundtrip(m);
}

/// The server-to-client counterpart of [`lemma_packet_roundtrip`].
pub proof fn lemma_core_packet_roundtrip(m: CoreMessageV)
    requires
        codec::valid_core(m),
        codec::enc_core(m).len() <= 65535,
    ensures
        wire::spec_parse_frame(wire::spec_frame(codec::enc_core(m))) == Some(
            (codec::enc_core(m), wire::spec_frame(codec::enc_core(m)).len() as int),
        ),
        codec::spec_parse_core(codec::enc_core(m)) == Some(m),
{
    wire::lemma_parse_frame_of(codec::enc_core(m), Seq::empty());
    assert(wire::spec_frame(codec::enc_core(m)) + Seq::<u8>::empty() =~= wire::spec_frame(
        codec::enc_core(m),
    ));
    codec::lemma_core_roundtrip(m);
}

/// The bytes of a combined batch write are a valid concatenation of complete
/// frames: parsing the stream recovers each message's exact payload, in
/// order, and each payload decodes back to its message.
/// Single-writer invariant across writes: however many combined writes the
/// coordinator funnels onto the transport, one after another, the resulting
/// byte stream is still a valid concatenation of complete frames — no frame of
/// one write is ever split by a frame of another — and parses back to every
/// batch's payloads in order.
pub proof fn lemma_sent_writes_compose(a: Seq<InterfaceMessageV>, b: Seq<InterfaceMessageV>)
    requires
        valid_outgoing_batch(a),
        valid_outgoing_batch(b),
    ensures
        wire::spec_parse_frames(
            wire::spec_frames(interface_payloads(a)) + wire::spec_frames(interface_payloads(b)),
        ) == Some(interface_payloads(a) + interface_payloads(b)),
{
    let pa = interface_payloads(a);
    let pb = interface_payloads(b);
    wire::lemma_frames_concat(pa, pb);
    assert forall|i: int| 0 <= i < (pa + pb).len() implies wire::valid_payload(
        #[trigger] (pa + pb)[i],
    ) by {
        if i < pa.len() {
            assert((pa + pb)[i] == codec::enc_interface(a[i]));
        } else {
            assert((pa + pb)[i] == codec::enc_interface(b[i - pa.len()]));
        }
    }
    wire::lemma_parse_frames_of(pa + pb);
}

pub proof fn lemma_outgoing_stream_roundtrip(ms: Seq<InterfaceMessageV>)
    requires
        valid_outgoing_batch(ms),
    ensures
        wire::spec_parse_frames(wire::spec_frames(interface_payloads(ms))) == Some(
            interface_payloads(ms),
        ),
        forall|i: int|
            0 <= i < ms.len() ==> codec::spec_parse_interface(
                #[trigger] interface_payloads(ms)[i],
            ) == Some(ms[i]),
{
    wire::lemma_parse_frames_of(interface_payloads(ms));
    assert forall|i: int| 0 <= i < ms.len() implies codec::spec_parse_interface(
        #[trigger] interface_payloads(ms)[i],
    ) == Some(ms[i]) by {
        codec::lemma_interface_roundtrip(ms[i]);
    }
}

} // verus!
