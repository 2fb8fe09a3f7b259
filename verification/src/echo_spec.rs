//! The echo protocol as mathematics: what the device does with each byte it
//! receives, and what it sends back.
use vstd::prelude::*;

verus! {

/// Where the protocol stands between two bytes.
#[verifier::ext_equal]
pub enum Phase {
    /// Collecting the two-byte little-endian length prefix; `received` holds
    /// the prefix bytes seen so far.
    Length { received: Seq<u8> },
    /// Copying payload bytes back; `remaining` of them are still to come.
    Payload { remaining: nat },
}

/// The device's echo state as the protocol sees it: the phase, and the bytes
/// collected for the next USB packet but not yet sent.
#[verifier::ext_equal]
pub struct EchoView {
    pub phase: Phase,
    pub pending: Seq<u8>,
}

/// The fresh state: waiting for a length prefix, with no byte pending.
pub open spec fn idle() -> EchoView {
    EchoView { phase: Phase::Length { received: seq![] }, pending: seq![] }
}

/// A view that the device can be in: a partial prefix of at most one byte, a
/// payload count that fits in 16 bits, and at most one packet pending.
pub open spec fn reachable(v: EchoView) -> bool {
    &&& v.pending.len() <= 64
    &&& match v.phase {
        Phase::Length { received } => received.len() < 2,
        Phase::Payload { remaining } => remaining <= 0xffff,
    }
}

/// The two little-endian bytes of a 16-bit value.
pub open spec fn le_bytes(value: nat) -> Seq<u8> {
    seq![(value % 256) as u8, (value / 256 % 256) as u8]
}

/// The value of two little-endian bytes.
pub open spec fn le_value(low: u8, high: u8) -> nat {
    (low + 256 * high) as nat
}

/// The ASCII bytes of "ECHO ", which precede every echoed payload.
pub open spec fn echo_tag() -> Seq<u8> {
    seq![0x45u8, 0x43u8, 0x48u8, 0x4fu8, 0x20u8]
}

/// The length field of a response to a payload of `len` bytes: the payload and
/// the tag, saturated at the largest 16-bit value.
pub open spec fn response_length(len: nat) -> nat {
    if len + 5 > 0xffff {
        0xffff
    } else {
        len + 5
    }
}

/// The bytes that open the response to a payload of `len` bytes.
pub open spec fn response_header(len: nat) -> Seq<u8> {
    le_bytes(response_length(len)) + echo_tag()
}

/// The complete response to one payload.
pub open spec fn response(payload: Seq<u8>) -> Seq<u8> {
    response_header(payload.len()) + payload
}

/// A message as the host frames it: the payload's length, little-endian, then
/// the payload.
pub open spec fn frame(payload: Seq<u8>) -> Seq<u8> {
    le_bytes(payload.len()) + payload
}

/// The signal sent after each received packet: the host may send the next.
pub open spec fn ready_signal() -> Seq<u8> {
    seq![0u8, 0u8]
}

/// The pending bytes as a write, unless there are none.
pub open spec fn written_if_nonempty(pending: Seq<u8>) -> Seq<Seq<u8>> {
    if pending.len() == 0 {
        seq![]
    } else {
        seq![pending]
    }
}

/// What one received byte does: the next view, and the packets written on
/// the way (each one a USB write, in order).
pub open spec fn step(v: EchoView, byte: u8) -> (EchoView, Seq<Seq<u8>>) {
    match v.phase {
        Phase::Length { received } => {
            if received.len() == 0 {
                (EchoView { phase: Phase::Length { received: seq![byte] }, pending: v.pending }, seq![])
            } else {
                let len = le_value(received[0], byte);
                (
                    EchoView { phase: Phase::Payload { remaining: len }, pending: response_header(len) },
                    seq![],
                )
            }
        },
        Phase::Payload { remaining } => {
            if remaining == 0 {
                // A finished empty payload is sent when the next byte arrives,
                // and that byte starts the next length prefix.
                (
                    EchoView { phase: Phase::Length { received: seq![byte] }, pending: seq![] },
                    written_if_nonempty(v.pending),
                )
            } else {
                let full = v.pending.len() == 64;
                let flushed: Seq<Seq<u8>> = if full { seq![v.pending] } else { seq![] };
                let pending = if full { seq![byte] } else { v.pending.push(byte) };
                if remaining == 1 {
                    (idle(), flushed.push(pending))
                } else {
                    (
                        EchoView { phase: Phase::Payload { remaining: (remaining - 1) as nat }, pending },
                        flushed,
                    )
                }
            }
        },
    }
}

/// What a run of received bytes does: the final view, and all packets written,
/// in order.
pub open spec fn feed(v: EchoView, data: Seq<u8>) -> (EchoView, Seq<Seq<u8>>)
    decreases data.len(),
{
    if data.len() == 0 {
        (v, seq![])
    } else {
        let before = feed(v, data.drop_last());
        let last = step(before.0, data.last());
        (last.0, before.1 + last.1)
    }
}

/// One more byte fed unfolds into one more step.
pub proof fn lemma_feed_next(v: EchoView, data: Seq<u8>, j: int)
    requires
        0 <= j < data.len(),
    ensures
        feed(v, data.take(j + 1)) == (step(feed(v, data.take(j)).0, data[j]).0, feed(
            v,
            data.take(j),
        ).1 + step(feed(v, data.take(j)).0, data[j]).1),
{
    assert(data.take(j + 1).drop_last() =~= data.take(j));
}

} // verus!
