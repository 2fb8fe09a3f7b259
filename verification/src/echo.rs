//! Length-prefixed streaming echo protocol over USB bulk endpoints.
//!
//! The host sends a two-byte little-endian length and then that many payload
//! bytes, split into USB packets however it likes. The device answers with the
//! response length, "ECHO " and the payload, in packets of at most 64 bytes,
//! and after each packet it receives it sends a ready signal.
use vstd::prelude::*;

use crate::echo_spec::{
    echo_tag, feed, idle, le_bytes, le_value, lemma_feed_next, reachable, ready_signal,
    response_header, step, written_if_nonempty, EchoView, Phase,
};
use crate::echo_laws::{lemma_packets_fit, packets_fit};
use crate::packet_buffer::{
    packet_buffer_clear, packet_buffer_extend, packet_buffer_is_empty, packet_buffer_is_full,
    packet_buffer_new, packet_buffer_push, packet_buffer_to_vec, packet_bytes,
};

verus! {

/// State machine for length-prefixed streaming echo protocol
#[derive(Clone, Copy)]
pub enum State {
    /// Waiting for 2-byte little-endian length prefix
    WaitingForLength { buf: [u8; 2], pos: usize },
    /// Streaming payload bytes to output
    StreamingPayload { remaining: u16 },
}

impl View for State {
    type V = Phase;

    open spec fn view(&self) -> Phase {
        match *self {
            State::WaitingForLength { buf, pos } => Phase::Length { received: buf@.take(pos as int) },
            State::StreamingPayload { remaining } => Phase::Payload { remaining: remaining as nat },
        }
    }
}

impl State {
    /// A state the machine can be in: the prefix position is within the buffer.
    pub open spec fn wf(&self) -> bool {
        match *self {
            State::WaitingForLength { buf, pos } => pos < 2,
            State::StreamingPayload { remaining } => true,
        }
    }

    /// The state at the start of every message: no prefix byte received yet.
    pub fn new() -> (s: State)
        ensures
            s matches State::WaitingForLength { buf, pos } && pos == 0 && buf@ == seq![0u8, 0u8],
            s.wf(),
            s@ == (Phase::Length { received: seq![] }),
    {
        let s = State::WaitingForLength { buf: [0u8, 0u8], pos: 0 };
        proof {
            if let State::WaitingForLength { buf, pos } = s {
                assert(buf@ =~= seq![0u8, 0u8]);
                assert(buf@.take(0) =~= Seq::<u8>::empty());
            }
        }
        s
    }
}

/// The device's side of an echo session: the protocol state and the bytes
/// collected for the next USB packet.
pub struct EchoSession {
    state: State,
    out_buf: heapless::Vec<u8, 64>,
}

impl View for EchoSession {
    type V = EchoView;

    closed spec fn view(&self) -> EchoView {
        EchoView { phase: self.state@, pending: packet_bytes(self.out_buf) }
    }
}

/// What the bulk OUT endpoint gave on a read.
pub enum ReadOutcome {
    /// A packet with these bytes arrived.
    Received(Vec<u8>),
    /// The packet did not fit in the read buffer.
    BufferOverflow,
    /// The endpoint is disabled: the host went away.
    Disabled,
}

/// What the device does after a read.
pub enum Reaction {
    /// Write these packets to the bulk IN endpoint, in order; on the first
    /// failed write, stop and wait for the host to reconnect.
    Send(Vec<Vec<u8>>),
    /// Nothing to do; read again.
    Ignore,
    /// Wait for the host to reconnect, then start a fresh session.
    Reconnect,
}

/// Appends one packet to the writes.
fn emit(writes: &mut Vec<Vec<u8>>, packet: Vec<u8>)
    ensures
        final(writes).deep_view() == old(writes).deep_view().push(packet@),
{
    let ghost before = writes.deep_view();
    assert(packet.deep_view() =~= packet@);
    writes.push(packet);
    assert(writes.deep_view() =~= before.push(packet@));
}

/// Sends the pending bytes, if any, and empties the buffer.
fn send_pending(out_buf: &mut heapless::Vec<u8, 64>, writes: &mut Vec<Vec<u8>>)
    ensures
        final(writes).deep_view() == old(writes).deep_view() + written_if_nonempty(
            packet_bytes(*old(out_buf)),
        ),
        packet_bytes(*final(out_buf)) == Seq::<u8>::empty(),
{
    if !packet_buffer_is_empty(out_buf) {
        emit(writes, packet_buffer_to_vec(out_buf));
        packet_buffer_clear(out_buf);
    } else {
        assert(old(writes).deep_view() + written_if_nonempty(packet_bytes(*old(out_buf)))
            =~= old(writes).deep_view());
        assert(packet_bytes(*out_buf) =~= Seq::<u8>::empty());
    }
}

/// The two little-endian bytes of a 16-bit value.
fn le16(value: u16) -> (bytes: [u8; 2])
    ensures
        bytes@ == le_bytes(value as nat),
{
    let bytes = [(value % 256) as u8, (value / 256) as u8];
    assert(bytes@ =~= le_bytes(value as nat));
    bytes
}

/// The ASCII bytes of "ECHO ".
fn echo_tag_bytes() -> (bytes: [u8; 5])
    ensures
        bytes@ == echo_tag(),
{
    let bytes = [0x45u8, 0x43u8, 0x48u8, 0x4fu8, 0x20u8];
    assert(bytes@ =~= echo_tag());
    bytes
}

/// The ready signal, two zero bytes.
pub fn ready_signal_bytes() -> (bytes: Vec<u8>)
    ensures
        bytes@ == ready_signal(),
{
    let bytes = vec![0u8, 0u8];
    assert(bytes@ =~= ready_signal());
    bytes
}

/// The protocol's view of a state and an output buffer.
pub closed spec fn session_view(state: State, out_buf: heapless::Vec<u8, 64>) -> EchoView {
    EchoView { phase: state@, pending: packet_bytes(out_buf) }
}

/// Runs the bytes through the state machine, and returns the packets it
/// writes, in order.
fn feed_bytes(state: &mut State, out_buf: &mut heapless::Vec<u8, 64>, data: &[u8]) -> (writes: Vec<Vec<u8>>)
    requires
        old(state).wf(),
        packet_bytes(*old(out_buf)).len() <= 64,
    ensures
        final(state).wf(),
        packet_bytes(*final(out_buf)).len() <= 64,
        (session_view(*final(state), *final(out_buf)), writes.deep_view()) == feed(session_view(*old(state), *old(out_buf)), data@),
        packets_fit(writes.deep_view()),
{
    let ghost v0 = session_view(*state, *out_buf);
    let mut writes: Vec<Vec<u8>> = Vec::new();
    let mut i: usize = 0;
    assert(data@.take(0) =~= Seq::<u8>::empty());
    assert(writes.deep_view() =~= Seq::<Seq<u8>>::empty());
    while i < data.len()
        invariant
            state.wf(),
            packet_bytes(*out_buf).len() <= 64,
            i <= data.len(),
            ({
                let f = feed(v0, data@.take(i as int));
                ||| (session_view(*state, *out_buf), writes.deep_view()) == f
                ||| {
                    &&& i < data.len()
                    &&& session_view(*state, *out_buf) == idle()
                    &&& f.0.phase == (Phase::Payload { remaining: 0 })
                    &&& writes.deep_view() == f.1 + written_if_nonempty(f.0.pending)
                }
            }),
        decreases 2 * (data.len() - i) + (if *state is StreamingPayload { 1int } else { 0int }),
    {
        proof { lemma_feed_next(v0, data@, i as int); }
        match *state {
            State::WaitingForLength { buf, pos } => {
                let ghost f = feed(v0, data@.take(i as int));
                let byte = data[i];
                let mut buf = buf;
                buf[pos] = byte;
                let pos = pos + 1;
                i = i + 1;
                if pos == 2 {
                    let len: u16 = buf[0] as u16 + (buf[1] as u16) * 256;
                    let response_len = len.saturating_add(5);
                    packet_buffer_clear(out_buf);
                    let header = le16(response_len);
                    let _ = packet_buffer_extend(out_buf, header.as_slice());
                    let tag = echo_tag_bytes();
                    let _ = packet_buffer_extend(out_buf, tag.as_slice());
                    *state = State::StreamingPayload { remaining: len };
                    proof {
                        assert(f.0.phase == (Phase::Length { received: seq![buf@[0]] }));
                        assert(len as nat == le_value(buf@[0], byte));
                        assert(packet_bytes(*out_buf) =~= response_header(len as nat));
                        assert(writes.deep_view() =~= f.1 + step(f.0, byte).1);
                    }
                } else {
                    *state = State::WaitingForLength { buf, pos };
                    proof {
                        assert(buf@.take(1) =~= seq![byte]);
                        assert(writes.deep_view() =~= f.1 + step(f.0, byte).1);
                    }
                }
            },
            State::StreamingPayload { remaining } => {
                let ghost start = i;
                let rest = data.len() - i;
                let bytes_to_copy: usize = if rest < remaining as usize {
                    rest
                } else {
                    remaining as usize
                };
                let end = i + bytes_to_copy;
                let mut j = i;
                while j < end
                    invariant
                        start <= j <= end,
                        end == start + bytes_to_copy,
                        end <= data.len(),
                        bytes_to_copy <= remaining,
                        *state == (State::StreamingPayload { remaining }),
                        packet_bytes(*out_buf).len() <= 64,
                        ({
                            let f = feed(v0, data@.take(j as int));
                            if j - start < remaining || remaining == 0 {
                                &&& f.0.phase == (Phase::Payload { remaining: (remaining - (j - start)) as nat })
                                &&& f.0.pending == packet_bytes(*out_buf)
                                &&& f.1 == writes.deep_view()
                            } else {
                                &&& f.0 == idle()
                                &&& f.1 == writes.deep_view().push(packet_bytes(*out_buf))
                                &&& packet_bytes(*out_buf).len() > 0
                            }
                        }),
                    decreases end - j,
                {
                    proof { lemma_feed_next(v0, data@, j as int); }
                    let byte = data[j];
                    if packet_buffer_is_full(out_buf) {
                        emit(&mut writes, packet_buffer_to_vec(out_buf));
                        packet_buffer_clear(out_buf);
                    }
                    let _ = packet_buffer_push(out_buf, byte);
                    j = j + 1;
                    proof {
                        let f = feed(v0, data@.take(j as int));
                        assert(f.1 == feed(v0, data@.take(j - 1)).1 + step(
                            feed(v0, data@.take(j - 1)).0,
                            byte,
                        ).1);
                        assert(f.0.pending =~= packet_bytes(*out_buf) || f.0 == idle());
                        if j - start < remaining || remaining == 0 {
                            assert(f.1 =~= writes.deep_view());
                        } else {
                            assert(f.1 =~= writes.deep_view().push(packet_bytes(*out_buf)));
                        }
                    }
                }
                i = end;
                let remaining = remaining - bytes_to_copy as u16;
                if remaining == 0 {
                    send_pending(out_buf, &mut writes);
                    *state = State::new();
                } else {
                    *state = State::StreamingPayload { remaining };
                }
            },
        }
    }
    assert(data@.take(data.len() as int) =~= data@);
    proof {
        lemma_packets_fit(v0, data@);
    }
    writes
}


impl EchoSession {
    /// The session is well formed: its state is one the machine can be in,
    /// and the buffer holds at most one packet.
    #[verifier::type_invariant]
    closed spec fn inv(self) -> bool {
        &&& self.state.wf()
        &&& packet_bytes(self.out_buf).len() <= 64
    }

    /// A fresh session: waiting for a length prefix, nothing pending.
    pub fn new() -> (s: EchoSession)
        ensures
            s@ == idle(),
            reachable(s@),
    {
        EchoSession { state: State::new(), out_buf: packet_buffer_new() }
    }

    /// The protocol state.
    pub fn state(&self) -> (s: State)
        ensures
            s.wf(),
            s@ == self@.phase,
            reachable(self@),
    {
        proof {
            use_type_invariant(self);
        }
        self.state
    }

    /// Starts over when the host (re)connects: the protocol state is reset;
    /// the buffer is left as it is, since the next length prefix clears it.
    pub fn restart(&mut self)
        ensures
            final(self)@ == (EchoView { phase: Phase::Length { received: seq![] }, pending: old(self)@.pending }),
            reachable(final(self)@),
    {
        proof {
            use_type_invariant(&*self);
        }
        self.state = State::new();
    }

    /// Process incoming bytes through the echo state machine.
    /// Returns the packets to write to the bulk IN endpoint, in order.
    pub fn process_packet(&mut self, data: &[u8]) -> (writes: Vec<Vec<u8>>)
        ensures
            reachable(old(self)@),
            reachable(final(self)@),
            (final(self)@, writes.deep_view()) == feed(old(self)@, data@),
            packets_fit(writes.deep_view()),
    {
        proof {
            use_type_invariant(&*self);
            lemma_packets_fit(self@, data@);
        }
        let mut state = self.state;
        let mut out_buf = packet_buffer_new();
        core::mem::swap(&mut out_buf, &mut self.out_buf);
        let writes = feed_bytes(&mut state, &mut out_buf, data);
        self.state = state;
        self.out_buf = out_buf;
        writes
    }

    /// A write to the bulk IN endpoint failed: the device stops sending and
    /// waits for the host to reconnect, when the session restarts.
    pub fn on_write_failed(&mut self) -> (r: Reaction)
        ensures
            r is Reconnect,
            final(self)@ == old(self)@,
    {
        Reaction::Reconnect
    }

    /// Decides what to do with the outcome of a read of the bulk OUT endpoint:
    /// a packet is processed and followed by the ready signal; an overflow is
    /// ignored; a disabled endpoint means the host went away.
    pub fn on_read(&mut self, outcome: ReadOutcome) -> (r: Reaction)
        ensures
            reachable(final(self)@),
            match outcome {
                ReadOutcome::Received(data) => r matches Reaction::Send(writes) && final(self)@ == feed(
                    old(self)@,
                    data@,
                ).0 && writes.deep_view() == feed(old(self)@, data@).1.push(ready_signal())
                    && packets_fit(writes.deep_view()) && writes.deep_view().last() == seq![0u8, 0u8],
                ReadOutcome::BufferOverflow => r is Ignore && final(self)@ == old(self)@,
                ReadOutcome::Disabled => r is Reconnect && final(self)@ == old(self)@,
            },
    {
        proof {
            use_type_invariant(&*self);
        }
        match outcome {
            ReadOutcome::Received(data) => {
                let mut writes = self.process_packet(data.as_slice());
                let ghost before = writes.deep_view();
                emit(&mut writes, ready_signal_bytes());
                assert forall|k: int| 0 <= k < writes.deep_view().len() implies 1 <= #[trigger] writes.deep_view()[k].len() <= 64 by {
                    if k < before.len() {
                        assert(writes.deep_view()[k] == before[k]);
                    }
                }
                Reaction::Send(writes)
            },
            ReadOutcome::BufferOverflow => Reaction::Ignore,
            ReadOutcome::Disabled => Reaction::Reconnect,
        }
    }
}

} // verus!
