//! What the echo protocol promises, proved over its mathematical model.
use vstd::prelude::*;

use crate::echo_spec::{
    feed, frame, idle, le_bytes, le_value, lemma_feed_next, reachable, response, response_header,
    response_length,
    step, written_if_nonempty, EchoView, Phase,
};

verus! {

broadcast use {Seq::lemma_flatten_push, Seq::lemma_flatten_singleton};

/// Every packet in the sequence is non-empty and fits in one 64-byte USB packet.
pub open spec fn packets_fit(packets: Seq<Seq<u8>>) -> bool {
    forall|k: int| 0 <= k < packets.len() ==> 1 <= #[trigger] packets[k].len() <= 64
}

/// Every packet in the sequence is a full 64-byte USB packet.
pub open spec fn full_packets(packets: Seq<Seq<u8>>) -> bool {
    forall|k: int| 0 <= k < packets.len() ==> #[trigger] packets[k].len() == 64
}

/// How the host splits the byte stream into USB packets does not matter:
/// feeding `a` and then `b` ends in the same state, and writes the same
/// packets in the same order, as feeding `a + b` at once.
pub proof fn lemma_split_anywhere(v: EchoView, a: Seq<u8>, b: Seq<u8>)
    ensures
        feed(v, a + b) == (feed(feed(v, a).0, b).0, feed(v, a).1 + feed(feed(v, a).0, b).1),
    decreases b.len(),
{
    if b.len() == 0 {
        assert(a + b =~= a);
        assert(feed(v, a).1 + feed(feed(v, a).0, b).1 =~= feed(v, a).1);
    } else {
        lemma_split_anywhere(v, a, b.drop_last());
        assert((a + b).drop_last() =~= a + b.drop_last());
        assert((a + b).last() == b.last());
        let mid = feed(v, a);
        let before = feed(mid.0, b.drop_last());
        let last = step(before.0, b.last());
        assert(mid.1 + (before.1 + last.1) =~= (mid.1 + before.1) + last.1);
    }
}

/// One byte keeps the device in a state it can be in, and every packet that
/// the byte makes it write fits in one USB packet.
proof fn lemma_step_reachable(v: EchoView, byte: u8)
    requires
        reachable(v),
    ensures
        reachable(step(v, byte).0),
        packets_fit(step(v, byte).1),
{
    match v.phase {
        Phase::Length { received } => {
            if received.len() != 0 {
                assert(le_value(received[0], byte) <= 0xffff);
            }
        },
        Phase::Payload { remaining } => {
            let pending = v.pending;
            if remaining == 0 {
            } else {
                let full = pending.len() == 64;
                let flushed: Seq<Seq<u8>> = if full { seq![pending] } else { seq![] };
                let next = if full { seq![byte] } else { pending.push(byte) };
                if remaining == 1 {
                    assert(step(v, byte).1 == flushed.push(next));
                }
            }
        },
    }
}

/// Whatever bytes arrive, the device stays in a state it can be in, and every
/// packet it writes holds between 1 and 64 bytes.
pub proof fn lemma_packets_fit(v: EchoView, data: Seq<u8>)
    requires
        reachable(v),
    ensures
        reachable(feed(v, data).0),
        packets_fit(feed(v, data).1),
    decreases data.len(),
{
    if data.len() > 0 {
        lemma_packets_fit(v, data.drop_last());
        let before = feed(v, data.drop_last());
        lemma_step_reachable(before.0, data.last());
        let last = step(before.0, data.last());
        assert forall|k: int| 0 <= k < (before.1 + last.1).len() implies 1 <= #[trigger] (before.1
            + last.1)[k].len() <= 64 by {
            if k < before.1.len() {
                assert((before.1 + last.1)[k] == before.1[k]);
            } else {
                assert((before.1 + last.1)[k] == last.1[k - before.1.len()]);
            }
        }
    }
}

/// Midway through a payload of `q.len()` bytes: after `k` of them the device
/// still expects the rest, holds between 1 and 64 bytes, and has written only
/// full packets; what it wrote and holds is what it held plus the first `k`
/// payload bytes.
proof fn lemma_payload_prefix(w: EchoView, q: Seq<u8>, k: int)
    requires
        w.phase == (Phase::Payload { remaining: q.len() }),
        1 <= w.pending.len() <= 64,
        0 <= k < q.len(),
    ensures
        feed(w, q.take(k)).0.phase == (Phase::Payload { remaining: (q.len() - k) as nat }),
        1 <= feed(w, q.take(k)).0.pending.len() <= 64,
        feed(w, q.take(k)).1.flatten() + feed(w, q.take(k)).0.pending == w.pending + q.take(k),
        packets_fit(feed(w, q.take(k)).1),
        full_packets(feed(w, q.take(k)).1),
    decreases k,
{
    if k == 0 {
        assert(q.take(0) =~= Seq::<u8>::empty());
        assert(w.pending + q.take(0) =~= w.pending);
    } else {
        lemma_payload_prefix(w, q, k - 1);
        lemma_feed_next(w, q, k - 1);
        let f = feed(w, q.take(k - 1));
        let b = q[k - 1];
        let full = f.0.pending.len() == 64;
        let flushed: Seq<Seq<u8>> = if full { seq![f.0.pending] } else { seq![] };
        let next = if full { seq![b] } else { f.0.pending.push(b) };
        assert(step(f.0, b).1 == flushed);
        assert(step(f.0, b).0.pending == next);
        vstd::seq_lib::lemma_flatten_concat(f.1, flushed);
        assert(q.take(k) =~= q.take(k - 1).push(b));
        if full {
            assert(flushed.flatten() == f.0.pending);
            assert((f.1.flatten() + f.0.pending) + next =~= w.pending + q.take(k));
        } else {
            assert(flushed.flatten() =~= Seq::<u8>::empty());
            assert(f.1.flatten() + next =~= (f.1.flatten() + f.0.pending).push(b));
            assert((w.pending + q.take(k - 1)).push(b) =~= w.pending + q.take(k));
            assert(f.1.flatten() + next =~= w.pending + q.take(k));
        }
        assert((f.1 + flushed).flatten() == f.1.flatten() + flushed.flatten());
        assert forall|i: int| 0 <= i < (f.1 + flushed).len() implies 1 <= #[trigger] (f.1
            + flushed)[i].len() <= 64 by {
            if i < f.1.len() {
                assert((f.1 + flushed)[i] == f.1[i]);
            }
        }
        assert forall|i: int| 0 <= i < (f.1 + flushed).len() implies #[trigger] (f.1
            + flushed)[i].len() == 64 by {
            if i < f.1.len() {
                assert((f.1 + flushed)[i] == f.1[i]);
            }
        }
    }
}

/// A whole payload: starting from a state that expects exactly these bytes,
/// the device writes everything it held followed by the payload, in packets
/// of 1 to 64 bytes, and ends idle.
proof fn lemma_payload(w: EchoView, q: Seq<u8>)
    requires
        w.phase == (Phase::Payload { remaining: q.len() }),
        1 <= w.pending.len() <= 64,
        1 <= q.len(),
    ensures
        feed(w, q).0 == idle(),
        feed(w, q).1.flatten() == w.pending + q,
        packets_fit(feed(w, q).1),
{
    let k = q.len() - 1;
    lemma_payload_prefix(w, q, k);
    lemma_feed_next(w, q, k);
    assert(q.take(k + 1) =~= q);
    let f = feed(w, q.take(k));
    let b = q[k];
    let full = f.0.pending.len() == 64;
    let flushed: Seq<Seq<u8>> = if full { seq![f.0.pending] } else { seq![] };
    let next = if full { seq![b] } else { f.0.pending.push(b) };
    assert(step(f.0, b).1 == flushed.push(next));
    assert(f.1 + flushed.push(next) =~= (f.1 + flushed).push(next));
    vstd::seq_lib::lemma_flatten_concat(f.1, flushed);
    assert(q =~= q.take(k).push(b));
    if full {
        assert(flushed.flatten() == f.0.pending);
        assert((f.1.flatten() + f.0.pending) + next =~= w.pending + q);
    } else {
        assert(flushed.flatten() =~= Seq::<u8>::empty());
        assert(f.1.flatten() + next =~= (f.1.flatten() + f.0.pending).push(b));
        assert((w.pending + q.take(k)).push(b) =~= w.pending + q);
        assert(f.1.flatten() + next =~= w.pending + q);
    }
    let all = (f.1 + flushed).push(next);
    assert forall|i: int| 0 <= i < all.len() implies 1 <= #[trigger] all[i].len() <= 64 by {
        if i < f.1.len() {
            assert(all[i] == f.1[i]);
        }
    }
}

/// Reading a length prefix: two bytes take a device waiting for a prefix to
/// the payload they announce, with the response header pending.
proof fn lemma_prefix(v: EchoView, len: nat)
    requires
        v.phase == (Phase::Length { received: seq![] }),
        len <= 0xffff,
    ensures
        feed(v, le_bytes(len)) == (
            EchoView { phase: Phase::Payload { remaining: len }, pending: response_header(len) },
            Seq::<Seq<u8>>::empty(),
        ),
{
    let p = le_bytes(len);
    lemma_le_value(len);
    lemma_feed_next(v, p, 0);
    assert(p.take(0) =~= Seq::<u8>::empty());
    let v1 = EchoView { phase: Phase::Length { received: seq![p[0]] }, pending: v.pending };
    assert(feed(v, p.take(1)) == (v1, Seq::<Seq<u8>>::empty() + Seq::<Seq<u8>>::empty()));
    lemma_feed_next(v, p, 1);
    assert(p.take(2) =~= p);
}

/// The two little-endian bytes of a 16-bit value give it back.
proof fn lemma_le_value(len: nat)
    requires
        len <= 0xffff,
    ensures
        le_bytes(len).len() == 2,
        le_value(le_bytes(len)[0], le_bytes(len)[1]) == len,
{
    assert(len / 256 < 256);
    assert((len / 256 % 256) == len / 256);
}

/// The response's length field: a device waiting for a length prefix that
/// receives the two little-endian bytes of a payload's length `n` (1 to
/// 65535) and then the payload writes `n + 7` bytes in all: first two bytes
/// that read, little-endian, as `n + 5` capped at 65535, then the ASCII bytes
/// of "ECHO ", then the payload.
pub proof fn lemma_response_length_field(v: EchoView, payload: Seq<u8>)
    requires
        v.phase == (Phase::Length { received: seq![] }),
        1 <= payload.len() <= 0xffff,
    ensures
        ({
            let n = payload.len();
            let out = feed(v, seq![(n % 256) as u8, (n / 256) as u8] + payload).1.flatten();
            &&& out.len() == n + 7
            &&& out[0] + 256 * out[1] == (if n + 5 > 0xffff { 0xffff } else { n + 5 })
            &&& out.subrange(2, 7) == seq![0x45u8, 0x43u8, 0x48u8, 0x4fu8, 0x20u8]
            &&& out.skip(7) == payload
        }),
{
    let n = payload.len();
    assert(n / 256 < 256);
    assert(seq![(n % 256) as u8, (n / 256) as u8] + payload =~= frame(payload));
    lemma_echo_message(v, payload);
    let out = feed(v, frame(payload)).1.flatten();
    let x = response_length(n);
    assert(x / 256 < 256);
    assert(out =~= seq![(x % 256) as u8, (x / 256 % 256) as u8] + seq![0x45u8, 0x43u8, 0x48u8, 0x4fu8, 0x20u8] + payload);
    assert(out.subrange(2, 7) =~= seq![0x45u8, 0x43u8, 0x48u8, 0x4fu8, 0x20u8]);
    assert(out.skip(7) =~= payload);
}

/// The echo: a device waiting for a length prefix that receives a framed
/// message of 1 to 65535 bytes writes the response (length field, "ECHO ",
/// payload) in packets of 1 to 64 bytes, and is idle again afterwards.
pub proof fn lemma_echo_message(v: EchoView, payload: Seq<u8>)
    requires
        v.phase == (Phase::Length { received: seq![] }),
        1 <= payload.len() <= 0xffff,
    ensures
        feed(v, frame(payload)).0 == idle(),
        feed(v, frame(payload)).1.flatten() == response(payload),
        packets_fit(feed(v, frame(payload)).1),
{
    let n = payload.len();
    lemma_prefix(v, n);
    lemma_split_anywhere(v, le_bytes(n), payload);
    let w = feed(v, le_bytes(n)).0;
    assert(response_header(n).len() == 7);
    lemma_payload(w, payload);
    assert(Seq::<Seq<u8>>::empty() + feed(w, payload).1 =~= feed(w, payload).1);
}

/// The host's byte stream for a run of messages: each one framed, one after
/// the other.
pub open spec fn frames(messages: Seq<Seq<u8>>) -> Seq<u8> {
    messages.map_values(|m: Seq<u8>| frame(m)).flatten()
}

/// The responses to a run of messages, one after the other.
pub open spec fn responses(messages: Seq<Seq<u8>>) -> Seq<u8> {
    messages.map_values(|m: Seq<u8>| response(m)).flatten()
}

/// Both runs of packets fit, so their concatenation does.
proof fn lemma_fit_concat(a: Seq<Seq<u8>>, b: Seq<Seq<u8>>)
    requires
        packets_fit(a),
        packets_fit(b),
    ensures
        packets_fit(a + b),
{
    assert forall|i: int| 0 <= i < (a + b).len() implies 1 <= #[trigger] (a + b)[i].len() <= 64 by {
        if i < a.len() {
            assert((a + b)[i] == a[i]);
        } else {
            assert((a + b)[i] == b[i - a.len()]);
        }
    }
}

/// Full packets flatten to a whole number of packets' worth of bytes.
proof fn lemma_full_packets_len(packets: Seq<Seq<u8>>)
    requires
        full_packets(packets),
    ensures
        packets.flatten().len() == 64 * packets.len(),
    decreases packets.len(),
{
    if packets.len() > 0 {
        let init = packets.drop_last();
        assert(full_packets(init)) by {
            assert forall|k: int| 0 <= k < init.len() implies #[trigger] init[k].len() == 64 by {
                assert(init[k] == packets[k]);
            }
        }
        lemma_full_packets_len(init);
        assert(init.push(packets.last()) =~= packets);
        assert(packets[packets.len() - 1].len() == 64);
    }
}

/// The stream of a run of messages ends with the last message's frame.
proof fn lemma_frames_last(messages: Seq<Seq<u8>>)
    requires
        messages.len() > 0,
    ensures
        frames(messages) == frames(messages.drop_last()) + frame(messages.last()),
        responses(messages) == responses(messages.drop_last()) + response(messages.last()),
{
    let init = messages.drop_last();
    let m = messages.last();
    assert(messages.map_values(|x: Seq<u8>| frame(x)) =~= init.map_values(|x: Seq<u8>| frame(x)).push(frame(m)));
    assert(messages.map_values(|x: Seq<u8>| response(x)) =~= init.map_values(|x: Seq<u8>| response(x)).push(response(m)));
}

/// The state after an empty message: its response, the bare header, waits
/// for the next byte.
pub open spec fn after_empty_message() -> EchoView {
    EchoView { phase: Phase::Payload { remaining: 0 }, pending: response(seq![]) }
}

/// An empty message only leaves its response pending.
proof fn lemma_empty_message(v: EchoView)
    requires
        v.phase == (Phase::Length { received: seq![] }),
    ensures
        feed(v, frame(seq![])) == (after_empty_message(), Seq::<Seq<u8>>::empty()),
{
    lemma_prefix(v, 0);
    assert(frame(seq![]) =~= le_bytes(0));
    assert(response(seq![]) =~= response_header(0));
}

/// One byte fed is one step.
proof fn lemma_feed_one(v: EchoView, x: Seq<u8>)
    requires
        x.len() == 1,
    ensures
        feed(v, x) == (step(v, x[0]).0, Seq::<Seq<u8>>::empty() + step(v, x[0]).1),
{
    lemma_feed_next(v, x, 0);
    assert(x.take(0) =~= Seq::<u8>::empty());
    assert(x.take(1) =~= x);
    assert(feed(v, Seq::<u8>::empty()) == (v, Seq::<Seq<u8>>::empty()));
}

/// A device that finished an empty payload writes what it holds on the next
/// byte, and from then on behaves as a fresh device.
proof fn lemma_flush_then(v: EchoView, x: Seq<u8>)
    requires
        v.phase == (Phase::Payload { remaining: 0 }),
        x.len() > 0,
    ensures
        feed(v, x) == (feed(idle(), x).0, written_if_nonempty(v.pending) + feed(idle(), x).1),
{
    let first = x.take(1);
    let rest = x.skip(1);
    assert(first + rest =~= x);
    lemma_split_anywhere(v, first, rest);
    lemma_split_anywhere(idle(), first, rest);
    lemma_feed_one(v, first);
    lemma_feed_one(idle(), first);
    let after = EchoView { phase: Phase::Length { received: seq![x[0]] }, pending: seq![] };
    assert(feed(v, first).0 == after);
    assert(feed(idle(), first).0 == after);
    assert(feed(v, first).1 =~= written_if_nonempty(v.pending));
    assert(feed(idle(), first).1 =~= Seq::<Seq<u8>>::empty());
    assert(Seq::<Seq<u8>>::empty() + feed(after, rest).1 =~= feed(after, rest).1);
}

/// A run of complete messages, each of at most 65535 bytes (empty ones
/// included): a device waiting for a length prefix writes the responses to
/// them in order, in packets of 1 to 64 bytes. It is then idle (after a
/// non-empty last message) or holds the response to an empty last message,
/// which goes out when the next byte arrives.
pub proof fn lemma_echo_messages(v: EchoView, messages: Seq<Seq<u8>>)
    requires
        v.phase == (Phase::Length { received: seq![] }),
        forall|k: int| 0 <= k < messages.len() ==> #[trigger] messages[k].len() <= 0xffff,
    ensures
        packets_fit(feed(v, frames(messages)).1),
        messages.len() > 0 && messages.last().len() == 0 ==> feed(v, frames(messages)).0
            == after_empty_message() && feed(v, frames(messages)).1.flatten() == responses(
            messages.drop_last(),
        ),
        !(messages.len() > 0 && messages.last().len() == 0) ==> feed(v, frames(messages)).0.phase
            == (Phase::Length { received: seq![] }) && feed(v, frames(messages)).1.flatten()
            == responses(messages),
        messages.len() > 0 && messages.last().len() > 0 ==> feed(v, frames(messages)).0 == idle(),
    decreases messages.len(),
{
    if messages.len() == 0 {
        assert(frames(messages) =~= Seq::<u8>::empty());
        assert(responses(messages) =~= Seq::<u8>::empty());
    } else {
        let init = messages.drop_last();
        let m = messages.last();
        assert forall|k: int| 0 <= k < init.len() implies #[trigger] init[k].len() <= 0xffff by {
            assert(init[k] == messages[k]);
        }
        assert(m.len() <= 0xffff);
        lemma_echo_messages(v, init);
        lemma_frames_last(messages);
        lemma_split_anywhere(v, frames(init), frame(m));
        let e0 = feed(v, frames(init)).0;
        let w0 = feed(v, frames(init)).1;
        // Where the last message starts from, and what it writes.
        let start = if init.len() > 0 && init.last().len() == 0 { idle() } else { e0 };
        let flushed = if init.len() > 0 && init.last().len() == 0 { seq![response(seq![])] } else { Seq::<Seq<u8>>::empty() };
        if init.len() > 0 && init.last().len() == 0 {
            assert(frame(m).len() > 0);
            lemma_flush_then(e0, frame(m));
            assert(written_if_nonempty(e0.pending) == flushed);
            lemma_frames_last(init);
            assert(flushed.flatten() == response(init.last()));
            assert(init.last() =~= seq![]);
        } else {
            assert(flushed + feed(start, frame(m)).1 =~= feed(start, frame(m)).1);
        }
        assert(feed(e0, frame(m)) == (feed(start, frame(m)).0, flushed + feed(start, frame(m)).1));
        assert(w0.flatten() + flushed.flatten() == responses(init));
        let w1 = feed(start, frame(m)).1;
        if m.len() == 0 {
            lemma_empty_message(start);
            assert(m =~= seq![]);
            assert(w1 =~= Seq::<Seq<u8>>::empty());
            assert(messages.drop_last() == init);
        } else {
            lemma_echo_message(start, m);
        }
        vstd::seq_lib::lemma_flatten_concat(flushed, w1);
        vstd::seq_lib::lemma_flatten_concat(w0, flushed + w1);
        assert(w0 + (flushed + w1) =~= (w0 + flushed) + w1);
        assert(packets_fit(flushed)) by {
            assert(response(seq![]).len() == 7);
        }
        lemma_fit_concat(flushed, w1);
        lemma_fit_concat(w0, flushed + w1);
    }
}

/// What a run of complete messages has written for sure: every response,
/// except that the response to an empty last message waits for a further
/// byte (`more` says whether one came).
pub open spec fn settled_responses(messages: Seq<Seq<u8>>, more: bool) -> Seq<u8> {
    if !more && messages.len() > 0 && messages.last().len() == 0 {
        responses(messages.drop_last())
    } else {
        responses(messages)
    }
}

/// The start of a message's frame, fed to a device waiting for a length
/// prefix: what it writes is the start of the message's response, in full
/// 64-byte packets only.
proof fn lemma_partial_message(e: EchoView, m: Seq<u8>, t: Seq<u8>)
    requires
        e.phase == (Phase::Length { received: seq![] }),
        m.len() <= 0xffff,
        t.len() < frame(m).len(),
        t == frame(m).take(t.len() as int),
    ensures
        packets_fit(feed(e, t).1),
        feed(e, t).1.flatten().len() % 64 == 0,
        feed(e, t).1.flatten().len() <= response(m).len(),
        feed(e, t).1.flatten() == response(m).take(feed(e, t).1.flatten().len() as int),
{
    if t.len() == 0 {
        assert(feed(e, t).1.flatten() =~= response(m).take(0));
    } else if t.len() == 1 {
        lemma_feed_one(e, t);
        assert(feed(e, t).1 =~= Seq::<Seq<u8>>::empty());
        assert(feed(e, t).1.flatten() =~= response(m).take(0));
    } else {
        lemma_partial_payload(e, m, t);
    }
}

/// The start of a message's frame that reaches into the payload.
proof fn lemma_partial_payload(e: EchoView, m: Seq<u8>, t: Seq<u8>)
    requires
        e.phase == (Phase::Length { received: seq![] }),
        m.len() <= 0xffff,
        2 <= t.len() < frame(m).len(),
        t == frame(m).take(t.len() as int),
    ensures
        packets_fit(feed(e, t).1),
        feed(e, t).1.flatten().len() % 64 == 0,
        feed(e, t).1.flatten().len() <= response(m).len(),
        feed(e, t).1.flatten() == response(m).take(feed(e, t).1.flatten().len() as int),
{
    let n = m.len();
    let k = t.len() - 2;
    assert(t =~= le_bytes(n) + m.take(k));
    lemma_prefix(e, n);
    lemma_split_anywhere(e, le_bytes(n), m.take(k));
    let w = feed(e, le_bytes(n)).0;
    assert(response_header(n).len() == 7);
    lemma_payload_prefix(w, m, k);
    let f = feed(w, m.take(k));
    assert(Seq::<Seq<u8>>::empty() + f.1 =~= f.1);
    assert(feed(e, t).1 == f.1);
    lemma_full_packets_len(f.1);
    let len = f.1.flatten().len();
    let count = f.1.len();
    assert((64 * count) % 64 == 0) by (nonlinear_arith);
    assert(w.pending + m.take(k) =~= response(m).take(7 + k));
    assert(f.1.flatten() =~= (f.1.flatten() + f.0.pending).take(len as int));
    assert(response(m).take(7 + k).take(len as int) =~= response(m).take(len as int));
}

/// A conversation: a device waiting for a length prefix receives any run of
/// complete framed messages of at most 65535 bytes each (empty ones
/// included), then possibly the start `t` of one more message `m`. It writes
/// packets of 1 to 64 bytes that hold, in order, the responses to the
/// complete messages (the response to an empty last message waits for a
/// further byte), and then the start of `m`'s response, a whole number of
/// 64-byte packets long. With nothing after the complete messages, it is
/// idle afterwards if the last message was not empty, and holds that empty
/// message's response otherwise.
pub proof fn lemma_echo_stream(v: EchoView, messages: Seq<Seq<u8>>, m: Seq<u8>, t: Seq<u8>)
    requires
        v.phase == (Phase::Length { received: seq![] }),
        forall|k: int| 0 <= k < messages.len() ==> #[trigger] messages[k].len() <= 0xffff,
        m.len() <= 0xffff,
        t.len() < frame(m).len(),
        t == frame(m).take(t.len() as int),
    ensures
        ({
            let out = feed(v, frames(messages) + t);
            let written = out.1.flatten();
            let settled = settled_responses(messages, t.len() > 0);
            &&& packets_fit(out.1)
            &&& written.len() >= settled.len()
            &&& written.take(settled.len() as int) == settled
            &&& (written.len() - settled.len()) % 64 == 0
            &&& written.skip(settled.len() as int) == response(m).take(written.len() - settled.len())
            &&& (t.len() == 0 && messages.len() > 0 && messages.last().len() > 0 ==> out.0 == idle())
            &&& (t.len() == 0 && messages.len() > 0 && messages.last().len() == 0 ==> out.0 == after_empty_message())
        }),
{
    lemma_echo_messages(v, messages);
    lemma_split_anywhere(v, frames(messages), t);
    let e0 = feed(v, frames(messages)).0;
    let w0 = feed(v, frames(messages)).1;
    let out = feed(v, frames(messages) + t);
    let settled = settled_responses(messages, t.len() > 0);
    let last_empty = messages.len() > 0 && messages.last().len() == 0;
    if t.len() == 0 {
        assert(frames(messages) + t =~= frames(messages));
        assert(out.1 == w0);
        assert(out.1.flatten().take(settled.len() as int) =~= settled);
        assert(out.1.flatten().skip(settled.len() as int) =~= response(m).take(0));
    } else {
        let start = if last_empty { idle() } else { e0 };
        let flushed = if last_empty { seq![response(seq![])] } else { Seq::<Seq<u8>>::empty() };
        if last_empty {
            lemma_flush_then(e0, t);
            assert(written_if_nonempty(e0.pending) == flushed);
            lemma_frames_last(messages);
            assert(messages.last() =~= seq![]);
            assert(flushed.flatten() == response(messages.last()));
        } else {
            assert(flushed + feed(start, t).1 =~= feed(start, t).1);
        }
        assert(feed(e0, t) == (feed(start, t).0, flushed + feed(start, t).1));
        assert(w0.flatten() + flushed.flatten() == responses(messages));
        lemma_partial_message(start, m, t);
        let w1 = feed(start, t).1;
        vstd::seq_lib::lemma_flatten_concat(flushed, w1);
        vstd::seq_lib::lemma_flatten_concat(w0, flushed + w1);
        assert(w0 + (flushed + w1) =~= (w0 + flushed) + w1);
        assert(packets_fit(flushed)) by {
            assert(response(seq![]).len() == 7);
        }
        lemma_fit_concat(flushed, w1);
        lemma_fit_concat(w0, flushed + w1);
        let written = out.1.flatten();
        assert(written == settled + w1.flatten());
        assert(written.take(settled.len() as int) =~= settled);
        assert(written.skip(settled.len() as int) =~= w1.flatten());
    }
}

} // verus!
