//! The device's output buffer: a `heapless::Vec<u8, 64>`, one bulk packet long.
//!
//! Every item below is trusted: its contract restates what `heapless` 0.8's
//! source shows of the method it wraps, over the name `packet_bytes` for the
//! bytes that the vector holds.
use vstd::prelude::*;

verus! {

/// Capacity of one USB full-speed bulk packet, in bytes.
pub const PACKET_SIZE: usize = 64;

/// The fixed-capacity vector of the `heapless` crate.
#[verifier::external_type_specification]
#[verifier::external_body]
#[verifier::reject_recursive_types(T)]
pub struct ExHeaplessVec<T, const N: usize>(heapless::Vec<T, N>);

/// The bytes that a packet buffer currently holds, in order.
pub uninterp spec fn packet_bytes(buf: heapless::Vec<u8, 64>) -> Seq<u8>;

/// `heapless::Vec::new`: the vector starts empty.
#[verifier::external_body]
pub(crate) fn packet_buffer_new() -> (buf: heapless::Vec<u8, 64>)
    ensures
        packet_bytes(buf) == Seq::<u8>::empty(),
{
    heapless::Vec::new()
}

/// `heapless::Vec::clear`: afterwards the vector holds nothing.
#[verifier::external_body]
pub(crate) fn packet_buffer_clear(buf: &mut heapless::Vec<u8, 64>)
    ensures
        packet_bytes(*final(buf)) == Seq::<u8>::empty(),
{
    buf.clear()
}

/// `heapless::Vec::is_empty`: whether the vector holds no byte.
#[verifier::external_body]
pub(crate) fn packet_buffer_is_empty(buf: &heapless::Vec<u8, 64>) -> (r: bool)
    ensures
        r == (packet_bytes(*buf).len() == 0),
{
    buf.is_empty()
}

/// `heapless::Vec::is_full`: whether the vector holds as many bytes as its
/// capacity, 64.
#[verifier::external_body]
pub(crate) fn packet_buffer_is_full(buf: &heapless::Vec<u8, 64>) -> (r: bool)
    ensures
        r == (packet_bytes(*buf).len() == 64),
{
    buf.is_full()
}

/// `heapless::Vec::push`: appends the byte when fewer than 64 are held and
/// returns `Ok`; otherwise leaves the vector as it was and hands the byte back.
#[verifier::external_body]
pub(crate) fn packet_buffer_push(buf: &mut heapless::Vec<u8, 64>, byte: u8) -> (r: Result<(), u8>)
    ensures
        packet_bytes(*old(buf)).len() < 64 ==> r is Ok,
        packet_bytes(*old(buf)).len() < 64 ==> packet_bytes(*final(buf)) == packet_bytes(*old(buf)).push(byte),
        packet_bytes(*old(buf)).len() >= 64 ==> (r matches Err(b) && b == byte),
        packet_bytes(*old(buf)).len() >= 64 ==> packet_bytes(*final(buf)) == packet_bytes(*old(buf)),
{
    buf.push(byte)
}

/// `heapless::Vec::extend_from_slice`: appends all of `bytes` when they fit in
/// the 64-byte capacity and returns `Ok`; otherwise changes nothing and returns
/// `Err`.
#[verifier::external_body]
pub(crate) fn packet_buffer_extend(buf: &mut heapless::Vec<u8, 64>, bytes: &[u8]) -> (r: Result<(), ()>)
    ensures
        packet_bytes(*old(buf)).len() + bytes@.len() <= 64 ==> r is Ok,
        packet_bytes(*old(buf)).len() + bytes@.len() <= 64 ==> packet_bytes(*final(buf)) == packet_bytes(*old(buf)) + bytes@,
        packet_bytes(*old(buf)).len() + bytes@.len() > 64 ==> r is Err,
        packet_bytes(*old(buf)).len() + bytes@.len() > 64 ==> packet_bytes(*final(buf)) == packet_bytes(*old(buf)),
{
    buf.extend_from_slice(bytes)
}

/// `heapless::Vec::as_slice`, copied into a `Vec`: the bytes held, in order.
#[verifier::external_body]
pub(crate) fn packet_buffer_to_vec(buf: &heapless::Vec<u8, 64>) -> (r: Vec<u8>)
    ensures
        r@ == packet_bytes(*buf),
{
    buf.as_slice().to_vec()
}

} // verus!
