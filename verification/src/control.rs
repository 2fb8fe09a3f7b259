//! The control panel's decisions around WebUSB transfers: what a finished
//! transfer means, how far a firmware download has come, what a line of text
//! is on the wire and what received bytes read as.
use vstd::prelude::*;
use vstd::utf8::{decode_utf8, encode_utf8, valid_utf8};

use crate::echo_laws::{lemma_echo_message, packets_fit};
use crate::echo_spec::{
    echo_tag, feed, frame, idle, le_bytes, response_length, EchoView, Phase,
};

verus! {

/// USB vendor id of the echo device.
pub const VENDOR_ID: u16 = 0x1209;

/// USB product id of the echo device.
pub const PRODUCT_ID: u16 = 0x0001;

/// The device's vendor-specific interface, which carries the echo protocol.
pub const WEBUSB_INTERFACE: u8 = 1;

/// Bulk IN endpoint of the echo interface.
pub const WEBUSB_ENDPOINT_IN: u8 = 1;

/// Bulk OUT endpoint of the echo interface.
pub const WEBUSB_ENDPOINT_OUT: u8 = 1;

/// The most bytes the control panel asks for in one bulk IN transfer.
pub const RECEIVE_LENGTH: u16 = 64;

/// Why a transfer came to nothing.
#[derive(PartialEq, Eq, Structural, Debug)]
pub enum TransferError {
    /// A DFU control transfer from the device did not complete.
    ControlInFailed,
    /// A DFU control transfer to the device did not complete.
    ControlOutFailed,
    /// A bulk transfer from the device did not complete.
    TransferFailed,
    /// A bulk transfer from the device completed without data.
    NoData,
    /// A line of text too long for the echo protocol's 16-bit length prefix.
    LineTooLong,
}

impl TransferError {
    /// The message the control panel shows for this error.
    pub fn message(&self) -> (m: &'static str)
        ensures
            *self == TransferError::ControlInFailed ==> m@ == "Control transfer IN failed"@,
            *self == TransferError::ControlOutFailed ==> m@ == "Control transfer OUT failed"@,
            *self == TransferError::TransferFailed ==> m@ == "Transfer failed"@,
            *self == TransferError::NoData ==> m@ == "No data received"@,
            *self == TransferError::LineTooLong ==> m@ == "Text too long"@,
    {
        match self {
            TransferError::ControlInFailed => "Control transfer IN failed",
            TransferError::ControlOutFailed => "Control transfer OUT failed",
            TransferError::TransferFailed => "Transfer failed",
            TransferError::NoData => "No data received",
            TransferError::LineTooLong => "Text too long",
        }
    }
}

/// The smaller of two lengths.
pub open spec fn min_len(a: int, b: int) -> int {
    if a < b {
        a
    } else {
        b
    }
}

/// Finishes a DFU control transfer from the device: a failed transfer is an
/// error; otherwise as many received bytes as fit are copied to the front of
/// `buffer` and the number of bytes the device sent is returned, which may
/// be more than were copied.
pub fn complete_control_in(status_ok: bool, data: Option<&[u8]>, buffer: &mut [u8]) -> (r: Result<usize, TransferError>)
    ensures
        !status_ok ==> (r matches Err(e) && e == TransferError::ControlInFailed),
        !status_ok ==> final(buffer)@ == old(buffer)@,
        status_ok && data is None ==> (r matches Ok(n) && n == 0),
        status_ok && data is None ==> final(buffer)@ == old(buffer)@,
        status_ok && data is Some ==> (r matches Ok(n) && n == data->0@.len()),
        status_ok && data is Some ==> final(buffer)@ == data->0@.take(min_len(data->0@.len() as int, old(buffer)@.len() as int)) + old(buffer)@.skip(min_len(data->0@.len() as int, old(buffer)@.len() as int)),
{
    if !status_ok {
        return Err(TransferError::ControlInFailed);
    }
    match data {
        Some(data) => {
            let n = data.len();
            let count = if n < buffer.len() {
                n
            } else {
                buffer.len()
            };
            let mut i: usize = 0;
            while i < count
                invariant
                    i <= count,
                    count <= n,
                    count <= buffer@.len(),
                    n == data@.len(),
                    count == min_len(n as int, old(buffer)@.len() as int),
                    buffer@.len() == old(buffer)@.len(),
                    buffer@ =~= data@.take(i as int) + old(buffer)@.skip(i as int),
                decreases count - i,
            {
                buffer[i] = data[i];
                i = i + 1;
            }
            Ok(n)
        },
        None => Ok(0),
    }
}

/// Finishes a DFU control transfer to the device: a failed transfer is an
/// error; otherwise the whole block of `len` bytes was written.
pub fn complete_control_out(status_ok: bool, len: usize) -> (r: Result<usize, TransferError>)
    ensures
        !status_ok ==> (r matches Err(e) && e == TransferError::ControlOutFailed),
        status_ok ==> (r matches Ok(n) && n == len),
{
    if !status_ok {
        Err(TransferError::ControlOutFailed)
    } else {
        Ok(len)
    }
}

/// In DfuSe, block 0 carries commands and blocks 2 and up carry firmware: a
/// non-empty write to block 2 or higher is firmware data.
pub open spec fn is_data_block(value: u16, len: nat) -> bool {
    value >= 2 && len > 0
}

/// Which writes count as firmware: every non-empty write to block 2 or
/// higher, and nothing else.
pub proof fn lemma_data_blocks(value: u16, len: nat)
    ensures
        is_data_block(value, len) <==> (value >= 2 && len > 0),
        is_data_block(value, len) ==> len >= 1,
        value <= 1 ==> !is_data_block(value, len),
{
}

/// How much of a firmware image has been written to the device.
pub struct DownloadProgress {
    total_size: usize,
    bytes_written: usize,
}

impl DownloadProgress {
    /// The size of the image being written.
    pub closed spec fn spec_total_size(&self) -> nat {
        self.total_size as nat
    }

    /// The firmware bytes written so far.
    pub closed spec fn spec_bytes_written(&self) -> nat {
        self.bytes_written as nat
    }

    /// A download of `total_size` bytes that has not started.
    pub fn new(total_size: usize) -> (p: DownloadProgress)
        ensures
            p.spec_total_size() == total_size,
            p.spec_bytes_written() == 0,
    {
        DownloadProgress { total_size, bytes_written: 0 }
    }

    /// The size of the image being written.
    pub fn total_size(&self) -> (n: usize)
        ensures
            n == self.spec_total_size(),
    {
        self.total_size
    }

    /// The firmware bytes written so far.
    pub fn bytes_written(&self) -> (n: usize)
        ensures
            n == self.spec_bytes_written(),
    {
        self.bytes_written
    }

    /// Accounts for a control write of `len` bytes to block `value`: a data
    /// block adds its bytes and returns the new total; anything else changes
    /// nothing and returns `None`.
    pub fn record_write(&mut self, value: u16, len: usize) -> (r: Option<usize>)
        requires
            is_data_block(value, len as nat) ==> old(self).spec_bytes_written() + len <= usize::MAX,
        ensures
            final(self).spec_total_size() == old(self).spec_total_size(),
            is_data_block(value, len as nat) ==> final(self).spec_bytes_written() == old(self).spec_bytes_written() + len,
            is_data_block(value, len as nat) ==> (r matches Some(n) && n == final(self).spec_bytes_written()),
            !is_data_block(value, len as nat) ==> final(self).spec_bytes_written() == old(self).spec_bytes_written(),
            !is_data_block(value, len as nat) ==> r is None,
            value >= 2 && len > 0 ==> final(self).spec_bytes_written() == old(self).spec_bytes_written() + len,
            value >= 2 && len > 0 ==> (r matches Some(n) && n == old(self).spec_bytes_written() + len),
            value < 2 || len == 0 ==> final(self).spec_bytes_written() == old(self).spec_bytes_written() && r is None,
    {
        if value >= 2 && len > 0 {
            let new_total = self.bytes_written + len;
            self.bytes_written = new_total;
            Some(new_total)
        } else {
            None
        }
    }
}

/// What `String::from_utf8_lossy` makes of a byte sequence: the text, with
/// each invalid UTF-8 sequence replaced by U+FFFD.
pub uninterp spec fn lossy_utf8(bytes: Seq<u8>) -> Seq<char>;

/// `String::from_utf8_lossy`, made owned. Claimed: the result is what the
/// name `lossy_utf8` gives for the bytes, and it is their UTF-8 decoding when
/// they are valid UTF-8 (std documents that valid input comes back as is).
#[verifier::external_body]
fn string_from_utf8_lossy(bytes: &[u8]) -> (s: String)
    ensures
        s@ == lossy_utf8(bytes@),
        valid_utf8(bytes@) ==> s@ == decode_utf8(bytes@),
{
    String::from_utf8_lossy(bytes).into_owned()
}

/// Reads a finished bulk transfer from the device as text: a failed transfer
/// and a transfer without data are errors; the bytes are decoded as UTF-8,
/// invalid sequences replaced.
pub fn decode_received(status_ok: bool, data: Option<&[u8]>) -> (r: Result<String, TransferError>)
    ensures
        !status_ok ==> (r matches Err(e) && e == TransferError::TransferFailed),
        status_ok && data is None ==> (r matches Err(e) && e == TransferError::NoData),
        status_ok && data is Some ==> (r matches Ok(text) && text@ == lossy_utf8(data->0@)),
        status_ok && data is Some && valid_utf8(data->0@) ==> (r matches Ok(text) && text@ == decode_utf8(data->0@)),
{
    if !status_ok {
        return Err(TransferError::TransferFailed);
    }
    match data {
        Some(bytes) => Ok(string_from_utf8_lossy(bytes)),
        None => Err(TransferError::NoData),
    }
}

/// The bytes of a line of text: its UTF-8 encoding and a newline.
pub open spec fn line_bytes(text: Seq<char>) -> Seq<u8> {
    encode_utf8(text) + seq![10u8]
}

/// The message sent for a line of text, framed for the echo protocol: the
/// line's length, little-endian, then its UTF-8 bytes and a newline. A line
/// of 65535 bytes or more does not fit the length prefix and is refused.
pub fn encode_line(text: &str) -> (r: Result<Vec<u8>, TransferError>)
    ensures
        line_bytes(text@).len() <= 0xffff ==> (r matches Ok(bytes) && bytes@ == frame(line_bytes(text@))),
        line_bytes(text@).len() > 0xffff ==> (r matches Err(e) && e == TransferError::LineTooLong),
        encode_utf8(text@).len() + 1 <= 0xffff ==> (r matches Ok(bytes) && bytes@.len() == encode_utf8(text@).len() + 3
            && bytes@[0] + 256 * bytes@[1] == encode_utf8(text@).len() + 1
            && bytes@.skip(2) == encode_utf8(text@) + seq![10u8]),
        encode_utf8(text@).len() + 1 > 0xffff ==> r is Err,
{
    let source = text.as_bytes();
    assert(source@ == encode_utf8(text@));
    if source.len() >= 0xffff {
        return Err(TransferError::LineTooLong);
    }
    let len: u16 = (source.len() + 1) as u16;
    let mut bytes: Vec<u8> = Vec::new();
    bytes.push((len % 256) as u8);
    bytes.push((len / 256) as u8);
    let mut i: usize = 0;
    while i < source.len()
        invariant
            i <= source@.len(),
            source@ == encode_utf8(text@),
            source@.len() < 0xffff,
            len == source@.len() + 1,
            bytes@ == le_bytes(len as nat) + source@.take(i as int),
        decreases source@.len() - i,
    {
        bytes.push(source[i]);
        i = i + 1;
        assert(bytes@ =~= le_bytes(len as nat) + source@.take(i as int));
    }
    bytes.push(10u8);
    assert(source@.take(source@.len() as int) =~= source@);
    assert(bytes@ =~= frame(line_bytes(text@)));
    assert(bytes@.skip(2) =~= encode_utf8(text@) + seq![10u8]);
    assert(bytes@[0] + 256 * bytes@[1] == len);
    Ok(bytes)
}

/// A line sent to the device comes back: a device waiting for a length
/// prefix that receives the framed line writes, in packets of 1 to 64 bytes,
/// a two-byte length field followed by "ECHO " and the line, and is idle
/// again afterwards.
pub proof fn lemma_line_echoed(v: EchoView, text: Seq<char>)
    requires
        v.phase == (Phase::Length { received: seq![] }),
        line_bytes(text).len() <= 0xffff,
    ensures
        feed(v, frame(line_bytes(text))).0 == idle(),
        packets_fit(feed(v, frame(line_bytes(text))).1),
        feed(v, frame(line_bytes(text))).1.flatten() == le_bytes(response_length(line_bytes(text).len())) + echo_tag() + line_bytes(text),
        feed(v, frame(line_bytes(text))).1.flatten().skip(2) == echo_tag() + encode_utf8(text) + seq![10u8],
{
    let line = line_bytes(text);
    lemma_echo_message(v, line);
    let out = feed(v, frame(line)).1.flatten();
    assert(out == le_bytes(response_length(line.len())) + echo_tag() + line);
    assert(out.skip(2) =~= echo_tag() + encode_utf8(text) + seq![10u8]);
}

/// A step in preparing the opened echo device for bulk transfers.
#[derive(PartialEq, Eq, Structural, Debug)]
pub enum SetupStep {
    SelectConfiguration(u8),
    ClaimInterface(u8),
    SelectAlternateInterface(u8, u8),
}

/// What to do after opening the echo device: choose configuration 1 unless
/// one is active, then claim the echo interface and select its setting 0.
pub fn connect_steps(configured: bool) -> (steps: Vec<SetupStep>)
    ensures
        configured ==> steps@ == seq![
            SetupStep::ClaimInterface(WEBUSB_INTERFACE),
            SetupStep::SelectAlternateInterface(WEBUSB_INTERFACE, 0),
        ],
        !configured ==> steps@ == seq![
            SetupStep::SelectConfiguration(1),
            SetupStep::ClaimInterface(WEBUSB_INTERFACE),
            SetupStep::SelectAlternateInterface(WEBUSB_INTERFACE, 0),
        ],
{
    let mut steps: Vec<SetupStep> = Vec::new();
    if !configured {
        steps.push(SetupStep::SelectConfiguration(1));
    }
    steps.push(SetupStep::ClaimInterface(WEBUSB_INTERFACE));
    steps.push(SetupStep::SelectAlternateInterface(WEBUSB_INTERFACE, 0));
    proof {
        if configured {
            assert(steps@ =~= seq![
                SetupStep::ClaimInterface(WEBUSB_INTERFACE),
                SetupStep::SelectAlternateInterface(WEBUSB_INTERFACE, 0),
            ]);
        } else {
            assert(steps@ =~= seq![
                SetupStep::SelectConfiguration(1),
                SetupStep::ClaimInterface(WEBUSB_INTERFACE),
                SetupStep::SelectAlternateInterface(WEBUSB_INTERFACE, 0),
            ]);
        }
    }
    steps
}

} // verus!
