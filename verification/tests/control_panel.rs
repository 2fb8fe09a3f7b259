use stm_usb::echo::{EchoSession, Reaction, ReadOutcome};
use stm_usb::control::{
    complete_control_in, complete_control_out, connect_steps, decode_received, encode_line,
    DownloadProgress, SetupStep, TransferError, PRODUCT_ID, VENDOR_ID, WEBUSB_INTERFACE,
};

#[test]
fn control_in_failure_leaves_buffer() {
    let mut buf = [9u8; 4];
    assert_eq!(complete_control_in(false, Some(&[1, 2]), &mut buf), Err(TransferError::ControlInFailed));
    assert_eq!(buf, [9; 4]);
}

#[test]
fn control_in_without_data_reads_nothing() {
    let mut buf = [9u8; 4];
    assert_eq!(complete_control_in(true, None, &mut buf), Ok(0));
    assert_eq!(buf, [9; 4]);
}

#[test]
fn control_in_copies_what_fits() {
    let mut buf = [9u8; 4];
    assert_eq!(complete_control_in(true, Some(&[1, 2]), &mut buf), Ok(2));
    assert_eq!(buf, [1, 2, 9, 9]);
    let mut small = [0u8; 3];
    assert_eq!(complete_control_in(true, Some(&[5, 6, 7, 8, 9, 10]), &mut small), Ok(6));
    assert_eq!(small, [5, 6, 7]);
}

#[test]
fn control_out_outcomes() {
    assert_eq!(complete_control_out(true, 2048), Ok(2048));
    assert_eq!(complete_control_out(false, 2048), Err(TransferError::ControlOutFailed));
}

#[test]
fn progress_counts_data_blocks_only() {
    let mut p = DownloadProgress::new(5000);
    assert_eq!(p.record_write(0, 5), None);
    assert_eq!(p.record_write(1, 16), None);
    assert_eq!(p.record_write(2, 0), None);
    assert_eq!(p.bytes_written(), 0);
    assert_eq!(p.record_write(2, 2048), Some(2048));
    assert_eq!(p.record_write(3, 2048), Some(4096));
    assert_eq!(p.record_write(4, 904), Some(5000));
    assert_eq!(p.bytes_written(), 5000);
    assert_eq!(p.total_size(), 5000);
}

#[test]
fn received_bytes_read_as_text() {
    assert_eq!(decode_received(false, Some(b"x")), Err(TransferError::TransferFailed));
    assert_eq!(decode_received(true, None), Err(TransferError::NoData));
    assert_eq!(decode_received(true, Some(b"ECHO hi")), Ok("ECHO hi".to_string()));
    assert_eq!(decode_received(true, Some(&[0x68, 0xff, 0x69])), Ok("h\u{FFFD}i".to_string()));
    assert_eq!(decode_received(true, Some(&[])), Ok(String::new()));
}

#[test]
fn error_messages() {
    assert_eq!(TransferError::ControlInFailed.message(), "Control transfer IN failed");
    assert_eq!(TransferError::ControlOutFailed.message(), "Control transfer OUT failed");
    assert_eq!(TransferError::TransferFailed.message(), "Transfer failed");
    assert_eq!(TransferError::NoData.message(), "No data received");
}

#[test]
fn lines_are_framed_utf8_and_a_newline() {
    assert_eq!(encode_line("hello"), Ok(vec![6, 0, b'h', b'e', b'l', b'l', b'o', b'\n']));
    assert_eq!(encode_line(""), Ok(vec![1, 0, 10]));
    assert_eq!(encode_line("é"), Ok(vec![3, 0, 0xc3, 0xa9, 10]));
    let long = "x".repeat(300);
    let framed = encode_line(&long).ok().expect("fits");
    assert_eq!(&framed[..2], &[45, 1]);
    assert_eq!(framed.len(), 303);
}

#[test]
fn lines_too_long_for_the_prefix_are_refused() {
    assert_eq!(encode_line(&"a".repeat(65534)).map(|b| b.len()), Ok(65537));
    assert_eq!(encode_line(&"a".repeat(65535)), Err(TransferError::LineTooLong));
    assert_eq!(encode_line(&"a".repeat(70000)), Err(TransferError::LineTooLong));
    assert_eq!(TransferError::LineTooLong.message(), "Text too long");
}

#[test]
fn typed_text_comes_back_with_echo_prefix() {
    let mut session = EchoSession::new();
    let framed = encode_line("hi").ok().expect("fits");
    let writes = match session.on_read(ReadOutcome::Received(framed)) {
        Reaction::Send(writes) => writes,
        _ => panic!("expected writes"),
    };
    assert_eq!(writes.last(), Some(&vec![0u8, 0u8]));
    let reply = writes[0].clone();
    assert_eq!(reply, vec![8, 0, b'E', b'C', b'H', b'O', b' ', b'h', b'i', b'\n']);
    let text = decode_received(true, Some(&reply)).ok().expect("decodes");
    assert!(text.contains("ECHO hi"));
    assert_eq!(&reply[2..], b"ECHO hi\n");
}

#[test]
fn connecting_selects_configuration_only_when_needed() {
    assert_eq!(
        connect_steps(false),
        vec![
            SetupStep::SelectConfiguration(1),
            SetupStep::ClaimInterface(WEBUSB_INTERFACE),
            SetupStep::SelectAlternateInterface(WEBUSB_INTERFACE, 0),
        ]
    );
    assert_eq!(
        connect_steps(true),
        vec![SetupStep::ClaimInterface(1), SetupStep::SelectAlternateInterface(1, 0)]
    );
    assert_eq!((VENDOR_ID, PRODUCT_ID), (0x1209, 0x0001));
}
