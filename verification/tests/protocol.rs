use pty_host::fault::{IoFault, IoKind};
use pty_host::protocol::{
    parse_header, parse_status, push_status, read_frame, send_client_message, send_host_message,
    write_header, ClientMessage, Cursor, DecodeError, FrameHeader, HostMessage, WindowSize,
    CLIENT_KILL, HOST_ERROR, HOST_SNAPSHOT, MAX_PAYLOAD_SIZE, PROTOCOL_VERSION,
};

#[test]
fn client_data_round_trips() {
    let msg = ClientMessage::Data(b"hello world".to_vec());
    let encoded = msg.encode();
    let decoded = ClientMessage::decode_from(&mut Cursor::new(&encoded)).unwrap();
    assert_eq!(msg, decoded);
}

#[test]
fn client_resize_round_trips() {
    let msg = ClientMessage::Resize(WindowSize {
        cols: 80,
        rows: 24,
        cell_width: 8,
        cell_height: 16,
    });
    let encoded = msg.encode();
    let decoded = ClientMessage::decode_from(&mut Cursor::new(&encoded)).unwrap();
    assert_eq!(msg, decoded);
}

#[test]
fn client_detach_round_trips() {
    let msg = ClientMessage::Detach;
    let encoded = msg.encode();
    let decoded = ClientMessage::decode_from(&mut Cursor::new(&encoded)).unwrap();
    assert_eq!(msg, decoded);
}

#[test]
fn client_kill_round_trips() {
    let msg = ClientMessage::Kill;
    let encoded = msg.encode();
    let decoded = ClientMessage::decode_from(&mut Cursor::new(&encoded)).unwrap();
    assert_eq!(msg, decoded);
}

#[test]
fn host_data_round_trips() {
    let msg = HostMessage::Data(b"\x1b[31mred\x1b[0m".to_vec());
    let encoded = msg.encode();
    let decoded = HostMessage::decode_from(&mut Cursor::new(&encoded)).unwrap();
    assert_eq!(msg, decoded);
}

#[test]
fn host_child_exit_with_code_round_trips() {
    let msg = HostMessage::ChildExit {
        raw_status: Some(42),
    };
    let encoded = msg.encode();
    let decoded = HostMessage::decode_from(&mut Cursor::new(&encoded)).unwrap();
    assert_eq!(msg, decoded);
}

#[test]
fn host_child_exit_no_code_round_trips() {
    let msg = HostMessage::ChildExit { raw_status: None };
    let encoded = msg.encode();
    let decoded = HostMessage::decode_from(&mut Cursor::new(&encoded)).unwrap();
    assert_eq!(msg, decoded);
}

#[test]
fn host_ready_round_trips() {
    let msg = HostMessage::Ready { version: PROTOCOL_VERSION, pid: 12345, cols: 80, rows: 24 };
    let encoded = msg.encode();
    let decoded = HostMessage::decode_from(&mut Cursor::new(&encoded)).unwrap();
    assert_eq!(msg, decoded);
}

#[test]
fn host_replay_done_round_trips() {
    let msg = HostMessage::ReplayDone;
    let encoded = msg.encode();
    let decoded = HostMessage::decode_from(&mut Cursor::new(&encoded)).unwrap();
    assert_eq!(msg, decoded);
}

#[test]
fn host_error_round_trips() {
    let msg = HostMessage::Error("something went wrong".to_string());
    let encoded = msg.encode();
    let decoded = HostMessage::decode_from(&mut Cursor::new(&encoded)).unwrap();
    assert_eq!(msg, decoded);
}

#[test]
fn empty_data_round_trips() {
    let msg = ClientMessage::Data(vec![]);
    let encoded = msg.encode();
    let decoded = ClientMessage::decode_from(&mut Cursor::new(&encoded)).unwrap();
    assert_eq!(msg, decoded);
}

#[test]
fn multiple_messages_in_stream() {
    let messages = vec![
        ClientMessage::Data(b"first".to_vec()),
        ClientMessage::Resize(WindowSize {
            cols: 120,
            rows: 40,
            cell_width: 7,
            cell_height: 14,
        }),
        ClientMessage::Data(b"second".to_vec()),
        ClientMessage::Detach,
    ];

    let mut buf = Vec::new();
    for msg in &messages {
        msg.encode_into(&mut buf);
    }

    let mut cursor = Cursor::new(&buf);
    for expected in &messages {
        let decoded = ClientMessage::decode_from(&mut cursor).unwrap();
        assert_eq!(expected, &decoded);
    }
}

#[test]
fn unknown_tag_returns_error() {
    let frame = [0xFF, 0, 0, 0, 0]; // unknown tag, zero-length payload
    let result = ClientMessage::decode_from(&mut Cursor::new(&frame));
    assert!(matches!(result, Err(DecodeError::UnknownTag(0xFF))));
}

#[test]
fn truncated_header_returns_eof() {
    let frame = [0x01, 0x05]; // only 2 of 5 header bytes
    let result = ClientMessage::decode_from(&mut Cursor::new(&frame));
    assert!(matches!(result, Err(DecodeError::UnexpectedEof)));
}

#[test]
fn truncated_payload_returns_eof() {
    let frame = [0x01, 0x0A, 0x00, 0x00, 0x00, b'h', b'i']; // claims 10 bytes, only 2
    let result = ClientMessage::decode_from(&mut Cursor::new(&frame));
    assert!(matches!(result, Err(DecodeError::UnexpectedEof)));
}

#[test]
fn payload_too_large_returns_error() {
    let huge_len = (MAX_PAYLOAD_SIZE + 1).to_le_bytes();
    let frame = [0x01, huge_len[0], huge_len[1], huge_len[2], huge_len[3]];
    let result = ClientMessage::decode_from(&mut Cursor::new(&frame));
    assert!(matches!(result, Err(DecodeError::PayloadTooLarge(_))));
}

#[test]
fn send_helpers_work() {
    let mut buf = Vec::new();
    send_client_message(&mut buf, &ClientMessage::Data(b"test".to_vec()));
    let decoded = ClientMessage::decode_from(&mut Cursor::new(&buf)).unwrap();
    assert_eq!(decoded, ClientMessage::Data(b"test".to_vec()));

    let mut buf = Vec::new();
    send_host_message(
        &mut buf,
        &HostMessage::Ready { version: PROTOCOL_VERSION, pid: 99, cols: 80, rows: 24 },
    );
    let decoded = HostMessage::decode_from(&mut Cursor::new(&buf)).unwrap();
    assert_eq!(decoded, HostMessage::Ready { version: PROTOCOL_VERSION, pid: 99, cols: 80, rows: 24 });
}

#[test]
fn frames_have_the_documented_bytes() {
    assert_eq!(ClientMessage::Data(b"hi".to_vec()).encode(), [0x01, 2, 0, 0, 0, b'h', b'i']);
    let resize = ClientMessage::Resize(WindowSize {
        cols: 0x0102,
        rows: 0x0304,
        cell_width: 5,
        cell_height: 6,
    });
    assert_eq!(
        resize.encode(),
        [0x02, 8, 0, 0, 0, 0x02, 0x01, 0x04, 0x03, 5, 0, 6, 0]
    );
    assert_eq!(ClientMessage::Detach.encode(), [0x03, 0, 0, 0, 0]);
    assert_eq!(ClientMessage::Kill.encode(), [CLIENT_KILL, 0, 0, 0, 0]);
    assert_eq!(HostMessage::Data(vec![7]).encode(), [0x81, 1, 0, 0, 0, 7]);
    assert_eq!(
        HostMessage::ChildExit { raw_status: Some(-2) }.encode(),
        [0x82, 5, 0, 0, 0, 1, 0xfe, 0xff, 0xff, 0xff]
    );
    assert_eq!(
        HostMessage::Ready { version: 4, pid: 0x0a0b0c0d, cols: 80, rows: 24 }.encode(),
        [0x83, 12, 0, 0, 0, 4, 0, 0, 0, 0x0d, 0x0c, 0x0b, 0x0a, 80, 0, 24, 0]
    );
    assert_eq!(HostMessage::Error("no".to_string()).encode(), [0x84, 2, 0, 0, 0, b'n', b'o']);
    assert_eq!(HostMessage::ReplayDone.encode(), [0x85, 0, 0, 0, 0]);
    assert_eq!(HostMessage::Snapshot(vec![1, 2]).encode(), [0x86, 2, 0, 0, 0, 1, 2]);
}

#[test]
fn snapshots_round_trip() {
    let msg = HostMessage::Snapshot(vec![0, 255, 7]);
    let encoded = msg.encode();
    assert_eq!(encoded[0], HOST_SNAPSHOT);
    assert_eq!(HostMessage::decode_from(&mut Cursor::new(&encoded)).unwrap(), msg);
    assert_eq!(msg.payload_len(), 3);
    assert_eq!(HostMessage::Error("é".to_string()).payload_len(), 2);
    assert_eq!(ClientMessage::Data(vec![1; 9]).payload_len(), 9);
    assert_eq!(ClientMessage::Data(vec![1; 9]).encode_into(&mut vec![7]), 14);
}

#[test]
fn malformed_payloads_are_refused() {
    let cases: Vec<(Vec<u8>, &str)> = vec![
        (vec![0x82, 1, 0, 0, 0, 1], "malformed payload: CHILD_EXIT expects 5 bytes"),
        (vec![0x83, 1, 0, 0, 0, 1], "malformed payload: READY expects 12 bytes"),
        (vec![HOST_ERROR, 1, 0, 0, 0, 0xff], "malformed payload: ERROR payload is not UTF-8"),
    ];
    for (bytes, expected) in cases {
        let err = HostMessage::decode_from(&mut Cursor::new(&bytes)).unwrap_err();
        assert_eq!(err.text(), expected);
    }
    let err = ClientMessage::decode_from(&mut Cursor::new(&[0x02, 0, 0, 0, 0])).unwrap_err();
    assert_eq!(err.text(), "malformed payload: RESIZE expects 8 bytes");
}

#[test]
fn errors_are_shown_as_text() {
    let fault = IoFault { kind: IoKind::Other, message: "broken pipe".to_string() };
    assert_eq!(DecodeError::UnexpectedEof.text(), "unexpected EOF");
    assert_eq!(DecodeError::Io(fault.clone()).text(), "I/O error: broken pipe");
    assert_eq!(DecodeError::UnknownTag(0x0f).text(), "unknown message tag: 0x0f");
    assert_eq!(DecodeError::UnknownTag(0xa9).text(), "unknown message tag: 0xa9");
    assert_eq!(DecodeError::PayloadTooLarge(16777217).text(), "payload too large: 16777217 bytes");
    assert_eq!(DecodeError::from(fault.clone()), DecodeError::Io(fault));
    let eof = IoFault { kind: IoKind::UnexpectedEof, message: "early".to_string() };
    assert_eq!(DecodeError::from(eof), DecodeError::UnexpectedEof);
}

#[test]
fn oversized_frame_leaves_its_payload_on_the_stream() {
    let n = MAX_PAYLOAD_SIZE + 3;
    let mut bytes = Vec::new();
    write_header(&mut bytes, 0x86, n);
    bytes.extend_from_slice(&vec![9; n as usize]);
    HostMessage::ReplayDone.encode_into(&mut bytes);
    let mut cursor = Cursor::new(&bytes);
    assert_eq!(HostMessage::decode_from(&mut cursor), Err(DecodeError::PayloadTooLarge(n)));
    assert_eq!(cursor.remaining(), n as usize + 5);
    cursor.drain(n);
    assert_eq!(HostMessage::decode_from(&mut cursor), Ok(HostMessage::ReplayDone));
    assert_eq!(cursor.remaining(), 0);
}

#[test]
fn directions_do_not_mix() {
    let from_host = HostMessage::ReplayDone.encode();
    assert_eq!(
        ClientMessage::decode_from(&mut Cursor::new(&from_host)),
        Err(DecodeError::UnknownTag(0x85))
    );
    let from_client = ClientMessage::Detach.encode();
    assert_eq!(
        HostMessage::decode_from(&mut Cursor::new(&from_client)),
        Err(DecodeError::UnknownTag(0x03))
    );
}

#[test]
fn headers_and_frames_are_read() {
    assert_eq!(
        parse_header(&[0x01, 0, 0, 0, 1]),
        Ok(FrameHeader { type_tag: 1, length: 16777216 })
    );
    assert_eq!(parse_header(&[0x01, 1, 0, 0, 1]), Err(DecodeError::PayloadTooLarge(16777217)));
    let mut cursor = Cursor::new(&[9, 1, 0, 0, 0, 42, 7]);
    assert_eq!(read_frame(&mut cursor), Ok((9, vec![42])));
    assert_eq!(cursor.remaining(), 1);
    assert_eq!(cursor.read_exact(1), Ok(vec![7]));
    assert_eq!(cursor.read_exact(1), Err(DecodeError::UnexpectedEof));
}

#[test]
fn statuses_round_trip() {
    for status in [None, Some(0), Some(256), Some(-1), Some(i32::MIN), Some(i32::MAX)] {
        let mut bytes = Vec::new();
        push_status(&mut bytes, status);
        assert_eq!(bytes.len(), 5);
        assert_eq!(parse_status(&bytes), status);
    }
}
