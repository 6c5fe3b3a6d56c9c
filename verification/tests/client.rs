use pty_host::client::{
    deframe, deframe_loop, next_child_event, ChildEvent, ConnectError, Deframed, FramingWriter,
    Handshake, HandshakeStep, PtyHostClient, ReportKind,
};
use pty_host::fault::{IoFault, IoKind};
use pty_host::path::UnixPath;
use pty_host::protocol::{
    send_host_message, write_header, ClientMessage, Cursor, DecodeError, HostMessage, WindowSize,
    HOST_SNAPSHOT, MAX_PAYLOAD_SIZE, PROTOCOL_VERSION,
};
use pty_host::session::Session;

fn ready(version: u32) -> HostMessage {
    HostMessage::Ready { version, pid: 42, cols: 80, rows: 24 }
}

fn frames(messages: &[HostMessage]) -> Vec<u8> {
    let mut bytes = Vec::new();
    for m in messages {
        send_host_message(&mut bytes, m);
    }
    bytes
}

fn connect_error(bytes: &[u8]) -> ConnectError {
    match PtyHostClient::connect(&mut Cursor::new(bytes)) {
        Ok(_) => panic!("connected"),
        Err(e) => e,
    }
}

#[test]
fn framing_writer_encodes_data() {
    let mut writer = FramingWriter::new();

    // Write some bytes through the framing writer.
    let n = writer.write(b"hello");
    assert_eq!(n, 5);

    // Read the framed message from the host side.
    let sent = writer.take();
    let msg = ClientMessage::decode_from(&mut Cursor::new(&sent)).unwrap();
    assert_eq!(msg, ClientMessage::Data(b"hello".to_vec()));
    assert!(writer.take().is_empty());
}

#[test]
fn framing_writer_empty_write() {
    let mut writer = FramingWriter::new();
    let n = writer.write(b"");
    assert_eq!(n, 0);
    assert!(writer.take().is_empty());
}

#[test]
fn deframe_loop_forwards_data() {
    let mut host_side = Vec::new();
    let msg = HostMessage::Data(b"terminal output".to_vec());
    send_host_message(&mut host_side, &msg);

    let mut data = Vec::new();
    let mut child = Vec::new();
    deframe_loop(&mut Cursor::new(&host_side), &mut data, &mut child);
    assert_eq!(&data, b"terminal output");
    assert!(child.is_empty());
}

#[test]
fn deframe_loop_signals_child_exit() {
    let mut host_side = Vec::new();
    let msg = HostMessage::ChildExit { raw_status: Some(42) };
    send_host_message(&mut host_side, &msg);

    let mut data = Vec::new();
    let mut buf = Vec::new();
    deframe_loop(&mut Cursor::new(&host_side), &mut data, &mut buf);
    assert_eq!(buf.len(), 5);
    assert_eq!(buf[0], 1); // has_status = true
    let code = i32::from_le_bytes([buf[1], buf[2], buf[3], buf[4]]);
    assert_eq!(code, 42);
}

#[test]
fn chunked_snapshot_is_reassembled() {
    // Build a fake snapshot payload larger than MAX_PAYLOAD_SIZE.
    let total_size = MAX_PAYLOAD_SIZE as usize + 1024;
    let fake_snapshot: Vec<u8> = (0..total_size).map(|i| (i % 256) as u8).collect();

    // The host greets a client.
    let mut session = Session::new(42, UnixPath::from_text("/tmp/s.sock"));
    let size = WindowSize { cols: 80, rows: 24, cell_width: 8, cell_height: 16 };
    let handshake = session.on_accept(size, &fake_snapshot).handshake;
    assert_eq!(handshake.len(), 4);
    let mut stream = frames(&handshake);
    send_host_message(&mut stream, &HostMessage::Data(b"live".to_vec()));

    let mut reader = Cursor::new(&stream);
    let result = PtyHostClient::connect(&mut reader).ok().unwrap();
    assert_eq!(result.pid, 42);
    assert_eq!(result.client.pid(), 42);
    assert_eq!((result.cols, result.rows), (80, 24));

    // The reassembled snapshot must match the original byte-for-byte.
    assert_eq!(
        result.snapshot_data.len(),
        fake_snapshot.len(),
        "reassembled snapshot size mismatch"
    );
    assert!(
        result.snapshot_data == fake_snapshot,
        "reassembled snapshot content mismatch"
    );

    let mut data = Vec::new();
    deframe_loop(&mut reader, &mut data, &mut Vec::new());
    assert_eq!(data, b"live");
}

#[test]
fn reconnecting_after_exit_gets_replay_and_exit() {
    let mut session = Session::new(9, UnixPath::from_text("/tmp/s.sock"));
    let size = WindowSize { cols: 10, rows: 5, cell_width: 0, cell_height: 0 };
    session.on_accept(size, b"");
    session.on_child_status(Ok(Some(256)), 0);
    let stream = frames(&session.on_accept(size, b"grid").handshake);
    let mut reader = Cursor::new(&stream);
    let result = PtyHostClient::connect(&mut reader).ok().unwrap();
    assert_eq!(result.snapshot_data, b"grid");
    let mut child = Vec::new();
    deframe_loop(&mut reader, &mut Vec::new(), &mut child);
    assert_eq!(next_child_event(Ok(child)), Some(ChildEvent::Exited(Some(256))));
}

#[test]
fn connect_refuses_what_is_not_ready() {
    let e = connect_error(&[]);
    assert_eq!(e.text(), "failed to read READY: unexpected EOF");
    assert_eq!(e.report_kind(), ReportKind::InvalidData);
    assert!(e.reply().is_none());

    let e = connect_error(&frames(&[HostMessage::Error("busy".to_string())]));
    assert_eq!(e.text(), "host error: busy");
    assert_eq!(e.report_kind(), ReportKind::ConnectionRefused);

    for m in [
        HostMessage::Data(vec![1, 2, 255]),
        HostMessage::Data(vec![]),
        HostMessage::Snapshot(vec![0]),
        HostMessage::ReplayDone,
        HostMessage::ChildExit { raw_status: Some(-5) },
        HostMessage::ChildExit { raw_status: None },
    ] {
        let e = connect_error(&frames(&[m.clone()]));
        assert_eq!(e.text(), format!("expected READY, got {m:?}"));
        assert_eq!(e.report_kind(), ReportKind::InvalidData);
    }
}

#[test]
fn a_stale_host_is_killed() {
    let e = connect_error(&frames(&[ready(PROTOCOL_VERSION + 1)]));
    assert_eq!(
        e.text(),
        "pty-host version mismatch (host=5, client=4): killed stale host, caller should respawn"
    );
    assert_eq!(e.reply(), Some(ClientMessage::Kill));
}

#[test]
fn oversized_replay_is_skipped() {
    let n = MAX_PAYLOAD_SIZE + 1;
    let mut stream = frames(&[ready(PROTOCOL_VERSION), HostMessage::Snapshot(vec![1])]);
    write_header(&mut stream, HOST_SNAPSHOT, n);
    stream.extend_from_slice(&vec![7; n as usize]);
    stream.extend(frames(&[
        HostMessage::Snapshot(vec![2]),
        HostMessage::ReplayDone,
        HostMessage::Data(b"live".to_vec()),
    ]));
    let mut reader = Cursor::new(&stream);
    let result = PtyHostClient::connect(&mut reader).ok().unwrap();
    assert_eq!(result.snapshot_data, [1, 2]);
    assert_eq!(HostMessage::decode_from(&mut reader), Ok(HostMessage::Data(b"live".to_vec())));
}

#[test]
fn a_replay_may_come_as_data() {
    let stream = frames(&[
        ready(PROTOCOL_VERSION),
        HostMessage::Data(vec![1, 2]),
        HostMessage::Data(vec![3]),
        HostMessage::ReplayDone,
    ]);
    let result = PtyHostClient::connect(&mut Cursor::new(&stream)).ok().unwrap();
    assert_eq!(result.snapshot_data, [1, 2, 3]);
    let stream = frames(&[
        ready(PROTOCOL_VERSION),
        HostMessage::Snapshot(vec![4]),
        HostMessage::Data(vec![5]),
        HostMessage::Snapshot(vec![6]),
        HostMessage::ReplayDone,
        HostMessage::Data(vec![7]),
    ]);
    let result = PtyHostClient::connect(&mut Cursor::new(&stream)).ok().unwrap();
    assert_eq!(result.snapshot_data, [4, 5, 6]);
}

/// Writes up to `n` bytes of what is queued for the client.
fn flush(session: &mut Session, n: usize, sent: &mut Vec<u8>) {
    let n = n.min(session.client_queue().len());
    if n > 0 {
        sent.extend_from_slice(&session.client_queue()[..n]);
        session.on_client_written(Ok(n));
    }
}

#[test]
fn each_connection_carries_whole_frames() {
    let size = WindowSize { cols: 10, rows: 5, cell_width: 0, cell_height: 0 };
    for step in 1..12 {
        let mut session = Session::new(9, UnixPath::from_text("/tmp/s.sock"));
        let mut first = frames(&session.on_accept(size, b"one").handshake);
        for chunk in [&b"abc"[..], b"de", b"f"] {
            session.on_pty_read(&Ok(chunk.to_vec()));
            flush(&mut session, step, &mut first);
        }
        let plan = session.on_accept(size, b"two");
        first.extend(plan.evict.unwrap());
        let mut second = frames(&plan.handshake);
        session.on_pty_read(&Ok(b"gh".to_vec()));
        flush(&mut session, step, &mut second);
        session.on_child_status(Ok(Some(256)), 0);
        while !session.client_queue().is_empty() {
            flush(&mut session, step, &mut second);
        }

        let mut reader = Cursor::new(&first);
        let result = PtyHostClient::connect(&mut reader).ok().unwrap();
        assert_eq!(result.snapshot_data, b"one");
        let (mut data, mut child) = (Vec::new(), Vec::new());
        deframe_loop(&mut reader, &mut data, &mut child);
        assert_eq!(data, b"abcdef");
        assert_eq!(next_child_event(Ok(child)), Some(ChildEvent::Exited(Some(-1))));

        let mut reader = Cursor::new(&second);
        let result = PtyHostClient::connect(&mut reader).ok().unwrap();
        assert_eq!(result.snapshot_data, b"two");
        let (mut data, mut child) = (Vec::new(), Vec::new());
        deframe_loop(&mut reader, &mut data, &mut child);
        assert_eq!(data, b"gh");
        assert_eq!(next_child_event(Ok(child)), Some(ChildEvent::Exited(Some(256))));
    }
}

#[test]
fn a_replay_may_end_in_other_ways() {
    for ending in [
        vec![],
        frames(&[HostMessage::ChildExit { raw_status: None }]),
        frames(&[HostMessage::Error("gone".to_string())]),
        frames(&[ready(PROTOCOL_VERSION)]),
        vec![HOST_SNAPSHOT, 9, 0],
    ] {
        let mut stream = frames(&[ready(PROTOCOL_VERSION), HostMessage::Snapshot(vec![1])]);
        stream.extend(ending);
        let result = PtyHostClient::connect(&mut Cursor::new(&stream)).ok().unwrap();
        assert_eq!(result.snapshot_data, [1]);
    }
    let mut stream = frames(&[ready(PROTOCOL_VERSION)]);
    stream.extend_from_slice(&[0x01, 0, 0, 0, 0]);
    assert_eq!(
        connect_error(&stream).text(),
        "error reading replay: unknown message tag: 0x01"
    );
}

#[test]
fn handshake_steps_say_what_is_next() {
    let mut h = Handshake::new();
    assert!(matches!(h.step(Ok(ready(PROTOCOL_VERSION))), HandshakeStep::Read));
    assert!(matches!(
        h.step(Err(DecodeError::PayloadTooLarge(99))),
        HandshakeStep::Skip(99)
    ));
    assert!(matches!(h.skipped(Ok(())), HandshakeStep::Read));
    let reset = IoFault { kind: IoKind::Other, message: "reset".to_string() };
    assert!(matches!(h.skipped(Err(reset)), HandshakeStep::Fail(ConnectError::Drain(_))));
    assert!(matches!(h.step(Ok(HostMessage::ReplayDone)), HandshakeStep::Done));
    assert_eq!(h.finish().unwrap().pid, 42);
    assert!(Handshake::new().finish().is_none());
    let broken = IoFault { kind: IoKind::Other, message: "reset".to_string() };
    assert_eq!(
        ConnectError::Drain(broken).text(),
        "failed to drain oversized frame: reset"
    );
}

#[test]
fn clients_send_detach_kill_and_resize() {
    let mut client = PtyHostClient::new(7);
    client.detach();
    client.on_resize(WindowSize { cols: 1, rows: 2, cell_width: 3, cell_height: 4 });
    client.framing_writer.write(b"x");
    client.kill();
    let sent = client.framing_writer.take();
    let mut reader = Cursor::new(&sent);
    assert_eq!(ClientMessage::decode_from(&mut reader), Ok(ClientMessage::Detach));
    assert_eq!(
        ClientMessage::decode_from(&mut reader),
        Ok(ClientMessage::Resize(WindowSize { cols: 1, rows: 2, cell_width: 3, cell_height: 4 }))
    );
    assert_eq!(ClientMessage::decode_from(&mut reader), Ok(ClientMessage::Data(b"x".to_vec())));
    assert_eq!(ClientMessage::decode_from(&mut reader), Ok(ClientMessage::Kill));
    assert_eq!(reader.remaining(), 0);
}

#[test]
fn live_messages_are_sorted() {
    let stream = frames(&[
        HostMessage::Data(b"a".to_vec()),
        HostMessage::ReplayDone,
        ready(PROTOCOL_VERSION),
        HostMessage::Snapshot(vec![9]),
        HostMessage::Data(b"b".to_vec()),
        HostMessage::ChildExit { raw_status: None },
        HostMessage::Error("evicted".to_string()),
        HostMessage::Data(b"never".to_vec()),
    ]);
    let mut data = Vec::new();
    let mut child = Vec::new();
    deframe_loop(&mut Cursor::new(&stream), &mut data, &mut child);
    assert_eq!(data, b"ab");
    assert_eq!(child, [0, 0, 0, 0, 0, 1, 0xff, 0xff, 0xff, 0xff]);
    assert!(matches!(deframe(Err(DecodeError::UnexpectedEof)), Deframed::Closed));
    assert!(matches!(deframe(Ok(HostMessage::ReplayDone)), Deframed::Ignored));
}

#[test]
fn child_events_are_read() {
    assert_eq!(
        next_child_event(Ok(vec![1, 0xff, 0xff, 0xff, 0xff])),
        Some(ChildEvent::Exited(Some(-1)))
    );
    assert_eq!(next_child_event(Ok(vec![0, 1, 0, 0, 0])), Some(ChildEvent::Exited(None)));
    assert_eq!(next_child_event(Ok(vec![1, 2])), None);
    let e = IoFault { kind: IoKind::WouldBlock, message: String::new() };
    assert_eq!(next_child_event(Err(e)), None);
}
