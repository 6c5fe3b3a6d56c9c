use pty_host::config::SessionConfig;
use pty_host::fault::{would_block, IoFault, IoKind};
use pty_host::inbound::{
    read_client_bytes, ClientBuffer, ReadClientError, CLIENT_BUFFER_SIZE,
};
use pty_host::path::UnixPath;
use pty_host::protocol::{
    ClientMessage, DecodeError, HostMessage, WindowSize, HEADER_SIZE, MAX_PAYLOAD_SIZE,
    PROTOCOL_VERSION,
};
use pty_host::session::{
    ops_of, push_snapshot, retries_wait, source_of, Action, Interest, Op, Plan, Session, Source,
    EXIT_GRACE, HIGH_WATER, LOW_WATER,
};
use pty_host::shell::{
    build_shell_command, hushlogin_path, pixels_fit, to_winsize, MacLogin, PtySize, ShellCommand,
};

fn fault(kind: IoKind) -> IoFault {
    IoFault { kind, message: "failed".to_string() }
}

fn session() -> Session {
    Session::new(42, UnixPath::from_text("/tmp/s.sock"))
}

fn size() -> WindowSize {
    WindowSize { cols: 80, rows: 24, cell_width: 0, cell_height: 0 }
}

fn connected() -> Session {
    let mut s = session();
    s.on_accept(size(), b"");
    s
}

const READABLE: Interest = Interest { readable: true, writable: false };
const WRITABLE: Interest = Interest { readable: false, writable: true };
const ALL: Interest = Interest { readable: true, writable: true };
const NOTHING: Interest = Interest { readable: false, writable: false };

#[test]
fn buffer_holds_one_frame_of_the_largest_size() {
    assert_eq!(CLIENT_BUFFER_SIZE, HEADER_SIZE + MAX_PAYLOAD_SIZE as usize);
    assert_eq!(ClientBuffer::new().room(), CLIENT_BUFFER_SIZE);
}

#[test]
fn messages_come_out_wherever_the_bytes_are_cut() {
    let messages = vec![
        ClientMessage::Data(b"ls\r".to_vec()),
        ClientMessage::Detach,
        ClientMessage::Resize(size()),
        ClientMessage::Kill,
    ];
    let mut bytes = Vec::new();
    for m in &messages {
        m.encode_into(&mut bytes);
    }
    for cut in 1..bytes.len() {
        let mut buffer = ClientBuffer::new();
        let mut out = read_client_bytes(Ok(bytes[..cut].to_vec()), &mut buffer).unwrap();
        out.extend(read_client_bytes(Ok(bytes[cut..].to_vec()), &mut buffer).unwrap());
        assert_eq!(out, messages);
        assert_eq!(buffer.room(), CLIENT_BUFFER_SIZE);
    }
}

#[test]
fn read_errors_are_told_apart() {
    let mut b = ClientBuffer::new();
    assert_eq!(read_client_bytes(Ok(vec![]), &mut b), Err(ReadClientError::Disconnected));
    assert_eq!(read_client_bytes(Err(fault(IoKind::WouldBlock)), &mut b), Ok(vec![]));
    assert_eq!(
        read_client_bytes(Err(fault(IoKind::ConnectionReset)), &mut b),
        Err(ReadClientError::Disconnected)
    );
    assert_eq!(
        read_client_bytes(Err(fault(IoKind::Other)), &mut b),
        Err(ReadClientError::Io(fault(IoKind::Other)))
    );
    assert_eq!(
        read_client_bytes(Ok(vec![0x01, 0xff, 0xff, 0xff, 0xff]), &mut b),
        Err(ReadClientError::Protocol(DecodeError::PayloadTooLarge(u32::MAX)))
    );
    b.clear();
    let mut bytes = ClientMessage::Detach.encode();
    bytes.extend_from_slice(&[0x99, 0, 0, 0, 0]);
    assert_eq!(
        read_client_bytes(Ok(bytes), &mut b),
        Err(ReadClientError::Protocol(DecodeError::UnknownTag(0x99)))
    );
    assert_eq!(b.room(), CLIENT_BUFFER_SIZE - 10);
    assert!(would_block(&fault(IoKind::WouldBlock)));
    assert!(!would_block(&fault(IoKind::Interrupted)));
}

#[test]
fn events_lead_to_operations_in_order() {
    assert_eq!(source_of(0), Some(Source::Pty));
    assert_eq!(source_of(1), Some(Source::Client));
    assert_eq!(source_of(2), Some(Source::Child));
    assert_eq!(source_of(3), Some(Source::Listener));
    assert_eq!(source_of(4), None);
    assert_eq!(ops_of(Source::Pty), [Op::ReadPty, Op::WritePty]);
    assert_eq!(ops_of(Source::Client), [Op::WriteClient, Op::ReadClient]);
    assert_eq!(ops_of(Source::Child), [Op::ReapChild]);
    assert_eq!(ops_of(Source::Listener), [Op::Accept]);
    assert!(retries_wait(&fault(IoKind::Interrupted)));
    assert!(!retries_wait(&fault(IoKind::WouldBlock)));
    let s = session();
    assert!(s.wants(Op::ReadPty, true, false));
    assert!(!s.wants(Op::ReadPty, false, true));
    assert!(!s.wants(Op::WritePty, true, true));
    assert!(!s.wants(Op::ReadClient, true, true));
    assert!(connected().wants(Op::ReadClient, true, false));
    assert!(s.wants(Op::Accept, true, false) && s.wants(Op::ReapChild, true, false));
}

#[test]
fn a_new_client_is_greeted() {
    let mut s = session();
    assert_eq!(s.pid(), 42);
    assert_eq!(s.socket_path(), &UnixPath::from_text("/tmp/s.sock"));
    assert!(!s.has_client());
    let plan = s.on_accept(size(), b"state");
    assert!(s.has_client());
    assert_eq!(plan.evict, None);
    assert_eq!(plan.actions, []);
    assert!(plan.redraw);
    assert_eq!(
        plan.handshake,
        [
            HostMessage::Ready { version: PROTOCOL_VERSION, pid: 42, cols: 80, rows: 24 },
            HostMessage::Snapshot(b"state".to_vec()),
            HostMessage::ReplayDone,
        ]
    );
}

#[test]
fn a_second_client_evicts_the_first() {
    let mut s = connected();
    let plan = s.on_accept(size(), b"");
    let reason = HostMessage::Error("evicted: another client connected".to_string());
    assert_eq!(plan.evict, Some(reason.encode()));
    assert_eq!(plan.actions, []);
    assert_eq!(plan.handshake.len(), 2);
}

#[test]
fn unsent_output_goes_with_its_client() {
    let mut s = connected();
    s.on_pty_read(&Ok(b"x".to_vec()));
    let first = HostMessage::Data(b"x".to_vec()).encode();
    assert_eq!(s.on_client_written(Ok(3)), []);
    let plan = s.on_accept(size(), b"");
    // The old client gets the rest of its frame before it is told why it goes.
    let reason = HostMessage::Error("evicted: another client connected".to_string());
    let mut rest = first[3..].to_vec();
    rest.extend(reason.encode());
    assert_eq!(plan.evict, Some(rest));
    assert!(s.client_queue().is_empty());
    assert_eq!(
        s.on_pty_read(&Ok(b"y".to_vec())),
        [Action::FeedTerminal, Action::WatchClient(ALL)]
    );
    assert_eq!(s.client_queue(), HostMessage::Data(b"y".to_vec()).encode());
}

#[test]
fn a_new_client_ends_a_pause() {
    let mut s = connected();
    s.on_pty_read(&Ok(vec![0; HIGH_WATER]));
    assert_eq!(s.on_accept(size(), b"").actions, [Action::WatchPty(READABLE)]);
    assert_eq!(s.on_accept(size(), b"").actions, []);
    // Input that waits for the PTY goes on waiting.
    s.on_client_read(Ok(ClientMessage::Data(b"a".to_vec()).encode()));
    s.on_pty_read(&Ok(vec![0; HIGH_WATER]));
    assert_eq!(s.on_accept(size(), b"").actions, [Action::WatchPty(ALL)]);
    // The old client may also be lost just before the new one comes.
    s.on_pty_read(&Ok(vec![0; HIGH_WATER]));
    s.on_client_read(Ok(vec![]));
    let plan = s.on_accept(size(), b"");
    assert_eq!(plan.evict, None);
    assert_eq!(plan.actions, [Action::WatchPty(ALL)]);
    assert!(s.client_queue().is_empty());
    assert_eq!(s.on_turn_end(), []);
}

#[test]
fn a_late_client_is_told_of_the_exit() {
    let mut s = connected();
    assert_eq!(s.on_child_status(Ok(Some(256)), 7), [Action::WatchClient(ALL)]);
    assert!(!s.child_running());
    let plan = s.on_accept(size(), b"");
    assert!(!plan.redraw);
    assert_eq!(plan.handshake[2], HostMessage::ChildExit { raw_status: Some(256) });
}

#[test]
fn an_exit_waits_for_its_turn() {
    let mut s = connected();
    s.on_pty_read(&Ok(b"bye".to_vec()));
    let mut sent = s.client_queue()[..2].to_vec();
    s.on_client_written(Ok(2));
    assert_eq!(s.on_child_status(Ok(Some(9)), 1), [Action::WatchClient(ALL)]);
    assert!(s.wants(Op::WriteClient, false, true));
    sent.extend_from_slice(s.client_queue());
    let mut whole = HostMessage::Data(b"bye".to_vec()).encode();
    whole.extend(HostMessage::ChildExit { raw_status: Some(9) }.encode());
    assert_eq!(sent, whole);
}

#[test]
fn large_snapshots_are_sent_in_pieces() {
    let max = MAX_PAYLOAD_SIZE as usize;
    for (len, pieces) in [(0, 0), (1, 1), (max, 1), (max + 1, 2)] {
        let mut out = vec![HostMessage::ReplayDone];
        let snapshot: Vec<u8> = (0..len).map(|i| (i % 251) as u8).collect();
        push_snapshot(&mut out, &snapshot);
        assert_eq!(out.len(), 1 + pieces);
        let mut whole = Vec::new();
        for m in &out[1..] {
            match m {
                HostMessage::Snapshot(bytes) => whole.extend_from_slice(bytes),
                other => panic!("unexpected message: {other:?}"),
            }
        }
        assert!(whole == snapshot);
    }
}

#[test]
fn an_idle_session_waits_and_ends_after_exit() {
    let mut s = session();
    assert_eq!(s.plan(0), Plan::Wait(None));
    assert!(!s.timed_out(true));
    assert_eq!(s.on_child_status(Ok(None), 1), []);
    assert_eq!(s.on_child_status(Err(fault(IoKind::Other)), 1), []);
    assert!(s.child_running());
    assert_eq!(s.on_child_status(Ok(Some(0)), 5), []);
    assert_eq!(s.plan(5), Plan::Stop);
    assert!(s.timed_out(true));
    assert!(!s.timed_out(false));
    assert!(!s.wants(Op::ReadPty, true, true));
}

#[test]
fn a_client_may_stay_five_seconds_after_the_exit() {
    let mut s = connected();
    s.on_child_status(Ok(Some(0)), 100);
    assert_eq!(EXIT_GRACE, 5_000_000_000);
    assert_eq!(s.plan(100), Plan::Wait(Some(EXIT_GRACE)));
    assert_eq!(s.plan(99), Plan::Wait(Some(EXIT_GRACE)));
    assert_eq!(s.plan(101), Plan::Wait(Some(EXIT_GRACE - 1)));
    s.on_child_status(Ok(Some(0)), 3_000_000_000);
    assert_eq!(s.plan(100 + EXIT_GRACE - 1), Plan::Wait(Some(1)));
    assert_eq!(s.plan(100 + EXIT_GRACE), Plan::Stop);
}

#[test]
fn output_is_tracked_and_queued() {
    let mut s = session();
    assert_eq!(s.on_pty_read(&Ok(b"x".to_vec())), [Action::FeedTerminal]);
    assert!(s.client_queue().is_empty());
    let mut s = connected();
    assert_eq!(
        s.on_pty_read(&Ok(b"out".to_vec())),
        [Action::FeedTerminal, Action::WatchClient(ALL)]
    );
    assert_eq!(s.client_queue(), HostMessage::Data(b"out".to_vec()).encode());
    assert_eq!(s.on_pty_read(&Ok(vec![])), []);
    assert_eq!(s.on_pty_read(&Err(fault(IoKind::WouldBlock))), []);
    assert_eq!(s.on_pty_read(&Err(fault(IoKind::HungUp))), [Action::SkipEvent]);
    assert_eq!(s.on_pty_read(&Err(fault(IoKind::Other))), [Action::Stop]);
}

#[test]
fn reading_pauses_and_resumes_with_the_queue() {
    let mut s = connected();
    let almost = vec![0; HIGH_WATER - HEADER_SIZE - 1];
    assert_eq!(
        s.on_pty_read(&Ok(almost)),
        [Action::FeedTerminal, Action::WatchClient(ALL)]
    );
    assert_eq!(
        s.on_pty_read(&Ok(vec![1])),
        [Action::FeedTerminal, Action::WatchPty(NOTHING), Action::WatchClient(ALL)]
    );
    // Input while paused makes the PTY be watched for everything again.
    let typed = ClientMessage::Data(b"a".to_vec()).encode();
    assert_eq!(s.on_client_read(Ok(typed)), [Action::WatchPty(ALL)]);
    assert_eq!(s.on_pty_written(Ok(1)), [Action::WatchPty(NOTHING)]);
    let queued = s.client_queue().len();
    assert_eq!(s.on_client_written(Ok(queued - LOW_WATER)), []);
    assert_eq!(s.on_client_written(Ok(1)), [Action::WatchPty(READABLE)]);
    let queued = s.client_queue().len();
    assert_eq!(queued, LOW_WATER - 1);
    assert_eq!(s.on_client_written(Ok(queued)), [Action::WatchClient(READABLE)]);
    assert!(!s.wants(Op::WriteClient, true, true));
}

#[test]
fn pausing_keeps_pending_input_going() {
    let mut s = connected();
    s.on_client_read(Ok(ClientMessage::Data(b"a".to_vec()).encode()));
    assert_eq!(
        s.on_pty_read(&Ok(vec![0; HIGH_WATER])),
        [Action::FeedTerminal, Action::WatchPty(WRITABLE), Action::WatchClient(ALL)]
    );
    s.on_client_read(Err(fault(IoKind::ConnectionReset)));
    assert!(!s.has_client());
    assert_eq!(s.on_turn_end(), [Action::WatchPty(ALL)]);
    assert!(s.client_queue().is_empty());
    assert_eq!(s.pty_queue(), b"a");
}

#[test]
fn input_is_queued_in_order_and_written() {
    let mut s = connected();
    let mut bytes = ClientMessage::Data(b"one ".to_vec()).encode();
    ClientMessage::Data(vec![]).encode_into(&mut bytes);
    ClientMessage::Data(b"two".to_vec()).encode_into(&mut bytes);
    assert_eq!(s.on_client_read(Ok(bytes)), [Action::WatchPty(ALL)]);
    assert_eq!(s.pty_queue(), b"one two");
    assert!(s.wants(Op::WritePty, false, true));
    assert_eq!(s.on_pty_written(Ok(4)), []);
    assert_eq!(s.pty_queue(), b"two");
    assert_eq!(s.on_pty_written(Err(fault(IoKind::WouldBlock))), []);
    assert_eq!(s.on_pty_written(Ok(3)), [Action::WatchPty(READABLE)]);
    assert_eq!(s.on_pty_written(Err(fault(IoKind::Other))), [Action::Stop]);
}

#[test]
fn messages_after_detach_still_count() {
    let mut s = connected();
    let wanted = WindowSize { cols: 120, rows: 40, cell_width: 8, cell_height: 16 };
    let mut bytes = ClientMessage::Detach.encode();
    ClientMessage::Resize(wanted).encode_into(&mut bytes);
    ClientMessage::Detach.encode_into(&mut bytes);
    assert_eq!(
        s.on_client_read(Ok(bytes)),
        [Action::DropClient, Action::Resize(wanted)]
    );
    assert!(!s.has_client());
    assert_eq!(s.plan(0), Plan::Wait(None));
}

#[test]
fn kill_ends_the_session() {
    let mut s = connected();
    let mut bytes = ClientMessage::Kill.encode();
    ClientMessage::Data(b"late".to_vec()).encode_into(&mut bytes);
    assert_eq!(
        s.on_client_read(Ok(bytes)),
        [Action::HangUpChild, Action::DropClient, Action::Stop]
    );
    assert!(s.pty_queue().is_empty());
}

#[test]
fn losing_the_client_keeps_the_session() {
    for read in [
        Ok(vec![]),
        Ok(vec![0x77, 0, 0, 0, 0]),
        Err(fault(IoKind::ConnectionReset)),
        Err(fault(IoKind::Other)),
    ] {
        let mut s = connected();
        assert_eq!(s.on_client_read(read), [Action::DropClient]);
        assert_eq!(s.plan(0), Plan::Wait(None));
        assert_eq!(s.on_turn_end(), []);
    }
    for written in [Ok(0), Err(fault(IoKind::Other))] {
        let mut s = connected();
        s.on_pty_read(&Ok(b"x".to_vec()));
        assert_eq!(s.on_client_written(written), [Action::DropClient]);
        assert!(s.client_queue().is_empty());
    }
    let mut s = connected();
    s.on_pty_read(&Ok(b"x".to_vec()));
    assert_eq!(s.on_client_written(Err(fault(IoKind::WouldBlock))), []);
    assert!(s.has_client());
    assert_eq!(s.client_room(), CLIENT_BUFFER_SIZE);
}

#[test]
fn default_configuration() {
    let c = SessionConfig::default_for(None);
    assert_eq!(c.program, "/bin/sh");
    assert_eq!(c.max_scrollback_lines, 10_000);
    assert_eq!(
        c.initial_size,
        WindowSize { cols: 80, rows: 24, cell_width: 8, cell_height: 16 }
    );
    assert!(c.args.is_empty() && c.env.is_empty() && c.working_directory.is_none());
    assert_eq!(SessionConfig::default_for(Some("/bin/zsh".to_string())).program, "/bin/zsh");
}

#[test]
fn shells_run_as_login_shells() {
    assert_eq!(
        build_shell_command("/usr/bin/fish", &[], None),
        ShellCommand {
            program: "/usr/bin/fish".to_string(),
            args: vec![],
            arg0: Some("-fish".to_string()),
        }
    );
    assert_eq!(build_shell_command("sh", &[], None).arg0, Some("-sh".to_string()));
    let args = vec!["-c".to_string(), "exit".to_string()];
    assert_eq!(
        build_shell_command("/bin/sh", &args, None),
        ShellCommand { program: "/bin/sh".to_string(), args, arg0: None }
    );
    let login = MacLogin { user: Some("me".to_string()), hushlogin: true };
    let cmd = build_shell_command("/bin/zsh", &[], Some(login));
    assert_eq!(cmd.program, "/usr/bin/login");
    assert_eq!(cmd.args, ["-qflp", "me", "/bin/zsh", "-fc", "exec -a -zsh /bin/zsh"]);
    let login = MacLogin { user: None, hushlogin: false };
    let cmd = build_shell_command("/bin/zsh", &[], Some(login));
    assert_eq!(cmd.args[..2], ["-flp", "unknown"]);
    assert_eq!(hushlogin_path(Some("/home/me")).bytes, b"/home/me/.hushlogin");
    assert_eq!(hushlogin_path(None).bytes, b"/.hushlogin");
}

#[test]
fn pty_sizes_count_pixels() {
    let window = WindowSize { cols: 80, rows: 24, cell_width: 8, cell_height: 16 };
    assert!(pixels_fit(&window));
    assert_eq!(to_winsize(&window), PtySize { rows: 24, cols: 80, xpixel: 640, ypixel: 384 });
    assert!(pixels_fit(&WindowSize { cols: 255, rows: 1, cell_width: 257, cell_height: 1 }));
    assert!(!pixels_fit(&WindowSize { cols: 256, rows: 1, cell_width: 256, cell_height: 1 }));
    assert!(!pixels_fit(&WindowSize { cols: 1, rows: 65535, cell_width: 1, cell_height: 2 }));
    let huge = WindowSize { cols: 257, rows: 65535, cell_width: 256, cell_height: 2 };
    assert_eq!(
        to_winsize(&huge),
        PtySize { rows: 65535, cols: 257, xpixel: 256, ypixel: 65534 }
    );
}
