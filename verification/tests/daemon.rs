use pty_host::args::{
    choose_command, find_value, log_directory, log_file, next_arg, parse_session_args, Command,
    SessionArgs,
};
use pty_host::attach::{
    input_step, reader_loop, reader_step, terminal_size, InputStep, ReaderStep, DETACH_BYTE,
};
use pty_host::fault::{IoFault, IoKind};
use pty_host::ids::SessionId;
use pty_host::path::UnixPath;
use pty_host::processes::{
    assemble_infos, format_start, gather_pty_host_process_info, host_processes, list_line,
    pids_csv, read_process, read_processes,
};
use pty_host::protocol::{
    write_header, ClientMessage, Cursor, DecodeError, HostMessage, WindowSize, MAX_PAYLOAD_SIZE,
    PROTOCOL_VERSION,
};
use pty_host::sockets::{
    default_socket_dir, discover_sessions, reported_path, socket_path_for_session, stem_of_socket,
};
use pty_host::spawn::{host_args, host_binary, host_candidate, Environment, SpawnConfig};

const ID: &str = "550e8400-e29b-41d4-a716-446655440000";

fn strings(words: &[&str]) -> Vec<String> {
    words.iter().map(|w| w.to_string()).collect()
}

fn id() -> SessionId {
    SessionId::parse(ID).unwrap()
}

fn tmp() -> UnixPath {
    UnixPath::from_text("/tmp")
}

fn parse_error(words: &[&str]) -> String {
    parse_session_args(&strings(words), None, &tmp()).err().unwrap()
}

// ----- Session IDs and sockets ------------------------------------------

#[test]
fn ids_are_read_and_shown() {
    assert_eq!(id().bits, 0x550e8400_e29b_41d4_a716_446655440000);
    assert_eq!(id().text(), ID);
    for form in [
        "550e8400e29b41d4a716446655440000",
        "550E8400-E29B-41D4-A716-446655440000",
        "{550e8400-e29b-41d4-a716-446655440000}",
        "URN:uuid:550e8400-e29b-41d4-a716-446655440000",
    ] {
        assert_eq!(SessionId::parse(form), Ok(id()));
    }
    assert_eq!(SessionId { bits: 0 }.text(), "00000000-0000-0000-0000-000000000000");
    assert_eq!(SessionId { bits: u128::MAX }.text(), "ffffffff-ffff-ffff-ffff-ffffffffffff");
    for bad in ["", "nope", "550e8400-e29b-41d4-a716-44665544000", "550e8400_e29b-41d4-a716-446655440000"] {
        assert_eq!(
            SessionId::parse(bad),
            Err(uuid::Uuid::parse_str(bad).unwrap_err().to_string())
        );
    }
}

#[test]
fn socket_path_is_deterministic() {
    let id = SessionId::parse("550e8400-e29b-41d4-a716-446655440000").unwrap();
    let path = socket_path_for_session(&tmp(), &id);
    let text = String::from_utf8(path.bytes.clone()).unwrap();
    assert!(text.contains("pty-host"));
    assert!(text.ends_with("550e8400-e29b-41d4-a716-446655440000.sock"));
    assert_eq!(text, "/tmp/pty-host/550e8400-e29b-41d4-a716-446655440000.sock");
    assert_eq!(default_socket_dir(&UnixPath::from_text("/tmp/")).bytes, b"/tmp/pty-host");
}

#[test]
fn discover_sessions_returns_empty_for_missing_dir() {
    // A directory that does not exist has no files.
    let sessions = discover_sessions(&[]);
    assert!(sessions.is_empty());
}

#[test]
fn sessions_are_found_among_other_files() {
    let own = socket_path_for_session(&tmp(), &id());
    let files = [
        UnixPath::from_text("/tmp/pty-host/readme.txt"),
        own.clone(),
        UnixPath::from_text("/tmp/pty-host/not-an-id.sock"),
        UnixPath::from_text("/tmp/pty-host/.sock"),
        UnixPath { bytes: b"/tmp/pty-host/\xff.sock".to_vec() },
        UnixPath::from_text("/tmp/pty-host/550e8400e29b41d4a716446655440001.sock"),
    ];
    let found = discover_sessions(&files);
    assert_eq!(found.len(), 2);
    assert_eq!(found[0], (id(), own));
    assert_eq!(found[1].0.bits, id().bits + 1);
    assert_eq!(stem_of_socket(&files[2]), Some("not-an-id".to_string()));
    assert_eq!(stem_of_socket(&files[3]), None);
}

#[test]
fn reported_paths_are_trimmed() {
    assert_eq!(reported_path(" /tmp/a b.sock \r\n").bytes, b"/tmp/a b.sock");
    assert_eq!(reported_path("\u{2003}\n").bytes, b"");
}

#[test]
fn paths_have_names_stems_and_extensions() {
    let p = |s: &str| UnixPath::from_text(s);
    assert_eq!(p("/a/b.tar.gz").file_name(), Some(&b"b.tar.gz"[..]));
    assert_eq!(p("/a/b.tar.gz").file_stem(), Some(&b"b.tar"[..]));
    assert_eq!(p("/a/b.tar.gz").extension(), Some(&b"gz"[..]));
    assert_eq!(p("/a/.b").file_stem(), Some(&b".b"[..]));
    assert_eq!(p("/a/.b").extension(), None);
    assert_eq!(p("a.").extension(), Some(&b""[..]));
    assert_eq!(p("x//./").file_name(), Some(&b"x"[..]));
    assert_eq!(p("a/..").file_name(), None);
    assert_eq!(p("/").file_name(), None);
    assert_eq!(p("").file_name(), None);
    for s in ["/a/b.tar.gz", "/a/.b", "a.", "x//./", "a/..", "/", "", ".", "..a", "a/...", "./b"] {
        let std_path = std::path::Path::new(s);
        let text = |v: Option<&[u8]>| v.map(|b| String::from_utf8(b.to_vec()).unwrap());
        assert_eq!(text(p(s).file_name()), std_path.file_name().map(|o| o.to_str().unwrap().to_string()));
        assert_eq!(text(p(s).file_stem()), std_path.file_stem().map(|o| o.to_str().unwrap().to_string()));
        assert_eq!(text(p(s).extension()), std_path.extension().map(|o| o.to_str().unwrap().to_string()));
        for part in ["", "c", "/c", "c/"] {
            assert_eq!(
                String::from_utf8(p(s).join(part.as_bytes()).bytes).unwrap(),
                std_path.join(part).to_str().unwrap()
            );
        }
    }
}

// ----- Command lines -----------------------------------------------------

#[test]
fn commands_are_chosen_by_words() {
    let choose = |words: &[&str]| choose_command(&strings(words));
    assert!(matches!(choose(&["p", "--session", "-h"]), Command::Help));
    assert!(matches!(choose(&["p", "--list", "--help"]), Command::Help));
    assert!(matches!(choose(&["p", "--kill", "--list"]), Command::List));
    assert!(matches!(choose(&["p", "--kill", "x"]), Command::Kill(Some(id)) if id == "x"));
    assert!(matches!(choose(&["p", "--attach", "y", "--kill"]), Command::Kill(None)));
    assert!(matches!(choose(&["p", "--attach", "y"]), Command::Attach(Some(id)) if id == "y"));
    assert!(matches!(choose(&["p", "--attach"]), Command::Attach(None)));
    assert!(matches!(choose(&["p", "--session", ID]), Command::Run));
    assert!(matches!(choose(&[]), Command::Run));
}

#[test]
fn logs_go_by_the_session() {
    assert_eq!(log_directory(&tmp()).bytes, b"/tmp/zed-pty/logs");
    let file = log_file(&tmp(), &strings(&["p", "--session", "abc"])).unwrap();
    assert_eq!(file.bytes, b"/tmp/zed-pty/logs/abc.log");
    assert_eq!(log_file(&tmp(), &strings(&["p", "--list"])), None);
    assert_eq!(log_file(&tmp(), &strings(&["p", "--session"])), None);
    assert_eq!(find_value(&strings(&["a", "b", "a", "c"]), "a"), Some("b".to_string()));
}

#[test]
fn session_arguments_are_read() {
    let words = strings(&[
        "--session", ID, "--shell", "/bin/zsh", "--arg", "-l", "--arg", "-x", "--cwd",
        "/Users/me/project", "--env", "A=1=2", "--env", "B=", "--cols", "120", "--rows", "+40",
        "--scrollback", "5",
    ]);
    let c = parse_session_args(&words, Some("/bin/fish".to_string()), &tmp()).unwrap();
    assert_eq!(c.program, "/bin/zsh");
    assert_eq!(c.args, ["-l", "-x"]);
    assert_eq!(
        c.env,
        [("A".to_string(), "1=2".to_string()), ("B".to_string(), String::new())]
    );
    assert_eq!(c.working_directory, Some(UnixPath::from_text("/Users/me/project")));
    assert_eq!(
        c.initial_size,
        WindowSize { cols: 120, rows: 40, cell_width: 8, cell_height: 16 }
    );
    assert_eq!(c.socket_path, socket_path_for_session(&tmp(), &id()));
    assert_eq!(c.max_scrollback_lines, 5);
}

#[test]
fn session_arguments_have_defaults() {
    let c = parse_session_args(&strings(&["--session", ID]), None, &tmp()).unwrap();
    assert_eq!(c.program, "/bin/sh");
    assert_eq!((c.initial_size.cols, c.initial_size.rows), (80, 24));
    assert_eq!(c.max_scrollback_lines, 10_000);
    let words = strings(&["--socket", "rel.sock", "--session", ID]);
    let c = parse_session_args(&words, Some("/bin/fish".to_string()), &tmp()).unwrap();
    assert_eq!(c.program, "/bin/fish");
    assert_eq!(c.socket_path.bytes, b"rel.sock");
}

#[test]
fn bad_session_arguments_are_refused() {
    assert_eq!(parse_error(&[]), "--session <UUID> is required");
    assert_eq!(parse_error(&["--session"]), "--session requires a value");
    assert_eq!(parse_error(&["--verbose"]), "unknown argument: '--verbose'");
    assert_eq!(parse_error(&["--env", "AB"]), "--env value must be KEY=VALUE, got 'AB'");
    assert_eq!(parse_error(&["--cols", "65536"]), "invalid --cols value: '65536'");
    assert_eq!(parse_error(&["--cols", "-1"]), "invalid --cols value: '-1'");
    assert_eq!(parse_error(&["--rows", ""]), "invalid --rows value: ''");
    assert_eq!(parse_error(&["--rows", "+"]), "invalid --rows value: '+'");
    assert_eq!(
        parse_error(&["--scrollback", "18446744073709551616"]),
        "invalid --scrollback value: '18446744073709551616'"
    );
    let shown = uuid::Uuid::parse_str("xyz").unwrap_err();
    assert_eq!(
        parse_error(&["--session", "xyz"]),
        format!("invalid session UUID 'xyz': {shown}")
    );
}

#[test]
fn single_arguments_are_set() {
    let mut a = SessionArgs::new(None);
    assert_eq!(a.set_session("s", Ok(id())), Ok(()));
    assert_eq!(
        a.set_session("s", Err("odd".to_string())),
        Err("invalid session UUID 's': odd".to_string())
    );
    assert_eq!(a.set_flag("--cols", "65535".to_string()), Ok(()));
    assert_eq!(
        a.set_flag("--what", "x".to_string()),
        Err("unknown argument: '--what'".to_string())
    );
    let c = a.finish(&tmp()).unwrap();
    assert_eq!(c.initial_size.cols, 65535);
    let words = strings(&["--shell", "sh"]);
    let mut i = 0;
    assert_eq!(next_arg(&words, &mut i, "--shell"), Ok("sh".to_string()));
    assert_eq!(i, 1);
    assert_eq!(next_arg(&words, &mut i, "sh"), Err("sh requires a value".to_string()));
    assert_eq!(i, 2);
    assert_eq!(next_arg(&words, &mut i, "--env"), Err("--env requires a value".to_string()));
    assert_eq!(i, 3);
}

#[test]
fn hosts_read_back_what_they_are_asked_for() {
    let mut env = Environment::new();
    env.insert("K".to_string(), "1".to_string());
    env.insert("L".to_string(), "2".to_string());
    env.insert("K".to_string(), "3".to_string());
    assert_eq!(
        env.vars(),
        [("K".to_string(), "3".to_string()), ("L".to_string(), "2".to_string())]
    );
    let config = SpawnConfig {
        session_id: id(),
        shell_program: Some("/bin/zsh".to_string()),
        shell_args: strings(&["-l", "--list"]),
        working_directory: Some(UnixPath::from_text("/work")),
        env,
    };
    let words: Vec<String> = host_args(&config)
        .into_iter()
        .map(|b| String::from_utf8(b).unwrap())
        .collect();
    assert_eq!(
        words,
        [
            "--session", ID, "--shell", "/bin/zsh", "--arg", "-l", "--arg", "--list", "--cwd",
            "/work"
        ]
    );
    let mut line = vec!["pty-host".to_string()];
    line.extend(words.clone());
    // The word among the shell's arguments selects another command.
    assert!(matches!(choose_command(&line), Command::List));
    line.truncate(7);
    assert!(matches!(choose_command(&line), Command::Run));
    let c = parse_session_args(&words, None, &tmp()).unwrap();
    assert_eq!(c.program, "/bin/zsh");
    assert_eq!(c.args, ["-l", "--list"]);
    assert_eq!(c.working_directory, Some(UnixPath::from_text("/work")));
    assert_eq!(c.socket_path, socket_path_for_session(&tmp(), &id()));
    assert_eq!(host_candidate(&UnixPath::from_text("/opt/bin")).bytes, b"/opt/bin/pty-host");
    assert_eq!(host_binary(None).bytes, b"pty-host");
    assert_eq!(host_binary(Some(UnixPath::from_text("/x"))).bytes, b"/x");
}

// ----- Listing -----------------------------------------------------------

const PS: &str = "\
  PID                  STARTED COMMAND
    1 Mon  1 Jan 00:00:00 2026 /sbin/init
 1234 Mon 16 Mar 21:08:00 2026 /usr/bin/pty-host --session 550e8400-e29b-41d4-a716-446655440000 --cwd /work
 1300 Tue  3 Foo 01:02:03 2026 pty-host --session other\r
 1400 Tue  3 Dec 01:02:03 2026 grep pty-host --session
";

#[test]
fn processes_are_read_from_ps() {
    let ps = host_processes(PS.as_bytes());
    assert_eq!(ps, read_processes(PS));
    assert_eq!(ps.len(), 2);
    assert_eq!(ps[0].pid, "1234");
    assert_eq!(ps[0].session_id, ID);
    assert_eq!(ps[0].cwd.as_deref(), Some("/work"));
    assert_eq!(ps[0].started, "2026-03-16 21:08");
    assert_eq!(ps[1].session_id, "other");
    assert_eq!(ps[1].cwd, None);
    assert_eq!(ps[1].started, "2026-00-03 01:02");
    assert_eq!(pids_csv(&ps), "1234,1300");
    assert_eq!(pids_csv(&[]), "");
    let chars: Vec<char> = "1 a 2 Dec t y pty-host".chars().collect();
    assert_eq!(read_process(&chars), None);
    let fields = strings(&["1", "Mon", "7", "Dec", "10:00:00", "1999"]);
    assert_eq!(format_start(&fields), "1999-12-07 10:00");
    let fields = strings(&["1", "Mon", "17", "Jan", "9:0", "1999"]);
    assert_eq!(format_start(&fields), "1999-01-17 9:0");
}

#[test]
fn a_pid_counts_once() {
    let text = "7 a 1 Jan t y pty-host --session one\n7 a 1 Jan t y pty-host --session two\n";
    let ps = read_processes(text);
    assert_eq!(ps.len(), 1);
    assert_eq!(ps[0].session_id, "two");
}

#[test]
fn a_session_is_listed_once() {
    let text = "1234 Mon 16 Mar 21:08:00 2026 /bin/pty-host --session S1 --cwd /p\n";
    let ps = read_processes(text);
    let both = "p1234\nn/tmp/pty-host/S1.sock\nn/tmp/pty-host/S1.sock\n";
    let listener = "p1234\nn/tmp/pty-host/S1.sock\n";
    for (lsof, has_client) in [(both, true), (listener, false)] {
        let infos = gather_pty_host_process_info(&ps, Some(lsof.as_bytes()));
        assert_eq!(infos.len(), 1);
        assert_eq!(infos[0].0, "S1");
        assert_eq!(infos[0].1.cwd.as_deref(), Some("/p"));
        assert_eq!(infos[0].1.started.as_deref(), Some("2026-03-16 21:08"));
        assert_eq!(infos[0].1.has_client, has_client);
    }
    let text = "7 a 1 Jan t y pty-host --session one --cwd /a\n\
                8 a 1 Jan t y pty-host --session two\n\
                9 a 1 Jan t y pty-host --session one --cwd /b\n";
    let infos = assemble_infos(&read_processes(text), None);
    assert_eq!(infos.len(), 2);
    assert_eq!((infos[0].0.as_str(), infos[0].1.cwd.as_deref()), ("one", Some("/b")));
    assert_eq!((infos[1].0.as_str(), infos[1].1.cwd.as_deref()), ("two", None));
}

#[test]
fn valid_output_is_read_as_it_is() {
    let ps = host_processes("5 a 1 Jan t y pty-host --session ü --cwd /häuser\n".as_bytes());
    assert_eq!(ps.len(), 1);
    assert_eq!(ps[0].session_id, "ü");
    let lsof = "p5\nn/tmp/ü.sock\nn/tmp/ü.sock\n";
    let infos = gather_pty_host_process_info(&ps, Some(lsof.as_bytes()));
    assert_eq!(infos[0].1.cwd.as_deref(), Some("/häuser"));
    assert!(infos[0].1.has_client);
}

#[test]
fn output_that_is_not_utf8_is_read() {
    let mut bytes = PS.as_bytes().to_vec();
    bytes.extend_from_slice(b"9 a 1 Jan t y \xffpty-host --session z\n");
    assert_eq!(host_processes(&bytes).len(), 3);
}

#[test]
fn clients_are_counted_by_sockets() {
    let ps = read_processes(PS);
    let lsof = "p1234\nn/tmp/pty-host/x.sock\nn->0x1\nn/tmp/pty-host/x.sock\np1300\nn/a.sock\n";
    let infos = gather_pty_host_process_info(&ps, Some(lsof.as_bytes()));
    assert_eq!(infos, assemble_infos(&ps, Some(lsof)));
    assert_eq!(infos[0].0, ID);
    assert!(infos[0].1.has_client);
    assert!(!infos[1].1.has_client);
    assert!(!gather_pty_host_process_info(&ps, None)[0].1.has_client);
    // Names before any process do not count.
    let early = assemble_infos(&ps, Some("n/a.sock\nn/a.sock\n"));
    assert!(!early[0].1.has_client);

    assert_eq!(
        list_line(&id(), true, &infos),
        format!("attached\t{ID}\t2026-03-16 21:08\t/work")
    );
    let detached = assemble_infos(&ps, None);
    assert_eq!(
        list_line(&id(), true, &detached),
        format!("detached\t{ID}\t2026-03-16 21:08\t/work")
    );
    assert_eq!(list_line(&id(), false, &infos), format!("stale\t{ID}\t\t"));
    assert_eq!(list_line(&id(), true, &[]), format!("stale\t{ID}\t\t"));
}

// ----- Attaching ---------------------------------------------------------

#[test]
fn attached_terminal_shows_output_and_notes() {
    let mut stream = Vec::new();
    HostMessage::Ready { version: PROTOCOL_VERSION, pid: 5, cols: 1, rows: 1 }
        .encode_into(&mut stream);
    HostMessage::Snapshot(vec![1]).encode_into(&mut stream);
    HostMessage::Data(b"one ".to_vec()).encode_into(&mut stream);
    let n = MAX_PAYLOAD_SIZE + 1;
    write_header(&mut stream, 0x86, n);
    stream.extend_from_slice(&vec![0; n as usize]);
    HostMessage::Data(b"two".to_vec()).encode_into(&mut stream);
    HostMessage::ChildExit { raw_status: None }.encode_into(&mut stream);
    HostMessage::Data(b"three".to_vec()).encode_into(&mut stream);
    let mut out = Vec::new();
    let mut notes = Vec::new();
    reader_loop(&mut Cursor::new(&stream), &mut out, &mut notes);
    assert_eq!(out, b"one two");
    assert_eq!(
        notes,
        [
            "[pty-host: ready, pid=5]",
            "[pty-host: skipping oversized frame, 16777217 bytes]",
            "\r\n[pty-host: child exited, raw_status=-1]",
        ]
    );
}

#[test]
fn reader_steps_follow_messages_and_errors() {
    let text = |r| match reader_step(r) {
        ReaderStep::End(t) => t,
        _ => panic!("not the end"),
    };
    assert_eq!(
        text(Ok(HostMessage::Error("evicted".to_string()))),
        "\r\n[pty-host error: evicted]"
    );
    assert_eq!(
        text(Ok(HostMessage::ChildExit { raw_status: Some(256) })),
        "\r\n[pty-host: child exited, raw_status=256]"
    );
    let io = |kind| Err(DecodeError::Io(IoFault { kind, message: String::new() }));
    assert!(matches!(reader_step(io(IoKind::Interrupted)), ReaderStep::Ignore));
    assert!(matches!(reader_step(io(IoKind::WouldBlock)), ReaderStep::Ignore));
    assert!(matches!(reader_step(io(IoKind::ConnectionReset)), ReaderStep::Stop));
    assert!(matches!(reader_step(Err(DecodeError::UnexpectedEof)), ReaderStep::Stop));
    assert!(matches!(reader_step(Err(DecodeError::UnknownTag(1))), ReaderStep::Stop));
}

#[test]
fn keystrokes_are_sent_until_the_detach_key() {
    assert_eq!(DETACH_BYTE, 0x1d);
    assert!(matches!(
        input_step(Ok(b"ls\r".to_vec()), true),
        InputStep::Send(ClientMessage::Data(d)) if d == b"ls\r"
    ));
    assert!(matches!(
        input_step(Ok(vec![b'a', 0x1d, b'b']), true),
        InputStep::SendLast(ClientMessage::Detach)
    ));
    assert!(matches!(input_step(Ok(vec![b'a']), false), InputStep::Stop));
    assert!(matches!(input_step(Ok(vec![]), true), InputStep::Stop));
    let err = |kind| Err(IoFault { kind, message: String::new() });
    assert!(matches!(input_step(err(IoKind::Interrupted), true), InputStep::Again));
    assert!(matches!(input_step(err(IoKind::Interrupted), false), InputStep::Stop));
    assert!(matches!(input_step(err(IoKind::Other), true), InputStep::Stop));
}

#[test]
fn terminal_sizes_are_estimated() {
    assert_eq!(
        terminal_size(true, 80, 24, 640, 0),
        Some(WindowSize { cols: 80, rows: 24, cell_width: 8, cell_height: 16 })
    );
    assert_eq!(
        terminal_size(true, 100, 50, 999, 1000),
        Some(WindowSize { cols: 100, rows: 50, cell_width: 9, cell_height: 20 })
    );
    assert_eq!(terminal_size(false, 80, 24, 0, 0), None);
    assert_eq!(terminal_size(true, 0, 24, 0, 0), None);
    assert_eq!(terminal_size(true, 80, 0, 0, 0), None);
}
