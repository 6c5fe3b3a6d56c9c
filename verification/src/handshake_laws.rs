//! What holds of the client's handshake, of what it sends and of what it is told.

use vstd::prelude::*;

use crate::client;
use crate::client::{
    deframe_loop, next_child_event, ChildEvent, ConnectError, ConnectErrorView, ConnectResult,
    FramingWriter, Handshake, HandshakeStep, HandshakeStepView, HandshakeView, HostInfo,
    PtyHostClient, ReportKind,
};
use crate::client_laws;
use crate::fault::IoFault;
use crate::protocol;
use crate::protocol::{
    ClientMessage, ClientMessageView, Cursor, DecodeErrorView, HostMessageView, WindowSize,
};
use crate::session;
use crate::session::SessionView;
use crate::text;

verus! {

// ---------------------------------------------------------------------------
// The handshake
// ---------------------------------------------------------------------------

/// A client that connects gets back the child, the size of the terminal and its
/// state, byte for byte; nothing is to be sent yet; and what the host sends after
/// the greeting is left to be read.
pub proof fn law_connecting(
    reader: &mut Cursor,
    r: Result<ConnectResult, ConnectError>,
    s: SessionView,
    size: WindowSize,
    snapshot: Seq<u8>,
    live: Seq<u8>,
)
    requires
        call_ensures(PtyHostClient::connect, (reader,), r),
        s.exited_at is None,
        old(reader).rest() == client_laws::host_wires(session::handshake(s, size, snapshot)) + live,
    ensures
        r matches Ok(c) && c.pid == s.pid && c.cols == size.cols && c.rows == size.rows
            && c.snapshot_data@ == snapshot && c.client@.pid == s.pid && c.client@.outgoing.len()
            == 0,
        final(reader).rest() == live,
{
    client_laws::law_connecting_restores_the_session(s, size, snapshot, live);
}

/// A connection starts with READY of the client's own version, and with nothing
/// else: another version, an error of the host, another message and a stream that
/// cannot be read are each refused for what they are.
pub proof fn law_how_connections_start(m: HostMessageView, rest: Seq<u8>, e: DecodeErrorView)
    requires
        m.payload().len() <= 16 * 1024 * 1024,
    ensures
        ({
            let outcome = client::connected(client::unconnected(), m.wire() + rest).0;
            &&& m matches HostMessageView::Ready { version, .. } ==> version != 4 ==> outcome
                == Err::<HandshakeView, ConnectErrorView>(
                ConnectErrorView::VersionMismatch(version),
            )
            &&& m matches HostMessageView::Error(text) ==> outcome == Err::<
                HandshakeView,
                ConnectErrorView,
            >(ConnectErrorView::HostError(text))
            &&& !(m is Ready) && !(m is Error) ==> outcome == Err::<
                HandshakeView,
                ConnectErrorView,
            >(ConnectErrorView::ExpectedReady(m))
        }),
        client::unconnected().after(Err(e)).1 == HandshakeStepView::Fail(
            ConnectErrorView::BadReady(e),
        ),
{
    protocol::law_host_message_round_trips(m, rest);
}

/// READY of the client's own version tells the client its host: the child, and
/// the size of the terminal.
pub proof fn law_ready_tells_the_host(pid: u32, cols: u16, rows: u16, rest: Seq<u8>)
    ensures
        client::connected(
            client::unconnected(),
            (HostMessageView::Ready { version: 4, pid, cols, rows }).wire() + rest,
        ) == client::connected(
            (HandshakeView { host: Some(HostInfo { pid, cols, rows }), snapshot: seq![] }),
            rest,
        ),
{
    protocol::law_host_message_round_trips(
        HostMessageView::Ready { version: 4, pid, cols, rows },
        rest,
    );
}

/// A replay is the bytes of all SNAPSHOT and DATA messages up to the first other
/// message, which ends it, as the end of the stream does; what is left of the
/// stream is what follows. A frame that cannot be read is an error.
pub proof fn law_what_replays_are(
    host: HostInfo,
    so_far: Seq<u8>,
    m: HostMessageView,
    rest: Seq<u8>,
    bad: Seq<u8>,
    e: DecodeErrorView,
)
    requires
        m.payload().len() <= 16 * 1024 * 1024,
        protocol::first_host_message(bad) == Err::<HostMessageView, DecodeErrorView>(e),
        !(e is PayloadTooLarge),
    ensures
        ({
            let h = HandshakeView { host: Some(host), snapshot: so_far };
            let outcome = client::connected(h, m.wire() + rest);
            &&& m matches HostMessageView::Snapshot(bytes) ==> outcome == client::connected(
                HandshakeView { host: Some(host), snapshot: so_far + bytes },
                rest,
            )
            &&& m matches HostMessageView::Data(bytes) ==> outcome == client::connected(
                HandshakeView { host: Some(host), snapshot: so_far + bytes },
                rest,
            )
            &&& !(m is Snapshot) && !(m is Data) ==> outcome == (
                Ok::<HandshakeView, ConnectErrorView>(h),
                rest,
            )
            &&& e is UnexpectedEof ==> client::connected(h, bad).0 == Ok::<
                HandshakeView,
                ConnectErrorView,
            >(h)
            &&& !(e is UnexpectedEof) ==> client::connected(h, bad).0 == Err::<
                HandshakeView,
                ConnectErrorView,
            >(ConnectErrorView::Replay(e))
        }),
{
    protocol::law_host_message_round_trips(m, rest);
}

/// A handshake that is over gives a client of the host it came to know, with
/// nothing to send yet; one that never came to know a host gives none. Bytes that
/// cannot be skipped end it.
pub proof fn law_handshakes_give_clients(
    h: Handshake,
    result: Option<ConnectResult>,
    r: Result<(), IoFault>,
    step: HandshakeStep,
)
    requires
        call_ensures(Handshake::finish, (h,), result),
        call_ensures(Handshake::skipped, (&h, r), step),
    ensures
        result is Some <==> h@.host is Some,
        result matches Some(c) ==> {
            &&& h@.host matches Some(host) && c.pid == host.pid && c.cols == host.cols && c.rows
                == host.rows
            &&& c.snapshot_data@ == h@.snapshot
            &&& c.client@.pid == c.pid
            &&& c.client@.outgoing.len() == 0
        },
        r is Ok ==> step is Read,
        r matches Err(e) ==> step@ == HandshakeStepView::Fail(ConnectErrorView::Drain(e@)),
{
}

/// Why no connection came about is shown by what went wrong; a host's own error
/// counts as a refusal, and anything else as bad data; and a host of another
/// version, and no other, is told to end its session.
pub proof fn law_refused_connections(
    e: ConnectError,
    t: String,
    kind: ReportKind,
    reply: Option<ClientMessage>,
)
    requires
        call_ensures(ConnectError::text, (&e,), t),
        call_ensures(ConnectError::report_kind, (&e,), kind),
        call_ensures(ConnectError::reply, (&e,), reply),
    ensures
        kind is ConnectionRefused <==> e is HostError,
        kind is InvalidData <==> !(e is HostError),
        reply is Some <==> e is VersionMismatch,
        reply matches Some(m) ==> m is Kill,
        e matches ConnectError::BadReady(d) ==> t@ == "failed to read READY: "@ + d@.text(),
        e matches ConnectError::HostError(msg) ==> t@ == "host error: "@ + msg@,
        e matches ConnectError::Drain(f) ==> t@ == "failed to drain oversized frame: "@
            + f.message@,
        e matches ConnectError::Replay(d) ==> t@ == "error reading replay: "@ + d@.text(),
        e matches ConnectError::ExpectedReady(m) ==> t@ == "expected READY, got "@
            + client::shown(m@),
        e matches ConnectError::VersionMismatch(version) ==> t@
            == "pty-host version mismatch (host="@ + text::decimal(version as nat) + ", client="@
            + text::decimal(4) + "): killed stale host, caller should respawn"@,
{
}

/// A message is shown by its name and what it holds: bytes as numbers in square
/// brackets with commas between them, and numbers in decimal.
pub proof fn law_how_messages_are_shown(m: HostMessageView, bytes: Seq<u8>, b: u8)
    ensures
        m matches HostMessageView::Data(d) ==> client::shown(m) == "Data(["@ + client::shown_items(
            d,
        ) + "])"@,
        m matches HostMessageView::Snapshot(d) ==> client::shown(m) == "Snapshot(["@
            + client::shown_items(d) + "])"@,
        m matches HostMessageView::ChildExit(Some(n)) ==> client::shown(m)
            == "ChildExit { raw_status: Some("@ + text::signed_decimal(n as int) + ") }"@,
        m matches HostMessageView::ChildExit(None) ==> client::shown(m)
            == "ChildExit { raw_status: None }"@,
        m matches HostMessageView::ReplayDone ==> client::shown(m) == "ReplayDone"@,
        m matches HostMessageView::Ready { version, pid, cols, rows } ==> client::shown(m)
            == "Ready { version: "@ + text::decimal(version as nat) + ", pid: "@ + text::decimal(
            pid as nat,
        ) + ", cols: "@ + text::decimal(cols as nat) + ", rows: "@ + text::decimal(rows as nat)
            + " }"@,
        client::shown_items(seq![]) == Seq::<char>::empty(),
        client::shown_items(seq![b]) == text::decimal(b as nat),
        bytes.len() > 0 ==> client::shown_items(bytes.push(b)) == client::shown_items(bytes)
            + seq![',', ' '] + text::decimal(b as nat),
{
    reveal_strlit("Data([");
    reveal_strlit("Data(");
    reveal_strlit("Snapshot([");
    reveal_strlit("Snapshot(");
    reveal_strlit("])");
    reveal_strlit(")");
    reveal_strlit(", ");
    assert(", "@ =~= seq![',', ' ']);
    assert(bytes.push(b).drop_last() =~= bytes);
    match m {
        HostMessageView::Data(d) => {
            assert(client::shown(m) =~= "Data(["@ + client::shown_items(d) + "])"@);
        },
        HostMessageView::Snapshot(d) => {
            assert(client::shown(m) =~= "Snapshot(["@ + client::shown_items(d) + "])"@);
        },
        _ => {},
    }
}

// ---------------------------------------------------------------------------
// Sending
// ---------------------------------------------------------------------------

/// What is written is taken as a whole: it goes out as one DATA message behind
/// what is to go out already, and nothing goes out where nothing is written.
pub proof fn law_writes_are_framed(w: &mut FramingWriter, buf: &[u8], n: usize)
    requires
        call_ensures(FramingWriter::write, (w, buf), n),
    ensures
        n == buf@.len(),
        buf@.len() > 0 ==> final(w)@ == old(w)@ + ClientMessageView::Data(buf@).wire(),
        buf@.len() == 0 ==> final(w)@ == old(w)@,
{
}

/// What is to go out is taken once, in full.
pub proof fn law_outgoing_bytes_are_taken_once(w: &mut FramingWriter, bytes: Vec<u8>)
    requires
        call_ensures(FramingWriter::take, (w,), bytes),
    ensures
        bytes@ == old(w)@,
        final(w)@.len() == 0,
{
}

/// A client asks with one message each: to detach with DETACH, to end the session
/// with KILL, to resize with RESIZE of just that size.
pub proof fn law_what_clients_ask_for(
    a: &mut PtyHostClient,
    b: &mut PtyHostClient,
    c: &mut PtyHostClient,
    size: WindowSize,
)
    requires
        call_ensures(PtyHostClient::detach, (a,), ()),
        call_ensures(PtyHostClient::kill, (b,), ()),
        call_ensures(PtyHostClient::on_resize, (c, size), ()),
    ensures
        final(a)@.outgoing == old(a)@.outgoing + ClientMessageView::Detach.wire(),
        final(b)@.outgoing == old(b)@.outgoing + ClientMessageView::Kill.wire(),
        final(c)@.outgoing == old(c)@.outgoing + ClientMessageView::Resize(size).wire(),
        final(a)@.pid == old(a)@.pid,
        final(b)@.pid == old(b)@.pid,
        final(c)@.pid == old(c)@.pid,
{
}

// ---------------------------------------------------------------------------
// Live messages
// ---------------------------------------------------------------------------

/// A child event is read in one piece of five bytes, and says what was written of
/// the exit; anything else is no event.
pub proof fn law_child_events(
    raw_status: Option<i32>,
    read: Result<Vec<u8>, IoFault>,
    event: Option<ChildEvent>,
)
    requires
        call_ensures(next_child_event, (read,), event),
    ensures
        event is Some <==> (read matches Ok(bytes) && bytes@.len() == 5),
        (read matches Ok(bytes) && bytes@ == protocol::status_bytes(raw_status)) ==> event == Some(
            ChildEvent::Exited(raw_status),
        ),
{
    protocol::law_status_round_trips(raw_status);
    assert(protocol::status_bytes(raw_status).len() == 5);
}

/// What a host sends live reaches its readers behind what they have already: the
/// output of the terminal and the exits of the child, each in order.
pub proof fn law_live_streams_reach_their_readers(
    reader: &mut Cursor,
    data: &mut Vec<u8>,
    child: &mut Vec<u8>,
    ms: Seq<HostMessageView>,
)
    requires
        call_ensures(deframe_loop, (reader, data, child), ()),
        old(reader).rest() == client_laws::host_wires(ms),
        client_laws::all_fit(ms),
        client_laws::no_error(ms),
    ensures
        final(data)@ == old(data)@ + client_laws::output_of(ms),
        final(child)@ == old(child)@ + client_laws::events_of(ms),
{
    client_laws::law_live_messages_arrive(ms, seq![]);
    assert(client_laws::host_wires(ms) + Seq::<u8>::empty() =~= client_laws::host_wires(ms));
    assert(client::deframed(seq![]) == (Seq::<u8>::empty(), Seq::<u8>::empty()));
    assert(client_laws::output_of(ms) + Seq::<u8>::empty() =~= client_laws::output_of(ms));
    assert(client_laws::events_of(ms) + Seq::<u8>::empty() =~= client_laws::events_of(ms));
}

/// Of a live stream, output comes of DATA and of nothing else, and child events of
/// exits and of errors of the host; an error is the last thing that comes, and so
/// is a frame that cannot be read.
pub proof fn law_what_live_messages_bring(m: HostMessageView, rest: Seq<u8>, bad: Seq<u8>)
    requires
        m.payload().len() <= 16 * 1024 * 1024,
        protocol::first_host_message(bad) is Err,
    ensures
        ({
            let (output, events) = client::deframed(m.wire() + rest);
            let (later, others) = client::deframed(rest);
            &&& m matches HostMessageView::Data(bytes) ==> output == bytes + later && events
                == others
            &&& m matches HostMessageView::ChildExit(raw) ==> output == later && events
                == protocol::status_bytes(raw) + others
            &&& m is Error ==> output.len() == 0 && events == protocol::status_bytes(Some(-1i32))
            &&& !(m is Data) && !(m is ChildExit) && !(m is Error) ==> output == later && events
                == others
        }),
        client::deframed(bad) == (Seq::<u8>::empty(), Seq::<u8>::empty()),
{
    protocol::law_host_message_round_trips(m, rest);
    assert(protocol::status_bytes(Some(-1i32)) =~= client::error_event());
}

} // verus!
