//! The client's side of a connection to a session.
//!
//! A connection starts with a handshake: the host says READY, replays the
//! terminal state as SNAPSHOT messages and ends the replay with REPLAY_DONE.
//! From then on the connection is live: DATA carries terminal output, CHILD_EXIT
//! the end of the child. Raw terminal bytes and child events reach their readers
//! through two byte streams of their own.

use vstd::prelude::*;
use vstd::slice::*;
use vstd::string::*;

use crate::bytes::push_bytes;
use crate::fault::{IoFault, IoFaultView};
use crate::protocol;
use crate::protocol::{
    parse_status, push_status, send_client_message, ClientMessage, ClientMessageView, Cursor,
    DecodeError, DecodeErrorView, HostMessage, HostMessageView, WindowSize, PROTOCOL_VERSION,
};
use crate::text;
use crate::text::{copy_text, push_decimal, push_signed};

verus! {

// ---------------------------------------------------------------------------
// Connecting
// ---------------------------------------------------------------------------

/// Why no connection came about.
pub enum ConnectError {
    /// The first message could not be read.
    BadReady(DecodeError),
    /// The host refused the connection.
    HostError(String),
    /// The first message was another one than READY.
    ExpectedReady(HostMessage),
    /// The host speaks this other version of the protocol.
    VersionMismatch(u32),
    /// The payload of an oversized frame could not be skipped.
    Drain(IoFault),
    /// A replay message could not be read.
    Replay(DecodeError),
}

/// What a [`ConnectError`] says.
#[verifier::ext_equal]
pub enum ConnectErrorView {
    BadReady(DecodeErrorView),
    HostError(Seq<char>),
    ExpectedReady(HostMessageView),
    VersionMismatch(u32),
    Drain(IoFaultView),
    Replay(DecodeErrorView),
}

impl View for ConnectError {
    type V = ConnectErrorView;

    open spec fn view(&self) -> ConnectErrorView {
        match self {
            ConnectError::BadReady(e) => ConnectErrorView::BadReady(e@),
            ConnectError::HostError(msg) => ConnectErrorView::HostError(msg@),
            ConnectError::ExpectedReady(m) => ConnectErrorView::ExpectedReady(m@),
            ConnectError::VersionMismatch(version) => ConnectErrorView::VersionMismatch(*version),
            ConnectError::Drain(e) => ConnectErrorView::Drain(e@),
            ConnectError::Replay(e) => ConnectErrorView::Replay(e@),
        }
    }
}

/// The kind of I/O error that a [`ConnectError`] is reported as.
#[derive(Debug, Clone, Copy, PartialEq, Eq, Structural)]
pub enum ReportKind {
    InvalidData,
    ConnectionRefused,
}

/// A list of bytes as it is shown: decimal numbers in square brackets.
pub open spec fn shown_bytes(bytes: Seq<u8>) -> Seq<char> {
    seq!['['] + shown_items(bytes) + seq![']']
}

/// The numbers of a list of bytes, separated by commas.
pub open spec fn shown_items(bytes: Seq<u8>) -> Seq<char>
    decreases bytes.len(),
{
    if bytes.len() == 0 {
        seq![]
    } else if bytes.len() == 1 {
        text::decimal(bytes[0] as nat)
    } else {
        shown_items(bytes.drop_last()) + ", "@ + text::decimal(bytes.last() as nat)
    }
}

/// How a message is shown; of an ERROR only that it is one.
pub open spec fn shown(m: HostMessageView) -> Seq<char> {
    match m {
        HostMessageView::Data(bytes) => "Data("@ + shown_bytes(bytes) + ")"@,
        HostMessageView::Snapshot(bytes) => "Snapshot("@ + shown_bytes(bytes) + ")"@,
        HostMessageView::ChildExit(Some(status)) => "ChildExit { raw_status: Some("@
            + text::signed_decimal(status as int) + ") }"@,
        HostMessageView::ChildExit(None) => "ChildExit { raw_status: None }"@,
        HostMessageView::Ready { version, pid, cols, rows } => "Ready { version: "@ + text::decimal(
            version as nat,
        ) + ", pid: "@ + text::decimal(pid as nat) + ", cols: "@ + text::decimal(cols as nat)
            + ", rows: "@ + text::decimal(rows as nat) + " }"@,
        HostMessageView::ReplayDone => "ReplayDone"@,
        HostMessageView::Error(_) => "Error"@,
    }
}

impl ConnectErrorView {
    /// How this error is shown.
    pub open spec fn text(self) -> Seq<char> {
        match self {
            ConnectErrorView::BadReady(e) => "failed to read READY: "@ + e.text(),
            ConnectErrorView::HostError(msg) => "host error: "@ + msg,
            ConnectErrorView::ExpectedReady(m) => "expected READY, got "@ + shown(m),
            ConnectErrorView::VersionMismatch(version) => "pty-host version mismatch (host="@
                + text::decimal(version as nat) + ", client="@ + text::decimal(
                PROTOCOL_VERSION as nat,
            ) + "): killed stale host, caller should respawn"@,
            ConnectErrorView::Drain(e) => "failed to drain oversized frame: "@ + e.message,
            ConnectErrorView::Replay(e) => "error reading replay: "@ + e.text(),
        }
    }
}

fn push_shown_bytes(t: &mut String, bytes: &[u8])
    ensures
        final(t)@ == old(t)@ + shown_bytes(bytes@),
{
    let ghost before = t@;
    t.push('[');
    let mut i: usize = 0;
    assert(bytes@.take(0) =~= Seq::<u8>::empty());
    assert(t@ =~= before + seq!['['] + shown_items(bytes@.take(0)));
    while i < bytes.len()
        invariant
            i <= bytes@.len(),
            t@ == before + seq!['['] + shown_items(bytes@.take(i as int)),
        decreases bytes@.len() - i,
    {
        let ghost head = bytes@.take(i as int);
        let ghost next = bytes@.take(i + 1);
        assert(next.drop_last() =~= head);
        if i > 0 {
            t.append(", ");
        } else {
            assert(head =~= Seq::<u8>::empty());
        }
        push_decimal(t, bytes[i] as u64);
        assert(t@ =~= before + seq!['['] + shown_items(next));
        i = i + 1;
    }
    assert(bytes@.take(i as int) =~= bytes@);
    t.push(']');
    assert(t@ =~= before + shown_bytes(bytes@));
}

fn push_shown(t: &mut String, m: &HostMessage)
    ensures
        final(t)@ == old(t)@ + shown(m@),
{
    let ghost before = t@;
    match m {
        HostMessage::Data(bytes) => {
            t.append("Data(");
            push_shown_bytes(t, bytes.as_slice());
            t.append(")");
        },
        HostMessage::Snapshot(bytes) => {
            t.append("Snapshot(");
            push_shown_bytes(t, bytes.as_slice());
            t.append(")");
        },
        HostMessage::ChildExit { raw_status } => {
            match raw_status {
                Some(status) => {
                    t.append("ChildExit { raw_status: Some(");
                    push_signed(t, *status);
                    t.append(") }");
                },
                None => {
                    t.append("ChildExit { raw_status: None }");
                },
            }
        },
        HostMessage::Ready { version, pid, cols, rows } => {
            t.append("Ready { version: ");
            push_decimal(t, *version as u64);
            t.append(", pid: ");
            push_decimal(t, *pid as u64);
            t.append(", cols: ");
            push_decimal(t, *cols as u64);
            t.append(", rows: ");
            push_decimal(t, *rows as u64);
            t.append(" }");
        },
        HostMessage::ReplayDone => {
            t.append("ReplayDone");
        },
        HostMessage::Error(_) => {
            t.append("Error");
        },
    }
    assert(t@ =~= before + shown(m@));
}

impl ConnectError {
    /// How this error is shown.
    pub fn text(&self) -> (t: String)
        ensures
            t@ == self@.text(),
    {
        match self {
            ConnectError::BadReady(e) => {
                let mut t: String = copy_text("failed to read READY: ");
                t.append(e.text().as_str());
                t
            },
            ConnectError::HostError(msg) => {
                let mut t: String = copy_text("host error: ");
                t.append(msg.as_str());
                t
            },
            ConnectError::ExpectedReady(m) => {
                let mut t: String = copy_text("expected READY, got ");
                push_shown(&mut t, m);
                t
            },
            ConnectError::VersionMismatch(version) => {
                let mut t: String = copy_text("pty-host version mismatch (host=");
                push_decimal(&mut t, *version as u64);
                t.append(", client=");
                push_decimal(&mut t, PROTOCOL_VERSION as u64);
                t.append("): killed stale host, caller should respawn");
                t
            },
            ConnectError::Drain(e) => {
                let mut t: String = copy_text("failed to drain oversized frame: ");
                t.append(e.message.as_str());
                t
            },
            ConnectError::Replay(e) => {
                let mut t: String = copy_text("error reading replay: ");
                t.append(e.text().as_str());
                t
            },
        }
    }

    /// The kind of I/O error that this is reported as.
    pub fn report_kind(&self) -> (kind: ReportKind)
        ensures
            kind == if self@ is HostError {
                ReportKind::ConnectionRefused
            } else {
                ReportKind::InvalidData
            },
    {
        match self {
            ConnectError::HostError(_) => ReportKind::ConnectionRefused,
            _ => ReportKind::InvalidData,
        }
    }

    /// What the host is told before the connection is given up: one that speaks
    /// another version is told to end its session.
    pub fn reply(&self) -> (message: Option<ClientMessage>)
        ensures
            match message {
                Some(m) => self@ is VersionMismatch && m@ == ClientMessageView::Kill,
                None => !(self@ is VersionMismatch),
            },
    {
        match self {
            ConnectError::VersionMismatch(_) => Some(ClientMessage::Kill),
            _ => None,
        }
    }
}

/// What the host said of itself.
#[derive(Debug, Clone, Copy, PartialEq, Eq, Structural)]
pub struct HostInfo {
    pub pid: u32,
    pub cols: u16,
    pub rows: u16,
}

/// How far a handshake has come.
pub struct Handshake {
    host: Option<HostInfo>,
    snapshot: Vec<u8>,
}

/// What a [`Handshake`] knows: what the host said of itself, and the replay so
/// far.
#[verifier::ext_equal]
pub struct HandshakeView {
    pub host: Option<HostInfo>,
    pub snapshot: Seq<u8>,
}

impl View for Handshake {
    type V = HandshakeView;

    closed spec fn view(&self) -> HandshakeView {
        HandshakeView { host: self.host, snapshot: self.snapshot@ }
    }
}

/// What comes next in a handshake.
pub enum HandshakeStep {
    /// Read the next message.
    Read,
    /// Skip this many bytes of the stream, then read the next message.
    Skip(u32),
    /// The handshake is over.
    Done,
    /// There is no connection.
    Fail(ConnectError),
}

/// What a [`HandshakeStep`] says.
#[verifier::ext_equal]
pub enum HandshakeStepView {
    Read,
    Skip(u32),
    Done,
    Fail(ConnectErrorView),
}

impl View for HandshakeStep {
    type V = HandshakeStepView;

    open spec fn view(&self) -> HandshakeStepView {
        match self {
            HandshakeStep::Read => HandshakeStepView::Read,
            HandshakeStep::Skip(n) => HandshakeStepView::Skip(*n),
            HandshakeStep::Done => HandshakeStepView::Done,
            HandshakeStep::Fail(e) => HandshakeStepView::Fail(e@),
        }
    }
}

/// What decoding a message gave.
pub open spec fn decoded(r: Result<HostMessage, DecodeError>) -> Result<
    HostMessageView,
    DecodeErrorView,
> {
    match r {
        Ok(m) => Ok(m@),
        Err(e) => Err(e@),
    }
}

impl HandshakeView {
    /// The handshake after a message, and what comes next.
    pub open spec fn after(self, r: Result<HostMessageView, DecodeErrorView>) -> (
        HandshakeView,
        HandshakeStepView,
    ) {
        match self.host {
            None => match r {
                Ok(HostMessageView::Ready { version, pid, cols, rows }) => if version
                    != PROTOCOL_VERSION {
                    (self, HandshakeStepView::Fail(ConnectErrorView::VersionMismatch(version)))
                } else {
                    (
                        HandshakeView { host: Some(HostInfo { pid, cols, rows }), ..self },
                        HandshakeStepView::Read,
                    )
                },
                Ok(HostMessageView::Error(msg)) => (
                    self,
                    HandshakeStepView::Fail(ConnectErrorView::HostError(msg)),
                ),
                Ok(m) => (self, HandshakeStepView::Fail(ConnectErrorView::ExpectedReady(m))),
                Err(e) => (self, HandshakeStepView::Fail(ConnectErrorView::BadReady(e))),
            },
            Some(_) => match r {
                Ok(HostMessageView::Snapshot(bytes)) => (
                    HandshakeView { snapshot: self.snapshot + bytes, ..self },
                    HandshakeStepView::Read,
                ),
                Ok(HostMessageView::Data(bytes)) => (
                    HandshakeView { snapshot: self.snapshot + bytes, ..self },
                    HandshakeStepView::Read,
                ),
                Ok(_) => (self, HandshakeStepView::Done),
                Err(DecodeErrorView::PayloadTooLarge(n)) => (self, HandshakeStepView::Skip(n)),
                Err(DecodeErrorView::UnexpectedEof) => (self, HandshakeStepView::Done),
                Err(e) => (self, HandshakeStepView::Fail(ConnectErrorView::Replay(e))),
            },
        }
    }
}

impl Handshake {
    /// A handshake that waits for READY.
    pub fn new() -> (h: Handshake)
        ensures
            h@ == (HandshakeView { host: None, snapshot: seq![] }),
    {
        let h = Handshake { host: None, snapshot: Vec::new() };
        assert(h@ =~= HandshakeView { host: None, snapshot: seq![] });
        h
    }

    /// Takes in what reading the next message gave.
    pub fn step(&mut self, r: Result<HostMessage, DecodeError>) -> (step: HandshakeStep)
        ensures
            final(self)@ == old(self)@.after(decoded(r)).0,
            step@ == old(self)@.after(decoded(r)).1,
    {
        match self.host {
            None => {
                match r {
                    Ok(HostMessage::Ready { version, pid, cols, rows }) => {
                        if version != PROTOCOL_VERSION {
                            HandshakeStep::Fail(ConnectError::VersionMismatch(version))
                        } else {
                            self.host = Some(HostInfo { pid, cols, rows });
                            assert(self@ =~= old(self)@.after(decoded(r)).0);
                            HandshakeStep::Read
                        }
                    },
                    Ok(HostMessage::Error(msg)) => {
                        HandshakeStep::Fail(ConnectError::HostError(msg))
                    },
                    Ok(m) => HandshakeStep::Fail(ConnectError::ExpectedReady(m)),
                    Err(e) => HandshakeStep::Fail(ConnectError::BadReady(e)),
                }
            },
            Some(_) => {
                match r {
                    Ok(HostMessage::Snapshot(bytes)) => {
                        push_bytes(&mut self.snapshot, bytes.as_slice());
                        assert(self@ =~= old(self)@.after(decoded(r)).0);
                        HandshakeStep::Read
                    },
                    Ok(HostMessage::Data(bytes)) => {
                        push_bytes(&mut self.snapshot, bytes.as_slice());
                        assert(self@ =~= old(self)@.after(decoded(r)).0);
                        HandshakeStep::Read
                    },
                    Ok(_) => HandshakeStep::Done,
                    Err(DecodeError::PayloadTooLarge(n)) => HandshakeStep::Skip(n),
                    Err(DecodeError::UnexpectedEof) => HandshakeStep::Done,
                    Err(e) => HandshakeStep::Fail(ConnectError::Replay(e)),
                }
            },
        }
    }

    /// What comes next once bytes had to be skipped.
    pub fn skipped(&self, r: Result<(), IoFault>) -> (step: HandshakeStep)
        ensures
            step@ == match r {
                Ok(_) => HandshakeStepView::Read,
                Err(e) => HandshakeStepView::Fail(ConnectErrorView::Drain(e@)),
            },
    {
        match r {
            Ok(_) => HandshakeStep::Read,
            Err(e) => HandshakeStep::Fail(ConnectError::Drain(e)),
        }
    }

    /// The connection that a handshake led to, once the host is known.
    pub fn finish(self) -> (result: Option<ConnectResult>)
        ensures
            match result {
                Some(c) => self@.host == Some(HostInfo { pid: c.pid, cols: c.cols, rows: c.rows })
                    && c.snapshot_data@ == self@.snapshot && c.client@.pid == c.pid
                    && c.client@.outgoing == Seq::<u8>::empty(),
                None => self@.host is None,
            },
    {
        match self.host {
            Some(host) => Some(
                ConnectResult {
                    client: PtyHostClient::new(host.pid),
                    pid: host.pid,
                    snapshot_data: self.snapshot,
                    cols: host.cols,
                    rows: host.rows,
                },
            ),
            None => None,
        }
    }
}

/// A connection to a session.
pub struct ConnectResult {
    /// The client, ready for use.
    pub client: PtyHostClient,
    /// The child PID reported by the host.
    pub pid: u32,
    /// The serialised terminal state.
    pub snapshot_data: Vec<u8>,
    /// Terminal grid dimensions reported by the host.
    pub cols: u16,
    pub rows: u16,
}

/// What a handshake on a stream of bytes leads to, and the bytes that are left:
/// the host's own account and the terminal state, or an error.
pub open spec fn connected(h: HandshakeView, s: Seq<u8>) -> (
    Result<HandshakeView, ConnectErrorView>,
    Seq<u8>,
)
    decreases s.len(),
{
    let (next, step) = h.after(protocol::first_host_message(s));
    let rest = s.skip(protocol::consumed(s) as int);
    match step {
        HandshakeStepView::Done => (Ok(next), rest),
        HandshakeStepView::Fail(e) => (Err(e), rest),
        HandshakeStepView::Read => connected(next, rest),
        HandshakeStepView::Skip(n) => if n <= rest.len() {
            connected(next, rest.skip(n as int))
        } else {
            connected(next, seq![])
        },
    }
}

/// The handshake of a connection that has just been opened.
pub open spec fn unconnected() -> HandshakeView {
    HandshakeView { host: None, snapshot: seq![] }
}

/// A client connection to a session.
pub struct PtyHostClient {
    /// Frames terminal input for the host.
    pub framing_writer: FramingWriter,
    child_pid: u32,
}

/// What a [`PtyHostClient`] knows: the child's PID, and the bytes for the host
/// that have not been taken.
#[verifier::ext_equal]
pub struct PtyHostClientView {
    pub pid: u32,
    pub outgoing: Seq<u8>,
}

impl View for PtyHostClient {
    type V = PtyHostClientView;

    closed spec fn view(&self) -> PtyHostClientView {
        PtyHostClientView { pid: self.child_pid, outgoing: self.framing_writer@ }
    }
}

impl PtyHostClient {
    /// A client of the session whose child is `pid`.
    pub fn new(pid: u32) -> (client: PtyHostClient)
        ensures
            client@.pid == pid,
            client@.outgoing == Seq::<u8>::empty(),
    {
        PtyHostClient { framing_writer: FramingWriter::new(), child_pid: pid }
    }

    /// Goes through the handshake on a stream of bytes.
    pub fn connect(reader: &mut Cursor) -> (r: Result<ConnectResult, ConnectError>)
        ensures
            match connected(unconnected(), old(reader).rest()).0 {
                Ok(h) => r matches Ok(c) && h.host == Some(
                    (HostInfo { pid: c.pid, cols: c.cols, rows: c.rows }),
                ) && c.snapshot_data@ == h.snapshot && c.client@.pid == c.pid
                    && c.client@.outgoing == Seq::<u8>::empty(),
                Err(e) => r matches Err(err) && err@ == e,
            },
            final(reader).rest() == connected(unconnected(), old(reader).rest()).1,
    {
        let mut h = Handshake::new();
        loop
            invariant
                connected(h@, reader.rest()) == connected(unconnected(), old(reader).rest()),
                h@.host is None ==> h@ == unconnected(),
            decreases reader.rest().len(), (if h@.host is None { 1int } else { 0int }),
        {
            let ghost s = reader.rest();
            let ghost known = h@;
            let message: Result<HostMessage, DecodeError> = HostMessage::decode_from(reader);
            match h.step(message) {
                HandshakeStep::Read => {
                    assert(message is Ok);
                },
                HandshakeStep::Skip(n) => {
                    reader.drain(n);
                },
                HandshakeStep::Done => {
                    match h.finish() {
                        Some(result) => return Ok(result),
                        None => {
                            assert(false);
                            return Err(ConnectError::BadReady(DecodeError::UnexpectedEof));
                        },
                    }
                },
                HandshakeStep::Fail(e) => return Err(e),
            }
        }
    }
}

// ---------------------------------------------------------------------------
// Writing
// ---------------------------------------------------------------------------

/// A writer that puts raw bytes into DATA frames for the host.
pub struct FramingWriter {
    socket: Vec<u8>,
    encode_buf: Vec<u8>,
}

impl View for FramingWriter {
    type V = Seq<u8>;

    closed spec fn view(&self) -> Seq<u8> {
        self.socket@
    }
}

impl FramingWriter {
    /// A writer with nothing to send.
    pub fn new() -> (w: FramingWriter)
        ensures
            w@ == Seq::<u8>::empty(),
    {
        FramingWriter { socket: Vec::new(), encode_buf: Vec::new() }
    }

    /// Frames `buf` as one DATA message, and answers with how many of its bytes
    /// were taken: all of them. Nothing is sent for an empty `buf`.
    pub fn write(&mut self, buf: &[u8]) -> (n: usize)
        ensures
            n == buf@.len(),
            final(self)@ == if buf@.len() == 0 {
                old(self)@
            } else {
                old(self)@ + ClientMessageView::Data(buf@).wire()
            },
    {
        if buf.len() == 0 {
            return 0;
        }
        self.encode_buf = Vec::new();
        let message = ClientMessage::Data(slice_to_vec(buf));
        message.encode_into(&mut self.encode_buf);
        assert(self.encode_buf@ =~= ClientMessageView::Data(buf@).wire());
        push_bytes(&mut self.socket, self.encode_buf.as_slice());
        buf.len()
    }

    /// Sends a message.
    pub fn send(&mut self, message: &ClientMessage)
        ensures
            final(self)@ == old(self)@ + message@.wire(),
    {
        send_client_message(&mut self.socket, message);
    }

    /// Takes the bytes for the host.
    pub fn take(&mut self) -> (bytes: Vec<u8>)
        ensures
            bytes@ == old(self)@,
            final(self)@ == Seq::<u8>::empty(),
    {
        let mut bytes: Vec<u8> = Vec::new();
        push_bytes(&mut bytes, self.socket.as_slice());
        assert(bytes@ =~= self.socket@);
        self.socket = Vec::new();
        bytes
    }
}

impl PtyHostClient {
    /// The child PID as reported by the host.
    pub fn pid(&self) -> (pid: u32)
        ensures
            pid == self@.pid,
    {
        self.child_pid
    }

    /// Sends DETACH: the session goes on without this client.
    pub fn detach(&mut self)
        ensures
            final(self)@ == (PtyHostClientView {
                outgoing: old(self)@.outgoing + ClientMessageView::Detach.wire(),
                ..old(self)@
            }),
    {
        self.framing_writer.send(&ClientMessage::Detach);
    }

    /// Sends KILL: the shell is terminated.
    pub fn kill(&mut self)
        ensures
            final(self)@ == (PtyHostClientView {
                outgoing: old(self)@.outgoing + ClientMessageView::Kill.wire(),
                ..old(self)@
            }),
    {
        self.framing_writer.send(&ClientMessage::Kill);
    }

    /// Sends RESIZE.
    pub fn on_resize(&mut self, size: WindowSize)
        ensures
            final(self)@ == (PtyHostClientView {
                outgoing: old(self)@.outgoing + ClientMessageView::Resize(size).wire(),
                ..old(self)@
            }),
    {
        self.framing_writer.send(&ClientMessage::Resize(size));
    }
}

// ---------------------------------------------------------------------------
// Live messages
// ---------------------------------------------------------------------------

/// The child event that stands for an error of the host: an exit with status
/// minus one.
pub open spec fn error_event() -> Seq<u8> {
    seq![1u8, 0xff, 0xff, 0xff, 0xff]
}

/// Where a live message goes.
pub enum Deframed {
    /// To the reader of terminal output.
    Data(Vec<u8>),
    /// To the reader of child events.
    Child(Vec<u8>),
    /// To the reader of child events, and nothing comes after it.
    LastChild(Vec<u8>),
    /// Nowhere.
    Ignored,
    /// Nowhere, and nothing comes after it.
    Closed,
}

/// What a [`Deframed`] says.
#[verifier::ext_equal]
pub enum DeframedView {
    Data(Seq<u8>),
    Child(Seq<u8>),
    LastChild(Seq<u8>),
    Ignored,
    Closed,
}

impl View for Deframed {
    type V = DeframedView;

    open spec fn view(&self) -> DeframedView {
        match self {
            Deframed::Data(bytes) => DeframedView::Data(bytes@),
            Deframed::Child(bytes) => DeframedView::Child(bytes@),
            Deframed::LastChild(bytes) => DeframedView::LastChild(bytes@),
            Deframed::Ignored => DeframedView::Ignored,
            Deframed::Closed => DeframedView::Closed,
        }
    }
}

/// Where a live message goes.
pub open spec fn destination(r: Result<HostMessageView, DecodeErrorView>) -> DeframedView {
    match r {
        Ok(HostMessageView::Data(bytes)) => DeframedView::Data(bytes),
        Ok(HostMessageView::ChildExit(raw_status)) => DeframedView::Child(
            protocol::status_bytes(raw_status),
        ),
        Ok(HostMessageView::Error(_)) => DeframedView::LastChild(error_event()),
        Ok(_) => DeframedView::Ignored,
        Err(_) => DeframedView::Closed,
    }
}

/// Decides where a live message goes.
pub fn deframe(r: Result<HostMessage, DecodeError>) -> (d: Deframed)
    ensures
        d@ == destination(decoded(r)),
{
    match r {
        Ok(HostMessage::Data(bytes)) => Deframed::Data(bytes),
        Ok(HostMessage::ChildExit { raw_status }) => {
            let mut event: Vec<u8> = Vec::new();
            push_status(&mut event, raw_status);
            assert(event@ =~= protocol::status_bytes(raw_status));
            Deframed::Child(event)
        },
        Ok(HostMessage::Error(_)) => {
            let mut event: Vec<u8> = Vec::new();
            event.push(1);
            event.push(0xff);
            event.push(0xff);
            event.push(0xff);
            event.push(0xff);
            assert(event@ =~= error_event());
            Deframed::LastChild(event)
        },
        Ok(_) => Deframed::Ignored,
        Err(_) => Deframed::Closed,
    }
}

/// What comes of a live stream: terminal output and child events.
pub open spec fn deframed(s: Seq<u8>) -> (Seq<u8>, Seq<u8>)
    decreases s.len(),
{
    let rest = s.skip(protocol::consumed(s) as int);
    match destination(protocol::first_host_message(s)) {
        DeframedView::Closed => (seq![], seq![]),
        DeframedView::LastChild(event) => (seq![], event),
        DeframedView::Data(bytes) => (bytes + deframed(rest).0, deframed(rest).1),
        DeframedView::Child(event) => (deframed(rest).0, event + deframed(rest).1),
        DeframedView::Ignored => deframed(rest),
    }
}

/// Hands out the messages of a live stream to the readers of terminal output
/// and of child events, until the stream ends.
pub fn deframe_loop(reader: &mut Cursor, data_tx: &mut Vec<u8>, child_tx: &mut Vec<u8>)
    ensures
        final(data_tx)@ == old(data_tx)@ + deframed(old(reader).rest()).0,
        final(child_tx)@ == old(child_tx)@ + deframed(old(reader).rest()).1,
{
    let ghost whole = deframed(reader.rest());
    loop
        invariant_except_break
            data_tx@ + deframed(reader.rest()).0 == old(data_tx)@ + whole.0,
            child_tx@ + deframed(reader.rest()).1 == old(child_tx)@ + whole.1,
        invariant
            whole == deframed(old(reader).rest()),
        ensures
            data_tx@ == old(data_tx)@ + whole.0,
            child_tx@ == old(child_tx)@ + whole.1,
        decreases reader.rest().len(),
    {
        let ghost s = reader.rest();
        let ghost data = data_tx@;
        let ghost child = child_tx@;
        let message: Result<HostMessage, DecodeError> = HostMessage::decode_from(reader);
        match deframe(message) {
            Deframed::Data(bytes) => {
                push_bytes(data_tx, bytes.as_slice());
                assert(data_tx@ + deframed(reader.rest()).0 =~= data + deframed(s).0);
            },
            Deframed::Child(event) => {
                push_bytes(child_tx, event.as_slice());
                assert(child_tx@ + deframed(reader.rest()).1 =~= child + deframed(s).1);
            },
            Deframed::LastChild(event) => {
                push_bytes(child_tx, event.as_slice());
                assert(data_tx@ =~= data + deframed(s).0);
                break;
            },
            Deframed::Ignored => {},
            Deframed::Closed => {
                assert(data_tx@ =~= data + deframed(s).0);
                assert(child_tx@ =~= child + deframed(s).1);
                break;
            },
        }
    }
}

/// Something that happened to the child.
#[derive(Debug, Clone, Copy, PartialEq, Eq, Structural)]
pub enum ChildEvent {
    /// The child has exited, with its raw wait status where there is one.
    Exited(Option<i32>),
}

/// Reads one child event, given what a read of up to five bytes from the stream
/// of child events brought. A partial event counts as none.
pub fn next_child_event(read: Result<Vec<u8>, IoFault>) -> (event: Option<ChildEvent>)
    ensures
        event == match read {
            Ok(bytes) => if bytes@.len() == 5 {
                Some(ChildEvent::Exited(protocol::status_of(bytes@)))
            } else {
                None
            },
            Err(_) => None,
        },
{
    match read {
        Ok(bytes) => {
            if bytes.len() == 5 {
                Some(ChildEvent::Exited(parse_status(bytes.as_slice())))
            } else {
                None
            }
        },
        Err(_) => None,
    }
}

} // verus!
