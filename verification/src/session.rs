//! A single PTY session: what it remembers and what it decides.
//!
//! A session proxies bytes between a PTY master and at most one client. It
//! outlives its clients: it ends when the child has exited and no client is
//! connected, or when a client asks for it with KILL. The event loop around it
//! waits for events, performs the reads and writes that the session asks for,
//! and hands back what came of them; the session answers with the actions to
//! take, in order.

use vstd::prelude::*;
use vstd::slice::*;

use crate::bytes::{drop_front, push_bytes};
use crate::fault::{would_block, IoFault, IoFaultView, IoKind};
use crate::inbound;
use crate::inbound::{read_client_bytes, ClientBuffer, ReadClientError};
use crate::path::UnixPath;
use crate::protocol::{
    ClientMessage, ClientMessageView, HostMessage, HostMessageView, WindowSize, MAX_PAYLOAD_SIZE,
    PROTOCOL_VERSION,
};
use crate::text::copy_text;

verus! {

/// Size of the buffer for reads from the PTY.
pub const READ_BUF_SIZE: usize = 0x10_0000;

/// Unsent client output at which reading from the PTY is paused (1 MiB).
pub const HIGH_WATER: usize = 1024 * 1024;

/// Unsent client output below which reading from the PTY goes on (256 KiB).
pub const LOW_WATER: usize = 256 * 1024;

/// How long a connected client keeps a session whose child has exited, in
/// nanoseconds.
pub const EXIT_GRACE: u128 = 5_000_000_000;

/// What an event can be about.
#[derive(Debug, Clone, Copy, PartialEq, Eq, Structural)]
pub enum Source {
    Pty,
    Client,
    Child,
    Listener,
}

/// Something to try when an event comes.
#[derive(Debug, Clone, Copy, PartialEq, Eq, Structural)]
pub enum Op {
    /// Read from the PTY.
    ReadPty,
    /// Write queued input to the PTY.
    WritePty,
    /// Write queued output to the client.
    WriteClient,
    /// Read from the client.
    ReadClient,
    /// Ask whether the child has exited.
    ReapChild,
    /// Accept a connection.
    Accept,
}

/// The readiness that a descriptor is watched for.
#[derive(Debug, Clone, Copy, PartialEq, Eq, Structural)]
pub struct Interest {
    pub readable: bool,
    pub writable: bool,
}

/// Something that the event loop has to do.
#[derive(Debug, Clone, Copy, PartialEq, Eq, Structural)]
pub enum Action {
    /// Feed the bytes just read to the terminal emulator.
    FeedTerminal,
    /// Watch the PTY for this from now on.
    WatchPty(Interest),
    /// Watch the client for this from now on.
    WatchClient(Interest),
    /// Resize the PTY and the terminal emulator.
    Resize(WindowSize),
    /// Close the connection to the client.
    DropClient,
    /// Send SIGHUP to the child.
    HangUpChild,
    /// Leave the rest of this event alone.
    SkipEvent,
    /// End the event loop.
    Stop,
}

/// What the event loop does before it handles events.
#[derive(Debug, Clone, Copy, PartialEq, Eq, Structural)]
pub enum Plan {
    /// End: the child has exited, and nobody is connected or the time for the
    /// client to disconnect is over.
    Stop,
    /// Wait for events, for at most this many nanoseconds where there is a
    /// limit.
    Wait(Option<u128>),
}

/// What a [`Session`] remembers.
#[verifier::ext_equal]
pub struct SessionView {
    pub pid: u32,
    pub socket_path: Seq<u8>,
    pub client: bool,
    /// When the child was seen to have exited.
    pub exited_at: Option<u128>,
    pub exit_status: Option<i32>,
    pub inbound: Seq<u8>,
    pub pty_queue: Seq<u8>,
    pub wants_write: bool,
    pub client_queue: Seq<u8>,
    pub paused: bool,
    pub pty_interest: Interest,
    pub client_interest: Interest,
}

/// A running PTY session.
pub struct Session {
    pid: u32,
    socket_path: UnixPath,
    client: bool,
    exited_at: Option<u128>,
    exit_status: Option<i32>,
    inbound: ClientBuffer,
    pty_write_queue: Vec<u8>,
    pty_wants_write: bool,
    client_write_queue: Vec<u8>,
    pty_read_paused: bool,
    pty_interest: Interest,
    client_interest: Interest,
}

impl View for Session {
    type V = SessionView;

    closed spec fn view(&self) -> SessionView {
        SessionView {
            pid: self.pid,
            socket_path: self.socket_path@,
            client: self.client,
            exited_at: self.exited_at,
            exit_status: self.exit_status,
            inbound: self.inbound@,
            pty_queue: self.pty_write_queue@,
            wants_write: self.pty_wants_write,
            client_queue: self.client_write_queue@,
            paused: self.pty_read_paused,
            pty_interest: self.pty_interest,
            client_interest: self.client_interest,
        }
    }
}

/// A session before its first event: no client, nothing queued, the PTY watched
/// for reading.
pub open spec fn fresh(pid: u32, socket_path: Seq<u8>) -> SessionView {
    SessionView {
        pid,
        socket_path,
        client: false,
        exited_at: None,
        exit_status: None,
        inbound: seq![],
        pty_queue: seq![],
        wants_write: false,
        client_queue: seq![],
        paused: false,
        pty_interest: Interest { readable: true, writable: false },
        client_interest: Interest { readable: false, writable: false },
    }
}

/// A snapshot in pieces that fit in a frame each; none where it is empty.
pub open spec fn chunks(snapshot: Seq<u8>) -> Seq<Seq<u8>>
    decreases snapshot.len(),
{
    if snapshot.len() == 0 {
        seq![]
    } else if snapshot.len() <= MAX_PAYLOAD_SIZE {
        seq![snapshot]
    } else {
        seq![snapshot.take(MAX_PAYLOAD_SIZE as int)] + chunks(
            snapshot.skip(MAX_PAYLOAD_SIZE as int),
        )
    }
}

/// The pieces of a snapshot as messages.
pub open spec fn snapshot_messages(snapshot: Seq<u8>) -> Seq<HostMessageView> {
    Seq::new(chunks(snapshot).len(), |i: int| HostMessageView::Snapshot(chunks(snapshot)[i]))
}

/// The messages that greet a new client: READY, the terminal state, the end of
/// the replay, and the child's exit where it has exited.
pub open spec fn handshake(s: SessionView, size: WindowSize, snapshot: Seq<u8>) -> Seq<
    HostMessageView,
> {
    seq![
        HostMessageView::Ready {
            version: PROTOCOL_VERSION,
            pid: s.pid,
            cols: size.cols,
            rows: size.rows,
        },
    ] + snapshot_messages(snapshot) + seq![HostMessageView::ReplayDone] + if s.child_exited() {
        seq![HostMessageView::ChildExit(s.exit_status)]
    } else {
        seq![]
    }
}

/// The message that tells a client that another one takes its place.
pub open spec fn eviction() -> HostMessageView {
    HostMessageView::Error("evicted: another client connected"@)
}

impl SessionView {
    /// Whether the child has exited.
    pub open spec fn child_exited(self) -> bool {
        self.exited_at is Some
    }

    /// What the event loop does at time `now` before it handles events.
    pub open spec fn plan(self, now: u128) -> Plan {
        match self.exited_at {
            None => Plan::Wait(None),
            Some(at) => if !self.client || now >= at + EXIT_GRACE {
                Plan::Stop
            } else if now <= at {
                Plan::Wait(Some(EXIT_GRACE))
            } else {
                Plan::Wait(Some((at + EXIT_GRACE - now) as u128))
            },
        }
    }

    /// Whether an operation is due, given the readiness that an event reports.
    pub open spec fn wants(self, op: Op, readable: bool, writable: bool) -> bool {
        match op {
            Op::ReadPty => readable && !self.child_exited(),
            Op::WritePty => writable && self.pty_queue.len() > 0,
            Op::WriteClient => writable && self.client_queue.len() > 0 && self.client,
            Op::ReadClient => readable && self.client,
            Op::ReapChild => true,
            Op::Accept => true,
        }
    }

    /// The session once a connection has been accepted, and the actions that
    /// follow. Nothing that was meant for an earlier client is left for this one,
    /// and reading the PTY goes on where it was paused for an earlier one.
    pub open spec fn after_accept(self) -> (SessionView, Seq<Action>) {
        let s = SessionView {
            client: true,
            inbound: seq![],
            client_queue: seq![],
            client_interest: Interest { readable: true, writable: false },
            ..self
        };
        if self.paused {
            s.resumed()
        } else {
            (s, seq![])
        }
    }

    /// What an evicted client is sent last: its unsent output, so that frames
    /// stay whole, and then why it is evicted.
    pub open spec fn farewell(self) -> Seq<u8> {
        self.client_queue + eviction().wire()
    }

    /// The session with no client, and the action that gets it there.
    pub open spec fn without_client(self) -> (SessionView, Seq<Action>) {
        if self.client {
            (SessionView { client: false, ..self }, seq![Action::DropClient])
        } else {
            (self, seq![])
        }
    }

    /// The session after a read from the PTY, and the actions that follow.
    pub open spec fn after_pty_read(self, read: Result<Seq<u8>, IoFaultView>) -> (
        SessionView,
        Seq<Action>,
    ) {
        match read {
            Ok(data) => if data.len() == 0 {
                (self, seq![])
            } else if !self.client {
                (self, seq![Action::FeedTerminal])
            } else {
                let queue = self.client_queue + HostMessageView::Data(data).wire();
                let all = Interest { readable: true, writable: true };
                if queue.len() >= HIGH_WATER && !self.paused {
                    let quiet = Interest { readable: false, writable: self.wants_write };
                    (
                        SessionView {
                            client_queue: queue,
                            paused: true,
                            pty_interest: quiet,
                            client_interest: all,
                            ..self
                        },
                        seq![
                            Action::FeedTerminal,
                            Action::WatchPty(quiet),
                            Action::WatchClient(all),
                        ],
                    )
                } else {
                    (
                        SessionView { client_queue: queue, client_interest: all, ..self },
                        seq![Action::FeedTerminal, Action::WatchClient(all)],
                    )
                }
            },
            Err(e) => match e.kind {
                IoKind::WouldBlock => (self, seq![]),
                IoKind::HungUp => (self, seq![Action::SkipEvent]),
                _ => (self, seq![Action::Stop]),
            },
        }
    }

    /// The session after a write to the PTY, and the actions that follow.
    pub open spec fn after_pty_written(self, written: Result<usize, IoFaultView>) -> (
        SessionView,
        Seq<Action>,
    ) {
        match written {
            Ok(n) => {
                let queue = self.pty_queue.skip(n as int);
                if queue.len() == 0 && self.wants_write {
                    let interest = Interest { readable: !self.paused, writable: false };
                    (
                        SessionView {
                            pty_queue: queue,
                            wants_write: false,
                            pty_interest: interest,
                            ..self
                        },
                        seq![Action::WatchPty(interest)],
                    )
                } else {
                    (SessionView { pty_queue: queue, ..self }, seq![])
                }
            },
            Err(e) => if e.kind == IoKind::WouldBlock {
                (self, seq![])
            } else {
                (self, seq![Action::Stop])
            },
        }
    }

    /// The session with reading from the PTY resumed, and the action that gets
    /// it there.
    pub open spec fn resumed(self) -> (SessionView, Seq<Action>) {
        let interest = Interest { readable: true, writable: self.wants_write };
        (
            SessionView { paused: false, pty_interest: interest, ..self },
            seq![Action::WatchPty(interest)],
        )
    }

    /// The session after a write to the client, and the actions that follow.
    pub open spec fn after_client_written(self, written: Result<usize, IoFaultView>) -> (
        SessionView,
        Seq<Action>,
    ) {
        let lost = (
            SessionView { client_queue: seq![], ..self.without_client().0 },
            self.without_client().1,
        );
        match written {
            Ok(n) => if n == 0 {
                lost
            } else {
                let queue = self.client_queue.skip(n as int);
                let drained = SessionView { client_queue: queue, ..self };
                let (s, resuming) = if self.paused && drained.client_queue.len() < LOW_WATER {
                    drained.resumed()
                } else {
                    (drained, seq![])
                };
                if s.client_queue.len() == 0 {
                    let interest = Interest { readable: true, writable: false };
                    (
                        SessionView { client_interest: interest, ..s },
                        resuming + seq![Action::WatchClient(interest)],
                    )
                } else {
                    (s, resuming)
                }
            },
            Err(e) => if e.kind == IoKind::WouldBlock {
                (self, seq![])
            } else {
                lost
            },
        }
    }

    /// The session after one message from the client, and the actions that
    /// follow.
    pub open spec fn after_message(self, m: ClientMessageView) -> (SessionView, Seq<Action>) {
        match m {
            ClientMessageView::Data(bytes) => if bytes.len() == 0 {
                (self, seq![])
            } else if self.wants_write {
                (SessionView { pty_queue: self.pty_queue + bytes, ..self }, seq![])
            } else {
                let all = Interest { readable: true, writable: true };
                (
                    SessionView {
                        pty_queue: self.pty_queue + bytes,
                        wants_write: true,
                        pty_interest: all,
                        ..self
                    },
                    seq![Action::WatchPty(all)],
                )
            },
            ClientMessageView::Resize(size) => (self, seq![Action::Resize(size)]),
            ClientMessageView::Detach => self.without_client(),
            ClientMessageView::Kill => {
                let (s, dropping) = self.without_client();
                (s, seq![Action::HangUpChild] + dropping + seq![Action::Stop])
            },
        }
    }

    /// The session after messages from the client, and the actions that follow.
    /// Nothing after a KILL is looked at.
    pub open spec fn after_messages(self, ms: Seq<ClientMessageView>) -> (SessionView, Seq<Action>)
        decreases ms.len(),
    {
        if ms.len() == 0 {
            (self, seq![])
        } else if ms[0] is Kill {
            self.after_message(ms[0])
        } else {
            let (s, actions) = self.after_message(ms[0]);
            let (end, more) = s.after_messages(ms.skip(1));
            (end, actions + more)
        }
    }

    /// The session after a read from the client, and the actions that follow.
    pub open spec fn after_client_read(self, read: Result<Seq<u8>, IoFaultView>) -> (
        SessionView,
        Seq<Action>,
    ) {
        let (outcome, pending) = inbound::client_read(read, self.inbound);
        let s = SessionView { inbound: pending, ..self };
        match outcome {
            Ok(ms) => s.after_messages(ms),
            Err(_) => s.without_client(),
        }
    }

    /// The session once the child's status has been asked for at time `now`,
    /// and the actions that follow. A connected client is told of an exit behind
    /// the output that is queued for it.
    pub open spec fn after_child_status(
        self,
        status: Result<Option<i32>, IoFaultView>,
        now: u128,
    ) -> (SessionView, Seq<Action>) {
        match status {
            Ok(Some(raw)) => {
                let s = SessionView {
                    exited_at: match self.exited_at {
                        Some(at) => Some(at),
                        None => Some(now),
                    },
                    exit_status: Some(raw),
                    ..self
                };
                if self.client {
                    let all = Interest { readable: true, writable: true };
                    let queue = self.client_queue + HostMessageView::ChildExit(Some(raw)).wire();
                    (
                        SessionView { client_queue: queue, client_interest: all, ..s },
                        seq![Action::WatchClient(all)],
                    )
                } else {
                    (s, seq![])
                }
            },
            _ => (self, seq![]),
        }
    }

    /// The session once all events of a wait have been handled, and the actions
    /// that follow. Output for a client that is gone is dropped.
    pub open spec fn after_turn(self) -> (SessionView, Seq<Action>) {
        if self.client {
            (self, seq![])
        } else {
            let s = SessionView { client_queue: seq![], ..self };
            if self.paused {
                s.resumed()
            } else {
                (s, seq![])
            }
        }
    }
}
/// Where an event with this poller key comes from.
pub fn source_of(key: usize) -> (source: Option<Source>)
    ensures
        source == match key {
            0usize => Some(Source::Pty),
            1usize => Some(Source::Client),
            2usize => Some(Source::Child),
            3usize => Some(Source::Listener),
            _ => None,
        },
{
    match key {
        0 => Some(Source::Pty),
        1 => Some(Source::Client),
        2 => Some(Source::Child),
        3 => Some(Source::Listener),
        _ => None,
    }
}

/// What an event from a source leads to, in this order.
pub open spec fn ops(source: Source) -> Seq<Op> {
    match source {
        Source::Pty => seq![Op::ReadPty, Op::WritePty],
        Source::Client => seq![Op::WriteClient, Op::ReadClient],
        Source::Child => seq![Op::ReapChild],
        Source::Listener => seq![Op::Accept],
    }
}

/// What an event from a source leads to, in this order.
pub fn ops_of(source: Source) -> (v: Vec<Op>)
    ensures
        v@ == ops(source),
{
    let mut v: Vec<Op> = Vec::new();
    match source {
        Source::Pty => {
            v.push(Op::ReadPty);
            v.push(Op::WritePty);
        },
        Source::Client => {
            v.push(Op::WriteClient);
            v.push(Op::ReadClient);
        },
        Source::Child => {
            v.push(Op::ReapChild);
        },
        Source::Listener => {
            v.push(Op::Accept);
        },
    }
    assert(v@ =~= ops(source));
    v
}

/// Whether a failed wait is tried again.
pub fn retries_wait(e: &IoFault) -> (again: bool)
    ensures
        again == (e.kind == IoKind::Interrupted),
{
    e.kind == IoKind::Interrupted
}

/// What several host messages say.
pub open spec fn told(ms: Seq<HostMessage>) -> Seq<HostMessageView> {
    Seq::new(ms.len(), |i: int| ms[i]@)
}

/// What to do with an accepted connection: send the old client, where there is
/// one, its last bytes, and close its connection; send the handshake over the
/// new one, each message in full; take the actions; then make foreground programs
/// redraw, where asked.
pub struct AcceptPlan {
    pub evict: Option<Vec<u8>>,
    pub handshake: Vec<HostMessage>,
    pub actions: Vec<Action>,
    pub redraw: bool,
}

/// Puts a snapshot into messages that fit in a frame each.
pub fn push_snapshot(out: &mut Vec<HostMessage>, snapshot: &[u8])
    ensures
        told(final(out)@) == told(old(out)@) + snapshot_messages(snapshot@),
{
    let ghost before = told(out@);
    let ghost total = snapshot@;
    let mut at: usize = 0;
    assert(total.skip(0) =~= total);
    assert(told(out@) + snapshot_messages(total.skip(0)) =~= before + snapshot_messages(total));
    while snapshot.len() - at > MAX_PAYLOAD_SIZE as usize
        invariant
            at <= total.len(),
            total == snapshot@,
            told(out@) + snapshot_messages(total.skip(at as int)) == before + snapshot_messages(
                total,
            ),
        decreases total.len() - at,
    {
        let end: usize = at + MAX_PAYLOAD_SIZE as usize;
        let ghost tail = total.skip(at as int);
        let ghost sent = out@;
        let chunk: Vec<u8> = slice_to_vec(slice_subrange(snapshot, at, end));
        assert(chunk@ =~= tail.take(MAX_PAYLOAD_SIZE as int));
        assert(tail.skip(MAX_PAYLOAD_SIZE as int) =~= total.skip(end as int));
        out.push(HostMessage::Snapshot(chunk));
        assert(told(out@) =~= told(sent).push(out@.last()@));
        assert(snapshot_messages(tail) =~= seq![out@.last()@] + snapshot_messages(
            total.skip(end as int),
        ));
        assert(told(out@) + snapshot_messages(total.skip(end as int)) =~= told(sent)
            + snapshot_messages(tail));
        at = end;
    }
    let ghost tail = total.skip(at as int);
    let ghost sent = out@;
    if at < snapshot.len() {
        let chunk: Vec<u8> = slice_to_vec(slice_subrange(snapshot, at, snapshot.len()));
        assert(chunk@ =~= tail);
        out.push(HostMessage::Snapshot(chunk));
        assert(told(out@) =~= told(sent).push(out@.last()@));
        assert(snapshot_messages(tail) =~= seq![out@.last()@]);
    } else {
        assert(snapshot_messages(tail) =~= Seq::<HostMessageView>::empty());
    }
    assert(told(out@) =~= told(sent) + snapshot_messages(tail));
}

impl Session {
    /// A session for the child `pid`, listening at `socket_path`.
    pub fn new(pid: u32, socket_path: UnixPath) -> (session: Session)
        ensures
            session@ == fresh(pid, socket_path@),
    {
        Session {
            pid,
            socket_path,
            client: false,
            exited_at: None,
            exit_status: None,
            inbound: ClientBuffer::new(),
            pty_write_queue: Vec::new(),
            pty_wants_write: false,
            client_write_queue: Vec::new(),
            pty_read_paused: false,
            pty_interest: Interest { readable: true, writable: false },
            client_interest: Interest { readable: false, writable: false },
        }
    }

    /// The child PID.
    pub fn pid(&self) -> (pid: u32)
        ensures
            pid == self@.pid,
    {
        self.pid
    }

    /// The socket path.
    pub fn socket_path(&self) -> (path: &UnixPath)
        ensures
            path@ == self@.socket_path,
    {
        &self.socket_path
    }

    /// Whether a client is connected.
    pub fn has_client(&self) -> (connected: bool)
        ensures
            connected == self@.client,
    {
        self.client
    }

    /// Whether the child has to be hung up on when the session is dropped.
    pub fn child_running(&self) -> (running: bool)
        ensures
            running == !self@.child_exited(),
    {
        self.exited_at.is_none()
    }

    /// Input for the PTY that has not been written.
    pub fn pty_queue(&self) -> (queue: &[u8])
        ensures
            queue@ == self@.pty_queue,
    {
        self.pty_write_queue.as_slice()
    }

    /// Output for the client that has not been written.
    pub fn client_queue(&self) -> (queue: &[u8])
        ensures
            queue@ == self@.client_queue,
    {
        self.client_write_queue.as_slice()
    }

    /// How many bytes the next read from the client may bring.
    pub fn client_room(&self) -> (n: usize)
        ensures
            n == if self@.inbound.len() <= inbound::CLIENT_BUFFER_SIZE {
                inbound::CLIENT_BUFFER_SIZE - self@.inbound.len()
            } else {
                0
            },
    {
        self.inbound.room()
    }

    /// What the event loop does at time `now` before it handles events.
    pub fn plan(&self, now: u128) -> (plan: Plan)
        ensures
            plan == self@.plan(now),
    {
        match self.exited_at {
            None => Plan::Wait(None),
            Some(at) => {
                let elapsed: u128 = if now <= at {
                    0
                } else {
                    now - at
                };
                if !self.client || elapsed >= EXIT_GRACE {
                    Plan::Stop
                } else {
                    Plan::Wait(Some(EXIT_GRACE - elapsed))
                }
            },
        }
    }

    /// Whether a wait that brought no event ends the session.
    pub fn timed_out(&self, no_events: bool) -> (over: bool)
        ensures
            over == (no_events && self@.child_exited()),
    {
        no_events && !self.child_running()
    }

    /// Whether an operation is due, given the readiness that an event reports.
    pub fn wants(&self, op: Op, readable: bool, writable: bool) -> (due: bool)
        ensures
            due == self@.wants(op, readable, writable),
    {
        match op {
            Op::ReadPty => readable && self.child_running(),
            Op::WritePty => writable && self.pty_write_queue.len() > 0,
            Op::WriteClient => writable && self.client_write_queue.len() > 0 && self.client,
            Op::ReadClient => readable && self.client,
            Op::ReapChild => true,
            Op::Accept => true,
        }
    }

    /// A connection has been accepted; the terminal has this size and state.
    pub fn on_accept(&mut self, size: WindowSize, snapshot: &[u8]) -> (plan: AcceptPlan)
        ensures
            final(self)@ == old(self)@.after_accept().0,
            plan.actions@ == old(self)@.after_accept().1,
            match plan.evict {
                Some(bytes) => old(self)@.client && bytes@ == old(self)@.farewell(),
                None => !old(self)@.client,
            },
            told(plan.handshake@) == handshake(old(self)@, size, snapshot@),
            plan.redraw == !old(self)@.child_exited(),
    {
        let evict: Option<Vec<u8>> = if self.client {
            let mut bytes: Vec<u8> = slice_to_vec(self.client_write_queue.as_slice());
            let reason = HostMessage::Error(copy_text("evicted: another client connected"));
            reason.encode_into(&mut bytes);
            Some(bytes)
        } else {
            None
        };
        let mut greeting: Vec<HostMessage> = Vec::new();
        greeting.push(
            HostMessage::Ready {
                version: PROTOCOL_VERSION,
                pid: self.pid,
                cols: size.cols,
                rows: size.rows,
            },
        );
        let ghost ready = told(greeting@);
        assert(ready =~= seq![greeting@[0]@]);
        push_snapshot(&mut greeting, snapshot);
        let ghost replay = greeting@;
        greeting.push(HostMessage::ReplayDone);
        assert(told(greeting@) =~= told(replay).push(HostMessageView::ReplayDone));
        let ghost replayed = greeting@;
        if !self.child_running() {
            greeting.push(HostMessage::ChildExit { raw_status: self.exit_status });
            assert(told(greeting@) =~= told(replayed).push(
                HostMessageView::ChildExit(self.exit_status),
            ));
        }
        assert(told(greeting@) =~= handshake(old(self)@, size, snapshot@));
        self.client = true;
        self.inbound.clear();
        self.client_write_queue = Vec::new();
        self.client_interest = Interest { readable: true, writable: false };
        let mut actions: Vec<Action> = Vec::new();
        if self.pty_read_paused {
            self.resume(&mut actions);
        }
        assert(self@ =~= old(self)@.after_accept().0);
        assert(actions@ =~= old(self)@.after_accept().1);
        AcceptPlan { evict, handshake: greeting, actions, redraw: self.child_running() }
    }

    fn drop_client(&mut self, actions: &mut Vec<Action>)
        ensures
            final(self)@ == old(self)@.without_client().0,
            final(actions)@ == old(actions)@ + old(self)@.without_client().1,
    {
        if self.client {
            self.client = false;
            actions.push(Action::DropClient);
        }
        assert(actions@ =~= old(actions)@ + old(self)@.without_client().1);
        assert(self@ =~= old(self)@.without_client().0);
    }

    fn watch_pty(&mut self, interest: Interest, actions: &mut Vec<Action>)
        ensures
            final(self)@ == (SessionView { pty_interest: interest, ..old(self)@ }),
            final(actions)@ == old(actions)@.push(Action::WatchPty(interest)),
    {
        self.pty_interest = interest;
        actions.push(Action::WatchPty(interest));
        assert(self@ =~= SessionView { pty_interest: interest, ..old(self)@ });
    }

    fn watch_client(&mut self, interest: Interest, actions: &mut Vec<Action>)
        ensures
            final(self)@ == (SessionView { client_interest: interest, ..old(self)@ }),
            final(actions)@ == old(actions)@.push(Action::WatchClient(interest)),
    {
        self.client_interest = interest;
        actions.push(Action::WatchClient(interest));
        assert(self@ =~= SessionView { client_interest: interest, ..old(self)@ });
    }

    /// A read from the PTY has been tried.
    pub fn on_pty_read(&mut self, read: &Result<Vec<u8>, IoFault>) -> (actions: Vec<Action>)
        ensures
            final(self)@ == old(self)@.after_pty_read(inbound::brought(*read)).0,
            actions@ == old(self)@.after_pty_read(inbound::brought(*read)).1,
    {
        let mut actions: Vec<Action> = Vec::new();
        match read {
            Ok(data) => {
                if data.len() > 0 {
                    actions.push(Action::FeedTerminal);
                    if self.client {
                        let framed: Vec<u8> = data_frame(data.as_slice());
                        push_bytes(&mut self.client_write_queue, framed.as_slice());
                        if self.client_write_queue.len() >= HIGH_WATER && !self.pty_read_paused {
                            self.pty_read_paused = true;
                            let quiet = Interest {
                                readable: false,
                                writable: self.pty_wants_write,
                            };
                            self.watch_pty(quiet, &mut actions);
                        }
                        let all = Interest { readable: true, writable: true };
                        self.watch_client(all, &mut actions);
                    }
                }
            },
            Err(e) => {
                match e.kind {
                    IoKind::WouldBlock => {},
                    IoKind::HungUp => {
                        actions.push(Action::SkipEvent);
                    },
                    _ => {
                        actions.push(Action::Stop);
                    },
                }
            },
        }
        assert(actions@ =~= old(self)@.after_pty_read(inbound::brought(*read)).1);
        assert(self@ =~= old(self)@.after_pty_read(inbound::brought(*read)).0);
        actions
    }

    /// A write of the queued input to the PTY has been tried.
    pub fn on_pty_written(&mut self, written: Result<usize, IoFault>) -> (actions: Vec<Action>)
        requires
            written matches Ok(n) ==> n <= old(self)@.pty_queue.len(),
        ensures
            final(self)@ == old(self)@.after_pty_written(count(written)).0,
            actions@ == old(self)@.after_pty_written(count(written)).1,
    {
        let mut actions: Vec<Action> = Vec::new();
        match written {
            Ok(n) => {
                drop_front(&mut self.pty_write_queue, n);
                if self.pty_write_queue.len() == 0 && self.pty_wants_write {
                    self.pty_wants_write = false;
                    let interest = Interest { readable: !self.pty_read_paused, writable: false };
                    self.watch_pty(interest, &mut actions);
                }
            },
            Err(ref e) => {
                if !would_block(e) {
                    actions.push(Action::Stop);
                }
            },
        }
        assert(actions@ =~= old(self)@.after_pty_written(count(written)).1);
        assert(self@ =~= old(self)@.after_pty_written(count(written)).0);
        actions
    }

    fn resume(&mut self, actions: &mut Vec<Action>)
        ensures
            final(self)@ == old(self)@.resumed().0,
            final(actions)@ == old(actions)@ + old(self)@.resumed().1,
    {
        self.pty_read_paused = false;
        let interest = Interest { readable: true, writable: self.pty_wants_write };
        self.watch_pty(interest, actions);
        assert(actions@ =~= old(actions)@ + old(self)@.resumed().1);
        assert(self@ =~= old(self)@.resumed().0);
    }

    /// A write of the queued output to the client has been tried.
    pub fn on_client_written(&mut self, written: Result<usize, IoFault>) -> (actions: Vec<Action>)
        requires
            written matches Ok(n) ==> n <= old(self)@.client_queue.len(),
        ensures
            final(self)@ == old(self)@.after_client_written(count(written)).0,
            actions@ == old(self)@.after_client_written(count(written)).1,
    {
        let mut actions: Vec<Action> = Vec::new();
        let lost: bool = match written {
            Ok(n) => n == 0,
            Err(ref e) => !would_block(e),
        };
        if lost {
            self.drop_client(&mut actions);
            self.client_write_queue = Vec::new();
        } else if let Ok(n) = written {
            drop_front(&mut self.client_write_queue, n);
            if self.pty_read_paused && self.client_write_queue.len() < LOW_WATER {
                self.resume(&mut actions);
            }
            if self.client_write_queue.len() == 0 {
                self.watch_client(Interest { readable: true, writable: false }, &mut actions);
            }
        }
        assert(actions@ =~= old(self)@.after_client_written(count(written)).1);
        assert(self@ =~= old(self)@.after_client_written(count(written)).0);
        actions
    }

    fn on_message(&mut self, message: &ClientMessage, actions: &mut Vec<Action>)
        ensures
            final(self)@ == old(self)@.after_message(message@).0,
            final(actions)@ == old(actions)@ + old(self)@.after_message(message@).1,
    {
        match message {
            ClientMessage::Data(bytes) => {
                if bytes.len() > 0 {
                    push_bytes(&mut self.pty_write_queue, bytes.as_slice());
                    if !self.pty_wants_write {
                        self.pty_wants_write = true;
                        self.watch_pty(Interest { readable: true, writable: true }, actions);
                    }
                }
            },
            ClientMessage::Resize(size) => {
                actions.push(Action::Resize(*size));
            },
            ClientMessage::Detach => {
                self.drop_client(actions);
            },
            ClientMessage::Kill => {
                actions.push(Action::HangUpChild);
                self.drop_client(actions);
                actions.push(Action::Stop);
            },
        }
        assert(actions@ =~= old(actions)@ + old(self)@.after_message(message@).1);
        assert(self@ =~= old(self)@.after_message(message@).0);
    }

    /// A read from the client has been tried.
    pub fn on_client_read(&mut self, read: Result<Vec<u8>, IoFault>) -> (actions: Vec<Action>)
        ensures
            final(self)@ == old(self)@.after_client_read(inbound::brought(read)).0,
            actions@ == old(self)@.after_client_read(inbound::brought(read)).1,
    {
        let mut actions: Vec<Action> = Vec::new();
        let outcome: Result<Vec<ClientMessage>, ReadClientError> = read_client_bytes(
            read,
            &mut self.inbound,
        );
        let ghost s = self@;
        let ghost end = old(self)@.after_client_read(inbound::brought(read));
        match outcome {
            Ok(messages) => {
                let ghost ms = inbound::said(messages@);
                let mut i: usize = 0;
                assert(ms.skip(0) =~= ms);
                assert(actions@ + s.after_messages(ms).1 =~= s.after_messages(ms).1);
                while i < messages.len()
                    invariant_except_break
                        end.0 == self@.after_messages(ms.skip(i as int)).0,
                        end.1 == actions@ + self@.after_messages(ms.skip(i as int)).1,
                    invariant
                        i <= messages@.len(),
                        ms == inbound::said(messages@),
                    ensures
                        self@ == end.0,
                        actions@ == end.1,
                    decreases messages@.len() - i,
                {
                    let ghost tail = ms.skip(i as int);
                    let ghost before = actions@;
                    let ghost at = self@;
                    assert(tail[0] == messages@[i as int]@);
                    assert(tail.skip(1) =~= ms.skip(i + 1));
                    self.on_message(&messages[i], &mut actions);
                    if let ClientMessage::Kill = messages[i] {
                        break;
                    }
                    assert(before + (at.after_message(tail[0]).1 + self@.after_messages(
                        ms.skip(i + 1),
                    ).1) =~= actions@ + self@.after_messages(ms.skip(i + 1)).1);
                    i = i + 1;
                    proof {
                        if i == messages@.len() {
                            assert(actions@ + Seq::<Action>::empty() =~= actions@);
                        }
                    }
                }
            },
            Err(_) => {
                self.drop_client(&mut actions);
                assert(actions@ =~= end.1);
            },
        }
        actions
    }

    /// The child's status has been asked for at time `now`.
    pub fn on_child_status(&mut self, status: Result<Option<i32>, IoFault>, now: u128) -> (actions:
        Vec<Action>)
        ensures
            final(self)@ == old(self)@.after_child_status(reported(status), now).0,
            actions@ == old(self)@.after_child_status(reported(status), now).1,
    {
        let mut actions: Vec<Action> = Vec::new();
        if let Ok(Some(raw)) = status {
            if self.exited_at.is_none() {
                self.exited_at = Some(now);
            }
            self.exit_status = Some(raw);
            if self.client {
                let message = HostMessage::ChildExit { raw_status: Some(raw) };
                message.encode_into(&mut self.client_write_queue);
                let all = Interest { readable: true, writable: true };
                self.watch_client(all, &mut actions);
            }
        }
        assert(actions@ =~= old(self)@.after_child_status(reported(status), now).1);
        assert(self@ =~= old(self)@.after_child_status(reported(status), now).0);
        actions
    }

    /// All events of a wait have been handled.
    pub fn on_turn_end(&mut self) -> (actions: Vec<Action>)
        ensures
            final(self)@ == old(self)@.after_turn().0,
            actions@ == old(self)@.after_turn().1,
    {
        let mut actions: Vec<Action> = Vec::new();
        if !self.client {
            if self.client_write_queue.len() > 0 {
                self.client_write_queue = Vec::new();
            }
            assert(self.client_write_queue@ =~= Seq::<u8>::empty());
            if self.pty_read_paused {
                self.resume(&mut actions);
            }
        }
        assert(actions@ =~= old(self)@.after_turn().1);
        assert(self@ =~= old(self)@.after_turn().0);
        actions
    }
}

/// How much a write took.
pub open spec fn count(written: Result<usize, IoFault>) -> Result<usize, IoFaultView> {
    match written {
        Ok(n) => Ok(n),
        Err(e) => Err(e@),
    }
}

/// What asking for the child's status brought.
pub open spec fn reported(status: Result<Option<i32>, IoFault>) -> Result<
    Option<i32>,
    IoFaultView,
> {
    match status {
        Ok(raw) => Ok(raw),
        Err(e) => Err(e@),
    }
}

/// The frame that carries PTY output to the client.
fn data_frame(data: &[u8]) -> (framed: Vec<u8>)
    ensures
        framed@ == HostMessageView::Data(data@).wire(),
{
    let message = HostMessage::Data(slice_to_vec(data));
    message.encode()
}

} // verus!
