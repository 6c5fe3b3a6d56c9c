//! What holds between a session and its client.

use vstd::prelude::*;

use crate::client;
use crate::client::{HandshakeView, HostInfo};
use crate::inbound;
use crate::protocol;
use crate::protocol::{
    ClientMessageView, DecodeErrorView, HostMessageView, WindowSize, MAX_PAYLOAD_SIZE,
};
use crate::session;
use crate::session::{Action, SessionView, READ_BUF_SIZE};
use crate::session_laws;

verus! {

/// The frames of several host messages, one after the other.
pub open spec fn host_wires(ms: Seq<HostMessageView>) -> Seq<u8>
    decreases ms.len(),
{
    if ms.len() == 0 {
        seq![]
    } else {
        ms[0].wire() + host_wires(ms.skip(1))
    }
}

/// Whether every host message fits in a frame.
pub open spec fn all_fit(ms: Seq<HostMessageView>) -> bool {
    forall|i: int| 0 <= i < ms.len() ==> (#[trigger] ms[i]).payload().len() <= MAX_PAYLOAD_SIZE
}

/// Several byte strings, one after the other.
pub open spec fn concat(parts: Seq<Seq<u8>>) -> Seq<u8>
    decreases parts.len(),
{
    if parts.len() == 0 {
        seq![]
    } else {
        parts[0] + concat(parts.skip(1))
    }
}

pub proof fn lemma_wires_of_two(a: Seq<HostMessageView>, b: Seq<HostMessageView>)
    ensures
        host_wires(a + b) == host_wires(a) + host_wires(b),
    decreases a.len(),
{
    if a.len() == 0 {
        assert(a + b =~= b);
        assert(host_wires(a) + host_wires(b) =~= host_wires(b));
    } else {
        assert((a + b).skip(1) =~= a.skip(1) + b);
        lemma_wires_of_two(a.skip(1), b);
        assert(a[0].wire() + (host_wires(a.skip(1)) + host_wires(b)) =~= (a[0].wire() + host_wires(
            a.skip(1),
        )) + host_wires(b));
    }
}

pub proof fn lemma_wires_of_one(m: HostMessageView)
    ensures
        host_wires(seq![m]) == m.wire(),
{
    assert(seq![m].skip(1) =~= Seq::<HostMessageView>::empty());
    assert(host_wires(seq![m].skip(1)) =~= Seq::<u8>::empty());
    assert(m.wire() + Seq::<u8>::empty() =~= m.wire());
}

/// A snapshot in pieces is the whole snapshot, and each piece fits in a frame.
pub proof fn law_snapshot_pieces_make_the_whole(snapshot: Seq<u8>)
    ensures
        concat(session::chunks(snapshot)) == snapshot,
        forall|i: int|
            0 <= i < session::chunks(snapshot).len() ==> 0 < (#[trigger] session::chunks(
                snapshot,
            )[i]).len() <= MAX_PAYLOAD_SIZE,
    decreases snapshot.len(),
{
    let parts = session::chunks(snapshot);
    if snapshot.len() == 0 {
        assert(concat(parts) =~= snapshot);
    } else if snapshot.len() <= MAX_PAYLOAD_SIZE {
        assert(parts.skip(1) =~= Seq::<Seq<u8>>::empty());
        assert(concat(parts.skip(1)) =~= Seq::<u8>::empty());
        assert(concat(parts) =~= snapshot);
    } else {
        let rest = snapshot.skip(MAX_PAYLOAD_SIZE as int);
        law_snapshot_pieces_make_the_whole(rest);
        assert(parts.skip(1) =~= session::chunks(rest));
        assert(snapshot.take(MAX_PAYLOAD_SIZE as int) + rest =~= snapshot);
        assert forall|i: int| 0 <= i < parts.len() implies 0 < (#[trigger] parts[i]).len()
            <= MAX_PAYLOAD_SIZE by {
            if i > 0 {
                assert(parts[i] == session::chunks(rest)[i - 1]);
            }
        }
    }
}

/// Several byte strings as SNAPSHOT messages.
pub open spec fn as_snapshots(parts: Seq<Seq<u8>>) -> Seq<HostMessageView> {
    Seq::new(parts.len(), |i: int| HostMessageView::Snapshot(parts[i]))
}

proof fn lemma_replay(info: HostInfo, so_far: Seq<u8>, parts: Seq<Seq<u8>>, tail: Seq<u8>)
    requires
        forall|i: int| 0 <= i < parts.len() ==> (#[trigger] parts[i]).len() <= MAX_PAYLOAD_SIZE,
    ensures
        client::connected(
            (HandshakeView { host: Some(info), snapshot: so_far }),
            host_wires(as_snapshots(parts)) + tail,
        ) == client::connected(
            (HandshakeView { host: Some(info), snapshot: so_far + concat(parts) }),
            tail,
        ),
    decreases parts.len(),
{
    let h = HandshakeView { host: Some(info), snapshot: so_far };
    if parts.len() == 0 {
        assert(host_wires(as_snapshots(parts)) + tail =~= tail);
        assert(so_far + concat(parts) =~= so_far);
    } else {
        let m = HostMessageView::Snapshot(parts[0]);
        let later = parts.skip(1);
        assert(as_snapshots(parts).skip(1) =~= as_snapshots(later));
        let after = host_wires(as_snapshots(later)) + tail;
        let s = host_wires(as_snapshots(parts)) + tail;
        assert(s =~= m.wire() + after);
        protocol::law_host_message_round_trips(m, after);
        let next = HandshakeView { host: Some(info), snapshot: so_far + parts[0] };
        assert(client::connected(h, s) == client::connected(next, after));
        lemma_replay(info, so_far + parts[0], later, tail);
        assert(so_far + parts[0] + concat(later) =~= so_far + concat(parts));
    }
}

/// A client that connects gets the session back: the child's PID, the size of
/// the terminal and its state, byte for byte and however large, whatever the
/// host sends afterwards. What is left on the stream is the child's exit, where
/// it has exited, and then what the host sends afterwards.
pub proof fn law_connecting_restores_the_session(
    s: SessionView,
    size: WindowSize,
    snapshot: Seq<u8>,
    live: Seq<u8>,
)
    ensures
        client::connected(
            client::unconnected(),
            host_wires(session::handshake(s, size, snapshot)) + live,
        ) == (
            Ok::<HandshakeView, client::ConnectErrorView>(
                (HandshakeView {
                    host: Some(HostInfo { pid: s.pid, cols: size.cols, rows: size.rows }),
                    snapshot,
                }),
            ),
            if s.child_exited() {
                HostMessageView::ChildExit(s.exit_status).wire() + live
            } else {
                live
            },
        ),
{
    let ready = HostMessageView::Ready {
        version: protocol::PROTOCOL_VERSION,
        pid: s.pid,
        cols: size.cols,
        rows: size.rows,
    };
    let info = HostInfo { pid: s.pid, cols: size.cols, rows: size.rows };
    let parts = session::chunks(snapshot);
    let done = HostMessageView::ReplayDone;
    let exit = HostMessageView::ChildExit(s.exit_status);
    let ending = if s.child_exited() {
        seq![exit]
    } else {
        seq![]
    };
    let greeting = session::handshake(s, size, snapshot);
    assert(session::snapshot_messages(snapshot) =~= as_snapshots(parts));
    assert(greeting =~= seq![ready] + (as_snapshots(parts) + (seq![done] + ending)));
    lemma_wires_of_two(seq![ready], as_snapshots(parts) + (seq![done] + ending));
    lemma_wires_of_two(as_snapshots(parts), seq![done] + ending);
    lemma_wires_of_two(seq![done], ending);
    lemma_wires_of_one(ready);
    lemma_wires_of_one(done);
    lemma_wires_of_one(exit);
    let left = host_wires(ending) + live;
    let after_ready = host_wires(as_snapshots(parts)) + (done.wire() + left);
    assert(host_wires(greeting) + live =~= ready.wire() + after_ready);
    protocol::law_host_message_round_trips(ready, after_ready);
    let known = HandshakeView { host: Some(info), snapshot: seq![] };
    assert(client::connected(client::unconnected(), host_wires(greeting) + live)
        == client::connected(known, after_ready));
    law_snapshot_pieces_make_the_whole(snapshot);
    lemma_replay(info, seq![], parts, done.wire() + left);
    assert(Seq::<u8>::empty() + concat(parts) =~= snapshot);
    protocol::law_host_message_round_trips(done, left);
    assert(left =~= if s.child_exited() {
        exit.wire() + live
    } else {
        live
    });
}

/// A host that speaks another version is never connected to.
pub proof fn law_other_versions_are_refused(
    version: u32,
    pid: u32,
    cols: u16,
    rows: u16,
    rest: Seq<u8>,
)
    requires
        version != protocol::PROTOCOL_VERSION,
    ensures
        client::connected(
            client::unconnected(),
            (HostMessageView::Ready { version, pid, cols, rows }).wire() + rest,
        ).0 == Err::<HandshakeView, client::ConnectErrorView>(
            client::ConnectErrorView::VersionMismatch(version),
        ),
{
    protocol::law_host_message_round_trips(
        HostMessageView::Ready { version, pid, cols, rows },
        rest,
    );
}

/// A client skips a replay frame over the payload limit and goes on with what
/// follows it.
pub proof fn law_oversized_replay_is_skipped(
    h: HandshakeView,
    tag: u8,
    payload: Seq<u8>,
    rest: Seq<u8>,
)
    requires
        h.host is Some,
        MAX_PAYLOAD_SIZE < payload.len() <= u32::MAX,
    ensures
        client::connected(h, protocol::frame(tag, payload) + rest) == client::connected(h, rest),
{
    protocol::law_oversized_frame_keeps_its_payload(tag, payload, rest);
    assert((payload + rest).skip(payload.len() as int) =~= rest);
}

/// The terminal output that host messages carry.
pub open spec fn output_of(ms: Seq<HostMessageView>) -> Seq<u8>
    decreases ms.len(),
{
    if ms.len() == 0 {
        seq![]
    } else {
        match ms[0] {
            HostMessageView::Data(bytes) => bytes + output_of(ms.skip(1)),
            _ => output_of(ms.skip(1)),
        }
    }
}

/// The child events that host messages carry.
pub open spec fn events_of(ms: Seq<HostMessageView>) -> Seq<u8>
    decreases ms.len(),
{
    if ms.len() == 0 {
        seq![]
    } else {
        match ms[0] {
            HostMessageView::ChildExit(raw_status) => protocol::status_bytes(raw_status)
                + events_of(ms.skip(1)),
            _ => events_of(ms.skip(1)),
        }
    }
}

/// Whether no host message reports an error.
pub open spec fn no_error(ms: Seq<HostMessageView>) -> bool {
    forall|i: int| 0 <= i < ms.len() ==> !((#[trigger] ms[i]) is Error)
}

pub proof fn lemma_one_live_message(m: HostMessageView, after: Seq<u8>)
    requires
        m.payload().len() <= MAX_PAYLOAD_SIZE,
        !(m is Error),
    ensures
        client::deframed(m.wire() + after) == match m {
            HostMessageView::Data(bytes) => (
                bytes + client::deframed(after).0,
                client::deframed(after).1,
            ),
            HostMessageView::ChildExit(raw_status) => (
                client::deframed(after).0,
                protocol::status_bytes(raw_status) + client::deframed(after).1,
            ),
            _ => client::deframed(after),
        },
{
    protocol::law_host_message_round_trips(m, after);
}

/// What a host sends live arrives: the terminal output byte for byte and in
/// order, and every exit of the child.
pub proof fn law_live_messages_arrive(ms: Seq<HostMessageView>, tail: Seq<u8>)
    requires
        all_fit(ms),
        no_error(ms),
    ensures
        client::deframed(host_wires(ms) + tail).0 == output_of(ms) + client::deframed(tail).0,
        client::deframed(host_wires(ms) + tail).1 == events_of(ms) + client::deframed(tail).1,
    decreases ms.len(),
{
    let (data, child) = client::deframed(tail);
    if ms.len() == 0 {
        assert(host_wires(ms) + tail =~= tail);
        assert(output_of(ms) + data =~= data);
        assert(events_of(ms) + child =~= child);
    } else {
        let later = ms.skip(1);
        assert forall|i: int| 0 <= i < later.len() implies (#[trigger] later[i]).payload().len()
            <= MAX_PAYLOAD_SIZE && !(later[i] is Error) by {
            assert(later[i] == ms[i + 1]);
        }
        let after = host_wires(later) + tail;
        assert(host_wires(ms) + tail =~= ms[0].wire() + after);
        lemma_one_live_message(ms[0], after);
        law_live_messages_arrive(later, tail);
        assert(client::deframed(host_wires(ms) + tail).0 =~= output_of(ms) + data);
        assert(client::deframed(host_wires(ms) + tail).1 =~= events_of(ms) + child);
    }
}

/// A child event says what the host said of the exit, and an error of the host
/// reads as an exit with status minus one.
pub proof fn law_child_events_read_back(raw_status: Option<i32>)
    ensures
        protocol::status_bytes(raw_status).len() == 5,
        protocol::status_of(protocol::status_bytes(raw_status)) == raw_status,
        client::error_event().len() == 5,
        protocol::status_of(client::error_event()) == Some(-1i32),
{
    protocol::law_status_round_trips(raw_status);
}

/// Several byte strings as DATA messages from the client.
pub open spec fn as_input(parts: Seq<Seq<u8>>) -> Seq<ClientMessageView> {
    Seq::new(parts.len(), |i: int| ClientMessageView::Data(parts[i]))
}

proof fn lemma_typed_input(parts: Seq<Seq<u8>>)
    ensures
        session_laws::typed(as_input(parts)) == concat(parts),
    decreases parts.len(),
{
    if parts.len() > 0 {
        assert(as_input(parts).skip(1) =~= as_input(parts.skip(1)));
        lemma_typed_input(parts.skip(1));
    }
}

/// The session after several reads from the client.
pub open spec fn after_client_reads(s: SessionView, chunks: Seq<Seq<u8>>) -> SessionView
    decreases chunks.len(),
{
    if chunks.len() == 0 {
        s
    } else {
        after_client_reads(s.after_client_read(Ok(chunks[0])).0, chunks.skip(1))
    }
}

proof fn lemma_reads(s: SessionView, chunks: Seq<Seq<u8>>, ms: Seq<ClientMessageView>)
    requires
        forall|i: int| 0 <= i < chunks.len() ==> 0 < (#[trigger] chunks[i]).len(),
        forall|i: int| 0 <= i < ms.len() ==> (#[trigger] ms[i]) is Data,
        inbound::client_stream(s.inbound) == Ok::<
            (Seq<ClientMessageView>, Seq<u8>),
            DecodeErrorView,
        >((seq![], s.inbound)),
        inbound::client_stream(s.inbound + concat(chunks)) == Ok::<
            (Seq<ClientMessageView>, Seq<u8>),
            DecodeErrorView,
        >((ms, seq![])),
    ensures
        after_client_reads(s, chunks).pty_queue == s.pty_queue + session_laws::typed(ms),
        after_client_reads(s, chunks).inbound == Seq::<u8>::empty(),
    decreases chunks.len(),
{
    let r = s.inbound;
    if chunks.len() == 0 {
        assert(r + concat(chunks) =~= r);
        assert(s.pty_queue + session_laws::typed(ms) =~= s.pty_queue);
    } else {
        let later = chunks.skip(1);
        assert forall|i: int| 0 <= i < later.len() implies 0 < (#[trigger] later[i]).len() by {
            assert(later[i] == chunks[i + 1]);
        }
        let a = r + chunks[0];
        let b = concat(later);
        assert(r + concat(chunks) =~= a + b);
        inbound::law_reads_may_be_cut(a, b);
        inbound::law_pending_bytes_leave_room(a);
        if let Ok((early, rest)) = inbound::client_stream(a) {
            if let Ok((late, _)) = inbound::client_stream(rest + b) {
                assert(ms == early + late);
                assert forall|i: int|
                    0 <= i < early.len() implies (#[trigger] early[i]) is Data by {
                    assert(early[i] == ms[i]);
                }
                assert forall|i: int| 0 <= i < late.len() implies (#[trigger] late[i]) is Data by {
                    assert(late[i] == ms[early.len() + i]);
                }
                let read = SessionView { inbound: rest, ..s };
                let next = s.after_client_read(Ok(chunks[0])).0;
                assert(chunks[0].len() > 0);
                assert(next == read.after_messages(early).0);
                session_laws::law_typed_bytes_are_queued(read, early);
                lemma_inbound_is_kept(read, early);
                lemma_reads(next, later, late);
                lemma_typed_of_two(early, late);
                assert(s.pty_queue + session_laws::typed(early) + session_laws::typed(late)
                    =~= s.pty_queue + session_laws::typed(ms));
            }
        }
    }
}

/// What a client types reaches the PTY: however it is divided into writes, and
/// wherever the frames are cut between the reads of the session, the bytes are
/// queued for the PTY in full and in order.
pub proof fn law_input_reaches_the_pty(
    s: SessionView,
    parts: Seq<Seq<u8>>,
    chunks: Seq<Seq<u8>>,
)
    requires
        s.inbound == Seq::<u8>::empty(),
        forall|i: int| 0 <= i < parts.len() ==> (#[trigger] parts[i]).len() <= MAX_PAYLOAD_SIZE,
        forall|i: int| 0 <= i < chunks.len() ==> 0 < (#[trigger] chunks[i]).len(),
        concat(chunks) == inbound::wires(as_input(parts)),
    ensures
        after_client_reads(s, chunks).pty_queue == s.pty_queue + concat(parts),
        after_client_reads(s, chunks).inbound == Seq::<u8>::empty(),
{
    let ms = as_input(parts);
    let sent = inbound::wires(ms);
    inbound::law_sent_messages_arrive(ms, seq![]);
    assert(sent + Seq::<u8>::empty() =~= sent);
    assert(s.inbound + sent =~= sent);
    assert(ms + Seq::<ClientMessageView>::empty() =~= ms);
    lemma_reads(s, chunks, ms);
    lemma_typed_input(parts);
}

proof fn lemma_inbound_is_kept(s: SessionView, ms: Seq<ClientMessageView>)
    ensures
        s.after_messages(ms).0.inbound == s.inbound,
    decreases ms.len(),
{
    if ms.len() > 0 && !(ms[0] is Kill) {
        lemma_inbound_is_kept(s.after_message(ms[0]).0, ms.skip(1));
    }
}

proof fn lemma_typed_of_two(early: Seq<ClientMessageView>, late: Seq<ClientMessageView>)
    requires
        forall|i: int| 0 <= i < early.len() ==> (#[trigger] early[i]) is Data,
    ensures
        session_laws::typed(early + late) == session_laws::typed(early) + session_laws::typed(late),
    decreases early.len(),
{
    if early.len() == 0 {
        assert(early + late =~= late);
        assert(session_laws::typed(early) + session_laws::typed(late) =~= session_laws::typed(
            late,
        ));
    } else {
        let later = early.skip(1);
        assert((early + late).skip(1) =~= later + late);
        assert forall|i: int| 0 <= i < later.len() implies (#[trigger] later[i]) is Data by {
            assert(later[i] == early[i + 1]);
        }
        lemma_typed_of_two(later, late);
        if let ClientMessageView::Data(bytes) = early[0] {
            assert(bytes + (session_laws::typed(later) + session_laws::typed(late))
                =~= session_laws::typed(early) + session_laws::typed(late));
        }
    }
}

/// A resize reaches the terminal as the client asked for it, and changes nothing
/// else.
pub proof fn law_resizes_reach_the_terminal(s: SessionView, size: WindowSize)
    requires
        s.inbound == Seq::<u8>::empty(),
    ensures
        s.after_client_read(Ok(ClientMessageView::Resize(size).wire())) == (
            s,
            seq![Action::Resize(size)],
        ),
{
    let m = ClientMessageView::Resize(size);
    let sent = m.wire();
    assert(m.payload().len() == 8);
    inbound::law_sent_messages_arrive(seq![m], seq![]);
    assert(seq![m].skip(1) =~= Seq::<ClientMessageView>::empty());
    assert(inbound::wires(seq![m].skip(1)) =~= Seq::<u8>::empty());
    assert(inbound::wires(seq![m]) + Seq::<u8>::empty() =~= sent);
    assert(Seq::<u8>::empty() + sent =~= sent);
    assert(seq![m] + Seq::<ClientMessageView>::empty() =~= seq![m]);
    let read = SessionView { inbound: Seq::empty(), ..s };
    assert(read == s);
    assert(inbound::client_read(Ok(sent), s.inbound).0 == Ok::<
        Seq<ClientMessageView>,
        inbound::ReadClientErrorView,
    >(seq![m]));
    assert(s.after_messages(seq![m].skip(1)) == (s, Seq::<Action>::empty()));
    assert(seq![Action::Resize(size)] + Seq::<Action>::empty() =~= seq![Action::Resize(size)]);
}

/// A client that sends a frame of an unknown type is disconnected, and nothing
/// else comes of the frame.
pub proof fn law_unknown_types_disconnect(s: SessionView, tag: u8, payload: Seq<u8>)
    requires
        s.client,
        s.inbound == Seq::<u8>::empty(),
        !(0x01 <= tag <= 0x04),
        payload.len() <= MAX_PAYLOAD_SIZE,
    ensures
        ({
            let (end, actions) = s.after_client_read(Ok(protocol::frame(tag, payload)));
            &&& actions == seq![Action::DropClient]
            &&& end == SessionView { client: false, inbound: end.inbound, ..s }
        }),
{
    let sent = protocol::frame(tag, payload);
    protocol::lemma_frame_round_trips(tag, payload, seq![]);
    protocol::law_unknown_tags_are_refused(tag, payload, seq![]);
    assert(sent + Seq::<u8>::empty() =~= sent);
    assert(Seq::<u8>::empty() + sent =~= sent);
}

/// Several byte strings as DATA messages from the host.
pub open spec fn as_output(parts: Seq<Seq<u8>>) -> Seq<HostMessageView> {
    Seq::new(parts.len(), |i: int| HostMessageView::Data(parts[i]))
}

/// The session after several reads from the PTY.
pub open spec fn after_pty_reads(s: SessionView, parts: Seq<Seq<u8>>) -> SessionView
    decreases parts.len(),
{
    if parts.len() == 0 {
        s
    } else {
        after_pty_reads(s.after_pty_read(Ok(parts[0])).0, parts.skip(1))
    }
}

proof fn lemma_output_is_queued(s: SessionView, parts: Seq<Seq<u8>>)
    requires
        s.client,
        forall|i: int| 0 <= i < parts.len() ==> 0 < (#[trigger] parts[i]).len(),
    ensures
        after_pty_reads(s, parts).client_queue == s.client_queue + host_wires(as_output(parts)),
        after_pty_reads(s, parts).client,
    decreases parts.len(),
{
    let ms = as_output(parts);
    if parts.len() == 0 {
        assert(s.client_queue + host_wires(ms) =~= s.client_queue);
    } else {
        let later = parts.skip(1);
        assert forall|i: int| 0 <= i < later.len() implies 0 < (#[trigger] later[i]).len() by {
            assert(later[i] == parts[i + 1]);
        }
        assert(ms.skip(1) =~= as_output(later));
        assert(parts[0].len() > 0);
        lemma_output_is_queued(s.after_pty_read(Ok(parts[0])).0, later);
        assert(s.client_queue + ms[0].wire() + host_wires(as_output(later)) =~= s.client_queue
            + host_wires(ms));
    }
}

proof fn lemma_output_of_output(parts: Seq<Seq<u8>>)
    ensures
        output_of(as_output(parts)) == concat(parts),
    decreases parts.len(),
{
    if parts.len() > 0 {
        assert(as_output(parts).skip(1) =~= as_output(parts.skip(1)));
        lemma_output_of_output(parts.skip(1));
    }
}

/// What the shell prints reaches the client: the session queues every read from
/// the PTY behind what is queued already, and the client reads back exactly the
/// bytes that were read, in order.
pub proof fn law_output_reaches_the_client(s: SessionView, parts: Seq<Seq<u8>>)
    requires
        s.client,
        forall|i: int|
            0 <= i < parts.len() ==> 0 < (#[trigger] parts[i]).len() <= READ_BUF_SIZE,
    ensures
        after_pty_reads(s, parts).client_queue == s.client_queue + host_wires(as_output(parts)),
        client::deframed(host_wires(as_output(parts))).0 == concat(parts),
{
    lemma_output_is_queued(s, parts);
    let ms = as_output(parts);
    assert forall|i: int| 0 <= i < ms.len() implies (#[trigger] ms[i]).payload().len()
        <= MAX_PAYLOAD_SIZE && !(ms[i] is Error) by {
        assert(parts[i].len() <= READ_BUF_SIZE);
    }
    law_live_messages_arrive(ms, seq![]);
    assert(host_wires(ms) + Seq::<u8>::empty() =~= host_wires(ms));
    lemma_output_of_output(parts);
    assert(output_of(ms) + client::deframed(seq![]).0 =~= concat(parts));
}

} // verus!
