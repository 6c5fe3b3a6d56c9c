//! What holds of a connection from the accept to its end, whatever happens in
//! between.

use vstd::prelude::*;
use vstd::utf8::*;

use crate::client;
use crate::client::{HandshakeView, HostInfo};
use crate::client_laws;
use crate::protocol;
use crate::protocol::{HostMessageView, WindowSize, MAX_PAYLOAD_SIZE};
use crate::session;
use crate::session::{SessionView, READ_BUF_SIZE};
use crate::session_laws;
use crate::session_laws::Step;

verus! {

/// What a connected client is told because of a step.
pub open spec fn told_by(step: Step) -> Seq<HostMessageView> {
    match step {
        Step::PtyRead(Ok(data)) => if data.len() > 0 {
            seq![HostMessageView::Data(data)]
        } else {
            seq![]
        },
        Step::ChildStatus(Ok(Some(raw)), _) => seq![HostMessageView::ChildExit(Some(raw))],
        _ => seq![],
    }
}

/// What a connected client is told because of several steps.
pub open spec fn told_in(steps: Seq<Step>) -> Seq<HostMessageView>
    decreases steps.len(),
{
    if steps.len() == 0 {
        seq![]
    } else {
        told_by(steps[0]) + told_in(steps.skip(1))
    }
}

/// The bytes that a step puts on the client's connection.
pub open spec fn sent_by(s: SessionView, step: Step) -> Seq<u8> {
    match step {
        Step::ClientWritten(Ok(n)) => s.client_queue.take(n as int),
        _ => seq![],
    }
}

/// The bytes that several steps put on the client's connection.
pub open spec fn sent_in(s: SessionView, steps: Seq<Step>) -> Seq<u8>
    decreases steps.len(),
{
    if steps.len() == 0 {
        seq![]
    } else {
        sent_by(s, steps[0]) + sent_in(session_laws::taken(s, steps[0]).0, steps.skip(1))
    }
}

/// Whether a connection lasts through several steps: its client stays, and no
/// other one takes its place.
pub open spec fn lasts(s: SessionView, steps: Seq<Step>) -> bool
    decreases steps.len(),
{
    s.client && (steps.len() > 0 ==> !(steps[0] is Accept) && lasts(
        session_laws::taken(s, steps[0]).0,
        steps.skip(1),
    ))
}

/// Whether no read of several steps gives more than the read buffer holds.
pub open spec fn reads_fit(steps: Seq<Step>) -> bool {
    forall|i: int|
        0 <= i < steps.len() ==> ((#[trigger] steps[i]) matches Step::PtyRead(Ok(data))
            ==> data.len() <= READ_BUF_SIZE)
}

/// What the PTY printed in several steps.
pub open spec fn printed_in(steps: Seq<Step>) -> Seq<u8>
    decreases steps.len(),
{
    if steps.len() == 0 {
        seq![]
    } else {
        match steps[0] {
            Step::PtyRead(Ok(data)) => data + printed_in(steps.skip(1)),
            _ => printed_in(steps.skip(1)),
        }
    }
}

/// The child events of several steps.
pub open spec fn exits_in(steps: Seq<Step>) -> Seq<u8>
    decreases steps.len(),
{
    if steps.len() == 0 {
        seq![]
    } else {
        match steps[0] {
            Step::ChildStatus(Ok(Some(raw)), _) => protocol::status_bytes(Some(raw)) + exits_in(
                steps.skip(1),
            ),
            _ => exits_in(steps.skip(1)),
        }
    }
}

/// The child event of an exit before the client came.
pub open spec fn exit_before(s: SessionView) -> Seq<u8> {
    if s.child_exited() {
        protocol::status_bytes(s.exit_status)
    } else {
        seq![]
    }
}

/// Nothing is lost, added or reordered on the way to the client: what was queued
/// and the frames of what the client is told are what has been sent and what is
/// still queued.
pub proof fn law_output_is_sent_in_order(s: SessionView, steps: Seq<Step>)
    requires
        session_laws::all_possible(s, steps),
        lasts(s, steps),
    ensures
        sent_in(s, steps) + session_laws::ran(s, steps).client_queue == s.client_queue
            + client_laws::host_wires(told_in(steps)),
    decreases steps.len(),
{
    let queue = s.client_queue;
    if steps.len() == 0 {
        assert(sent_in(s, steps) + queue =~= queue + client_laws::host_wires(told_in(steps)));
    } else {
        let step = steps[0];
        let next = session_laws::taken(s, step).0;
        let later = steps.skip(1);
        let end = session_laws::ran(next, later).client_queue;
        let more = client_laws::host_wires(told_in(later));
        assert(lasts(next, later));
        law_output_is_sent_in_order(next, later);
        session_laws::law_queued_output_is_kept(s, step);
        client_laws::lemma_wires_of_two(told_by(step), told_in(later));
        let told = client_laws::host_wires(told_by(step));
        assert(sent_by(s, step) + next.client_queue == queue + told) by {
            match step {
                Step::PtyRead(Ok(data)) => {
                    if data.len() > 0 {
                        client_laws::lemma_wires_of_one(HostMessageView::Data(data));
                    }
                },
                Step::ChildStatus(Ok(Some(raw)), _) => {
                    client_laws::lemma_wires_of_one(HostMessageView::ChildExit(Some(raw)));
                },
                _ => {},
            }
            assert(sent_by(s, step) + next.client_queue =~= queue + told);
        }
        assert(sent_in(s, steps) + end =~= sent_by(s, step) + (sent_in(next, later) + end));
        assert(sent_by(s, step) + (next.client_queue + more) =~= (sent_by(s, step)
            + next.client_queue) + more);
        assert(queue + (told + more) =~= (queue + told) + more);
    }
}

proof fn lemma_told_messages_read_back(steps: Seq<Step>)
    requires
        reads_fit(steps),
    ensures
        client_laws::all_fit(told_in(steps)),
        client_laws::no_error(told_in(steps)),
        client_laws::output_of(told_in(steps)) == printed_in(steps),
        client_laws::events_of(told_in(steps)) == exits_in(steps),
    decreases steps.len(),
{
    if steps.len() > 0 {
        let step = steps[0];
        let later = steps.skip(1);
        assert forall|i: int| 0 <= i < later.len() implies ((
        #[trigger] later[i]) matches Step::PtyRead(Ok(data)) ==> data.len()
            <= READ_BUF_SIZE) by {
            assert(later[i] == steps[i + 1]);
        }
        lemma_told_messages_read_back(later);
        let first = told_by(step);
        let ms = told_in(steps);
        assert(first.len() <= 1);
        assert forall|i: int| 0 <= i < ms.len() implies (#[trigger] ms[i]).payload().len()
            <= MAX_PAYLOAD_SIZE && !(ms[i] is Error) by {
            if i >= first.len() {
                assert(ms[i] == told_in(later)[i - first.len()]);
            }
        }
        if first.len() == 0 {
            assert(ms =~= told_in(later));
            assert(printed_in(steps) =~= printed_in(later));
        } else {
            assert(ms.skip(1) =~= told_in(later));
        }
    }
}

proof fn lemma_eviction_fits()
    ensures
        session::eviction().payload().len() <= MAX_PAYLOAD_SIZE,
{
    let reason = "evicted: another client connected"@;
    reveal_strlit("evicted: another client connected");
    assert(is_ascii_chars(reason));
    is_ascii_chars_encode_utf8(reason);
}

/// A connection carries whole frames in order, whatever happens while it lasts:
/// the handshake, then what the client is told, each frame sent or queued in
/// full; and an eviction comes behind all of it.
pub proof fn law_a_connection_carries_whole_frames(
    s: SessionView,
    size: WindowSize,
    snapshot: Seq<u8>,
    steps: Seq<Step>,
)
    requires
        session_laws::all_possible(s.after_accept().0, steps),
        lasts(s.after_accept().0, steps),
    ensures
        ({
            let start = s.after_accept().0;
            let end = session_laws::ran(start, steps);
            let greeting = session::handshake(s, size, snapshot);
            let sent = client_laws::host_wires(greeting) + sent_in(start, steps);
            &&& sent + end.client_queue == client_laws::host_wires(greeting + told_in(steps))
            &&& sent + end.farewell() == client_laws::host_wires(
                greeting + told_in(steps) + seq![session::eviction()],
            )
        }),
{
    let start = s.after_accept().0;
    let end = session_laws::ran(start, steps);
    let greeting = session::handshake(s, size, snapshot);
    let told = told_in(steps);
    let last = session::eviction();
    let sent = client_laws::host_wires(greeting) + sent_in(start, steps);
    law_output_is_sent_in_order(start, steps);
    client_laws::lemma_wires_of_two(greeting, told);
    client_laws::lemma_wires_of_two(greeting + told, seq![last]);
    client_laws::lemma_wires_of_one(last);
    assert(start.client_queue + client_laws::host_wires(told) =~= client_laws::host_wires(told));
    assert(sent + end.client_queue =~= client_laws::host_wires(greeting) + (sent_in(start, steps)
        + end.client_queue));
    assert(sent + end.farewell() =~= (sent + end.client_queue) + last.wire());
}

/// A client gets the session back and then everything that happens while it is
/// connected. It reads the handshake as the session was at the accept; after it,
/// byte for byte, what the PTY printed since, and every exit of the child. A
/// client that another one evicts gets all of this too, and then the eviction,
/// which reads as an exit with status minus one.
pub proof fn law_a_client_gets_the_session_and_its_output(
    s: SessionView,
    size: WindowSize,
    snapshot: Seq<u8>,
    steps: Seq<Step>,
)
    requires
        session_laws::all_possible(s.after_accept().0, steps),
        lasts(s.after_accept().0, steps),
        reads_fit(steps),
    ensures
        ({
            let start = s.after_accept().0;
            let end = session_laws::ran(start, steps);
            let greeting = session::handshake(s, size, snapshot);
            let sent = client_laws::host_wires(greeting) + sent_in(start, steps);
            let (known, live) = client::connected(client::unconnected(), sent + end.client_queue);
            let (also_known, last) = client::connected(
                client::unconnected(),
                sent + end.farewell(),
            );
            let before = exit_before(s);
            &&& known == Ok::<HandshakeView, client::ConnectErrorView>(
                (HandshakeView {
                    host: Some(HostInfo { pid: s.pid, cols: size.cols, rows: size.rows }),
                    snapshot,
                }),
            )
            &&& also_known == known
            &&& client::deframed(live) == (printed_in(steps), before + exits_in(steps))
            &&& client::deframed(last) == (
                printed_in(steps),
                before + exits_in(steps) + client::error_event(),
            )
        }),
{
    lemma_client_reads_queue(s, size, snapshot, steps);
    lemma_client_reads_farewell(s, size, snapshot, steps);
    reveal(gives);
}

/// Whether a stream gives a client the session as it was at the accept, and then
/// this output and these child events.
#[verifier::opaque]
spec fn gives(
    s: SessionView,
    size: WindowSize,
    snapshot: Seq<u8>,
    stream: Seq<u8>,
    output: Seq<u8>,
    events: Seq<u8>,
) -> bool {
    let (known, live) = client::connected(client::unconnected(), stream);
    &&& known == Ok::<HandshakeView, client::ConnectErrorView>(
        (HandshakeView {
            host: Some(HostInfo { pid: s.pid, cols: size.cols, rows: size.rows }),
            snapshot,
        }),
    )
    &&& client::deframed(live) == (output, events)
}

proof fn lemma_client_reads_queue(
    s: SessionView,
    size: WindowSize,
    snapshot: Seq<u8>,
    steps: Seq<Step>,
)
    requires
        session_laws::all_possible(s.after_accept().0, steps),
        lasts(s.after_accept().0, steps),
        reads_fit(steps),
    ensures
        ({
            let start = s.after_accept().0;
            let end = session_laws::ran(start, steps);
            let greeting = client_laws::host_wires(session::handshake(s, size, snapshot));
            gives(
                s,
                size,
                snapshot,
                greeting + sent_in(start, steps) + end.client_queue,
                printed_in(steps),
                exit_before(s) + exits_in(steps),
            )
        }),
{
    let start = s.after_accept().0;
    let end = session_laws::ran(start, steps);
    let greeting = client_laws::host_wires(session::handshake(s, size, snapshot));
    let frames = client_laws::host_wires(told_in(steps));
    law_output_is_sent_in_order(start, steps);
    assert(greeting + sent_in(start, steps) + end.client_queue =~= greeting + frames);
    lemma_told_messages_read_back(steps);
    lemma_eviction_is_last();
    lemma_live_stream(told_in(steps), seq![]);
    assert(frames + Seq::<u8>::empty() =~= frames);
    assert(exits_in(steps) + Seq::<u8>::empty() =~= exits_in(steps));
    assert(printed_in(steps) + Seq::<u8>::empty() =~= printed_in(steps));
    lemma_greeted(s, size, snapshot, frames);
}

proof fn lemma_client_reads_farewell(
    s: SessionView,
    size: WindowSize,
    snapshot: Seq<u8>,
    steps: Seq<Step>,
)
    requires
        session_laws::all_possible(s.after_accept().0, steps),
        lasts(s.after_accept().0, steps),
        reads_fit(steps),
    ensures
        ({
            let start = s.after_accept().0;
            let end = session_laws::ran(start, steps);
            let greeting = client_laws::host_wires(session::handshake(s, size, snapshot));
            gives(
                s,
                size,
                snapshot,
                greeting + sent_in(start, steps) + end.farewell(),
                printed_in(steps),
                exit_before(s) + exits_in(steps) + client::error_event(),
            )
        }),
{
    let start = s.after_accept().0;
    let end = session_laws::ran(start, steps);
    let greeting = client_laws::host_wires(session::handshake(s, size, snapshot));
    let frames = client_laws::host_wires(told_in(steps));
    let farewell = session::eviction().wire();
    law_output_is_sent_in_order(start, steps);
    assert(greeting + sent_in(start, steps) + end.farewell() =~= greeting + (frames + farewell));
    lemma_told_messages_read_back(steps);
    lemma_eviction_is_last();
    lemma_live_stream(told_in(steps), farewell);
    assert(printed_in(steps) + Seq::<u8>::empty() =~= printed_in(steps));
    assert(exit_before(s) + (exits_in(steps) + client::error_event()) =~= exit_before(s)
        + exits_in(steps) + client::error_event());
    lemma_greeted(s, size, snapshot, frames + farewell);
}

proof fn lemma_greeted(s: SessionView, size: WindowSize, snapshot: Seq<u8>, tail: Seq<u8>)
    ensures
        gives(
            s,
            size,
            snapshot,
            client_laws::host_wires(session::handshake(s, size, snapshot)) + tail,
            client::deframed(tail).0,
            exit_before(s) + client::deframed(tail).1,
        ),
{
    reveal(gives);
    client_laws::law_connecting_restores_the_session(s, size, snapshot, tail);
    if s.child_exited() {
        client_laws::lemma_one_live_message(HostMessageView::ChildExit(s.exit_status), tail);
    } else {
        assert(exit_before(s) + client::deframed(tail).1 =~= client::deframed(tail).1);
    }
}

proof fn lemma_live_stream(ms: Seq<HostMessageView>, tail: Seq<u8>)
    requires
        client_laws::all_fit(ms),
        client_laws::no_error(ms),
    ensures
        client::deframed(client_laws::host_wires(ms) + tail) == (
            client_laws::output_of(ms) + client::deframed(tail).0,
            client_laws::events_of(ms) + client::deframed(tail).1,
        ),
{
    client_laws::law_live_messages_arrive(ms, tail);
}

proof fn lemma_eviction_is_last()
    ensures
        client::deframed(session::eviction().wire()) == (
            Seq::<u8>::empty(),
            client::error_event(),
        ),
        client::deframed(seq![]) == (Seq::<u8>::empty(), Seq::<u8>::empty()),
{
    let wire = session::eviction().wire();
    lemma_eviction_fits();
    protocol::law_host_message_round_trips(session::eviction(), seq![]);
    assert(wire + Seq::<u8>::empty() =~= wire);
}

} // verus!
