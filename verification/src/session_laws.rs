//! What holds of a session whatever events come.

use vstd::prelude::*;

use crate::fault::{IoFaultView, IoKind};
use crate::inbound;
use crate::protocol::{ClientMessageView, DecodeErrorView, HostMessageView};
use crate::session;
use crate::session::{Action, Plan, SessionView, HIGH_WATER, LOW_WATER, READ_BUF_SIZE};

verus! {

/// Something that happens to a session.
pub enum Step {
    Accept,
    PtyRead(Result<Seq<u8>, IoFaultView>),
    PtyWritten(Result<usize, IoFaultView>),
    ClientWritten(Result<usize, IoFaultView>),
    ClientRead(Result<Seq<u8>, IoFaultView>),
    ChildStatus(Result<Option<i32>, IoFaultView>, u128),
    TurnEnd,
}

/// Whether a step can happen: no write takes more than there is.
pub open spec fn possible(s: SessionView, step: Step) -> bool {
    match step {
        Step::PtyWritten(Ok(n)) => n <= s.pty_queue.len(),
        Step::ClientWritten(Ok(n)) => n <= s.client_queue.len(),
        _ => true,
    }
}

/// The session after a step, and the actions that follow.
pub open spec fn taken(s: SessionView, step: Step) -> (SessionView, Seq<Action>) {
    match step {
        Step::Accept => s.after_accept(),
        Step::PtyRead(read) => s.after_pty_read(read),
        Step::PtyWritten(written) => s.after_pty_written(written),
        Step::ClientWritten(written) => s.after_client_written(written),
        Step::ClientRead(read) => s.after_client_read(read),
        Step::ChildStatus(status, now) => s.after_child_status(status, now),
        Step::TurnEnd => s.after_turn(),
    }
}

/// The session after several steps.
pub open spec fn ran(s: SessionView, steps: Seq<Step>) -> SessionView
    decreases steps.len(),
{
    if steps.len() == 0 {
        s
    } else {
        ran(taken(s, steps[0]).0, steps.skip(1))
    }
}

/// Whether each of several steps can happen when its turn comes.
pub open spec fn all_possible(s: SessionView, steps: Seq<Step>) -> bool
    decreases steps.len(),
{
    steps.len() > 0 ==> possible(s, steps[0]) && all_possible(
        taken(s, steps[0]).0,
        steps.skip(1),
    )
}

/// What a session keeps to: it waits to write to the PTY exactly while input is
/// queued; it reads the PTY unless it is paused, and does not read it while it
/// is paused with no input queued; a connected client has no complete frame
/// pending; and it knows a status exactly when the child has exited.
pub open spec fn sound(s: SessionView) -> bool {
    &&& s.wants_write == (s.pty_queue.len() > 0)
    &&& s.pty_interest.writable == s.wants_write
    &&& !s.paused ==> s.pty_interest.readable
    &&& s.paused && !s.wants_write ==> !s.pty_interest.readable
    &&& s.client ==> inbound::client_stream(s.inbound) == Ok::<
        (Seq<ClientMessageView>, Seq<u8>),
        DecodeErrorView,
    >((seq![], s.inbound))
    &&& s.child_exited() == s.exit_status is Some
}

proof fn lemma_messages_keep_sound(s: SessionView, ms: Seq<ClientMessageView>)
    requires
        sound(s),
    ensures
        sound(s.after_messages(ms).0),
    decreases ms.len(),
{
    if ms.len() > 0 && !(ms[0] is Kill) {
        lemma_messages_keep_sound(s.after_message(ms[0]).0, ms.skip(1));
    }
}

/// No step leads out of the sound sessions.
pub proof fn law_steps_keep_sessions_sound(s: SessionView, step: Step)
    requires
        sound(s),
        possible(s, step),
    ensures
        sound(taken(s, step).0),
{
    if let Step::ClientRead(read) = step {
        let (outcome, pending) = inbound::client_read(read, s.inbound);
        let next = SessionView { inbound: pending, ..s };
        if let Ok(data) = read {
            inbound::law_pending_bytes_leave_room(s.inbound + data);
        }
        if let Ok(ms) = outcome {
            lemma_messages_keep_sound(next, ms);
        }
    }
}

/// Every session is sound at all times, whatever steps it takes.
pub proof fn law_sessions_are_sound(pid: u32, socket_path: Seq<u8>, steps: Seq<Step>)
    requires
        all_possible(session::fresh(pid, socket_path), steps),
    ensures
        sound(ran(session::fresh(pid, socket_path), steps)),
{
    lemma_runs_keep_sound(session::fresh(pid, socket_path), steps);
}

proof fn lemma_runs_keep_sound(s: SessionView, steps: Seq<Step>)
    requires
        sound(s),
        all_possible(s, steps),
    ensures
        sound(ran(s, steps)),
    decreases steps.len(),
{
    if steps.len() > 0 {
        law_steps_keep_sessions_sound(s, steps[0]);
        lemma_runs_keep_sound(taken(s, steps[0]).0, steps.skip(1));
    }
}

/// A connected client can always be read from: there is room for at least one
/// byte.
pub proof fn law_a_client_can_be_read(s: SessionView)
    requires
        sound(s),
        s.client,
    ensures
        s.inbound.len() < inbound::CLIENT_BUFFER_SIZE,
{
    inbound::law_pending_bytes_leave_room(s.inbound);
}

/// Whether a step brings a KILL from the client.
pub open spec fn brings_kill(s: SessionView, step: Step) -> bool {
    step matches Step::ClientRead(read) && inbound::client_read(read, s.inbound).0 matches Ok(ms)
        && ms.contains(ClientMessageView::Kill)
}

/// Whether a step is a failure of the PTY itself.
pub open spec fn breaks_pty(step: Step) -> bool {
    match step {
        Step::PtyRead(Err(e)) => e.kind != IoKind::WouldBlock && e.kind != IoKind::HungUp,
        Step::PtyWritten(Err(e)) => e.kind != IoKind::WouldBlock,
        _ => false,
    }
}

proof fn lemma_only_kill_ends(s: SessionView, ms: Seq<ClientMessageView>)
    ensures
        s.after_messages(ms).1.contains(Action::HangUpChild) == ms.contains(
            ClientMessageView::Kill,
        ),
        s.after_messages(ms).1.contains(Action::Stop) == ms.contains(ClientMessageView::Kill),
        ms.contains(ClientMessageView::Kill) ==> s.after_messages(ms).1.last() == Action::Stop
            && !s.after_messages(ms).0.client,
    decreases ms.len(),
{
    let actions = s.after_messages(ms).1;
    if ms.len() == 0 {
    } else if ms[0] is Kill {
        let (_, dropping) = s.without_client();
        assert(ms[0] == ClientMessageView::Kill);
        assert(actions[0] == Action::HangUpChild);
        assert(actions.last() == Action::Stop);
        assert(actions[actions.len() - 1] == Action::Stop);
    } else {
        let (next, first) = s.after_message(ms[0]);
        let later = ms.skip(1);
        let more = next.after_messages(later).1;
        lemma_only_kill_ends(next, later);
        assert(actions == first + more);
        assert(forall|a: Action| first.contains(a) ==> a != Action::HangUpChild && a
            != Action::Stop);
        assert forall|a: Action| #[trigger] actions.contains(a) == (first.contains(a)
            || more.contains(a)) by {
            if first.contains(a) {
                let i = choose|i: int| 0 <= i < first.len() && first[i] == a;
                assert(actions[i] == a);
            }
            if more.contains(a) {
                let i = choose|i: int| 0 <= i < more.len() && more[i] == a;
                assert(actions[first.len() + i] == a);
            }
        }
        if later.contains(ClientMessageView::Kill) {
            let i = choose|i: int| 0 <= i < later.len() && later[i] == ClientMessageView::Kill;
            assert(ms[i + 1] == ClientMessageView::Kill);
            assert(more.len() > 0);
        }
        if ms.contains(ClientMessageView::Kill) {
            let i = choose|i: int| 0 <= i < ms.len() && ms[i] == ClientMessageView::Kill;
            assert(later[i - 1] == ClientMessageView::Kill);
        }
    }
}

/// The child is hung up on exactly when a client asks for it with KILL, and the
/// session then stops. Besides that, only a failure of the PTY itself stops a
/// session: no loss of a client does, nor a protocol error, nor a DETACH.
pub proof fn law_only_kill_hangs_up(s: SessionView, step: Step)
    ensures
        taken(s, step).1.contains(Action::HangUpChild) == brings_kill(s, step),
        taken(s, step).1.contains(Action::Stop) == (brings_kill(s, step) || breaks_pty(step)),
{
    match step {
        Step::ClientRead(read) => {
            let (outcome, pending) = inbound::client_read(read, s.inbound);
            if let Ok(ms) = outcome {
                lemma_only_kill_ends(SessionView { inbound: pending, ..s }, ms);
            }
        },
        Step::PtyRead(Err(e)) => {
            if breaks_pty(step) {
                assert(taken(s, step).1[0] == Action::Stop);
            }
        },
        Step::PtyWritten(Err(e)) => {
            if breaks_pty(step) {
                assert(taken(s, step).1[0] == Action::Stop);
            }
        },
        _ => {},
    }
}

/// A session outlives its client: when the client is lost or breaks the
/// protocol, the connection is closed and nothing else about the shell changes;
/// while the child runs, the session goes on waiting for events.
pub proof fn law_losing_the_client_spares_the_shell(
    s: SessionView,
    read: Result<Seq<u8>, IoFaultView>,
    now: u128,
)
    requires
        s.client,
        inbound::client_read(read, s.inbound).0 is Err,
    ensures
        ({
            let (end, actions) = s.after_client_read(read);
            &&& actions == seq![Action::DropClient]
            &&& end == SessionView { client: false, inbound: end.inbound, ..s }
            &&& !s.child_exited() ==> end.plan(now) == Plan::Wait(None)
        }),
{
}

/// A DETACH closes the connection and nothing else.
pub proof fn law_detach_spares_the_shell(s: SessionView, now: u128)
    requires
        s.client,
    ensures
        s.after_message(ClientMessageView::Detach) == (
            (SessionView { client: false, ..s }),
            seq![Action::DropClient],
        ),
        !s.child_exited() ==> s.after_message(ClientMessageView::Detach).0.plan(now) == Plan::Wait(
            None,
        ),
{
}

/// What the client typed: the bytes of its DATA messages up to the first KILL.
pub open spec fn typed(ms: Seq<ClientMessageView>) -> Seq<u8>
    decreases ms.len(),
{
    if ms.len() == 0 {
        seq![]
    } else {
        match ms[0] {
            ClientMessageView::Kill => seq![],
            ClientMessageView::Data(bytes) => bytes + typed(ms.skip(1)),
            _ => typed(ms.skip(1)),
        }
    }
}

/// What the client types is queued for the PTY in full and in order.
pub proof fn law_typed_bytes_are_queued(s: SessionView, ms: Seq<ClientMessageView>)
    ensures
        s.after_messages(ms).0.pty_queue == s.pty_queue + typed(ms),
    decreases ms.len(),
{
    if ms.len() == 0 {
        assert(s.pty_queue + typed(ms) =~= s.pty_queue);
    } else {
        let next = s.after_message(ms[0]).0;
        match ms[0] {
            ClientMessageView::Kill => {
                assert(s.pty_queue + typed(ms) =~= s.pty_queue);
            },
            ClientMessageView::Data(bytes) => {
                law_typed_bytes_are_queued(next, ms.skip(1));
                assert(s.pty_queue + bytes + typed(ms.skip(1)) =~= s.pty_queue + (bytes + typed(
                    ms.skip(1),
                )));
                if bytes.len() == 0 {
                    assert(bytes + typed(ms.skip(1)) =~= typed(ms.skip(1)));
                }
            },
            _ => {
                law_typed_bytes_are_queued(next, ms.skip(1));
            },
        }
    }
}

/// Queued input leaves only by being written, first byte first: no other step
/// drops or reorders any of it.
pub proof fn law_queued_input_is_kept(s: SessionView, step: Step)
    requires
        possible(s, step),
    ensures
        match step {
            Step::PtyWritten(Ok(n)) => taken(s, step).0.pty_queue == s.pty_queue.skip(n as int),
            Step::ClientRead(read) => taken(s, step).0.pty_queue
                == match inbound::client_read(read, s.inbound).0 {
                Ok(ms) => s.pty_queue + typed(ms),
                Err(_) => s.pty_queue,
            },
            _ => taken(s, step).0.pty_queue == s.pty_queue,
        },
{
    if let Step::ClientRead(read) = step {
        let (outcome, pending) = inbound::client_read(read, s.inbound);
        if let Ok(ms) = outcome {
            law_typed_bytes_are_queued(SessionView { inbound: pending, ..s }, ms);
        }
    }
}

/// What the PTY writes while a client is connected is queued for it as one DATA
/// frame behind what is queued already, and is fed to the terminal emulator
/// whether or not a client is connected.
pub proof fn law_output_is_queued_and_tracked(s: SessionView, data: Seq<u8>)
    requires
        data.len() > 0,
    ensures
        s.after_pty_read(Ok(data)).1[0] == Action::FeedTerminal,
        s.after_pty_read(Ok(data)).0.client_queue == if s.client {
            s.client_queue + HostMessageView::Data(data).wire()
        } else {
            s.client_queue
        },
{
}

/// Queued output leaves by being written, first byte first, or together with
/// its client: no step drops or reorders any of it while the client stays, and
/// none of it is left for the next client.
pub proof fn law_queued_output_is_kept(s: SessionView, step: Step)
    requires
        possible(s, step),
        taken(s, step).0.client,
    ensures
        taken(s, step).0.client_queue == match step {
            Step::PtyRead(Ok(data)) => if data.len() > 0 {
                s.client_queue + HostMessageView::Data(data).wire()
            } else {
                s.client_queue
            },
            Step::ClientWritten(Ok(n)) => s.client_queue.skip(n as int),
            Step::ChildStatus(Ok(Some(raw)), _) => s.client_queue + HostMessageView::ChildExit(
                Some(raw),
            ).wire(),
            Step::Accept => seq![],
            _ => s.client_queue,
        },
{
    if let Step::ClientRead(read) = step {
        let (outcome, pending) = inbound::client_read(read, s.inbound);
        if let Ok(ms) = outcome {
            lemma_messages_keep_child(SessionView { inbound: pending, ..s }, ms);
        }
    }
}

proof fn lemma_messages_keep_child(s: SessionView, ms: Seq<ClientMessageView>)
    ensures
        s.after_messages(ms).0.exited_at == s.exited_at,
        s.after_messages(ms).0.exit_status == s.exit_status,
        s.after_messages(ms).0.pid == s.pid,
        s.after_messages(ms).0.socket_path == s.socket_path,
        s.after_messages(ms).0.client ==> s.client,
        s.after_messages(ms).0.client_queue == s.client_queue,
        s.after_messages(ms).0.client_interest == s.client_interest,
        s.after_messages(ms).0.paused == s.paused,
    decreases ms.len(),
{
    if ms.len() > 0 && !(ms[0] is Kill) {
        lemma_messages_keep_child(s.after_message(ms[0]).0, ms.skip(1));
    }
}

/// A child that has exited stays exited, and the time it was seen to have done
/// so stands. A session never changes its child or its socket.
pub proof fn law_an_exit_is_final(s: SessionView, step: Step)
    ensures
        s.child_exited() ==> taken(s, step).0.exited_at == s.exited_at,
        taken(s, step).0.pid == s.pid,
        taken(s, step).0.socket_path == s.socket_path,
{
    if let Step::ClientRead(read) = step {
        let (outcome, pending) = inbound::client_read(read, s.inbound);
        if let Ok(ms) = outcome {
            lemma_messages_keep_child(SessionView { inbound: pending, ..s }, ms);
        }
    }
}

/// Once the child has exited, the session ends at once where no client is
/// connected, and otherwise when five seconds are over; no wait goes beyond
/// that. While the child runs, the session never ends by itself.
pub proof fn law_the_grace_after_an_exit_is_bounded(s: SessionView, now: u128)
    ensures
        match s.exited_at {
            None => s.plan(now) == Plan::Wait(None),
            Some(at) => {
                &&& (s.plan(now) == Plan::Stop) == (!s.client || now >= at + 5_000_000_000)
                &&& s.plan(now) matches Plan::Wait(limit) ==> limit matches Some(n) && n
                    <= 5_000_000_000 && (now >= at ==> now + n == at + 5_000_000_000)
            },
        },
{
}

/// Output flows: unsent output of a connected client is waited for to be sent,
/// and reading the PTY is paused only while much of it is unsent.
pub open spec fn flowing(s: SessionView) -> bool {
    &&& s.client && s.client_queue.len() > 0 ==> s.client_interest.writable
    &&& s.client && s.paused ==> s.client_queue.len() >= LOW_WATER
}

/// Output keeps flowing through every step.
pub proof fn law_output_keeps_flowing(s: SessionView, step: Step)
    requires
        flowing(s),
        possible(s, step),
    ensures
        flowing(taken(s, step).0),
{
    if let Step::ClientRead(read) = step {
        let (outcome, pending) = inbound::client_read(read, s.inbound);
        if let Ok(ms) = outcome {
            lemma_messages_keep_child(SessionView { inbound: pending, ..s }, ms);
        }
    }
}

/// A session that reads the PTY, as it does while the child runs and there is
/// no pause, has little unsent output.
pub open spec fn held_back(s: SessionView) -> bool {
    !s.paused && !s.child_exited() ==> s.client_queue.len() < HIGH_WATER
}

/// Output is held back: through every step, unsent output of a megabyte or more
/// means that reading the PTY is paused or over, and the read that leads there
/// goes over that mark by no more than its own frame.
pub proof fn law_output_is_held_back(s: SessionView, step: Step)
    requires
        held_back(s),
        possible(s, step),
    ensures
        held_back(taken(s, step).0),
        step matches Step::PtyRead(Ok(data)) ==> !s.paused && !s.child_exited() && data.len()
            <= READ_BUF_SIZE ==> taken(s, step).0.client_queue.len() < HIGH_WATER + READ_BUF_SIZE
            + 5,
{
    if let Step::ClientRead(read) = step {
        let (outcome, pending) = inbound::client_read(read, s.inbound);
        if let Ok(ms) = outcome {
            lemma_messages_keep_child(SessionView { inbound: pending, ..s }, ms);
        }
    }
}

/// Output flows and is held back at all times, whatever steps a session takes.
pub proof fn law_output_always_flows(pid: u32, socket_path: Seq<u8>, steps: Seq<Step>)
    requires
        all_possible(session::fresh(pid, socket_path), steps),
    ensures
        flowing(ran(session::fresh(pid, socket_path), steps)),
        held_back(ran(session::fresh(pid, socket_path), steps)),
{
    lemma_runs_keep_flowing(session::fresh(pid, socket_path), steps);
}

proof fn lemma_runs_keep_flowing(s: SessionView, steps: Seq<Step>)
    requires
        flowing(s),
        held_back(s),
        all_possible(s, steps),
    ensures
        flowing(ran(s, steps)),
        held_back(ran(s, steps)),
    decreases steps.len(),
{
    if steps.len() > 0 {
        law_output_keeps_flowing(s, steps[0]);
        law_output_is_held_back(s, steps[0]);
        lemma_runs_keep_flowing(taken(s, steps[0]).0, steps.skip(1));
    }
}

/// A new client starts afresh, whatever became of the one before it: nothing is
/// queued for it, nothing it sent is pending, and the PTY is read.
pub proof fn law_a_new_client_starts_afresh(s: SessionView)
    requires
        sound(s),
    ensures
        ({
            let start = s.after_accept().0;
            &&& start.client
            &&& start.client_queue.len() == 0
            &&& start.inbound.len() == 0
            &&& !start.paused
            &&& start.pty_interest.readable
            &&& start.pty_queue == s.pty_queue
        }),
{
}

/// After every turn a session without a client has no unsent output and reads
/// the PTY.
pub proof fn law_a_turn_without_client_clears_the_way(s: SessionView)
    requires
        sound(s),
    ensures
        ({
            let end = s.after_turn().0;
            !end.client ==> {
                &&& end.client_queue.len() == 0
                &&& !end.paused
                &&& end.pty_interest.readable
            }
        }),
{
}

} // verus!
