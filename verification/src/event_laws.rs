//! What events lead to: which operations are due, what they change and what they
//! leave alone.

use vstd::prelude::*;

use crate::fault::{IoFault, IoKind};
use crate::inbound;
use crate::path::UnixPath;
use crate::protocol::{ClientMessageView, HostMessageView, WindowSize};
use crate::session;
use crate::session::{
    ops_of, retries_wait, source_of, AcceptPlan, Action, Interest, Op, Plan, Session, SessionView,
    Source,
};
use crate::session_laws;
use crate::session_laws::Step;

verus! {

// ---------------------------------------------------------------------------
// Which operations are due
// ---------------------------------------------------------------------------

/// What a session may do is decided by what is ready and what there is to do, and
/// by nothing else: the PTY is read whenever it is readable and the child runs,
/// with or without a client; queued input is written whenever there is any, down
/// to a single byte; so is queued output, while a client is there to take it; and
/// a client is read whenever it has sent something.
pub proof fn law_due_operations(s: Session, readable: bool, writable: bool, op: Op, due: bool)
    requires
        call_ensures(Session::wants, (&s, op, readable, writable), due),
    ensures
        op is ReadPty ==> (due <==> readable && s@.exited_at is None),
        op is WritePty ==> (due <==> writable && s@.pty_queue != Seq::<u8>::empty()),
        op is WriteClient ==> (due <==> writable && s@.client && s@.client_queue != Seq::<
            u8,
        >::empty()),
        op is ReadClient ==> (due <==> readable && s@.client),
        op is ReapChild || op is Accept ==> due,
{
    assert(s@.pty_queue.len() == 0 ==> s@.pty_queue =~= Seq::<u8>::empty());
    assert(s@.client_queue.len() == 0 ==> s@.client_queue =~= Seq::<u8>::empty());
}

/// The shell's output is read: a session that is not paused and whose child runs
/// watches the PTY for it, and reads when it is there. What is read reaches the
/// terminal emulator, and the client where there is one.
pub proof fn law_printed_output_is_read(s: SessionView, w: bool, data: Seq<u8>)
    requires
        session_laws::sound(s),
        !s.paused,
        s.exited_at is None,
        data.len() > 0,
    ensures
        s.pty_interest.readable,
        s.wants(Op::ReadPty, true, w),
        s.after_pty_read(Ok(data)).1.contains(Action::FeedTerminal),
        s.client ==> s.after_pty_read(Ok(data)).0.client_queue == s.client_queue
            + HostMessageView::Data(data).wire(),
        s.client ==> s.after_pty_read(Ok(data)).0.wants(Op::WriteClient, false, true),
        s.client ==> s.after_pty_read(Ok(data)).0.client_interest.writable,
{
    assert(s.after_pty_read(Ok(data)).1[0] == Action::FeedTerminal);
    assert(HostMessageView::Data(data).wire().len() >= data.len());
}

/// What is typed is written: while any byte is queued for the PTY, the session
/// waits for the PTY to take it and writes when it does; and where none is, it
/// neither waits nor writes.
pub proof fn law_queued_input_is_written(s: SessionView, r: bool)
    requires
        session_laws::sound(s),
    ensures
        s.pty_interest.writable == (s.pty_queue.len() >= 1),
        s.wants(Op::WritePty, r, true) == (s.pty_queue.len() >= 1),
        !s.wants(Op::WritePty, r, false),
{
}

/// A key that is typed is written: one read of one DATA message leaves its bytes
/// at the end of what is queued for the PTY, and a write of them due.
pub proof fn law_typed_keys_are_written(s: SessionView, keys: Seq<u8>, r: bool)
    requires
        session_laws::sound(s),
        keys.len() >= 1,
    ensures
        ({
            let next = s.after_message(ClientMessageView::Data(keys)).0;
            &&& next.pty_queue == s.pty_queue + keys
            &&& next.pty_interest.writable
            &&& next.wants(Op::WritePty, r, true)
            &&& next.after_pty_written(Ok(next.pty_queue.len() as usize)).0.pty_queue.len() == 0
                || next.pty_queue.len() > usize::MAX
        }),
{
}

/// What is queued for a client is sent: the session waits for the client to take
/// it and writes when it does.
pub proof fn law_queued_output_is_written(s: SessionView, r: bool)
    requires
        session_laws::flowing(s),
        s.client,
    ensures
        s.client_queue.len() >= 1 ==> s.client_interest.writable,
        s.wants(Op::WriteClient, r, true) == (s.client_queue.len() >= 1),
        !s.wants(Op::WriteClient, r, false),
{
}

/// Whether a connected client is listened to, and waited for exactly while
/// something is queued for it.
pub open spec fn attentive(s: SessionView) -> bool {
    s.client ==> s.client_interest.readable && s.client_interest.writable == (s.client_queue.len()
        > 0)
}

/// A connected client is listened to at all times, whatever steps a session
/// takes, and read when it has sent something. It is waited for to take output
/// exactly while there is some, and sent it when it does.
pub proof fn law_clients_are_attended_to(
    pid: u32,
    socket_path: Seq<u8>,
    steps: Seq<Step>,
    w: bool,
)
    requires
        session_laws::all_possible(session::fresh(pid, socket_path), steps),
    ensures
        ({
            let s = session_laws::ran(session::fresh(pid, socket_path), steps);
            s.client ==> {
                &&& s.client_interest.readable
                &&& s.wants(Op::ReadClient, true, w)
                &&& s.client_interest.writable == (s.client_queue.len() >= 1)
                &&& s.wants(Op::WriteClient, w, true) == (s.client_queue.len() >= 1)
            }
        }),
{
    lemma_runs_keep_attentive(session::fresh(pid, socket_path), steps);
}

proof fn lemma_runs_keep_attentive(s: SessionView, steps: Seq<Step>)
    requires
        attentive(s),
        session_laws::all_possible(s, steps),
    ensures
        attentive(session_laws::ran(s, steps)),
    decreases steps.len(),
{
    if steps.len() > 0 {
        let next = session_laws::taken(s, steps[0]).0;
        if let Step::ClientRead(read) = steps[0] {
            let (outcome, pending) = inbound::client_read(read, s.inbound);
            if let Ok(ms) = outcome {
                lemma_messages(SessionView { inbound: pending, ..s }, ms);
            }
        }
        lemma_runs_keep_attentive(next, steps.skip(1));
    }
}

/// Each operation belongs to one source of events, and a source's events lead to
/// all of its operations: the PTY and the client to reading and writing them, in
/// the order that lets output go before more input comes.
pub proof fn law_events_lead_to_their_operations(source: Source, ops: Vec<Op>)
    requires
        call_ensures(ops_of, (source,), ops),
    ensures
        source is Pty ==> ops@.len() == 2 && ops@[0] is ReadPty && ops@[1] is WritePty,
        source is Client ==> ops@.len() == 2 && ops@[0] is WriteClient && ops@[1] is ReadClient,
        source is Child ==> ops@.len() == 1 && ops@[0] is ReapChild,
        source is Listener ==> ops@.len() == 1 && ops@[0] is Accept,
{
}

/// The four sources have the first four keys, in this order, and no other key is
/// theirs.
pub proof fn law_keys_of_sources(key: usize, source: Option<Source>)
    requires
        call_ensures(source_of, (key,), source),
    ensures
        source == Some(Source::Pty) <==> key == 0,
        source == Some(Source::Client) <==> key == 1,
        source == Some(Source::Child) <==> key == 2,
        source == Some(Source::Listener) <==> key == 3,
        source is None <==> key > 3,
{
}

/// A wait is tried again exactly where a signal interrupted it, and a wait without
/// events ends a session exactly where its child has exited.
pub proof fn law_waits(e: IoFault, again: bool, s: Session, quiet: bool, over: bool)
    requires
        call_ensures(retries_wait, (&e,), again),
        call_ensures(Session::timed_out, (&s, quiet), over),
    ensures
        again <==> e.kind is Interrupted,
        over <==> quiet && s@.exited_at is Some,
{
}

/// While the child runs, a session waits without end. Once it has exited, the
/// session stops where nobody is connected or five seconds are over, and until
/// then waits for just what is left of them.
pub proof fn law_how_long_sessions_wait(s: Session, now: u128, plan: Plan)
    requires
        call_ensures(Session::plan, (&s, now), plan),
    ensures
        s@.exited_at is None ==> plan == Plan::Wait(None),
        s@.exited_at matches Some(at) ==> {
            let passed = if now >= at {
                now - at
            } else {
                0
            };
            if s@.client && passed < 5_000_000_000 {
                plan matches Plan::Wait(limit) && limit matches Some(n) && n + passed
                    == 5_000_000_000
            } else {
                plan is Stop
            }
        },
{
}

/// What a session does with an outcome that is handed back to it is the step of
/// that outcome: it leaves the session that the step leads to, and tells the event
/// loop the actions that follow.
pub proof fn law_outcomes_are_steps(
    a: &mut Session,
    read: Result<Vec<u8>, IoFault>,
    after_read: Vec<Action>,
    b: &mut Session,
    sent: Result<Vec<u8>, IoFault>,
    after_sent: Vec<Action>,
    c: &mut Session,
    after_turn: Vec<Action>,
)
    requires
        call_ensures(Session::on_pty_read, (a, &read), after_read),
        call_ensures(Session::on_client_read, (b, sent), after_sent),
        call_ensures(Session::on_turn_end, (c,), after_turn),
    ensures
        (final(a)@, after_read@) == session_laws::taken(
            old(a)@,
            Step::PtyRead(match read {
                Ok(data) => Ok(data@),
                Err(e) => Err(e@),
            }),
        ),
        (final(b)@, after_sent@) == session_laws::taken(
            old(b)@,
            Step::ClientRead(match sent {
                Ok(data) => Ok(data@),
                Err(e) => Err(e@),
            }),
        ),
        (final(c)@, after_turn@) == session_laws::taken(old(c)@, Step::TurnEnd),
{
}

/// A write that is handed back to a session, and the child's status, are the steps
/// that they are: they leave the session that the step leads to, and tell the
/// event loop the actions that follow.
pub proof fn law_writes_and_exits_are_steps(
    a: &mut Session,
    typed: Result<usize, IoFault>,
    after_typed: Vec<Action>,
    b: &mut Session,
    shown: Result<usize, IoFault>,
    after_shown: Vec<Action>,
    c: &mut Session,
    status: Result<Option<i32>, IoFault>,
    now: u128,
    after_status: Vec<Action>,
)
    requires
        call_ensures(Session::on_pty_written, (a, typed), after_typed),
        call_ensures(Session::on_client_written, (b, shown), after_shown),
        call_ensures(Session::on_child_status, (c, status, now), after_status),
    ensures
        (final(a)@, after_typed@) == session_laws::taken(
            old(a)@,
            Step::PtyWritten(match typed {
                Ok(n) => Ok(n),
                Err(e) => Err(e@),
            }),
        ),
        (final(b)@, after_shown@) == session_laws::taken(
            old(b)@,
            Step::ClientWritten(match shown {
                Ok(n) => Ok(n),
                Err(e) => Err(e@),
            }),
        ),
        (final(c)@, after_status@) == session_laws::taken(
            old(c)@,
            Step::ChildStatus(
                match status {
                    Ok(raw) => Ok(raw),
                    Err(e) => Err(e@),
                },
                now,
            ),
        ),
{
}

// ---------------------------------------------------------------------------
// What steps change
// ---------------------------------------------------------------------------

/// The last interest that actions tell to watch the PTY for.
pub open spec fn last_pty_watch(actions: Seq<Action>) -> Option<Interest>
    decreases actions.len(),
{
    if actions.len() == 0 {
        None
    } else {
        match actions.last() {
            Action::WatchPty(interest) => Some(interest),
            _ => last_pty_watch(actions.drop_last()),
        }
    }
}

/// The last interest that actions tell to watch the client for.
pub open spec fn last_client_watch(actions: Seq<Action>) -> Option<Interest>
    decreases actions.len(),
{
    if actions.len() == 0 {
        None
    } else {
        match actions.last() {
            Action::WatchClient(interest) => Some(interest),
            _ => last_client_watch(actions.drop_last()),
        }
    }
}

/// The sizes that actions tell to give the terminal, in order.
pub open spec fn resizes(actions: Seq<Action>) -> Seq<WindowSize>
    decreases actions.len(),
{
    if actions.len() == 0 {
        seq![]
    } else {
        match actions.last() {
            Action::Resize(size) => resizes(actions.drop_last()).push(size),
            _ => resizes(actions.drop_last()),
        }
    }
}

/// The sizes that messages ask for, in order, up to the first KILL.
pub open spec fn sizes_asked(ms: Seq<ClientMessageView>) -> Seq<WindowSize>
    decreases ms.len(),
{
    if ms.len() == 0 {
        seq![]
    } else {
        match ms[0] {
            ClientMessageView::Kill => seq![],
            ClientMessageView::Resize(size) => seq![size] + sizes_asked(ms.skip(1)),
            _ => sizes_asked(ms.skip(1)),
        }
    }
}

proof fn lemma_two_lists(a: Seq<Action>, b: Seq<Action>)
    ensures
        last_pty_watch(a + b) == match last_pty_watch(b) {
            Some(interest) => Some(interest),
            None => last_pty_watch(a),
        },
        last_client_watch(a + b) == match last_client_watch(b) {
            Some(interest) => Some(interest),
            None => last_client_watch(a),
        },
        resizes(a + b) == resizes(a) + resizes(b),
        forall|x: Action| #[trigger] (a + b).contains(x) == (a.contains(x) || b.contains(x)),
    decreases b.len(),
{
    if b.len() == 0 {
        assert(a + b =~= a);
        assert(resizes(a) + resizes(b) =~= resizes(a));
    } else {
        assert((a + b).drop_last() =~= a + b.drop_last());
        lemma_two_lists(a, b.drop_last());
        assert(resizes(a + b) =~= resizes(a) + resizes(b));
    }
    assert forall|x: Action| #[trigger] (a + b).contains(x) == (a.contains(x) || b.contains(x)) by {
        if a.contains(x) {
            let i = choose|i: int| 0 <= i < a.len() && a[i] == x;
            assert((a + b)[i] == x);
        }
        if b.contains(x) {
            let i = choose|i: int| 0 <= i < b.len() && b[i] == x;
            assert((a + b)[a.len() + i] == x);
        }
    }
}

proof fn lemma_one_action(x: Action)
    ensures
        last_pty_watch(seq![x]) == match x {
            Action::WatchPty(interest) => Some(interest),
            _ => None,
        },
        last_client_watch(seq![x]) == match x {
            Action::WatchClient(interest) => Some(interest),
            _ => None,
        },
        resizes(seq![x]) == match x {
            Action::Resize(size) => seq![size],
            _ => seq![],
        },
        forall|y: Action| #[trigger] seq![x].contains(y) == (x == y),
{
    assert(seq![x].drop_last() =~= Seq::<Action>::empty());
    reveal_with_fuel(last_pty_watch, 2);
    reveal_with_fuel(last_client_watch, 2);
    reveal_with_fuel(resizes, 2);
    assert(seq![x][0] == x);
    if let Action::Resize(size) = x {
        assert(Seq::<WindowSize>::empty().push(size) =~= seq![size]);
    }
}

proof fn lemma_no_actions()
    ensures
        last_pty_watch(seq![]) is None,
        last_client_watch(seq![]) is None,
        resizes(seq![]) == Seq::<WindowSize>::empty(),
        forall|y: Action| !(#[trigger] Seq::<Action>::empty().contains(y)),
{
}

/// Whether messages end the connection of their sender.
pub open spec fn leaves(ms: Seq<ClientMessageView>) -> bool {
    ms.contains(ClientMessageView::Detach) || ms.contains(ClientMessageView::Kill)
}

proof fn lemma_message(s: SessionView, m: ClientMessageView)
    ensures
        ({
            let (end, actions) = s.after_message(m);
            &&& end.pty_interest == match last_pty_watch(actions) {
                Some(interest) => interest,
                None => s.pty_interest,
            }
            &&& last_client_watch(actions) is None
            &&& end.client_interest == s.client_interest
            &&& resizes(actions) == match m {
                ClientMessageView::Resize(size) => seq![size],
                _ => seq![],
            }
            &&& actions.contains(Action::DropClient) == (s.client && !end.client)
            &&& end.client == (s.client && !(m is Detach) && !(m is Kill))
            &&& !actions.contains(Action::FeedTerminal)
            &&& !actions.contains(Action::SkipEvent)
            &&& end.inbound == s.inbound && end.client_queue == s.client_queue && end.paused
                == s.paused && end.exited_at == s.exited_at && end.exit_status == s.exit_status
        }),
{
    lemma_no_actions();
    lemma_one_action(Action::DropClient);
    lemma_one_action(Action::HangUpChild);
    lemma_one_action(Action::Stop);
    let all = Interest { readable: true, writable: true };
    lemma_one_action(Action::WatchPty(all));
    if let ClientMessageView::Resize(size) = m {
        lemma_one_action(Action::Resize(size));
    }
    if m is Kill {
        let (_, dropping) = s.without_client();
        lemma_two_lists(seq![Action::HangUpChild], dropping);
        lemma_two_lists(seq![Action::HangUpChild] + dropping, seq![Action::Stop]);
        assert(resizes(s.after_message(m).1) =~= Seq::<WindowSize>::empty());
    }
}

proof fn lemma_messages(s: SessionView, ms: Seq<ClientMessageView>)
    ensures
        ({
            let (end, actions) = s.after_messages(ms);
            &&& end.pty_interest == match last_pty_watch(actions) {
                Some(interest) => interest,
                None => s.pty_interest,
            }
            &&& last_client_watch(actions) is None
            &&& end.client_interest == s.client_interest
            &&& resizes(actions) == sizes_asked(ms)
            &&& actions.contains(Action::DropClient) == (s.client && !end.client)
            &&& end.client == (s.client && !leaves(ms))
            &&& !actions.contains(Action::FeedTerminal)
            &&& !actions.contains(Action::SkipEvent)
            &&& end.inbound == s.inbound && end.client_queue == s.client_queue && end.paused
                == s.paused && end.exited_at == s.exited_at && end.exit_status == s.exit_status
        }),
    decreases ms.len(),
{
    if ms.len() == 0 {
        lemma_no_actions();
    } else {
        let m = ms[0];
        let later = ms.skip(1);
        lemma_message(s, m);
        assert(ms.contains(ClientMessageView::Detach) == (m is Detach || later.contains(
            ClientMessageView::Detach,
        ))) by {
            lemma_contained(ms, ClientMessageView::Detach);
        }
        assert(ms.contains(ClientMessageView::Kill) == (m is Kill || later.contains(
            ClientMessageView::Kill,
        ))) by {
            lemma_contained(ms, ClientMessageView::Kill);
        }
        if !(m is Kill) {
            let (next, actions) = s.after_message(m);
            let (end, more) = next.after_messages(later);
            lemma_messages(next, later);
            lemma_two_lists(actions, more);
            assert(resizes(actions + more) =~= sizes_asked(ms));
        }
    }
}

proof fn lemma_contained(ms: Seq<ClientMessageView>, m: ClientMessageView)
    requires
        ms.len() > 0,
    ensures
        ms.contains(m) == (ms[0] == m || ms.skip(1).contains(m)),
{
    let later = ms.skip(1);
    if ms.contains(m) {
        let i = choose|i: int| 0 <= i < ms.len() && ms[i] == m;
        if i > 0 {
            assert(later[i - 1] == m);
        }
    }
    if later.contains(m) {
        let i = choose|i: int| 0 <= i < later.len() && later[i] == m;
        assert(ms[i + 1] == m);
    }
}

proof fn lemma_step_actions(s: SessionView, step: Step)
    ensures
        ({
            let (end, actions) = session_laws::taken(s, step);
            &&& end.pty_interest == match last_pty_watch(actions) {
                Some(interest) => interest,
                None => s.pty_interest,
            }
            &&& !(step is Accept) ==> end.client_interest == match last_client_watch(actions) {
                Some(interest) => interest,
                None => s.client_interest,
            }
            &&& resizes(actions) == match step {
                Step::ClientRead(read) => match inbound::client_read(read, s.inbound).0 {
                    Ok(ms) => sizes_asked(ms),
                    Err(_) => seq![],
                },
                _ => seq![],
            }
            &&& actions.contains(Action::DropClient) == (s.client && !end.client)
            &&& actions.contains(Action::FeedTerminal) == (step matches Step::PtyRead(Ok(data))
                && data.len() > 0)
            &&& actions.contains(Action::SkipEvent) == (step matches Step::PtyRead(Err(e)) && e.kind
                == IoKind::HungUp)
        }),
{
    lemma_no_actions();
    lemma_one_action(Action::DropClient);
    lemma_one_action(Action::FeedTerminal);
    lemma_one_action(Action::SkipEvent);
    lemma_one_action(Action::Stop);
    let all = Interest { readable: true, writable: true };
    lemma_one_action(Action::WatchClient(all));
    match step {
        Step::ClientRead(read) => {
            let (outcome, pending) = inbound::client_read(read, s.inbound);
            if let Ok(ms) = outcome {
                lemma_messages(SessionView { inbound: pending, ..s }, ms);
            }
        },
        Step::PtyRead(Ok(data)) => {
            let quiet = Interest { readable: false, writable: s.wants_write };
            lemma_one_action(Action::WatchPty(quiet));
            let feed = seq![Action::FeedTerminal];
            lemma_two_lists(feed, seq![Action::WatchClient(all)]);
            assert(feed + seq![Action::WatchClient(all)] =~= seq![
                Action::FeedTerminal,
                Action::WatchClient(all),
            ]);
            lemma_two_lists(feed, seq![Action::WatchPty(quiet)]);
            lemma_two_lists(feed + seq![Action::WatchPty(quiet)], seq![Action::WatchClient(all)]);
            assert(feed + seq![Action::WatchPty(quiet)] + seq![Action::WatchClient(all)] =~= seq![
                Action::FeedTerminal,
                Action::WatchPty(quiet),
                Action::WatchClient(all),
            ]);
        },
        Step::PtyWritten(_) => {
            let interest = Interest { readable: !s.paused, writable: false };
            lemma_one_action(Action::WatchPty(interest));
        },
        Step::ClientWritten(_) => {
            let pty = Interest { readable: true, writable: s.wants_write };
            let interest = Interest { readable: true, writable: false };
            lemma_one_action(Action::WatchPty(pty));
            lemma_one_action(Action::WatchClient(interest));
            lemma_two_lists(seq![Action::WatchPty(pty)], seq![Action::WatchClient(interest)]);
            lemma_two_lists(seq![], seq![Action::WatchClient(interest)]);
        },
        _ => {
            let pty = Interest { readable: true, writable: s.wants_write };
            lemma_one_action(Action::WatchPty(pty));
        },
    }
}

/// The event loop is told of every change: what it was told last to watch the PTY
/// and the client for is what the session goes by. A new client is watched for
/// reading.
pub proof fn law_changes_of_interest_are_told(s: SessionView, step: Step)
    ensures
        ({
            let (end, actions) = session_laws::taken(s, step);
            &&& last_pty_watch(actions) matches Some(interest) ==> end.pty_interest == interest
            &&& last_pty_watch(actions) is None ==> end.pty_interest == s.pty_interest
            &&& step is Accept ==> end.client_interest.readable && !end.client_interest.writable
            &&& !(step is Accept) ==> {
                &&& last_client_watch(actions) matches Some(interest) ==> end.client_interest
                    == interest
                &&& last_client_watch(actions) is None ==> end.client_interest
                    == s.client_interest
            }
        }),
{
    lemma_step_actions(s, step);
}

/// The terminal emulator is fed exactly where bytes came from the PTY, whether or
/// not a client is connected; the rest of an event is left alone exactly where the
/// PTY hung up; and the terminal is resized exactly as the client asks.
pub proof fn law_what_the_terminal_is_told(s: SessionView, step: Step)
    ensures
        ({
            let actions = session_laws::taken(s, step).1;
            &&& actions.contains(Action::FeedTerminal) <==> (step matches Step::PtyRead(Ok(data))
                && data.len() > 0)
            &&& actions.contains(Action::SkipEvent) <==> (step matches Step::PtyRead(Err(e))
                && e.kind == IoKind::HungUp)
            &&& step matches Step::ClientRead(read) ==> {
                &&& inbound::client_read(read, s.inbound).0 matches Ok(ms) ==> resizes(actions)
                    == sizes_asked(ms)
                &&& inbound::client_read(read, s.inbound).0 is Err ==> resizes(actions).len() == 0
            }
            &&& !(step is ClientRead) ==> resizes(actions).len() == 0
        }),
{
    lemma_step_actions(s, step);
}

/// A client comes only by being accepted. It goes only when a read from it fails,
/// breaks the protocol or brings a DETACH or a KILL, or when a write to it fails
/// or takes nothing; a write or read that would block does not count. The
/// connection is closed exactly when the client goes.
pub proof fn law_how_clients_come_and_go(s: SessionView, step: Step)
    ensures
        ({
            let (end, actions) = session_laws::taken(s, step);
            &&& end.client == match step {
                Step::Accept => true,
                Step::ClientRead(read) => s.client
                    && match inbound::client_read(read, s.inbound).0 {
                    Ok(ms) => !leaves(ms),
                    Err(_) => false,
                },
                Step::ClientWritten(Ok(n)) => s.client && n > 0,
                Step::ClientWritten(Err(e)) => s.client && e.kind == IoKind::WouldBlock,
                _ => s.client,
            }
            &&& actions.contains(Action::DropClient) <==> s.client && !end.client
        }),
{
    lemma_step_actions(s, step);
    if let Step::ClientRead(read) = step {
        let (outcome, pending) = inbound::client_read(read, s.inbound);
        if let Ok(ms) = outcome {
            lemma_messages(SessionView { inbound: pending, ..s }, ms);
        }
    }
}

/// Reading the PTY is paused by a read that leaves a megabyte or more unsent, and
/// by nothing else; and it goes on once less than a quarter of that is unsent, or
/// when the client it was paused for is gone, and not before.
pub proof fn law_when_reading_is_paused(s: SessionView, step: Step)
    ensures
        ({
            let end = session_laws::taken(s, step).0;
            &&& !s.paused ==> (end.paused <==> (step matches Step::PtyRead(Ok(data)) && s.client
                && data.len() > 0 && end.client_queue.len() >= 0x10_0000))
            &&& s.paused ==> (!end.paused <==> match step {
                Step::ClientWritten(Ok(n)) => n > 0 && end.client_queue.len() < 0x4_0000,
                Step::Accept => true,
                Step::TurnEnd => !s.client,
                _ => false,
            })
        }),
{
    if let Step::ClientRead(read) = step {
        let (outcome, pending) = inbound::client_read(read, s.inbound);
        if let Ok(ms) = outcome {
            lemma_messages(SessionView { inbound: pending, ..s }, ms);
        }
    }
}

/// A step leaves alone what it is not about: what is queued for the PTY changes
/// by writing to the PTY and reading from the client; what the client has sent in
/// part changes by reading from it and with a new client; the child's exit is
/// noted by asking for it, with the status that was reported and the time it was
/// first seen.
pub proof fn law_steps_leave_the_rest_alone(s: SessionView, step: Step)
    ensures
        ({
            let end = session_laws::taken(s, step).0;
            &&& !(step is PtyWritten) && !(step is ClientRead) ==> end.pty_queue == s.pty_queue
                && end.wants_write == s.wants_write
            &&& !(step is ClientRead) && !(step is Accept) ==> end.inbound == s.inbound
            &&& step is Accept ==> end.inbound.len() == 0
            &&& step matches Step::ChildStatus(Ok(Some(raw)), now) ==> end.exit_status == Some(raw)
                && end.exited_at == if s.exited_at is Some {
                s.exited_at
            } else {
                Some(now)
            }
            &&& !(step matches Step::ChildStatus(Ok(Some(_)), _)) ==> end.exit_status
                == s.exit_status && end.exited_at == s.exited_at
            &&& step matches Step::PtyRead(Err(_)) ==> end == s
            &&& step matches Step::PtyRead(Ok(data)) ==> data.len() == 0 ==> end == s
            &&& step matches Step::PtyWritten(Err(_)) ==> end == s
            &&& step matches Step::ClientWritten(Err(e)) ==> e.kind == IoKind::WouldBlock ==> end
                == s
            &&& step is TurnEnd && s.client ==> end == s
        }),
{
    if let Step::ClientRead(read) = step {
        let (outcome, pending) = inbound::client_read(read, s.inbound);
        if let Ok(ms) = outcome {
            lemma_messages(SessionView { inbound: pending, ..s }, ms);
        }
    }
}

/// Output that nobody is there for is not kept: with the end of a turn, and with
/// the loss of a client by a failed write, nothing is queued.
pub proof fn law_lost_output_is_not_kept(s: SessionView, step: Step)
    requires
        step is TurnEnd || step is ClientWritten,
        !session_laws::taken(s, step).0.client,
        s.client || step is TurnEnd,
    ensures
        session_laws::taken(s, step).0.client_queue.len() == 0,
{
}

/// A new client is accepted at once, in the place of the one before it, which is
/// told so after all that is queued for it. The greeting starts with what the host
/// is and ends with the child's exit where it has exited; only a running child is
/// made to redraw.
pub proof fn law_accepting(s: &mut Session, size: WindowSize, snapshot: &[u8], plan: AcceptPlan)
    requires
        call_ensures(Session::on_accept, (s, size, snapshot), plan),
    ensures
        final(s)@.client,
        final(s)@.client_queue.len() == 0,
        final(s)@.pty_queue == old(s)@.pty_queue,
        final(s)@.exited_at == old(s)@.exited_at,
        plan.evict is Some == old(s)@.client,
        plan.evict matches Some(bytes) ==> bytes@ == old(s)@.client_queue + HostMessageView::Error(
            "evicted: another client connected"@,
        ).wire(),
        plan.redraw == (old(s)@.exited_at is None),
        plan.handshake@.len() >= 2,
        plan.handshake@[0]@ == (HostMessageView::Ready {
            version: 4,
            pid: old(s)@.pid,
            cols: size.cols,
            rows: size.rows,
        }),
        old(s)@.exited_at is None ==> plan.handshake@.last()@ == HostMessageView::ReplayDone,
        old(s)@.exited_at is Some ==> plan.handshake@.last()@ == HostMessageView::ChildExit(
            old(s)@.exit_status,
        ) && plan.handshake@[plan.handshake@.len() - 2]@ == HostMessageView::ReplayDone,
{
    let told = session::told(plan.handshake@);
    let n = plan.handshake@.len() as int;
    assert(told.len() == n);
    assert(told[0] == plan.handshake@[0]@);
    assert(told[n - 1] == plan.handshake@[n - 1]@);
    assert(told[n - 2] == plan.handshake@[n - 2]@);
}

/// A session starts with nobody connected and nothing queued, watches the PTY for
/// output, and keeps its child and its socket.
pub proof fn law_new_sessions(pid: u32, socket_path: UnixPath, s: Session)
    requires
        call_ensures(Session::new, (pid, socket_path), s),
    ensures
        s@.pid == pid,
        s@.socket_path == socket_path@,
        !s@.client,
        s@.exited_at is None,
        s@.exit_status is None,
        s@.pty_queue.len() == 0,
        s@.client_queue.len() == 0,
        s@.inbound.len() == 0,
        !s@.paused,
        s@.pty_interest.readable,
        !s@.pty_interest.writable,
{
}

/// A session tells its child, whether a client is connected, whether the child
/// runs, and what is queued, as they are; and how much more of a client's frame
/// there is room for.
pub proof fn law_what_sessions_tell(
    s: Session,
    pid: u32,
    client: bool,
    running: bool,
    input: &[u8],
    output: &[u8],
    room: usize,
)
    requires
        call_ensures(Session::pid, (&s,), pid),
        call_ensures(Session::has_client, (&s,), client),
        call_ensures(Session::child_running, (&s,), running),
        call_ensures(Session::pty_queue, (&s,), input),
        call_ensures(Session::client_queue, (&s,), output),
        call_ensures(Session::client_room, (&s,), room),
    ensures
        pid == s@.pid,
        client == s@.client,
        running <==> s@.exited_at is None,
        input@ == s@.pty_queue,
        output@ == s@.client_queue,
        s@.inbound.len() <= 5 + 16 * 1024 * 1024 ==> room + s@.inbound.len() == 5 + 16 * 1024
            * 1024,
{
}

} // verus!
