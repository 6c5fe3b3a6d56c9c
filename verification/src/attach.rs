//! A plain terminal client: keystrokes to the host, output to the terminal.

use vstd::prelude::*;
use vstd::string::*;

use crate::bytes::push_bytes;
use crate::client;
use crate::client_laws;
use crate::fault::{IoFault, IoFaultView, IoKind};
use crate::inbound;
use crate::protocol;
use crate::protocol::{
    ClientMessage, ClientMessageView, Cursor, DecodeError, DecodeErrorView, HostMessage,
    HostMessageView, WindowSize, MAX_PAYLOAD_SIZE,
};
use crate::text;
use crate::text::{copy_text, push_decimal, push_signed, push_string};

verus! {

/// The key that detaches: Ctrl-].
pub const DETACH_BYTE: u8 = 0x1d;

// ---------------------------------------------------------------------------
// From the host to the terminal
// ---------------------------------------------------------------------------

/// What to do with what reading the next message gave.
pub enum ReaderStep {
    /// Write this to the terminal.
    Output(Vec<u8>),
    /// Tell the user this.
    Note(String),
    /// Tell the user this, skip so many bytes of the stream, and go on.
    Skip(String, u32),
    /// Tell the user this, and stop.
    End(String),
    /// Go on.
    Ignore,
    /// Stop.
    Stop,
}

/// What a [`ReaderStep`] says.
#[verifier::ext_equal]
pub enum ReaderStepView {
    Output(Seq<u8>),
    Note(Seq<char>),
    Skip(Seq<char>, u32),
    End(Seq<char>),
    Ignore,
    Stop,
}

impl View for ReaderStep {
    type V = ReaderStepView;

    open spec fn view(&self) -> ReaderStepView {
        match self {
            ReaderStep::Output(bytes) => ReaderStepView::Output(bytes@),
            ReaderStep::Note(t) => ReaderStepView::Note(t@),
            ReaderStep::Skip(t, n) => ReaderStepView::Skip(t@, *n),
            ReaderStep::End(t) => ReaderStepView::End(t@),
            ReaderStep::Ignore => ReaderStepView::Ignore,
            ReaderStep::Stop => ReaderStepView::Stop,
        }
    }
}

/// The status that stands for an exit: minus one where there is none.
pub open spec fn shown_status(raw_status: Option<i32>) -> int {
    match raw_status {
        Some(status) => status as int,
        None => -1,
    }
}

/// What to do with what reading the next message gave.
pub open spec fn reaction(r: Result<HostMessageView, DecodeErrorView>) -> ReaderStepView {
    match r {
        Ok(HostMessageView::Data(bytes)) => ReaderStepView::Output(bytes),
        Ok(HostMessageView::Ready { version, pid, cols, rows }) => ReaderStepView::Note(
            "[pty-host: ready, pid="@ + text::decimal(pid as nat) + "]"@,
        ),
        Ok(HostMessageView::ChildExit(raw_status)) => ReaderStepView::End(
            "\r\n[pty-host: child exited, raw_status="@ + text::signed_decimal(
                shown_status(raw_status),
            ) + "]"@,
        ),
        Ok(HostMessageView::Error(msg)) => ReaderStepView::End(
            "\r\n[pty-host error: "@ + msg + "]"@,
        ),
        Ok(_) => ReaderStepView::Ignore,
        Err(DecodeErrorView::UnexpectedEof) => ReaderStepView::Stop,
        Err(DecodeErrorView::Io(e)) => if e.kind == IoKind::WouldBlock || e.kind
            == IoKind::Interrupted {
            ReaderStepView::Ignore
        } else {
            ReaderStepView::Stop
        },
        Err(DecodeErrorView::PayloadTooLarge(n)) => ReaderStepView::Skip(
            "[pty-host: skipping oversized frame, "@ + text::decimal(n as nat) + " bytes]"@,
            n,
        ),
        Err(_) => ReaderStepView::Stop,
    }
}

/// Decides what to do with what reading the next message gave.
pub fn reader_step(r: Result<HostMessage, DecodeError>) -> (step: ReaderStep)
    ensures
        step@ == reaction(client::decoded(r)),
{
    match r {
        Ok(HostMessage::Data(bytes)) => ReaderStep::Output(bytes),
        Ok(HostMessage::Ready { pid, .. }) => {
            let mut t: String = copy_text("[pty-host: ready, pid=");
            push_decimal(&mut t, pid as u64);
            t.append("]");
            ReaderStep::Note(t)
        },
        Ok(HostMessage::ChildExit { raw_status }) => {
            let status: i32 = match raw_status {
                Some(status) => status,
                None => -1,
            };
            let mut t: String = copy_text("\r\n[pty-host: child exited, raw_status=");
            push_signed(&mut t, status);
            t.append("]");
            ReaderStep::End(t)
        },
        Ok(HostMessage::Error(msg)) => {
            let mut t: String = copy_text("\r\n[pty-host error: ");
            t.append(msg.as_str());
            t.append("]");
            ReaderStep::End(t)
        },
        Ok(_) => ReaderStep::Ignore,
        Err(DecodeError::UnexpectedEof) => ReaderStep::Stop,
        Err(DecodeError::Io(e)) => {
            if e.kind == IoKind::WouldBlock || e.kind == IoKind::Interrupted {
                ReaderStep::Ignore
            } else {
                ReaderStep::Stop
            }
        },
        Err(DecodeError::PayloadTooLarge(n)) => {
            let mut t: String = copy_text("[pty-host: skipping oversized frame, ");
            push_decimal(&mut t, n as u64);
            t.append(" bytes]");
            ReaderStep::Skip(t, n)
        },
        Err(_) => ReaderStep::Stop,
    }
}

/// What a stream from the host leads to: terminal output, and notes to the
/// user.
pub open spec fn shown(s: Seq<u8>) -> (Seq<u8>, Seq<Seq<char>>)
    decreases s.len(),
{
    let rest = s.skip(protocol::consumed(s) as int);
    match reaction(protocol::first_host_message(s)) {
        ReaderStepView::Output(bytes) => (bytes + shown(rest).0, shown(rest).1),
        ReaderStepView::Note(t) => (shown(rest).0, seq![t] + shown(rest).1),
        ReaderStepView::Skip(t, n) => {
            let after = if n <= rest.len() {
                rest.skip(n as int)
            } else {
                seq![]
            };
            (shown(after).0, seq![t] + shown(after).1)
        },
        ReaderStepView::End(t) => (seq![], seq![t]),
        ReaderStepView::Ignore => shown(rest),
        ReaderStepView::Stop => (seq![], seq![]),
    }
}

/// Reads messages from the host, writes their output to the terminal and notes
/// to the user, until the stream ends.
pub fn reader_loop(reader: &mut Cursor, stdout: &mut Vec<u8>, stderr: &mut Vec<String>)
    ensures
        final(stdout)@ == old(stdout)@ + shown(old(reader).rest()).0,
        text::strings(final(stderr)@) == text::strings(old(stderr)@) + shown(old(reader).rest()).1,
{
    let ghost whole = shown(reader.rest());
    loop
        invariant_except_break
            stdout@ + shown(reader.rest()).0 == old(stdout)@ + whole.0,
            text::strings(stderr@) + shown(reader.rest()).1 == text::strings(old(stderr)@)
                + whole.1,
        invariant
            whole == shown(old(reader).rest()),
        ensures
            stdout@ == old(stdout)@ + whole.0,
            text::strings(stderr@) == text::strings(old(stderr)@) + whole.1,
        decreases reader.rest().len(),
    {
        let ghost s = reader.rest();
        let ghost out = stdout@;
        let ghost notes = text::strings(stderr@);
        match reader_step(HostMessage::decode_from(reader)) {
            ReaderStep::Output(bytes) => {
                push_bytes(stdout, bytes.as_slice());
                assert(stdout@ + shown(reader.rest()).0 =~= out + shown(s).0);
            },
            ReaderStep::Note(t) => {
                push_string(stderr, t);
                assert(text::strings(stderr@) + shown(reader.rest()).1 =~= notes + shown(s).1);
            },
            ReaderStep::Skip(t, n) => {
                push_string(stderr, t);
                reader.drain(n);
                assert(text::strings(stderr@) + shown(reader.rest()).1 =~= notes + shown(s).1);
            },
            ReaderStep::End(t) => {
                push_string(stderr, t);
                assert(text::strings(stderr@) =~= notes + shown(s).1);
                assert(stdout@ =~= out + shown(s).0);
                break;
            },
            ReaderStep::Ignore => {},
            ReaderStep::Stop => {
                assert(text::strings(stderr@) =~= notes + shown(s).1);
                assert(stdout@ =~= out + shown(s).0);
                break;
            },
        }
    }
}

// ---------------------------------------------------------------------------
// From the keyboard to the host
// ---------------------------------------------------------------------------

/// What to do with what a read from the keyboard brought.
pub enum InputStep {
    /// Send this and go on.
    Send(ClientMessage),
    /// Send this and stop.
    SendLast(ClientMessage),
    /// Read again.
    Again,
    /// Stop.
    Stop,
}

/// What an [`InputStep`] says.
#[verifier::ext_equal]
pub enum InputStepView {
    Send(ClientMessageView),
    SendLast(ClientMessageView),
    Again,
    Stop,
}

impl View for InputStep {
    type V = InputStepView;

    open spec fn view(&self) -> InputStepView {
        match self {
            InputStep::Send(m) => InputStepView::Send(m@),
            InputStep::SendLast(m) => InputStepView::SendLast(m@),
            InputStep::Again => InputStepView::Again,
            InputStep::Stop => InputStepView::Stop,
        }
    }
}

/// What to do with what a read from the keyboard brought, while the host is
/// still connected (`running`) or not. The key that detaches does so wherever it
/// stands, and nothing read with it is sent.
pub open spec fn input_reaction(
    read: Result<Seq<u8>, IoFaultView>,
    running: bool,
) -> InputStepView {
    match read {
        Ok(bytes) => if bytes.len() == 0 || !running {
            InputStepView::Stop
        } else if bytes.contains(DETACH_BYTE) {
            InputStepView::SendLast(ClientMessageView::Detach)
        } else {
            InputStepView::Send(ClientMessageView::Data(bytes))
        },
        Err(e) => if e.kind == IoKind::Interrupted && running {
            InputStepView::Again
        } else {
            InputStepView::Stop
        },
    }
}

fn holds_byte(bytes: &[u8], b: u8) -> (found: bool)
    ensures
        found == bytes@.contains(b),
{
    let mut i: usize = 0;
    while i < bytes.len()
        invariant
            i <= bytes@.len(),
            forall|j: int| 0 <= j < i ==> bytes@[j] != b,
        decreases bytes@.len() - i,
    {
        if bytes[i] == b {
            assert(bytes@[i as int] == b);
            return true;
        }
        i = i + 1;
    }
    false
}

/// Decides what to do with what a read from the keyboard brought.
pub fn input_step(read: Result<Vec<u8>, IoFault>, running: bool) -> (step: InputStep)
    ensures
        step@ == input_reaction(inbound::brought(read), running),
{
    match read {
        Ok(bytes) => {
            if bytes.len() == 0 || !running {
                InputStep::Stop
            } else if holds_byte(bytes.as_slice(), DETACH_BYTE) {
                InputStep::SendLast(ClientMessage::Detach)
            } else {
                InputStep::Send(ClientMessage::Data(bytes))
            }
        },
        Err(e) => {
            if e.kind == IoKind::Interrupted && running {
                InputStep::Again
            } else {
                InputStep::Stop
            }
        },
    }
}

/// The size of the terminal window, from what the kernel says: cells and
/// pixels, where it says anything.
pub fn terminal_size(ok: bool, col: u16, row: u16, xpixel: u16, ypixel: u16) -> (size: Option<
    WindowSize,
>)
    ensures
        size == if ok && col > 0 && row > 0 {
            Some(
                WindowSize {
                    cols: col,
                    rows: row,
                    cell_width: if xpixel > 0 {
                        xpixel / col
                    } else {
                        8
                    },
                    cell_height: if ypixel > 0 {
                        ypixel / row
                    } else {
                        16
                    },
                },
            )
        } else {
            None
        },
{
    if ok && col > 0 && row > 0 {
        let cell_width: u16 = if xpixel > 0 {
            xpixel / col
        } else {
            8
        };
        let cell_height: u16 = if ypixel > 0 {
            ypixel / row
        } else {
            16
        };
        Some(WindowSize { cols: col, rows: row, cell_width, cell_height })
    } else {
        None
    }
}

/// Whether no host message ends the reading: neither an error nor an exit.
pub open spec fn none_ends(ms: Seq<HostMessageView>) -> bool {
    forall|i: int|
        0 <= i < ms.len() ==> !((#[trigger] ms[i]) is Error) && !(ms[i] is ChildExit)
}

proof fn lemma_one_message(m: HostMessageView, after: Seq<u8>)
    requires
        m.payload().len() <= MAX_PAYLOAD_SIZE,
        !(m is Error) && !(m is ChildExit),
    ensures
        shown(m.wire() + after).0 == match m {
            HostMessageView::Data(bytes) => bytes + shown(after).0,
            _ => shown(after).0,
        },
{
    protocol::law_host_message_round_trips(m, after);
}

/// The terminal shows what the host sends: every byte of output, in order.
pub proof fn law_the_terminal_shows_the_output(ms: Seq<HostMessageView>, tail: Seq<u8>)
    requires
        client_laws::all_fit(ms),
        none_ends(ms),
    ensures
        shown(client_laws::host_wires(ms) + tail).0 == client_laws::output_of(ms) + shown(tail).0,
    decreases ms.len(),
{
    let out = shown(tail).0;
    if ms.len() == 0 {
        assert(client_laws::host_wires(ms) + tail =~= tail);
        assert(client_laws::output_of(ms) + out =~= out);
    } else {
        let later = ms.skip(1);
        assert forall|i: int| 0 <= i < later.len() implies (#[trigger] later[i]).payload().len()
            <= MAX_PAYLOAD_SIZE && !(later[i] is Error) && !(later[i] is ChildExit) by {
            assert(later[i] == ms[i + 1]);
        }
        let after = client_laws::host_wires(later) + tail;
        assert(client_laws::host_wires(ms) + tail =~= ms[0].wire() + after);
        lemma_one_message(ms[0], after);
        law_the_terminal_shows_the_output(later, tail);
        assert(shown(client_laws::host_wires(ms) + tail).0 =~= client_laws::output_of(ms) + out);
    }
}

/// Keystrokes reach the host as they are typed; only the key that detaches is
/// kept back, and it leaves the session running.
pub proof fn law_keystrokes_are_sent_as_typed(bytes: Seq<u8>)
    requires
        bytes.len() > 0,
    ensures
        !bytes.contains(DETACH_BYTE) ==> input_reaction(Ok(bytes), true) == InputStepView::Send(
            ClientMessageView::Data(bytes),
        ),
        bytes.contains(DETACH_BYTE) ==> input_reaction(Ok(bytes), true) == InputStepView::SendLast(
            ClientMessageView::Detach,
        ),
{
}

} // verus!
