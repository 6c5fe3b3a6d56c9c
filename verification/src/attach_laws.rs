//! What holds of the plain terminal client.

use vstd::prelude::*;

use crate::attach;
use crate::attach::{
    input_step, reader_loop, terminal_size, InputStep, InputStepView,
};
use crate::client_laws;
use crate::fault::IoFault;
use crate::protocol;
use crate::protocol::{ClientMessageView, Cursor, DecodeErrorView, HostMessageView, WindowSize};
use crate::text;

verus! {

/// What is typed is sent while the host is there: all of it, unless Ctrl-] is
/// among it, which detaches instead. The end of the input and a failed read end
/// it, and so does the loss of the host; an interrupted read is tried again.
pub proof fn law_what_is_typed(read: Result<Vec<u8>, IoFault>, running: bool, step: InputStep)
    requires
        call_ensures(input_step, (read, running), step),
    ensures
        read matches Ok(bytes) ==> running && bytes@.len() > 0 ==> {
            if bytes@.contains(0x1du8) {
                step@ == InputStepView::SendLast(ClientMessageView::Detach)
            } else {
                step@ == InputStepView::Send(ClientMessageView::Data(bytes@))
            }
        },
        read matches Ok(bytes) ==> !running || bytes@.len() == 0 ==> step is Stop,
        read matches Err(e) ==> (step is Again <==> running && e.kind is Interrupted),
        read matches Err(e) ==> !(step is Again) ==> step is Stop,
{
}

/// A terminal's size is known where the kernel tells of at least one column and
/// one row. A cell is as large as goes into the pixels that many times; where
/// there are no pixels it is of the usual size.
pub proof fn law_terminal_sizes(
    ok: bool,
    col: u16,
    row: u16,
    xpixel: u16,
    ypixel: u16,
    size: Option<WindowSize>,
)
    requires
        call_ensures(terminal_size, (ok, col, row, xpixel, ypixel), size),
    ensures
        size is Some <==> ok && col >= 1 && row >= 1,
        size matches Some(s) ==> {
            &&& s.cols == col
            &&& s.rows == row
            &&& xpixel == 0 ==> s.cell_width == 8
            &&& ypixel == 0 ==> s.cell_height == 16
            &&& xpixel > 0 ==> s.cell_width * col <= xpixel < (s.cell_width + 1) * col
            &&& ypixel > 0 ==> s.cell_height * row <= ypixel < (s.cell_height + 1) * row
        },
{
    if let Some(s) = size {
        if xpixel > 0 {
            lemma_quotient(xpixel as int, col as int);
        }
        if ypixel > 0 {
            lemma_quotient(ypixel as int, row as int);
        }
    }
}

proof fn lemma_quotient(a: int, b: int)
    requires
        b > 0,
        a >= 0,
    ensures
        (a / b) * b <= a < (a / b + 1) * b,
{
    vstd::arithmetic::div_mod::lemma_fundamental_div_mod(a, b);
    assert((a / b) * b == b * (a / b)) by (nonlinear_arith);
    assert((a / b + 1) * b == b * (a / b) + b) by (nonlinear_arith);
    vstd::arithmetic::div_mod::lemma_mod_bound(a, b);
}

/// What the user sees of a message: output as it is, the greeting and an exit as
/// notes that tell the process and the status, an error as a note with its text,
/// and nothing of the replay. An exit and an error end it.
pub proof fn law_what_the_user_sees(m: HostMessageView, rest: Seq<u8>)
    requires
        m.payload().len() <= 16 * 1024 * 1024,
    ensures
        ({
            let (output, notes) = attach::shown(m.wire() + rest);
            let (later, others) = attach::shown(rest);
            &&& m matches HostMessageView::Data(bytes) ==> output == bytes + later && notes
                == others
            &&& m matches HostMessageView::Ready { pid, .. } ==> output == later && notes == seq![
                "[pty-host: ready, pid="@ + text::decimal(pid as nat) + "]"@,
            ] + others
            &&& m matches HostMessageView::ChildExit(raw) ==> output.len() == 0 && notes == seq![
                "\r\n[pty-host: child exited, raw_status="@ + text::signed_decimal(
                    if raw is Some {
                        raw->0 as int
                    } else {
                        -1
                    },
                ) + "]"@,
            ]
            &&& m matches HostMessageView::Error(told) ==> output.len() == 0 && notes == seq![
                "\r\n[pty-host error: "@ + told + "]"@,
            ]
            &&& m is ReplayDone || m is Snapshot ==> output == later && notes == others
        }),
{
    protocol::law_host_message_round_trips(m, rest);
}

/// What the host sends reaches the terminal behind what is there already, all of
/// it and in order, for as long as nothing ends it.
pub proof fn law_output_reaches_the_terminal(
    reader: &mut Cursor,
    stdout: &mut Vec<u8>,
    stderr: &mut Vec<String>,
    ms: Seq<HostMessageView>,
)
    requires
        call_ensures(reader_loop, (reader, stdout, stderr), ()),
        old(reader).rest() == client_laws::host_wires(ms),
        client_laws::all_fit(ms),
        attach::none_ends(ms),
    ensures
        final(stdout)@ == old(stdout)@ + client_laws::output_of(ms),
{
    attach::law_the_terminal_shows_the_output(ms, seq![]);
    assert(client_laws::host_wires(ms) + Seq::<u8>::empty() =~= client_laws::host_wires(ms));
    assert(attach::shown(seq![]).0 == Seq::<u8>::empty());
    assert(client_laws::output_of(ms) + Seq::<u8>::empty() =~= client_laws::output_of(ms));
}

/// A frame over the limit is noted with its size and skipped; what follows it is
/// seen as without it. A frame that cannot be read, and the end of the stream, end
/// it without a note.
pub proof fn law_what_cannot_be_read(tag: u8, payload: Seq<u8>, rest: Seq<u8>, bad: Seq<u8>)
    requires
        16 * 1024 * 1024 < payload.len() <= u32::MAX,
        protocol::first_host_message(bad) matches Err(e) && !(e is PayloadTooLarge),
    ensures
        attach::shown(protocol::frame(tag, payload) + rest) == (
            attach::shown(rest).0,
            seq![
                "[pty-host: skipping oversized frame, "@ + text::decimal(payload.len())
                    + " bytes]"@,
            ] + attach::shown(rest).1,
        ),
        !(protocol::first_host_message(bad)->Err_0 is Io) ==> attach::shown(bad) == (
            Seq::<u8>::empty(),
            Seq::<Seq<char>>::empty(),
        ),
{
    protocol::law_oversized_frame_keeps_its_payload(tag, payload, rest);
    assert((payload + rest).skip(payload.len() as int) =~= rest);
}

/// Reading goes on after a failure that passes: one that would block, or an
/// interruption; any other failure ends it.
pub proof fn law_failures_that_pass(e: crate::fault::IoFaultView)
    ensures
        ({
            let step = attach::reaction(Err(DecodeErrorView::Io(e)));
            &&& step is Ignore <==> e.kind is WouldBlock || e.kind is Interrupted
            &&& !(step is Ignore) ==> step is Stop
        }),
{
}

} // verus!
