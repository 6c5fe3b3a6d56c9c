//! Client messages out of the bytes that reads from the client bring.

use vstd::prelude::*;
use vstd::slice::*;

use crate::bytes::{drop_front, push_bytes};
use crate::fault::{would_block, IoFault, IoFaultView, IoKind};
use crate::protocol;
use crate::protocol::{
    ClientMessage, ClientMessageView, DecodeError, DecodeErrorView,
    parse_header, HEADER_SIZE, MAX_PAYLOAD_SIZE,
};

verus! {

/// The messages at the start of a stream and the incomplete frame after them,
/// or the error that the first faulty frame gives.
pub open spec fn client_stream(s: Seq<u8>) -> Result<
    (Seq<ClientMessageView>, Seq<u8>),
    DecodeErrorView,
>
    decreases s.len(),
{
    match protocol::first_frame(s) {
        Err(DecodeErrorView::UnexpectedEof) => Ok((seq![], s)),
        Err(e) => Err(e),
        Ok((tag, payload)) => match protocol::client_message(tag, payload) {
            Err(e) => Err(e),
            Ok(m) => after_message(m, client_stream(s.skip(protocol::consumed(s) as int))),
        },
    }
}

/// The outcome of a stream that starts with message `m` and goes on with a
/// stream of the given outcome.
pub open spec fn after_message(
    m: ClientMessageView,
    outcome: Result<(Seq<ClientMessageView>, Seq<u8>), DecodeErrorView>,
) -> Result<(Seq<ClientMessageView>, Seq<u8>), DecodeErrorView> {
    match outcome {
        Ok((ms, rest)) => Ok((seq![m] + ms, rest)),
        Err(e) => Err(e),
    }
}

/// The outcome of a stream that starts with messages `first` and goes on with a
/// stream of the given outcome.
pub open spec fn after_messages(
    first: Seq<ClientMessageView>,
    outcome: Result<(Seq<ClientMessageView>, Seq<u8>), DecodeErrorView>,
) -> Result<(Seq<ClientMessageView>, Seq<u8>), DecodeErrorView> {
    match outcome {
        Ok((ms, rest)) => Ok((first + ms, rest)),
        Err(e) => Err(e),
    }
}

/// What several messages say.
pub open spec fn said(ms: Seq<ClientMessage>) -> Seq<ClientMessageView> {
    Seq::new(ms.len(), |i: int| ms[i]@)
}

/// Size of the buffer that client bytes gather in: one frame of the largest
/// size.
pub const CLIENT_BUFFER_SIZE: usize = 5 + 16 * 1024 * 1024;

/// Client bytes that do not make up a complete frame yet.
pub struct ClientBuffer {
    pending: Vec<u8>,
}

impl View for ClientBuffer {
    type V = Seq<u8>;

    closed spec fn view(&self) -> Seq<u8> {
        self.pending@
    }
}

impl ClientBuffer {
    /// An empty buffer.
    pub fn new() -> (buffer: ClientBuffer)
        ensures
            buffer@ == Seq::<u8>::empty(),
    {
        ClientBuffer { pending: Vec::new() }
    }

    /// How many bytes the next read may bring.
    pub fn room(&self) -> (n: usize)
        ensures
            n == if self@.len() <= CLIENT_BUFFER_SIZE {
                CLIENT_BUFFER_SIZE - self@.len()
            } else {
                0
            },
    {
        if self.pending.len() <= CLIENT_BUFFER_SIZE {
            CLIENT_BUFFER_SIZE - self.pending.len()
        } else {
            0
        }
    }

    /// Drops all bytes.
    pub fn clear(&mut self)
        ensures
            final(self)@ == Seq::<u8>::empty(),
    {
        self.pending = Vec::new();
    }

    /// Takes in `data` and hands out the messages that are complete. After a
    /// faulty frame no message is handed out, and the bytes stay.
    pub fn extract(&mut self, data: &[u8]) -> (r: Result<Vec<ClientMessage>, DecodeError>)
        ensures
            match client_stream(old(self)@ + data@) {
                Ok((ms, rest)) => r matches Ok(v) && said(v@) == ms && final(self)@ == rest,
                Err(e) => r matches Err(err) && err@ == e && final(self)@ == old(self)@ + data@,
            },
    {
        push_bytes(&mut self.pending, data);
        let ghost s = self.pending@;
        let mut messages: Vec<ClientMessage> = Vec::new();
        let mut at: usize = 0;
        assert(s.skip(0) =~= s);
        assert(said(messages@) =~= Seq::<ClientMessageView>::empty());
        proof {
            lemma_after_none(client_stream(s));
        }
        loop
            invariant_except_break
                after_messages(said(messages@), client_stream(s.skip(at as int)))
                    == client_stream(s),
            invariant
                s == old(self)@ + data@,
                self.pending@ == s,
                at <= s.len(),
            ensures
                client_stream(s) == Ok::<(Seq<ClientMessageView>, Seq<u8>), DecodeErrorView>(
                    (said(messages@), s.skip(at as int)),
                ),
            decreases s.len() - at,
        {
            let ghost tail = s.skip(at as int);
            let left: usize = self.pending.len() - at;
            if left < HEADER_SIZE {
                assert(said(messages@) + Seq::<ClientMessageView>::empty() =~= said(messages@));
                break;
            }
            let header: &[u8] = slice_subrange(self.pending.as_slice(), at, at + HEADER_SIZE);
            assert(protocol::stated_length(header@) == protocol::stated_length(tail));
            let length: usize = match parse_header(header) {
                Ok(parsed) => parsed.length as usize,
                Err(e) => return Err(e),
            };
            if left - HEADER_SIZE < length {
                assert(said(messages@) + Seq::<ClientMessageView>::empty() =~= said(messages@));
                break;
            }
            let start: usize = at + HEADER_SIZE;
            let payload: Vec<u8> = slice_to_vec(
                slice_subrange(self.pending.as_slice(), start, start + length),
            );
            assert(payload@ =~= tail.subrange(HEADER_SIZE as int, HEADER_SIZE + length));
            assert(protocol::first_frame(tail) == Ok::<(u8, Seq<u8>), DecodeErrorView>(
                (tail[0], payload@),
            ));
            match ClientMessage::from_frame(self.pending[at], payload) {
                Ok(message) => {
                    let ghost before = said(messages@);
                    assert(tail.skip(protocol::consumed(tail) as int) =~= s.skip(start + length));
                    proof {
                        lemma_after_more(before, message@, client_stream(s.skip(start + length)));
                    }
                    messages.push(message);
                    assert(said(messages@) =~= before.push(messages@.last()@));
                },
                Err(e) => return Err(e),
            }
            at = start + length;
        }
        drop_front(&mut self.pending, at);
        Ok(messages)
    }
}

proof fn lemma_after_none(outcome: Result<(Seq<ClientMessageView>, Seq<u8>), DecodeErrorView>)
    ensures
        after_messages(seq![], outcome) == outcome,
{
    if let Ok((ms, _)) = outcome {
        assert(Seq::<ClientMessageView>::empty() + ms =~= ms);
    }
}

proof fn lemma_after_more(
    first: Seq<ClientMessageView>,
    m: ClientMessageView,
    outcome: Result<(Seq<ClientMessageView>, Seq<u8>), DecodeErrorView>,
)
    ensures
        after_messages(first, after_message(m, outcome)) == after_messages(first.push(m), outcome),
{
    if let Ok((ms, _)) = outcome {
        assert(first + (seq![m] + ms) =~= first.push(m) + ms);
    }
}

/// Why no messages came out of a read.
#[derive(Debug, Clone, PartialEq, Eq)]
pub enum ReadClientError {
    /// The client went away.
    Disconnected,
    /// The read failed.
    Io(IoFault),
    /// The client broke the protocol.
    Protocol(DecodeError),
}

/// What a [`ReadClientError`] says.
#[verifier::ext_equal]
pub enum ReadClientErrorView {
    Disconnected,
    Io(IoFaultView),
    Protocol(DecodeErrorView),
}

impl View for ReadClientError {
    type V = ReadClientErrorView;

    open spec fn view(&self) -> ReadClientErrorView {
        match self {
            ReadClientError::Disconnected => ReadClientErrorView::Disconnected,
            ReadClientError::Io(e) => ReadClientErrorView::Io(e@),
            ReadClientError::Protocol(e) => ReadClientErrorView::Protocol(e@),
        }
    }
}

/// What a read brought.
pub open spec fn brought(read: Result<Vec<u8>, IoFault>) -> Result<Seq<u8>, IoFaultView> {
    match read {
        Ok(data) => Ok(data@),
        Err(e) => Err(e@),
    }
}

/// What a read from the client gives, and the bytes that stay pending.
pub open spec fn client_read(read: Result<Seq<u8>, IoFaultView>, pending: Seq<u8>) -> (
    Result<Seq<ClientMessageView>, ReadClientErrorView>,
    Seq<u8>,
) {
    match read {
        Ok(data) => if data.len() == 0 {
            (Err(ReadClientErrorView::Disconnected), pending)
        } else {
            match client_stream(pending + data) {
                Ok((ms, rest)) => (Ok(ms), rest),
                Err(e) => (Err(ReadClientErrorView::Protocol(e)), pending + data),
            }
        },
        Err(e) => if e.kind == IoKind::WouldBlock {
            (Ok(seq![]), pending)
        } else if e.kind == IoKind::ConnectionReset {
            (Err(ReadClientErrorView::Disconnected), pending)
        } else {
            (Err(ReadClientErrorView::Io(e)), pending)
        },
    }
}

/// Takes in the outcome of a read from the client and hands out the messages
/// that are complete.
pub fn read_client_bytes(read: Result<Vec<u8>, IoFault>, buffer: &mut ClientBuffer) -> (r: Result<
    Vec<ClientMessage>,
    ReadClientError,
>)
    ensures
        match client_read(brought(read), old(buffer)@).0 {
            Ok(ms) => r matches Ok(v) && said(v@) == ms,
            Err(e) => r matches Err(err) && err@ == e,
        },
        final(buffer)@ == client_read(brought(read), old(buffer)@).1,
{
    match read {
        Ok(data) => {
            if data.len() == 0 {
                return Err(ReadClientError::Disconnected);
            }
            match buffer.extract(data.as_slice()) {
                Ok(messages) => Ok(messages),
                Err(e) => Err(ReadClientError::Protocol(e)),
            }
        },
        Err(e) => {
            if would_block(&e) {
                let none: Vec<ClientMessage> = Vec::new();
                assert(said(none@) =~= Seq::<ClientMessageView>::empty());
                return Ok(none);
            }
            if e.kind == IoKind::ConnectionReset {
                return Err(ReadClientError::Disconnected);
            }
            Err(ReadClientError::Io(e))
        },
    }
}

/// It does not matter how a stream is cut into reads: what comes of the bytes
/// so far is kept, and the pending rest followed by more bytes gives what the
/// whole stream gives.
pub proof fn law_reads_may_be_cut(a: Seq<u8>, b: Seq<u8>)
    ensures
        match client_stream(a) {
            Ok((ms, rest)) => client_stream(a + b) == after_messages(ms, client_stream(rest + b)),
            Err(e) => client_stream(a + b) == Err::<
                (Seq<ClientMessageView>, Seq<u8>),
                DecodeErrorView,
            >(e),
        },
    decreases a.len(),
{
    match protocol::first_frame(a) {
        Err(DecodeErrorView::UnexpectedEof) => {
            lemma_after_none(client_stream(a + b));
        },
        Err(_) => {
            assert(protocol::stated_length(a + b) == protocol::stated_length(a));
        },
        Ok((tag, payload)) => {
            let n = protocol::consumed(a) as int;
            assert(protocol::stated_length(a + b) == protocol::stated_length(a));
            assert((a + b).subrange(HEADER_SIZE as int, n) =~= payload);
            assert(protocol::first_frame(a + b) == protocol::first_frame(a));
            assert((a + b).skip(n) =~= a.skip(n) + b);
            if let Ok(m) = protocol::client_message(tag, payload) {
                law_reads_may_be_cut(a.skip(n), b);
                if let Ok((ms, rest)) = client_stream(a.skip(n)) {
                    if let Ok((more, _)) = client_stream(rest + b) {
                        assert(seq![m] + (ms + more) =~= (seq![m] + ms) + more);
                    }
                }
            }
        },
    }
}

/// What stays pending is an incomplete frame at the end of the bytes, so there
/// is always room for the next read.
pub proof fn law_pending_bytes_leave_room(s: Seq<u8>)
    ensures
        client_stream(s) matches Ok((_, rest)) ==> {
            &&& rest.len() < CLIENT_BUFFER_SIZE
            &&& rest.len() <= s.len()
            &&& rest == s.skip(s.len() - rest.len())
            &&& client_stream(rest) == Ok::<(Seq<ClientMessageView>, Seq<u8>), DecodeErrorView>(
                (seq![], rest),
            )
        },
    decreases s.len(),
{
    match protocol::first_frame(s) {
        Err(DecodeErrorView::UnexpectedEof) => {
            assert(s.skip(0) =~= s);
        },
        Err(_) => {},
        Ok(_) => {
            let tail = s.skip(protocol::consumed(s) as int);
            law_pending_bytes_leave_room(tail);
            if let Ok((_, rest)) = client_stream(tail) {
                assert(tail.skip(tail.len() - rest.len()) =~= s.skip(s.len() - rest.len()));
            }
        },
    }
}

/// The frames of several client messages, one after the other.
pub open spec fn wires(ms: Seq<ClientMessageView>) -> Seq<u8>
    decreases ms.len(),
{
    if ms.len() == 0 {
        seq![]
    } else {
        ms[0].wire() + wires(ms.skip(1))
    }
}

/// Whether every message fits in a frame.
pub open spec fn all_fit(ms: Seq<ClientMessageView>) -> bool {
    forall|i: int| 0 <= i < ms.len() ==> (#[trigger] ms[i]).payload().len() <= MAX_PAYLOAD_SIZE
}

/// The frames of client messages, whatever follows them, give the messages in
/// order.
pub proof fn law_sent_messages_arrive(ms: Seq<ClientMessageView>, tail: Seq<u8>)
    requires
        all_fit(ms),
    ensures
        client_stream(wires(ms) + tail) == after_messages(ms, client_stream(tail)),
    decreases ms.len(),
{
    if ms.len() == 0 {
        assert(ms =~= seq![]);
        assert(wires(ms) + tail =~= tail);
        lemma_after_none(client_stream(tail));
    } else {
        let later = ms.skip(1);
        assert forall|i: int| 0 <= i < later.len() implies (#[trigger] later[i]).payload().len()
            <= MAX_PAYLOAD_SIZE by {
            assert(later[i] == ms[i + 1]);
        }
        law_sent_messages_arrive(later, tail);
        let after = wires(later) + tail;
        assert(wires(ms) + tail =~= ms[0].wire() + after);
        protocol::law_client_message_round_trips(ms[0], after);
        protocol::lemma_frame_round_trips(ms[0].tag(), ms[0].payload(), after);
        if let Ok((more, _)) = client_stream(tail) {
            assert(seq![ms[0]] + (later + more) =~= ms + more);
        }
    }
}

/// Client messages arrive whole and in order, wherever the bytes are cut
/// between two reads.
pub proof fn law_sent_messages_arrive_across_reads(ms: Seq<ClientMessageView>, cut: int)
    requires
        all_fit(ms),
        0 <= cut <= wires(ms).len(),
    ensures
        client_stream(wires(ms).take(cut)) matches Ok((early, rest)) && client_stream(
            rest + wires(ms).skip(cut),
        ) matches Ok((late, none)) && early + late == ms && none == Seq::<u8>::empty(),
{
    let a = wires(ms).take(cut);
    let b = wires(ms).skip(cut);
    assert(a + b =~= wires(ms) + Seq::<u8>::empty());
    law_sent_messages_arrive(ms, seq![]);
    assert(ms + Seq::<ClientMessageView>::empty() =~= ms);
    law_reads_may_be_cut(a, b);
}

} // verus!
