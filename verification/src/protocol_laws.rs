//! What holds of messages on the wire.

use vstd::prelude::*;
use vstd::utf8::*;

use crate::fault::{IoFault, IoKind};
use crate::inbound;
use crate::inbound::{ClientBuffer, ReadClientErrorView};
use crate::protocol;
use crate::protocol::{
    parse_header, send_client_message, send_host_message, ClientMessage, ClientMessageView, Cursor,
    DecodeError, DecodeErrorView, FrameHeader, HostMessage, HostMessageView, WindowSize,
};

verus! {

/// The number that two bytes of a stream state, least significant first.
pub open spec fn two_bytes(s: Seq<u8>, at: int) -> int {
    s[at] + 256 * s[at + 1]
}

/// The number that four bytes of a stream state, least significant first.
pub open spec fn four_bytes(s: Seq<u8>, at: int) -> int {
    s[at] + 256 * s[at + 1] + 65536 * s[at + 2] + 16777216 * s[at + 3]
}

proof fn lemma_four_bytes(a: u8, b: u8, c: u8, d: u8)
    ensures
        crate::bytes::from_le32(a, b, c, d) == a + 256 * b + 65536 * c + 16777216 * d,
        a + 256 * b + 65536 * c + 16777216 * d <= u32::MAX,
{
}

/// Whether a stream starts with a frame of this type and payload, and is all of
/// it.
pub open spec fn is_frame(s: Seq<u8>, tag: u8, payload: Seq<u8>) -> bool {
    &&& s.len() == 5 + payload.len()
    &&& s[0] == tag
    &&& four_bytes(s, 1) == payload.len()
    &&& s.skip(5) == payload
}

proof fn lemma_frame(tag: u8, payload: Seq<u8>)
    requires
        payload.len() < 0x1_0000_0000,
    ensures
        is_frame(protocol::frame(tag, payload), tag, payload),
{
    let s = protocol::frame(tag, payload);
    let n = payload.len() as u32;
    crate::bytes::lemma_le_round_trip(0, n, 0);
    assert(s.skip(5) =~= payload);
    assert(payload.len() % 0x1_0000_0000 == payload.len());
}

/// A client's messages on the wire: type 1 carries what was typed, type 2 a size
/// as four numbers of two bytes, and types 3 and 4 carry nothing.
pub proof fn law_client_messages_on_the_wire(m: ClientMessage, wire: Vec<u8>, n: usize)
    requires
        call_ensures(ClientMessage::encode, (&m,), wire),
        call_ensures(ClientMessage::payload_len, (&m,), n),
    ensures
        n + 5 == wire@.len(),
        m matches ClientMessage::Data(typed) ==> typed@.len() < 0x1_0000_0000 ==> is_frame(
            wire@,
            1,
            typed@,
        ),
        m matches ClientMessage::Resize(size) ==> {
            &&& is_frame(wire@, 2, wire@.skip(5))
            &&& wire@.len() == 13
            &&& two_bytes(wire@, 5) == size.cols
            &&& two_bytes(wire@, 7) == size.rows
            &&& two_bytes(wire@, 9) == size.cell_width
            &&& two_bytes(wire@, 11) == size.cell_height
        },
        m matches ClientMessage::Detach ==> is_frame(wire@, 3, seq![]),
        m matches ClientMessage::Kill ==> is_frame(wire@, 4, seq![]),
{
    let payload = m@.payload();
    if payload.len() < 0x1_0000_0000 {
        lemma_frame(m@.tag(), payload);
    }
    if let ClientMessage::Resize(size) = m {
        lemma_resize_on_the_wire(size);
    }
}

proof fn lemma_resize_on_the_wire(size: WindowSize)
    ensures
        ({
            let wire = ClientMessageView::Resize(size).wire();
            &&& is_frame(wire, 2, wire.skip(5))
            &&& wire.len() == 13
            &&& two_bytes(wire, 5) == size.cols
            &&& two_bytes(wire, 7) == size.rows
            &&& two_bytes(wire, 9) == size.cell_width
            &&& two_bytes(wire, 11) == size.cell_height
        }),
{
    let m = ClientMessageView::Resize(size);
    lemma_frame(2, m.payload());
    lemma_payload_on_the_wire(2, m.payload());
}

proof fn lemma_payload_on_the_wire(tag: u8, payload: Seq<u8>)
    ensures
        protocol::frame(tag, payload).len() == 5 + payload.len(),
        forall|i: int|
            0 <= i < payload.len() ==> protocol::frame(tag, payload)[5 + i]
                == #[trigger] payload[i],
{
}

proof fn lemma_exit_on_the_wire(raw_status: Option<i32>)
    ensures
        ({
            let wire = HostMessageView::ChildExit(raw_status).wire();
            &&& is_frame(wire, 0x82, wire.skip(5))
            &&& wire.len() == 10
            &&& raw_status matches Some(status) ==> wire[5] == 1 && (four_bytes(wire, 6) == status
                || four_bytes(wire, 6) == status + 0x1_0000_0000)
            &&& raw_status is None ==> wire[5] == 0 && four_bytes(wire, 6) == 0
        }),
{
    let payload = protocol::status_bytes(raw_status);
    lemma_frame(0x82, payload);
    lemma_payload_on_the_wire(0x82, payload);
    let wire = protocol::frame(0x82, payload);
    assert(wire[5] == payload[0] && wire[6] == payload[1] && wire[7] == payload[2]);
    assert(wire[8] == payload[3] && wire[9] == payload[4]);
    if let Some(status) = raw_status {
        lemma_le32(crate::bytes::bits_of(status));
    } else {
        lemma_le32(0);
    }
}

proof fn lemma_le32(x: u32)
    ensures
        crate::bytes::le32(x).len() == 4,
        four_bytes(crate::bytes::le32(x), 0) == x,
{
    crate::bytes::lemma_le_round_trip(0, x, 0);
}

proof fn lemma_le16(x: u16)
    ensures
        crate::bytes::le16(x).len() == 2,
        two_bytes(crate::bytes::le16(x), 0) == x,
{
}

proof fn lemma_ready_on_the_wire(version: u32, pid: u32, cols: u16, rows: u16)
    ensures
        ({
            let wire = (HostMessageView::Ready { version, pid, cols, rows }).wire();
            &&& is_frame(wire, 0x83, wire.skip(5))
            &&& wire.len() == 17
            &&& four_bytes(wire, 5) == version
            &&& four_bytes(wire, 9) == pid
            &&& two_bytes(wire, 13) == cols
            &&& two_bytes(wire, 15) == rows
        }),
{
    let payload = (HostMessageView::Ready { version, pid, cols, rows }).payload();
    assert(payload.len() == 12);
    lemma_frame(0x83, payload);
    lemma_payload_on_the_wire(0x83, payload);
    lemma_le32(version);
    lemma_le32(pid);
    lemma_le16(cols);
    lemma_le16(rows);
    let wire = protocol::frame(0x83, payload);
    assert(wire[5] == payload[0] && wire[6] == payload[1] && wire[7] == payload[2]);
    assert(wire[8] == payload[3] && wire[9] == payload[4] && wire[10] == payload[5]);
    assert(wire[11] == payload[6] && wire[12] == payload[7] && wire[13] == payload[8]);
    assert(wire[14] == payload[9] && wire[15] == payload[10] && wire[16] == payload[11]);
}

/// A host's messages on the wire: type 0x81 carries output, type 0x82 whether
/// there is a status and the status, type 0x83 version, process and size, type
/// 0x84 a text, type 0x85 nothing, and type 0x86 terminal state.
pub proof fn law_host_messages_on_the_wire(m: HostMessage, wire: Vec<u8>, n: usize)
    requires
        call_ensures(HostMessage::encode, (&m,), wire),
        call_ensures(HostMessage::payload_len, (&m,), n),
    ensures
        n + 5 == wire@.len(),
        m matches HostMessage::Data(output) ==> output@.len() < 0x1_0000_0000 ==> is_frame(
            wire@,
            0x81,
            output@,
        ),
        m matches HostMessage::ChildExit { raw_status } ==> {
            &&& is_frame(wire@, 0x82, wire@.skip(5))
            &&& wire@.len() == 10
            &&& raw_status matches Some(status) ==> wire@[5] == 1 && (four_bytes(wire@, 6)
                == status || four_bytes(wire@, 6) == status + 0x1_0000_0000)
            &&& raw_status is None ==> wire@[5] == 0 && four_bytes(wire@, 6) == 0
        },
        m matches HostMessage::Ready { version, pid, cols, rows } ==> {
            &&& is_frame(wire@, 0x83, wire@.skip(5))
            &&& wire@.len() == 17
            &&& four_bytes(wire@, 5) == version
            &&& four_bytes(wire@, 9) == pid
            &&& two_bytes(wire@, 13) == cols
            &&& two_bytes(wire@, 15) == rows
        },
        m matches HostMessage::Error(told) ==> encode_utf8(told@).len() < 0x1_0000_0000
            ==> is_frame(wire@, 0x84, encode_utf8(told@)),
        m matches HostMessage::ReplayDone ==> is_frame(wire@, 0x85, seq![]),
        m matches HostMessage::Snapshot(state) ==> state@.len() < 0x1_0000_0000 ==> is_frame(
            wire@,
            0x86,
            state@,
        ),
{
    match m {
        HostMessage::ChildExit { raw_status } => {
            lemma_exit_on_the_wire(raw_status);
        },
        HostMessage::Ready { version, pid, cols, rows } => {
            lemma_ready_on_the_wire(version, pid, cols, rows);
        },
        _ => {
            if m@.payload().len() < 0x1_0000_0000 {
                lemma_frame(m@.tag(), m@.payload());
            }
        },
    }
}

/// A message that was sent is read back from the front of a stream, and what
/// follows it is left.
pub proof fn law_reading_messages(
    a: &mut Cursor,
    c: ClientMessageView,
    from_client: Result<ClientMessage, DecodeError>,
    b: &mut Cursor,
    h: HostMessageView,
    from_host: Result<HostMessage, DecodeError>,
    rest: Seq<u8>,
)
    requires
        call_ensures(ClientMessage::decode_from, (a,), from_client),
        call_ensures(HostMessage::decode_from, (b,), from_host),
        c.payload().len() <= 16 * 1024 * 1024,
        h.payload().len() <= 16 * 1024 * 1024,
        old(a).rest() == c.wire() + rest,
        old(b).rest() == h.wire() + rest,
    ensures
        from_client matches Ok(m) && m@ == c,
        from_host matches Ok(m) && m@ == h,
        final(a).rest() == rest,
        final(b).rest() == rest,
{
    protocol::law_client_message_round_trips(c, rest);
    protocol::law_host_message_round_trips(h, rest);
}

/// Sending a message puts its frame behind what is to be sent already.
pub proof fn law_sending(
    a: &mut Vec<u8>,
    c: ClientMessage,
    b: &mut Vec<u8>,
    h: HostMessage,
)
    requires
        call_ensures(send_client_message, (a, &c), ()),
        call_ensures(send_host_message, (b, &h), ()),
    ensures
        final(a)@ == old(a)@ + c@.wire(),
        final(b)@ == old(b)@ + h@.wire(),
{
}

/// A frame is read exactly where all of it is there and its payload has at most
/// sixteen mebibytes: then its type and payload come out, and all of it is taken.
/// A larger one is refused by its header alone, with its size; and anything that
/// is not all there has ended too early.
pub proof fn law_when_frames_are_read(s: Seq<u8>)
    ensures
        s.len() < 5 ==> protocol::first_frame(s) == Err::<(u8, Seq<u8>), DecodeErrorView>(
            DecodeErrorView::UnexpectedEof,
        ) && protocol::consumed(s) == s.len(),
        s.len() >= 5 ==> {
            let n = four_bytes(s, 1);
            &&& n > 16 * 1024 * 1024 ==> protocol::first_frame(s) == Err::<
                (u8, Seq<u8>),
                DecodeErrorView,
            >(DecodeErrorView::PayloadTooLarge(n as u32)) && protocol::consumed(s) == 5
            &&& n <= 16 * 1024 * 1024 && s.len() < 5 + n ==> protocol::first_frame(s) == Err::<
                (u8, Seq<u8>),
                DecodeErrorView,
            >(DecodeErrorView::UnexpectedEof) && protocol::consumed(s) == s.len()
            &&& n <= 16 * 1024 * 1024 && s.len() >= 5 + n ==> protocol::first_frame(s) == Ok::<
                (u8, Seq<u8>),
                DecodeErrorView,
            >((s[0], s.subrange(5, 5 + n))) && protocol::consumed(s) == 5 + n
        },
{
    if s.len() >= 5 {
        lemma_four_bytes(s[1], s[2], s[3], s[4]);
    }
}

/// A header states its type and its length, and is refused where the length is
/// over sixteen mebibytes.
pub proof fn law_headers(header: &[u8], r: Result<FrameHeader, DecodeError>)
    requires
        header@.len() == 5,
        call_ensures(parse_header, (header,), r),
    ensures
        r is Ok <==> four_bytes(header@, 1) <= 16 * 1024 * 1024,
        r matches Ok(h) ==> h.type_tag == header@[0] && h.length == four_bytes(header@, 1),
        r matches Err(e) ==> e@ == DecodeErrorView::PayloadTooLarge(
            four_bytes(header@, 1) as u32,
        ),
{
    lemma_four_bytes(header@[1], header@[2], header@[3], header@[4]);
}

/// What a client's frame says goes by its type: what was typed, a size, which
/// takes just eight bytes, or no more than the type; other types are unknown.
pub proof fn law_what_client_frames_say(tag: u8, payload: Seq<u8>)
    ensures
        ({
            let r = protocol::client_message(tag, payload);
            &&& tag == 1 ==> r == Ok::<ClientMessageView, DecodeErrorView>(
                ClientMessageView::Data(payload),
            )
            &&& tag == 2 ==> (r is Ok <==> payload.len() == 8)
            &&& tag == 2 && payload.len() == 8 ==> {
                r matches Ok(ClientMessageView::Resize(size)) && size.cols == two_bytes(payload, 0)
                    && size.rows == two_bytes(payload, 2) && size.cell_width == two_bytes(
                    payload,
                    4,
                ) && size.cell_height == two_bytes(payload, 6)
            }
            &&& tag == 2 && payload.len() != 8 ==> (r matches Err(e)
                && e is MalformedPayload)
            &&& tag == 3 ==> r == Ok::<ClientMessageView, DecodeErrorView>(
                ClientMessageView::Detach,
            )
            &&& tag == 4 ==> r == Ok::<ClientMessageView, DecodeErrorView>(ClientMessageView::Kill)
            &&& tag < 1 || tag > 4 ==> r == Err::<ClientMessageView, DecodeErrorView>(
                DecodeErrorView::UnknownTag(tag),
            )
        }),
{
}

/// What a host's frame says goes by its type: output, an exit in just five bytes,
/// a greeting in just twelve, a text, which is valid UTF-8, the end of the replay,
/// or terminal state; other types are unknown.
pub proof fn law_what_host_frames_say(tag: u8, payload: Seq<u8>)
    ensures
        ({
            let r = protocol::host_message(tag, payload);
            &&& tag == 0x81 ==> r == Ok::<HostMessageView, DecodeErrorView>(
                HostMessageView::Data(payload),
            )
            &&& tag == 0x82 ==> (r is Ok <==> payload.len() == 5)
            &&& tag == 0x82 && payload.len() == 5 && payload[0] == 0 ==> r == Ok::<
                HostMessageView,
                DecodeErrorView,
            >(HostMessageView::ChildExit(None))
            &&& tag == 0x82 && payload.len() == 5 && payload[0] != 0 ==> {
                r matches Ok(HostMessageView::ChildExit(Some(status))) && (four_bytes(payload, 1)
                    == status || four_bytes(payload, 1) == status + 0x1_0000_0000)
            }
            &&& tag == 0x83 ==> (r is Ok <==> payload.len() == 12)
            &&& tag == 0x83 && payload.len() == 12 ==> {
                r matches Ok(HostMessageView::Ready { version, pid, cols, rows }) && version
                    == four_bytes(payload, 0) && pid == four_bytes(payload, 4) && cols
                    == two_bytes(payload, 8) && rows == two_bytes(payload, 10)
            }
            &&& tag == 0x84 ==> (r is Ok <==> valid_utf8(payload))
            &&& tag == 0x84 && valid_utf8(payload) ==> r == Ok::<HostMessageView, DecodeErrorView>(
                HostMessageView::Error(decode_utf8(payload)),
            )
            &&& tag == 0x85 ==> r == Ok::<HostMessageView, DecodeErrorView>(
                HostMessageView::ReplayDone,
            )
            &&& tag == 0x86 ==> r == Ok::<HostMessageView, DecodeErrorView>(
                HostMessageView::Snapshot(payload),
            )
            &&& 0x82 <= tag <= 0x84 && r is Err ==> r->Err_0 is MalformedPayload
            &&& tag < 0x81 || tag > 0x86 ==> r == Err::<HostMessageView, DecodeErrorView>(
                DecodeErrorView::UnknownTag(tag),
            )
        }),
{
}

/// Part of a message is no message: where a stream is cut inside one, reading
/// waits for the rest.
pub proof fn law_cut_messages_are_waited_for(c: ClientMessageView, h: HostMessageView, k: int)
    ensures
        c.payload().len() <= 16 * 1024 * 1024 && 0 <= k < c.wire().len()
            ==> protocol::first_client_message(c.wire().take(k)) == Err::<
            ClientMessageView,
            DecodeErrorView,
        >(DecodeErrorView::UnexpectedEof),
        h.payload().len() <= 16 * 1024 * 1024 && 0 <= k < h.wire().len()
            ==> protocol::first_host_message(h.wire().take(k)) == Err::<
            HostMessageView,
            DecodeErrorView,
        >(DecodeErrorView::UnexpectedEof),
{
    if c.payload().len() <= 16 * 1024 * 1024 && 0 <= k < c.wire().len() {
        lemma_frame(c.tag(), c.payload());
        law_when_frames_are_read(c.wire().take(k));
        if k >= 5 {
            assert(four_bytes(c.wire().take(k), 1) == four_bytes(c.wire(), 1));
        }
    }
    if h.payload().len() <= 16 * 1024 * 1024 && 0 <= k < h.wire().len() {
        lemma_frame(h.tag(), h.payload());
        law_when_frames_are_read(h.wire().take(k));
        if k >= 5 {
            assert(four_bytes(h.wire().take(k), 1) == four_bytes(h.wire(), 1));
        }
    }
}

/// An error is shown by what it is about: the byte, the size, the failure or the
/// complaint.
pub proof fn law_decode_errors_are_shown(e: DecodeError, t: String)
    requires
        call_ensures(DecodeError::text, (&e,), t),
    ensures
        e is UnexpectedEof ==> t@ == "unexpected EOF"@,
        e matches DecodeError::Io(fault) ==> t@ == "I/O error: "@ + fault.message@,
        e matches DecodeError::UnknownTag(tag) ==> t@ == "unknown message tag: 0x"@
            + crate::text::hex_byte(tag),
        e matches DecodeError::PayloadTooLarge(n) ==> t@ == "payload too large: "@
            + crate::text::decimal(n as nat) + " bytes"@,
        e matches DecodeError::MalformedPayload(complaint) ==> t@ == "malformed payload: "@
            + complaint@,
{
}

/// A read that hit the end of a stream is the end of the stream; any other failure
/// is kept as it is.
pub proof fn law_failures_as_decode_errors(e: IoFault)
    ensures
        ({
            let d = <DecodeError as vstd::std_specs::convert::FromSpec<IoFault>>::from_spec(e);
            &&& e.kind is UnexpectedEof <==> d is UnexpectedEof
            &&& !(e.kind is UnexpectedEof) ==> d == DecodeError::Io(e)
        }),
{
}

/// What a read from the client means: nothing at all means that the client is
/// gone, and so does a reset; a read that would block means nothing yet; another
/// failure is reported; and bytes are taken together with those that were pending.
pub proof fn law_what_reads_mean(
    data: Seq<u8>,
    e: crate::fault::IoFaultView,
    pending: Seq<u8>,
)
    ensures
        inbound::client_read(Ok(seq![]), pending) == (
            Err::<Seq<ClientMessageView>, ReadClientErrorView>(ReadClientErrorView::Disconnected),
            pending,
        ),
        inbound::client_read(Err(e), pending) == (
            match e.kind {
                IoKind::WouldBlock => Ok::<Seq<ClientMessageView>, ReadClientErrorView>(seq![]),
                IoKind::ConnectionReset => Err(ReadClientErrorView::Disconnected),
                _ => Err(ReadClientErrorView::Io(e)),
            },
            pending,
        ),
        data.len() > 0 ==> match inbound::client_stream(pending + data) {
            Ok((ms, rest)) => inbound::client_read(Ok(data), pending) == (
                Ok::<Seq<ClientMessageView>, ReadClientErrorView>(ms),
                rest,
            ),
            Err(fault) => inbound::client_read(Ok(data), pending).0 == Err::<
                Seq<ClientMessageView>,
                ReadClientErrorView,
            >(ReadClientErrorView::Protocol(fault)),
        },
{
}

/// A frame that is no message is an error, wherever it stands: the messages before
/// it do not come out.
pub proof fn law_faulty_frames_are_errors(
    ms: Seq<ClientMessageView>,
    bad: Seq<u8>,
    e: DecodeErrorView,
)
    requires
        forall|i: int|
            0 <= i < ms.len() ==> (#[trigger] ms[i]).payload().len() <= 16 * 1024 * 1024,
        protocol::first_client_message(bad) == Err::<ClientMessageView, DecodeErrorView>(e),
        e != DecodeErrorView::UnexpectedEof,
    ensures
        inbound::client_stream(inbound::wires(ms) + bad) == Err::<
            (Seq<ClientMessageView>, Seq<u8>),
            DecodeErrorView,
        >(e),
{
    inbound::law_sent_messages_arrive(ms, bad);
    assert(inbound::client_stream(bad) == Err::<
        (Seq<ClientMessageView>, Seq<u8>),
        DecodeErrorView,
    >(e));
}

/// There is room for what is missing of a frame of the largest size.
pub proof fn law_room_for_one_frame(buffer: ClientBuffer, n: usize)
    requires
        call_ensures(ClientBuffer::room, (&buffer,), n),
    ensures
        buffer@.len() <= 5 + 16 * 1024 * 1024 ==> n + buffer@.len() == 5 + 16 * 1024 * 1024,
        buffer@.len() > 5 + 16 * 1024 * 1024 ==> n == 0,
{
}

} // verus!
