//! Wire protocol between a client and the PTY host.
//!
//! Every message travels as one frame: a type byte, the payload length as a
//! 32-bit little-endian integer, and the payload. The length covers only the
//! payload. A payload longer than 16 MiB is refused on decode.

use vstd::prelude::*;
use vstd::slice::*;
use vstd::string::*;
use vstd::utf8::*;

use crate::bytes;
use crate::bytes::{join_le16, join_le32, push_bytes, push_le16, push_le32, to_bits, to_signed};
use crate::fault::{IoFault, IoFaultView, IoKind};
use crate::text;
use crate::text::{copy_text, push_decimal, push_hex_byte, text_from_utf8};

verus! {

/// Protocol version. The host sends it in READY; a client refuses a host with
/// another version.
pub const PROTOCOL_VERSION: u32 = 4;

/// Header size in bytes: one for the type, four for the length.
pub const HEADER_SIZE: usize = 5;

/// Maximum payload size (16 MiB).
pub const MAX_PAYLOAD_SIZE: u32 = 16 * 1024 * 1024;

// Client to host.
pub const CLIENT_DATA: u8 = 0x01;
pub const CLIENT_RESIZE: u8 = 0x02;
pub const CLIENT_DETACH: u8 = 0x03;
pub const CLIENT_KILL: u8 = 0x04;

// Host to client.
pub const HOST_DATA: u8 = 0x81;
pub const HOST_CHILD_EXIT: u8 = 0x82;
pub const HOST_READY: u8 = 0x83;
pub const HOST_ERROR: u8 = 0x84;
pub const HOST_REPLAY_DONE: u8 = 0x85;
pub const HOST_SNAPSHOT: u8 = 0x86;

/// Terminal window size.
#[derive(Debug, Clone, Copy, PartialEq, Eq, Structural)]
pub struct WindowSize {
    pub cols: u16,
    pub rows: u16,
    pub cell_width: u16,
    pub cell_height: u16,
}

/// Messages sent from a client to the host.
#[derive(Debug, Clone, PartialEq, Eq)]
pub enum ClientMessage {
    /// Raw bytes to write to the PTY (terminal input from the user).
    Data(Vec<u8>),
    /// Resize the PTY.
    Resize(WindowSize),
    /// Graceful disconnect: keep the session alive.
    Detach,
    /// Terminate the shell and clean up the session.
    Kill,
}

/// Messages sent from the host to a client.
#[derive(Debug, Clone, PartialEq, Eq)]
pub enum HostMessage {
    /// Raw bytes read from the PTY (terminal output).
    Data(Vec<u8>),
    /// The child process exited, with its raw wait status where there is one.
    ChildExit { raw_status: Option<i32> },
    /// The session is ready: protocol version, child PID and grid size.
    Ready { version: u32, pid: u32, cols: u16, rows: u16 },
    /// An error occurred in the host.
    Error(String),
    /// All replay messages have been sent; what follows is live.
    ReplayDone,
    /// Serialised terminal state. A state that does not fit in one payload
    /// comes as several of these, in order.
    Snapshot(Vec<u8>),
}

/// What a [`ClientMessage`] says.
#[verifier::ext_equal]
pub enum ClientMessageView {
    Data(Seq<u8>),
    Resize(WindowSize),
    Detach,
    Kill,
}

/// What a [`HostMessage`] says.
#[verifier::ext_equal]
pub enum HostMessageView {
    Data(Seq<u8>),
    ChildExit(Option<i32>),
    Ready { version: u32, pid: u32, cols: u16, rows: u16 },
    Error(Seq<char>),
    ReplayDone,
    Snapshot(Seq<u8>),
}

impl View for ClientMessage {
    type V = ClientMessageView;

    open spec fn view(&self) -> ClientMessageView {
        match self {
            ClientMessage::Data(bytes) => ClientMessageView::Data(bytes@),
            ClientMessage::Resize(size) => ClientMessageView::Resize(*size),
            ClientMessage::Detach => ClientMessageView::Detach,
            ClientMessage::Kill => ClientMessageView::Kill,
        }
    }
}

impl View for HostMessage {
    type V = HostMessageView;

    open spec fn view(&self) -> HostMessageView {
        match self {
            HostMessage::Data(bytes) => HostMessageView::Data(bytes@),
            HostMessage::ChildExit { raw_status } => HostMessageView::ChildExit(*raw_status),
            HostMessage::Ready { version, pid, cols, rows } => HostMessageView::Ready {
                version: *version,
                pid: *pid,
                cols: *cols,
                rows: *rows,
            },
            HostMessage::Error(msg) => HostMessageView::Error(msg@),
            HostMessage::ReplayDone => HostMessageView::ReplayDone,
            HostMessage::Snapshot(bytes) => HostMessageView::Snapshot(bytes@),
        }
    }
}

/// The frame that carries `payload` under type `tag`. The length field holds
/// the payload length modulo 2^32.
pub open spec fn frame(tag: u8, payload: Seq<u8>) -> Seq<u8> {
    seq![tag] + bytes::le32((payload.len() % 0x1_0000_0000) as u32) + payload
}

/// A child's exit status on the wire: one byte that says whether there is a
/// status, then the status (zero where there is none).
pub open spec fn status_bytes(raw_status: Option<i32>) -> Seq<u8> {
    match raw_status {
        Some(status) => seq![1u8] + bytes::le32(bytes::bits_of(status)),
        None => seq![0u8] + bytes::le32(0),
    }
}

impl ClientMessageView {
    /// The type byte of this message.
    pub open spec fn tag(self) -> u8 {
        match self {
            ClientMessageView::Data(_) => CLIENT_DATA,
            ClientMessageView::Resize(_) => CLIENT_RESIZE,
            ClientMessageView::Detach => CLIENT_DETACH,
            ClientMessageView::Kill => CLIENT_KILL,
        }
    }

    /// The payload of this message.
    pub open spec fn payload(self) -> Seq<u8> {
        match self {
            ClientMessageView::Data(bytes) => bytes,
            ClientMessageView::Resize(size) => bytes::le16(size.cols) + bytes::le16(
                size.rows,
            ) + bytes::le16(size.cell_width) + bytes::le16(size.cell_height),
            ClientMessageView::Detach => seq![],
            ClientMessageView::Kill => seq![],
        }
    }

    /// The frame of this message.
    pub open spec fn wire(self) -> Seq<u8> {
        frame(self.tag(), self.payload())
    }
}

impl HostMessageView {
    /// The type byte of this message.
    pub open spec fn tag(self) -> u8 {
        match self {
            HostMessageView::Data(_) => HOST_DATA,
            HostMessageView::ChildExit(_) => HOST_CHILD_EXIT,
            HostMessageView::Ready { .. } => HOST_READY,
            HostMessageView::Error(_) => HOST_ERROR,
            HostMessageView::ReplayDone => HOST_REPLAY_DONE,
            HostMessageView::Snapshot(_) => HOST_SNAPSHOT,
        }
    }

    /// The payload of this message.
    pub open spec fn payload(self) -> Seq<u8> {
        match self {
            HostMessageView::Data(bytes) => bytes,
            HostMessageView::ChildExit(raw_status) => status_bytes(raw_status),
            HostMessageView::Ready { version, pid, cols, rows } => bytes::le32(version)
                + bytes::le32(pid) + bytes::le16(cols) + bytes::le16(rows),
            HostMessageView::Error(msg) => encode_utf8(msg),
            HostMessageView::ReplayDone => seq![],
            HostMessageView::Snapshot(bytes) => bytes,
        }
    }

    /// The frame of this message.
    pub open spec fn wire(self) -> Seq<u8> {
        frame(self.tag(), self.payload())
    }
}

/// Appends a frame header.
pub fn write_header(buf: &mut Vec<u8>, type_tag: u8, length: u32)
    ensures
        final(buf)@ == old(buf)@ + seq![type_tag] + bytes::le32(length),
{
    let ghost before = buf@;
    buf.push(type_tag);
    push_le32(buf, length);
    assert(buf@ =~= before + seq![type_tag] + bytes::le32(length));
}

/// Appends a whole frame.
fn write_frame(buf: &mut Vec<u8>, type_tag: u8, payload: &[u8])
    ensures
        final(buf)@ == old(buf)@ + frame(type_tag, payload@),
{
    let ghost before = buf@;
    write_header(buf, type_tag, (payload.len() as u64 % 0x1_0000_0000) as u32);
    push_bytes(buf, payload);
    assert(buf@ =~= before + frame(type_tag, payload@));
}

/// Appends a child's exit status as it stands on the wire.
pub fn push_status(buf: &mut Vec<u8>, raw_status: Option<i32>)
    ensures
        final(buf)@ == old(buf)@ + status_bytes(raw_status),
{
    let ghost before = buf@;
    match raw_status {
        Some(status) => {
            buf.push(1u8);
            push_le32(buf, to_bits(status));
        },
        None => {
            buf.push(0u8);
            push_le32(buf, 0);
        },
    }
    assert(buf@ =~= before + status_bytes(raw_status));
}

impl ClientMessage {
    /// Appends the frame of this message to `buf`, and answers with the number
    /// of bytes written.
    pub fn encode_into(&self, buf: &mut Vec<u8>) -> (written: usize)
        ensures
            final(buf)@ == old(buf)@ + self@.wire(),
            written == self@.wire().len(),
    {
        let start: usize = buf.len();
        match self {
            ClientMessage::Data(bytes) => {
                write_frame(buf, CLIENT_DATA, bytes.as_slice());
            },
            ClientMessage::Resize(size) => {
                let ghost before = buf@;
                write_header(buf, CLIENT_RESIZE, 8);
                push_le16(buf, size.cols);
                push_le16(buf, size.rows);
                push_le16(buf, size.cell_width);
                push_le16(buf, size.cell_height);
                assert(self@.payload().len() == 8);
                assert(buf@ =~= before + self@.wire());
            },
            ClientMessage::Detach => {
                let ghost before = buf@;
                write_header(buf, CLIENT_DETACH, 0);
                assert(buf@ =~= before + self@.wire());
            },
            ClientMessage::Kill => {
                let ghost before = buf@;
                write_header(buf, CLIENT_KILL, 0);
                assert(buf@ =~= before + self@.wire());
            },
        }
        buf.len() - start
    }

    /// The frame of this message.
    pub fn encode(&self) -> (frame: Vec<u8>)
        ensures
            frame@ == self@.wire(),
    {
        let mut buf: Vec<u8> = Vec::new();
        self.encode_into(&mut buf);
        assert(buf@ =~= self@.wire());
        buf
    }

    /// The number of payload bytes in the frame of this message.
    pub fn payload_len(&self) -> (n: usize)
        ensures
            n == self@.payload().len(),
    {
        match self {
            ClientMessage::Data(bytes) => bytes.len(),
            ClientMessage::Resize(_) => 8,
            ClientMessage::Detach | ClientMessage::Kill => 0,
        }
    }
}

impl HostMessage {
    /// Appends the frame of this message to `buf`.
    pub fn encode_into(&self, buf: &mut Vec<u8>)
        ensures
            final(buf)@ == old(buf)@ + self@.wire(),
    {
        match self {
            HostMessage::Data(bytes) => {
                write_frame(buf, HOST_DATA, bytes.as_slice());
            },
            HostMessage::ChildExit { raw_status } => {
                let ghost before = buf@;
                write_header(buf, HOST_CHILD_EXIT, 5);
                push_status(buf, *raw_status);
                assert(self@.payload().len() == 5);
                assert(buf@ =~= before + self@.wire());
            },
            HostMessage::Ready { version, pid, cols, rows } => {
                let ghost before = buf@;
                write_header(buf, HOST_READY, 12);
                push_le32(buf, *version);
                push_le32(buf, *pid);
                push_le16(buf, *cols);
                push_le16(buf, *rows);
                assert(self@.payload().len() == 12);
                assert(buf@ =~= before + self@.wire());
            },
            HostMessage::Error(msg) => {
                write_frame(buf, HOST_ERROR, msg.as_str().as_bytes());
            },
            HostMessage::ReplayDone => {
                let ghost before = buf@;
                write_header(buf, HOST_REPLAY_DONE, 0);
                assert(buf@ =~= before + self@.wire());
            },
            HostMessage::Snapshot(bytes) => {
                write_frame(buf, HOST_SNAPSHOT, bytes.as_slice());
            },
        }
    }

    /// The frame of this message.
    pub fn encode(&self) -> (frame: Vec<u8>)
        ensures
            frame@ == self@.wire(),
    {
        let mut buf: Vec<u8> = Vec::new();
        self.encode_into(&mut buf);
        assert(buf@ =~= self@.wire());
        buf
    }

    /// The number of payload bytes in the frame of this message.
    pub fn payload_len(&self) -> (n: usize)
        ensures
            n == self@.payload().len(),
    {
        match self {
            HostMessage::Data(bytes) => bytes.len(),
            HostMessage::ChildExit { .. } => 5,
            HostMessage::Ready { .. } => 12,
            HostMessage::Error(msg) => msg.as_str().as_bytes().len(),
            HostMessage::ReplayDone => 0,
            HostMessage::Snapshot(bytes) => bytes.len(),
        }
    }
}

/// Why no message could be decoded.
#[derive(Debug, Clone, PartialEq, Eq)]
pub enum DecodeError {
    /// The stream ended mid-message or before any data.
    UnexpectedEof,
    /// An I/O error occurred during reading.
    Io(IoFault),
    /// The type byte is not recognised.
    UnknownTag(u8),
    /// The payload length exceeds [`MAX_PAYLOAD_SIZE`].
    PayloadTooLarge(u32),
    /// A payload could not be parsed.
    MalformedPayload(&'static str),
}

/// What a [`DecodeError`] says.
#[verifier::ext_equal]
pub enum DecodeErrorView {
    UnexpectedEof,
    Io(IoFaultView),
    UnknownTag(u8),
    PayloadTooLarge(u32),
    MalformedPayload(Seq<char>),
}

impl View for DecodeError {
    type V = DecodeErrorView;

    open spec fn view(&self) -> DecodeErrorView {
        match self {
            DecodeError::UnexpectedEof => DecodeErrorView::UnexpectedEof,
            DecodeError::Io(e) => DecodeErrorView::Io(e@),
            DecodeError::UnknownTag(tag) => DecodeErrorView::UnknownTag(*tag),
            DecodeError::PayloadTooLarge(n) => DecodeErrorView::PayloadTooLarge(*n),
            DecodeError::MalformedPayload(msg) => DecodeErrorView::MalformedPayload(msg@),
        }
    }
}

impl DecodeErrorView {
    /// How this error is shown.
    pub open spec fn text(self) -> Seq<char> {
        match self {
            DecodeErrorView::UnexpectedEof => "unexpected EOF"@,
            DecodeErrorView::Io(e) => "I/O error: "@ + e.message,
            DecodeErrorView::UnknownTag(tag) => "unknown message tag: 0x"@ + text::hex_byte(tag),
            DecodeErrorView::PayloadTooLarge(n) => "payload too large: "@ + text::decimal(
                n as nat,
            ) + " bytes"@,
            DecodeErrorView::MalformedPayload(msg) => "malformed payload: "@ + msg,
        }
    }
}

impl DecodeError {
    /// How this error is shown.
    pub fn text(&self) -> (t: String)
        ensures
            t@ == self@.text(),
    {
        match self {
            DecodeError::UnexpectedEof => copy_text("unexpected EOF"),
            DecodeError::Io(e) => {
                let mut t: String = copy_text("I/O error: ");
                t.append(e.message.as_str());
                t
            },
            DecodeError::UnknownTag(tag) => {
                let mut t: String = copy_text("unknown message tag: 0x");
                push_hex_byte(&mut t, *tag);
                t
            },
            DecodeError::PayloadTooLarge(n) => {
                let mut t: String = copy_text("payload too large: ");
                push_decimal(&mut t, *n as u64);
                t.append(" bytes");
                t
            },
            DecodeError::MalformedPayload(msg) => {
                let mut t: String = copy_text("malformed payload: ");
                t.append(msg);
                t
            },
        }
    }
}

impl From<IoFault> for DecodeError {
    /// A read that hit the end of the stream is [`DecodeError::UnexpectedEof`];
    /// any other failure is kept.
    fn from(err: IoFault) -> (e: Self) {
        if err.kind == IoKind::UnexpectedEof {
            DecodeError::UnexpectedEof
        } else {
            DecodeError::Io(err)
        }
    }
}

impl vstd::std_specs::convert::FromSpecImpl<IoFault> for DecodeError {
    open spec fn obeys_from_spec() -> bool {
        true
    }

    open spec fn from_spec(err: IoFault) -> DecodeError {
        if err.kind == IoKind::UnexpectedEof {
            DecodeError::UnexpectedEof
        } else {
            DecodeError::Io(err)
        }
    }
}

/// Whether `r` is the outcome that `outcome` describes.
pub open spec fn outcome_is<T: View>(
    r: Result<T, DecodeError>,
    outcome: Result<T::V, DecodeErrorView>,
) -> bool {
    match r {
        Ok(v) => outcome == Ok::<T::V, DecodeErrorView>(v@),
        Err(e) => outcome == Err::<T::V, DecodeErrorView>(e@),
    }
}

/// The payload length that a header states.
pub open spec fn stated_length(s: Seq<u8>) -> u32 {
    bytes::from_le32(s[1], s[2], s[3], s[4])
}

/// The first frame of a stream, as type and payload.
pub open spec fn first_frame(s: Seq<u8>) -> Result<(u8, Seq<u8>), DecodeErrorView> {
    if s.len() < HEADER_SIZE {
        Err(DecodeErrorView::UnexpectedEof)
    } else if stated_length(s) > MAX_PAYLOAD_SIZE {
        Err(DecodeErrorView::PayloadTooLarge(stated_length(s)))
    } else if s.len() < HEADER_SIZE + stated_length(s) {
        Err(DecodeErrorView::UnexpectedEof)
    } else {
        Ok((s[0], s.subrange(HEADER_SIZE as int, HEADER_SIZE + stated_length(s))))
    }
}

/// How many bytes of a stream reading its first frame takes: the whole frame;
/// only the header, where the payload is too large; everything, where the
/// stream ends early.
pub open spec fn consumed(s: Seq<u8>) -> nat {
    if s.len() < HEADER_SIZE {
        s.len()
    } else if stated_length(s) > MAX_PAYLOAD_SIZE {
        HEADER_SIZE as nat
    } else if s.len() < HEADER_SIZE + stated_length(s) {
        s.len()
    } else {
        (HEADER_SIZE + stated_length(s)) as nat
    }
}

/// The client message that a frame carries.
pub open spec fn client_message(tag: u8, payload: Seq<u8>) -> Result<
    ClientMessageView,
    DecodeErrorView,
> {
    if tag == CLIENT_DATA {
        Ok(ClientMessageView::Data(payload))
    } else if tag == CLIENT_RESIZE {
        if payload.len() != 8 {
            Err(DecodeErrorView::MalformedPayload("RESIZE expects 8 bytes"@))
        } else {
            Ok(
                ClientMessageView::Resize(
                    WindowSize {
                        cols: bytes::from_le16(payload[0], payload[1]),
                        rows: bytes::from_le16(payload[2], payload[3]),
                        cell_width: bytes::from_le16(payload[4], payload[5]),
                        cell_height: bytes::from_le16(payload[6], payload[7]),
                    },
                ),
            )
        }
    } else if tag == CLIENT_DETACH {
        Ok(ClientMessageView::Detach)
    } else if tag == CLIENT_KILL {
        Ok(ClientMessageView::Kill)
    } else {
        Err(DecodeErrorView::UnknownTag(tag))
    }
}

/// The exit status that five bytes state.
pub open spec fn status_of(s: Seq<u8>) -> Option<i32> {
    if s[0] != 0 {
        Some(bytes::signed_of(bytes::from_le32(s[1], s[2], s[3], s[4])))
    } else {
        None
    }
}

/// The host message that a frame carries.
pub open spec fn host_message(tag: u8, payload: Seq<u8>) -> Result<
    HostMessageView,
    DecodeErrorView,
> {
    if tag == HOST_DATA {
        Ok(HostMessageView::Data(payload))
    } else if tag == HOST_CHILD_EXIT {
        if payload.len() != 5 {
            Err(DecodeErrorView::MalformedPayload("CHILD_EXIT expects 5 bytes"@))
        } else {
            Ok(HostMessageView::ChildExit(status_of(payload)))
        }
    } else if tag == HOST_READY {
        if payload.len() != 12 {
            Err(DecodeErrorView::MalformedPayload("READY expects 12 bytes"@))
        } else {
            Ok(
                HostMessageView::Ready {
                    version: bytes::from_le32(payload[0], payload[1], payload[2], payload[3]),
                    pid: bytes::from_le32(payload[4], payload[5], payload[6], payload[7]),
                    cols: bytes::from_le16(payload[8], payload[9]),
                    rows: bytes::from_le16(payload[10], payload[11]),
                },
            )
        }
    } else if tag == HOST_ERROR {
        if valid_utf8(payload) {
            Ok(HostMessageView::Error(decode_utf8(payload)))
        } else {
            Err(DecodeErrorView::MalformedPayload("ERROR payload is not UTF-8"@))
        }
    } else if tag == HOST_REPLAY_DONE {
        Ok(HostMessageView::ReplayDone)
    } else if tag == HOST_SNAPSHOT {
        Ok(HostMessageView::Snapshot(payload))
    } else {
        Err(DecodeErrorView::UnknownTag(tag))
    }
}

/// The first client message of a stream.
pub open spec fn first_client_message(s: Seq<u8>) -> Result<ClientMessageView, DecodeErrorView> {
    match first_frame(s) {
        Ok((tag, payload)) => client_message(tag, payload),
        Err(e) => Err(e),
    }
}

/// The first host message of a stream.
pub open spec fn first_host_message(s: Seq<u8>) -> Result<HostMessageView, DecodeErrorView> {
    match first_frame(s) {
        Ok((tag, payload)) => host_message(tag, payload),
        Err(e) => Err(e),
    }
}

/// A frame header: the type byte and a payload length within the limit.
#[derive(Debug, Clone, Copy, PartialEq, Eq, Structural)]
pub struct FrameHeader {
    pub type_tag: u8,
    pub length: u32,
}

/// Reads a frame header. The length is refused where it exceeds
/// [`MAX_PAYLOAD_SIZE`].
pub fn parse_header(header: &[u8]) -> (r: Result<FrameHeader, DecodeError>)
    requires
        header@.len() == HEADER_SIZE,
    ensures
        stated_length(header@) > MAX_PAYLOAD_SIZE ==> (r matches Err(e) && e@
            == DecodeErrorView::PayloadTooLarge(stated_length(header@))),
        stated_length(header@) <= MAX_PAYLOAD_SIZE ==> r == Ok::<FrameHeader, DecodeError>(
            (FrameHeader { type_tag: header@[0], length: stated_length(header@) }),
        ),
{
    let length: u32 = join_le32(header[1], header[2], header[3], header[4]);
    if length > MAX_PAYLOAD_SIZE {
        return Err(DecodeError::PayloadTooLarge(length));
    }
    Ok(FrameHeader { type_tag: header[0], length })
}

/// Reads the exit status that five bytes state.
pub fn parse_status(s: &[u8]) -> (raw_status: Option<i32>)
    requires
        s@.len() == 5,
    ensures
        raw_status == status_of(s@),
{
    if s[0] != 0 {
        Some(to_signed(join_le32(s[1], s[2], s[3], s[4])))
    } else {
        None
    }
}

/// A position in a stream of bytes held in memory.
pub struct Cursor<'a> {
    data: &'a [u8],
    pos: usize,
}

impl<'a> Cursor<'a> {
    #[verifier::type_invariant]
    spec fn in_bounds(self) -> bool {
        self.pos <= self.data@.len()
    }

    /// The bytes that have not been read.
    pub closed spec fn rest(&self) -> Seq<u8> {
        self.data@.skip(self.pos as int)
    }

    /// A cursor at the start of `data`.
    pub fn new(data: &'a [u8]) -> (cursor: Cursor<'a>)
        ensures
            cursor.rest() == data@,
    {
        let cursor = Cursor { data, pos: 0 };
        assert(cursor.rest() =~= data@);
        cursor
    }

    /// How many bytes have not been read.
    pub fn remaining(&self) -> (n: usize)
        ensures
            n == self.rest().len(),
    {
        proof {
            use_type_invariant(self);
        }
        self.data.len() - self.pos
    }

    /// Reads exactly `n` bytes. Where fewer are left, they are all taken and
    /// the read fails.
    pub fn read_exact(&mut self, n: usize) -> (r: Result<Vec<u8>, DecodeError>)
        ensures
            n <= old(self).rest().len() ==> {
                &&& r matches Ok(v) && v@ == old(self).rest().take(n as int)
                &&& final(self).rest() == old(self).rest().skip(n as int)
            },
            n > old(self).rest().len() ==> {
                &&& r matches Err(e) && e@ == DecodeErrorView::UnexpectedEof
                &&& final(self).rest() == Seq::<u8>::empty()
            },
    {
        proof {
            use_type_invariant(&*self);
        }
        let ghost before = self.rest();
        if n > self.remaining() {
            self.pos = self.data.len();
            assert(self.rest() =~= Seq::<u8>::empty());
            return Err(DecodeError::UnexpectedEof);
        }
        let start: usize = self.pos;
        assert(start + n <= self.data.len());
        let bytes: Vec<u8> = slice_to_vec(slice_subrange(self.data, start, start + n));
        self.pos = start + n;
        assert(bytes@ =~= before.take(n as int));
        assert(self.rest() =~= before.skip(n as int));
        Ok(bytes)
    }

    /// Skips `n` bytes, or all that are left where there are fewer.
    pub fn drain(&mut self, n: u32)
        ensures
            final(self).rest() == if n <= old(self).rest().len() {
                old(self).rest().skip(n as int)
            } else {
                Seq::<u8>::empty()
            },
    {
        proof {
            use_type_invariant(&*self);
        }
        let ghost before = self.rest();
        if n as u64 > self.remaining() as u64 {
            self.pos = self.data.len();
            assert(self.rest() =~= Seq::<u8>::empty());
        } else {
            assert(self.pos + n <= self.data.len());
            self.pos = self.pos + n as usize;
            assert(self.rest() =~= before.skip(n as int));
        }
    }
}

/// Reads one frame.
pub fn read_frame(reader: &mut Cursor) -> (r: Result<(u8, Vec<u8>), DecodeError>)
    ensures
        match r {
            Ok((tag, payload)) => first_frame(old(reader).rest()) == Ok::<
                (u8, Seq<u8>),
                DecodeErrorView,
            >((tag, payload@)),
            Err(e) => first_frame(old(reader).rest()) == Err::<(u8, Seq<u8>), DecodeErrorView>(e@),
        },
        final(reader).rest() == old(reader).rest().skip(consumed(old(reader).rest()) as int),
{
    let ghost s = reader.rest();
    let header: Vec<u8> = match reader.read_exact(HEADER_SIZE) {
        Ok(header) => header,
        Err(e) => {
            assert(s.skip(s.len() as int) =~= Seq::<u8>::empty());
            return Err(e);
        },
    };
    assert(stated_length(header@) == stated_length(s));
    let parsed: FrameHeader = match parse_header(header.as_slice()) {
        Ok(parsed) => parsed,
        Err(e) => return Err(e),
    };
    let payload: Vec<u8> = match reader.read_exact(parsed.length as usize) {
        Ok(payload) => payload,
        Err(e) => {
            assert(s.skip(s.len() as int) =~= Seq::<u8>::empty());
            return Err(e);
        },
    };
    assert(payload@ =~= s.subrange(HEADER_SIZE as int, HEADER_SIZE + stated_length(s)));
    assert(reader.rest() =~= s.skip(consumed(s) as int));
    Ok((parsed.type_tag, payload))
}

impl ClientMessage {
    /// The message that a frame carries.
    pub fn from_frame(type_tag: u8, payload: Vec<u8>) -> (r: Result<Self, DecodeError>)
        ensures
            outcome_is(r, client_message(type_tag, payload@)),
    {
        if type_tag == CLIENT_DATA {
            Ok(ClientMessage::Data(payload))
        } else if type_tag == CLIENT_RESIZE {
            if payload.len() != 8 {
                return Err(DecodeError::MalformedPayload("RESIZE expects 8 bytes"));
            }
            Ok(
                ClientMessage::Resize(
                    WindowSize {
                        cols: join_le16(payload[0], payload[1]),
                        rows: join_le16(payload[2], payload[3]),
                        cell_width: join_le16(payload[4], payload[5]),
                        cell_height: join_le16(payload[6], payload[7]),
                    },
                ),
            )
        } else if type_tag == CLIENT_DETACH {
            Ok(ClientMessage::Detach)
        } else if type_tag == CLIENT_KILL {
            Ok(ClientMessage::Kill)
        } else {
            Err(DecodeError::UnknownTag(type_tag))
        }
    }

    /// Reads one message.
    pub fn decode_from(reader: &mut Cursor) -> (r: Result<Self, DecodeError>)
        ensures
            outcome_is(r, first_client_message(old(reader).rest())),
            final(reader).rest() == old(reader).rest().skip(consumed(old(reader).rest()) as int),
    {
        match read_frame(reader) {
            Ok((type_tag, payload)) => Self::from_frame(type_tag, payload),
            Err(e) => Err(e),
        }
    }
}

impl HostMessage {
    /// The message that a frame carries.
    pub fn from_frame(type_tag: u8, payload: Vec<u8>) -> (r: Result<Self, DecodeError>)
        ensures
            outcome_is(r, host_message(type_tag, payload@)),
    {
        if type_tag == HOST_DATA {
            Ok(HostMessage::Data(payload))
        } else if type_tag == HOST_CHILD_EXIT {
            if payload.len() != 5 {
                return Err(DecodeError::MalformedPayload("CHILD_EXIT expects 5 bytes"));
            }
            Ok(HostMessage::ChildExit { raw_status: parse_status(payload.as_slice()) })
        } else if type_tag == HOST_READY {
            if payload.len() != 12 {
                return Err(DecodeError::MalformedPayload("READY expects 12 bytes"));
            }
            let version: u32 = join_le32(payload[0], payload[1], payload[2], payload[3]);
            let pid: u32 = join_le32(payload[4], payload[5], payload[6], payload[7]);
            let cols: u16 = join_le16(payload[8], payload[9]);
            let rows: u16 = join_le16(payload[10], payload[11]);
            Ok(HostMessage::Ready { version, pid, cols, rows })
        } else if type_tag == HOST_ERROR {
            match text_from_utf8(payload) {
                Some(msg) => Ok(HostMessage::Error(msg)),
                None => Err(DecodeError::MalformedPayload("ERROR payload is not UTF-8")),
            }
        } else if type_tag == HOST_REPLAY_DONE {
            Ok(HostMessage::ReplayDone)
        } else if type_tag == HOST_SNAPSHOT {
            Ok(HostMessage::Snapshot(payload))
        } else {
            Err(DecodeError::UnknownTag(type_tag))
        }
    }

    /// Reads one message.
    pub fn decode_from(reader: &mut Cursor) -> (r: Result<Self, DecodeError>)
        ensures
            outcome_is(r, first_host_message(old(reader).rest())),
            final(reader).rest() == old(reader).rest().skip(consumed(old(reader).rest()) as int),
    {
        match read_frame(reader) {
            Ok((type_tag, payload)) => Self::from_frame(type_tag, payload),
            Err(e) => Err(e),
        }
    }
}

/// Puts the frame of a client message on an outgoing byte stream.
pub fn send_client_message(writer: &mut Vec<u8>, msg: &ClientMessage)
    ensures
        final(writer)@ == old(writer)@ + msg@.wire(),
{
    let encoded: Vec<u8> = msg.encode();
    push_bytes(writer, encoded.as_slice());
}

/// Puts the frame of a host message on an outgoing byte stream.
pub fn send_host_message(writer: &mut Vec<u8>, msg: &HostMessage)
    ensures
        final(writer)@ == old(writer)@ + msg@.wire(),
{
    let encoded: Vec<u8> = msg.encode();
    push_bytes(writer, encoded.as_slice());
}

/// A frame within the payload limit, followed by anything, is read back whole.
pub proof fn lemma_frame_round_trips(tag: u8, payload: Seq<u8>, rest: Seq<u8>)
    requires
        payload.len() <= MAX_PAYLOAD_SIZE,
    ensures
        first_frame(frame(tag, payload) + rest) == Ok::<(u8, Seq<u8>), DecodeErrorView>(
            (tag, payload),
        ),
        consumed(frame(tag, payload) + rest) == frame(tag, payload).len(),
        (frame(tag, payload) + rest).skip(frame(tag, payload).len() as int) == rest,
        frame(tag, payload).len() == HEADER_SIZE + payload.len(),
{
    let s = frame(tag, payload) + rest;
    let n = payload.len() as u32;
    bytes::lemma_le_round_trip(0, n, 0);
    assert(s[1] == bytes::le32(n)[0]);
    assert(s[2] == bytes::le32(n)[1]);
    assert(s[3] == bytes::le32(n)[2]);
    assert(s[4] == bytes::le32(n)[3]);
    assert(stated_length(s) == n);
    assert(s.subrange(HEADER_SIZE as int, HEADER_SIZE + n) =~= payload);
    assert(s.skip(frame(tag, payload).len() as int) =~= rest);
}

/// Whatever follows it on the stream, a client message within the payload
/// limit is decoded to itself, and decoding takes exactly its frame.
pub proof fn law_client_message_round_trips(m: ClientMessageView, rest: Seq<u8>)
    requires
        m.payload().len() <= MAX_PAYLOAD_SIZE,
    ensures
        first_client_message(m.wire() + rest) == Ok::<ClientMessageView, DecodeErrorView>(m),
        consumed(m.wire() + rest) == m.wire().len(),
        (m.wire() + rest).skip(consumed(m.wire() + rest) as int) == rest,
{
    lemma_frame_round_trips(m.tag(), m.payload(), rest);
    if let ClientMessageView::Resize(size) = m {
        bytes::lemma_le_round_trip(size.cols, 0, 0);
        bytes::lemma_le_round_trip(size.rows, 0, 0);
        bytes::lemma_le_round_trip(size.cell_width, 0, 0);
        bytes::lemma_le_round_trip(size.cell_height, 0, 0);
    }
}

/// The bytes of an exit status state that status.
pub proof fn law_status_round_trips(raw_status: Option<i32>)
    ensures
        status_bytes(raw_status).len() == 5,
        status_of(status_bytes(raw_status)) == raw_status,
{
    if let Some(status) = raw_status {
        bytes::lemma_le_round_trip(0, bytes::bits_of(status), status);
        let s = status_bytes(raw_status);
        assert(s[1] == bytes::le32(bytes::bits_of(status))[0]);
        assert(s[2] == bytes::le32(bytes::bits_of(status))[1]);
        assert(s[3] == bytes::le32(bytes::bits_of(status))[2]);
        assert(s[4] == bytes::le32(bytes::bits_of(status))[3]);
    }
}

/// Whatever follows it on the stream, a host message within the payload limit
/// is decoded to itself, and decoding takes exactly its frame.
pub proof fn law_host_message_round_trips(m: HostMessageView, rest: Seq<u8>)
    requires
        m.payload().len() <= MAX_PAYLOAD_SIZE,
    ensures
        first_host_message(m.wire() + rest) == Ok::<HostMessageView, DecodeErrorView>(m),
        consumed(m.wire() + rest) == m.wire().len(),
        (m.wire() + rest).skip(consumed(m.wire() + rest) as int) == rest,
{
    lemma_frame_round_trips(m.tag(), m.payload(), rest);
    match m {
        HostMessageView::ChildExit(raw_status) => {
            law_status_round_trips(raw_status);
        },
        HostMessageView::Ready { version, pid, cols, rows } => {
            bytes::lemma_le_round_trip(cols, version, 0);
            bytes::lemma_le_round_trip(rows, pid, 0);
        },
        HostMessageView::Error(msg) => {
            encode_utf8_valid_utf8(msg);
            encode_utf8_decode_utf8(msg);
        },
        _ => {},
    }
}

/// Client and host frames never pass for each other: each side answers the
/// other's frames with an unknown type byte.
pub proof fn law_directions_are_disjoint(c: ClientMessageView, h: HostMessageView, rest: Seq<u8>)
    ensures
        c.payload().len() <= MAX_PAYLOAD_SIZE ==> first_host_message(c.wire() + rest) == Err::<
            HostMessageView,
            DecodeErrorView,
        >(DecodeErrorView::UnknownTag(c.tag())),
        h.payload().len() <= MAX_PAYLOAD_SIZE ==> first_client_message(h.wire() + rest) == Err::<
            ClientMessageView,
            DecodeErrorView,
        >(DecodeErrorView::UnknownTag(h.tag())),
        0x01 <= c.tag() <= 0x7f,
        0x81 <= h.tag() <= 0xff,
{
    if c.payload().len() <= MAX_PAYLOAD_SIZE {
        lemma_frame_round_trips(c.tag(), c.payload(), rest);
    }
    if h.payload().len() <= MAX_PAYLOAD_SIZE {
        lemma_frame_round_trips(h.tag(), h.payload(), rest);
    }
}

/// A message travels with five bytes of overhead.
pub proof fn law_overhead_is_five_bytes(c: ClientMessageView, h: HostMessageView)
    ensures
        c.wire().len() == c.payload().len() + 5,
        h.wire().len() == h.payload().len() + 5,
{
}

/// A type byte that is none of the client's is a protocol error for the host,
/// whatever the payload; and likewise the other way.
pub proof fn law_unknown_tags_are_refused(tag: u8, payload: Seq<u8>, rest: Seq<u8>)
    requires
        payload.len() <= MAX_PAYLOAD_SIZE,
    ensures
        !(0x01 <= tag <= 0x04) ==> first_client_message(frame(tag, payload) + rest) == Err::<
            ClientMessageView,
            DecodeErrorView,
        >(DecodeErrorView::UnknownTag(tag)),
        !(0x81 <= tag <= 0x86) ==> first_host_message(frame(tag, payload) + rest) == Err::<
            HostMessageView,
            DecodeErrorView,
        >(DecodeErrorView::UnknownTag(tag)),
{
    lemma_frame_round_trips(tag, payload, rest);
}

/// A frame that states more than the limit is refused, with the length it
/// states, and only its header is taken: the payload is still on the stream.
pub proof fn law_oversized_frame_keeps_its_payload(tag: u8, payload: Seq<u8>, rest: Seq<u8>)
    requires
        MAX_PAYLOAD_SIZE < payload.len() <= u32::MAX,
    ensures
        first_frame(frame(tag, payload) + rest) == Err::<(u8, Seq<u8>), DecodeErrorView>(
            DecodeErrorView::PayloadTooLarge(payload.len() as u32),
        ),
        (frame(tag, payload) + rest).skip(consumed(frame(tag, payload) + rest) as int) == payload
            + rest,
{
    let s = frame(tag, payload) + rest;
    let n = payload.len() as u32;
    bytes::lemma_le_round_trip(0, n, 0);
    assert(s[1] == bytes::le32(n)[0]);
    assert(s[2] == bytes::le32(n)[1]);
    assert(s[3] == bytes::le32(n)[2]);
    assert(s[4] == bytes::le32(n)[3]);
    assert(s.skip(HEADER_SIZE as int) =~= payload + rest);
}

} // verus!
