//! One stream of a connection: its state, its two flow-control windows and
//! its queues of bytes, with the receive path (`parse`) and the send path
//! (`create`).

use crate::decoder::{block_after, concat, next_block};
use crate::error::{ErrorCode, ProtoError, ProtoResult};
use crate::flow::{FlowWindow, WindowView, DEFAULT_WINDOW, MAX_WINDOW};
use crate::frame::{
    decode_frame, encode_parts, lemma_parse_one_frame, lemma_parse_one_prefix, parse_one,
    read_be31, spec_be31,
    spec_encode, Decoded,
    Frame, FrameType, FrameView, Step, DEFAULT_MAX_FRAME_SIZE, FLAG_END_HEADERS,
    FLAG_END_STREAM, MAX_PAYLOAD_LEN, MAX_STREAM_ID,
};
use crate::state::{advance, next_state, IllegalTransition, Role, StreamEvent, StreamState};
use vstd::prelude::*;

verus! {

/// What a frame means to the stream it was parsed for or created on.
#[derive(Clone, Copy, Debug, PartialEq, Eq, Structural)]
pub enum Http2Event {
    /// DATA that leaves the stream open in its direction.
    Data,
    /// A header block that leaves the stream open in its direction.
    Headers,
    /// A promise of a stream to come.
    PushPromise,
    /// SETTINGS for the connection.
    Settings,
    /// A further part of a header block.
    Continuation,
    /// The connection preface.
    Preface,
    /// The stream ended in the frame's direction: END_STREAM or a reset.
    EndStream,
    /// Nothing that the application needs to hear of.
    Idle,
}

/// One stream.
#[derive(Debug)]
pub struct Stream {
    id: u32,
    role: Role,
    state: StreamState,
    send_window: FlowWindow,
    recv_window: FlowWindow,
    max_frame_size: u32,
    in_chain: Vec<u8>,
    block: Option<u32>,
    out_chain: Vec<Vec<u8>>,
}

/// A stream as a mathematical value.
pub struct StreamView {
    pub id: u32,
    /// The end of the connection that holds this stream.
    pub role: Role,
    pub state: StreamState,
    /// Credit for DATA that this end sends.
    pub send: WindowView,
    /// Credit for DATA that the peer sends.
    pub recv: WindowView,
    /// The largest payload received or sent in one frame.
    pub max_frame_size: u32,
    /// Input that has arrived and belongs to no frame parsed yet.
    pub pending: Seq<u8>,
    /// The stream whose header block is open in the input parsed so far:
    /// HEADERS or PUSH_PROMISE came without END_HEADERS, and nothing but
    /// its CONTINUATION may follow.
    pub block: Option<u32>,
    /// Payloads that wait to be sent, first in first out.
    pub queued: Seq<Seq<u8>>,
}

impl StreamView {
    pub open spec fn wf(self) -> bool {
        &&& 1 <= self.id <= MAX_STREAM_ID
        &&& self.state != StreamState::Init
        &&& self.send.wf()
        &&& self.recv.wf()
        &&& self.max_frame_size <= MAX_PAYLOAD_LEN
        &&& forall|i: int|
            0 <= i < self.queued.len() ==> (#[trigger] self.queued[i]).len()
                <= self.max_frame_size
    }

    /// The payload that the next frame takes: the first one queued, or
    /// none.
    pub open spec fn next_payload(self) -> Seq<u8> {
        if self.queued.len() > 0 {
            self.queued[0]
        } else {
            Seq::empty()
        }
    }

    /// The queue without the payload that the next frame takes.
    pub open spec fn after_payload(self) -> Seq<Seq<u8>> {
        if self.queued.len() > 0 {
            self.queued.skip(1)
        } else {
            self.queued
        }
    }
}

/// The error for a frame that arrives in a state that has no place for it.
/// On a stream that was never opened it compromises the connection; on one
/// that the peer has closed already it is "stream closed"; else a protocol
/// error of the stream.
pub open spec fn recv_fault(state: StreamState) -> ProtoError {
    if state == StreamState::Idle || state == StreamState::Init {
        ProtoError::ConnectionError(ErrorCode::ProtocolError)
    } else if state == StreamState::Closed || state == StreamState::HalfClosedRemote {
        ProtoError::StreamError(ErrorCode::StreamClosed)
    } else {
        ProtoError::StreamError(ErrorCode::ProtocolError)
    }
}

/// The error for a frame that the application wants to send in a state
/// that has no place for it.
pub open spec fn send_fault(state: StreamState) -> ProtoError {
    if state == StreamState::Closed || state == StreamState::HalfClosedLocal {
        ProtoError::StreamError(ErrorCode::StreamClosed)
    } else {
        ProtoError::StreamError(ErrorCode::ProtocolError)
    }
}

/// What the event of a frame does to the state of a stream. The state
/// machine's table decides wherever it has a row. Beyond it, a stream takes
/// headers in two more places, which the table, made for the events that
/// open and close a stream, leaves out:
///
/// - the headers that answer a promise open the one direction of a
///   reserved stream that can still carry data;
/// - further headers (a response, trailers) on a stream whose direction is
///   open leave the state as it is.
pub open spec fn frame_step(role: Role, state: StreamState, event: StreamEvent) -> Option<
    StreamState,
> {
    match next_state(role, state, event) {
        Some(s) => Some(s),
        None => match (state, event) {
            (StreamState::ReservedLocal, StreamEvent::HeaderSend) => Some(
                StreamState::HalfClosedRemote,
            ),
            (StreamState::ReservedRemote, StreamEvent::HeaderRecv) => Some(
                StreamState::HalfClosedLocal,
            ),
            (StreamState::Open, StreamEvent::HeaderSend) => Some(StreamState::Open),
            (StreamState::Open, StreamEvent::HeaderRecv) => Some(StreamState::Open),
            (StreamState::HalfClosedRemote, StreamEvent::HeaderSend) => Some(
                StreamState::HalfClosedRemote,
            ),
            (StreamState::HalfClosedLocal, StreamEvent::HeaderRecv) => Some(
                StreamState::HalfClosedLocal,
            ),
            _ => None,
        },
    }
}

/// The state after `event`, and after `end` too where the frame ends the
/// stream; `None` unless every step is legal.
pub open spec fn path(
    role: Role,
    state: StreamState,
    event: StreamEvent,
    ended: bool,
    end: StreamEvent,
) -> Option<StreamState> {
    match frame_step(role, state, event) {
        None => None,
        Some(s) => if ended {
            frame_step(role, s, end)
        } else {
            Some(s)
        },
    }
}

/// What a frame that is addressed to the stream does to it, and what the
/// application hears of it. On an error the stream stays as it is.
///
/// - DATA needs a state that receives data and credit in the receive
///   window for its whole payload, which it uses up; too little credit is
///   a flow-control error of the connection.
/// - HEADERS open an idle stream, or the receiving half of a reserved one.
/// - Either ends the stream in the peer's direction where END_STREAM is
///   set.
/// - RST_STREAM closes a stream that is reserved, open or half closed.
/// - WINDOW_UPDATE adds to the send window.
/// - PUSH_PROMISE is for a client only, on a stream that it opened.
/// - SETTINGS, PING and GOAWAY belong to the connection: on a stream they
///   are a protocol error of the connection.
pub open spec fn spec_recv(s: StreamView, f: FrameView) -> (StreamView, ProtoResult<Http2Event>) {
    let ended = f.has_flag(FLAG_END_STREAM);
    match f.frame_type {
        FrameType::Data => match path(
            s.role,
            s.state,
            StreamEvent::DataRecv,
            ended,
            StreamEvent::EndStreamRecv,
        ) {
            None => (s, Err(recv_fault(s.state))),
            Some(st) => match s.recv.take(f.payload.len()) {
                None => (s, Err(ProtoError::ConnectionError(ErrorCode::FlowControlError))),
                Some(w) => (
                    StreamView { state: st, recv: w, ..s },
                    Ok(
                        if ended {
                            Http2Event::EndStream
                        } else {
                            Http2Event::Data
                        },
                    ),
                ),
            },
        },
        FrameType::Headers => match path(
            s.role,
            s.state,
            StreamEvent::HeaderRecv,
            ended,
            StreamEvent::EndStreamRecv,
        ) {
            None => (s, Err(recv_fault(s.state))),
            Some(st) => (
                StreamView { state: st, ..s },
                Ok(
                    if ended {
                        Http2Event::EndStream
                    } else {
                        Http2Event::Headers
                    },
                ),
            ),
        },
        FrameType::Priority => if f.payload.len() == 5 {
            (s, Ok(Http2Event::Idle))
        } else {
            (s, Err(ProtoError::StreamError(ErrorCode::FrameSizeError)))
        },
        FrameType::RstStream => if f.payload.len() != 4 {
            (s, Err(ProtoError::ConnectionError(ErrorCode::FrameSizeError)))
        } else {
            match next_state(s.role, s.state, StreamEvent::ResetRecv) {
                None => (s, Err(recv_fault(s.state))),
                Some(st) => (StreamView { state: st, ..s }, Ok(Http2Event::EndStream)),
            }
        },
        FrameType::WindowUpdate => if f.payload.len() != 4 {
            (s, Err(ProtoError::ConnectionError(ErrorCode::FrameSizeError)))
        } else {
            match s.send.grant(spec_be31(f.payload, 0) as nat) {
                Ok(w) => (StreamView { send: w, ..s }, Ok(Http2Event::Idle)),
                Err(e) => if e == ErrorCode::FlowControlError {
                    (s, Err(ProtoError::ConnectionError(e)))
                } else {
                    (s, Err(ProtoError::StreamError(e)))
                },
            }
        },
        FrameType::PushPromise => if s.role == Role::Client && (s.state == StreamState::Open
            || s.state == StreamState::HalfClosedLocal) {
            (s, Ok(Http2Event::PushPromise))
        } else {
            (s, Err(ProtoError::ConnectionError(ErrorCode::ProtocolError)))
        },
        FrameType::Continuation => (s, Ok(Http2Event::Continuation)),
        FrameType::Settings | FrameType::Ping | FrameType::GoAway => (
            s,
            Err(ProtoError::ConnectionError(ErrorCode::ProtocolError)),
        ),
    }
}

impl View for Stream {
    type V = StreamView;

    closed spec fn view(&self) -> StreamView {
        StreamView {
            id: self.id,
            role: self.role,
            state: self.state,
            send: self.send_window@,
            recv: self.recv_window@,
            max_frame_size: self.max_frame_size,
            pending: self.in_chain@,
            block: self.block,
            queued: Seq::new(self.out_chain@.len(), |i: int| self.out_chain@[i]@),
        }
    }
}

/// The error that an illegal arrival stands for; see `recv_fault`.
pub fn fault_on_recv(state: StreamState) -> (r: ProtoError)
    ensures
        r == recv_fault(state),
{
    match state {
        StreamState::Idle | StreamState::Init => ProtoError::ConnectionError(
            ErrorCode::ProtocolError,
        ),
        StreamState::Closed | StreamState::HalfClosedRemote => ProtoError::StreamError(
            ErrorCode::StreamClosed,
        ),
        _ => ProtoError::StreamError(ErrorCode::ProtocolError),
    }
}

/// The error that an illegal send stands for; see `send_fault`.
pub fn fault_on_send(state: StreamState) -> (r: ProtoError)
    ensures
        r == send_fault(state),
{
    match state {
        StreamState::Closed | StreamState::HalfClosedLocal => ProtoError::StreamError(
            ErrorCode::StreamClosed,
        ),
        _ => ProtoError::StreamError(ErrorCode::ProtocolError),
    }
}

/// What the event of a frame does to the state; see `frame_step`.
pub fn step(role: Role, state: StreamState, event: StreamEvent) -> (r: Option<StreamState>)
    ensures
        r == frame_step(role, state, event),
        r != Some(StreamState::Init),
{
    match advance(role, state, event) {
        Ok(s) => Some(s),
        Err(_) => match (state, event) {
            (StreamState::ReservedLocal, StreamEvent::HeaderSend) => Some(
                StreamState::HalfClosedRemote,
            ),
            (StreamState::ReservedRemote, StreamEvent::HeaderRecv) => Some(
                StreamState::HalfClosedLocal,
            ),
            (StreamState::Open, StreamEvent::HeaderSend) => Some(StreamState::Open),
            (StreamState::Open, StreamEvent::HeaderRecv) => Some(StreamState::Open),
            (StreamState::HalfClosedRemote, StreamEvent::HeaderSend) => Some(
                StreamState::HalfClosedRemote,
            ),
            (StreamState::HalfClosedLocal, StreamEvent::HeaderRecv) => Some(
                StreamState::HalfClosedLocal,
            ),
            _ => None,
        },
    }
}

/// Applies `event`, and `end` after it where `ended` holds; see `path`.
pub fn follow(role: Role, state: StreamState, event: StreamEvent, ended: bool, end: StreamEvent) -> (r:
    Option<StreamState>)
    ensures
        r == path(role, state, event, ended, end),
        r != Some(StreamState::Init),
{
    match step(role, state, event) {
        None => None,
        Some(s) => if ended {
            step(role, s, end)
        } else {
            Some(s)
        },
    }
}

/// What a chunk of input does to a stream: the chunk joins the pending
/// input, and the frame at the front of it, once complete, is taken off
/// and applied.
///
/// - An incomplete frame stays pending; the error tells how many bytes it
///   lacks.
/// - A header that announces more than the largest payload accepted is a
///   frame-size error of the connection, and stays pending.
/// - While a header block is open, whatever stream it belongs to, the next
///   frame must be the CONTINUATION of that stream; a CONTINUATION must
///   not come without one. A frame that breaks this, a frame of an
///   undefined type too, is a protocol error of the connection, and the
///   stream stays as it was before the chunk.
/// - A frame of an undefined type is dropped.
/// - A frame addressed to this stream is applied as `spec_recv` says.
/// - Of the frames addressed elsewhere, SETTINGS for the connection is
///   reported; the others pass unnoticed.
pub open spec fn spec_parse(s: StreamView, buf: Seq<u8>) -> (StreamView, ProtoResult<Http2Event>) {
    let input = s.pending + buf;
    match parse_one(input, s.max_frame_size) {
        Step::NeedMore(n) => (
            StreamView { pending: input, ..s },
            Err(ProtoError::ParseIncomplete(n as u32)),
        ),
        Step::TooLarge => (
            StreamView { pending: input, ..s },
            Err(ProtoError::ConnectionError(ErrorCode::FrameSizeError)),
        ),
        Step::Unknown(n) => if s.block.is_some() {
            (s, Err(ProtoError::ConnectionError(ErrorCode::ProtocolError)))
        } else {
            (StreamView { pending: input.skip(n as int), ..s }, Ok(Http2Event::Idle))
        },
        Step::Frame(f, n) => match block_after(s.block, f) {
            Err(e) => (s, Err(ProtoError::ConnectionError(e))),
            Ok(b) => {
                let t = StreamView { pending: input.skip(n as int), block: b, ..s };
                if f.stream_id == s.id {
                    spec_recv(t, f)
                } else if f.stream_id == 0 && f.frame_type == FrameType::Settings {
                    (t, Ok(Http2Event::Settings))
                } else {
                    (t, Ok(Http2Event::Idle))
                }
            },
        },
    }
}

/// The frame that carries `payload` on stream `id`.
pub open spec fn frame_for(frame_type: FrameType, flags: u8, id: u32, payload: Seq<u8>) -> Seq<u8> {
    spec_encode(FrameView { frame_type, flags, stream_id: id, payload })
}

/// What sending one frame does to a stream, and the bytes of the frame.
/// On an error the stream stays as it is.
///
/// - `Data` and `EndStream` make a DATA frame, the second with END_STREAM.
///   They need a state that sends data, and credit in the send window for
///   the whole payload, which they use up; with too little credit the
///   answer is `WouldBlock`.
/// - `Headers` makes a HEADERS frame with END_HEADERS, and opens an idle
///   stream or the sending half of a reserved one.
/// - `PushPromise` makes a PUSH_PROMISE frame with END_HEADERS; it is for
///   a server only, on a stream that the client opened and has not closed.
/// - The other events stand for no frame that a stream sends.
pub open spec fn spec_emit(s: StreamView, event: Http2Event, payload: Seq<u8>) -> (
    StreamView,
    ProtoResult<Seq<u8>>,
) {
    match event {
        Http2Event::Data | Http2Event::EndStream => {
            let ended = event == Http2Event::EndStream;
            match path(s.role, s.state, StreamEvent::DataSend, ended, StreamEvent::EndStreamSend) {
                None => (s, Err(send_fault(s.state))),
                Some(st) => match s.send.take(payload.len()) {
                    None => (s, Err(ProtoError::WouldBlock)),
                    Some(w) => (
                        StreamView { state: st, send: w, ..s },
                        Ok(
                            frame_for(
                                FrameType::Data,
                                if ended {
                                    FLAG_END_STREAM
                                } else {
                                    0
                                },
                                s.id,
                                payload,
                            ),
                        ),
                    ),
                },
            }
        },
        Http2Event::Headers => match frame_step(s.role, s.state, StreamEvent::HeaderSend) {
            None => (s, Err(send_fault(s.state))),
            Some(st) => (
                StreamView { state: st, ..s },
                Ok(frame_for(FrameType::Headers, FLAG_END_HEADERS, s.id, payload)),
            ),
        },
        Http2Event::PushPromise => if s.role == Role::Server && (s.state == StreamState::Open
            || s.state == StreamState::HalfClosedRemote) {
            (s, Ok(frame_for(FrameType::PushPromise, FLAG_END_HEADERS, s.id, payload)))
        } else {
            (s, Err(send_fault(s.state)))
        },
        _ => (s, Err(ProtoError::StreamError(ErrorCode::ProtocolError))),
    }
}

/// What the wish to send does to a stream that holds its payloads in its
/// queue: the frame takes the first payload queued, or an empty one, and
/// is made as `spec_emit` says. On an error the payload stays queued.
pub open spec fn spec_create(s: StreamView, event: Http2Event) -> (
    StreamView,
    ProtoResult<(Seq<u8>, Http2Event)>,
) {
    let (t, r) = spec_emit(s, event, s.next_payload());
    match r {
        Ok(bytes) => (StreamView { queued: s.after_payload(), ..t }, Ok((bytes, event))),
        Err(e) => (s, Err(e)),
    }
}

impl Stream {
    /// A stream in `Idle` with windows of the given initial sizes.
    /// `None` where the identifier is 0 or needs more than 31 bits, a
    /// window is above the maximum, or the frame size needs more than 24
    /// bits.
    pub fn with_id(role: Role, id: u32, send_initial: u32, recv_initial: u32, max_frame_size: u32) -> (r:
        Option<Stream>)
        ensures
            r.is_some() == (1 <= id <= MAX_STREAM_ID && send_initial <= MAX_WINDOW && recv_initial
                <= MAX_WINDOW && max_frame_size <= MAX_PAYLOAD_LEN),
            r.is_some() ==> r.unwrap()@.wf() && r.unwrap()@ == (StreamView {
                id,
                role,
                state: StreamState::Idle,
                send: WindowView { initial: send_initial as nat, balance: 0 },
                recv: WindowView { initial: recv_initial as nat, balance: 0 },
                max_frame_size,
                pending: Seq::empty(),
                block: None,
                queued: Seq::empty(),
            }),
    {
        if id < 1 || id > MAX_STREAM_ID || max_frame_size > MAX_PAYLOAD_LEN {
            return None;
        }
        let send_window = match FlowWindow::new(send_initial) {
            Ok(w) => w,
            Err(_) => {
                return None;
            },
        };
        let recv_window = match FlowWindow::new(recv_initial) {
            Ok(w) => w,
            Err(_) => {
                return None;
            },
        };
        let st = Stream {
            id,
            role,
            state: StreamState::Idle,
            send_window,
            recv_window,
            max_frame_size,
            in_chain: Vec::new(),
            block: None,
            out_chain: Vec::new(),
        };
        assert(st@.queued =~= Seq::<Seq<u8>>::empty());
        Some(st)
    }

    /// The first stream of a connection as the client sees it: stream 1,
    /// idle, with the default windows and frame size.
    pub fn new_client() -> (r: ProtoResult<Stream>)
        ensures
            r.is_ok(),
            r.unwrap()@.wf(),
            r.unwrap()@ == (StreamView {
                id: 1,
                role: Role::Client,
                state: StreamState::Idle,
                send: WindowView { initial: DEFAULT_WINDOW as nat, balance: 0 },
                recv: WindowView { initial: DEFAULT_WINDOW as nat, balance: 0 },
                max_frame_size: DEFAULT_MAX_FRAME_SIZE,
                pending: Seq::empty(),
                block: None,
                queued: Seq::empty(),
            }),
    {
        match Stream::with_id(Role::Client, 1, DEFAULT_WINDOW, DEFAULT_WINDOW, DEFAULT_MAX_FRAME_SIZE) {
            Some(s) => Ok(s),
            None => Err(ProtoError::ConnectionError(ErrorCode::InternalError)),
        }
    }

    /// The first stream of a connection as the server sees it: stream 1,
    /// idle, with the default windows and frame size.
    pub fn new_server() -> (r: ProtoResult<Stream>)
        ensures
            r.is_ok(),
            r.unwrap()@.wf(),
            r.unwrap()@ == (StreamView {
                id: 1,
                role: Role::Server,
                state: StreamState::Idle,
                send: WindowView { initial: DEFAULT_WINDOW as nat, balance: 0 },
                recv: WindowView { initial: DEFAULT_WINDOW as nat, balance: 0 },
                max_frame_size: DEFAULT_MAX_FRAME_SIZE,
                pending: Seq::empty(),
                block: None,
                queued: Seq::empty(),
            }),
    {
        match Stream::with_id(Role::Server, 1, DEFAULT_WINDOW, DEFAULT_WINDOW, DEFAULT_MAX_FRAME_SIZE) {
            Some(s) => Ok(s),
            None => Err(ProtoError::ConnectionError(ErrorCode::InternalError)),
        }
    }

    pub fn id(&self) -> (r: u32)
        ensures
            r == self@.id,
    {
        self.id
    }

    pub fn role(&self) -> (r: Role)
        ensures
            r == self@.role,
    {
        self.role
    }

    pub fn state(&self) -> (r: StreamState)
        ensures
            r == self@.state,
    {
        self.state
    }

    /// The credit for DATA that this end sends.
    pub fn send_credit(&self) -> (r: i64)
        requires
            self@.wf(),
        ensures
            r == self@.send.credit(),
    {
        self.send_window.credit()
    }

    /// The credit for DATA that the peer sends.
    pub fn recv_credit(&self) -> (r: i64)
        requires
            self@.wf(),
        ensures
            r == self@.recv.credit(),
    {
        self.recv_window.credit()
    }

    /// The number of bytes that wait for the rest of their frame.
    pub fn pending_len(&self) -> (r: usize)
        ensures
            r == self@.pending.len(),
    {
        self.in_chain.len()
    }

    /// The number of payloads that wait to be sent.
    pub fn queued_len(&self) -> (r: usize)
        ensures
            r == self@.queued.len(),
    {
        self.out_chain.len()
    }

    /// Puts a payload at the end of the send queue. A payload above the
    /// largest frame size is refused: `false`, and nothing changes.
    pub fn queue(&mut self, payload: Vec<u8>) -> (r: bool)
        requires
            old(self)@.wf(),
        ensures
            final(self)@.wf(),
            r == (payload@.len() <= old(self)@.max_frame_size),
            r ==> final(self)@ == (StreamView {
                queued: old(self)@.queued.push(payload@),
                ..old(self)@
            }),
            !r ==> final(self)@ == old(self)@,
    {
        if payload.len() > self.max_frame_size as usize {
            return false;
        }
        self.out_chain.push(payload);
        assert(self@.queued =~= old(self)@.queued.push(payload@));
        true
    }

    /// Applies a frame that is addressed to this stream.
    pub fn recv(&mut self, f: &Frame) -> (r: ProtoResult<Http2Event>)
        requires
            old(self)@.wf(),
        ensures
            final(self)@.wf(),
            (final(self)@, r) == spec_recv(old(self)@, f@),
    {
        let ended = f.has_flag(FLAG_END_STREAM);
        let r = match f.frame_type {
            FrameType::Data => {
                match follow(
                    self.role,
                    self.state,
                    StreamEvent::DataRecv,
                    ended,
                    StreamEvent::EndStreamRecv,
                ) {
                    None => Err(fault_on_recv(self.state)),
                    Some(st) => {
                        if f.payload.len() > MAX_WINDOW as usize || !self.recv_window.take(
                            f.payload.len() as u32,
                        ) {
                            Err(ProtoError::ConnectionError(ErrorCode::FlowControlError))
                        } else {
                            self.state = st;
                            Ok(
                                if ended {
                                    Http2Event::EndStream
                                } else {
                                    Http2Event::Data
                                },
                            )
                        }
                    },
                }
            },
            FrameType::Headers => {
                match follow(
                    self.role,
                    self.state,
                    StreamEvent::HeaderRecv,
                    ended,
                    StreamEvent::EndStreamRecv,
                ) {
                    None => Err(fault_on_recv(self.state)),
                    Some(st) => {
                        self.state = st;
                        Ok(
                            if ended {
                                Http2Event::EndStream
                            } else {
                                Http2Event::Headers
                            },
                        )
                    },
                }
            },
            FrameType::Priority => {
                if f.payload.len() == 5 {
                    Ok(Http2Event::Idle)
                } else {
                    Err(ProtoError::StreamError(ErrorCode::FrameSizeError))
                }
            },
            FrameType::RstStream => {
                if f.payload.len() != 4 {
                    Err(ProtoError::ConnectionError(ErrorCode::FrameSizeError))
                } else {
                    match advance(self.role, self.state, StreamEvent::ResetRecv) {
                        Err(_) => Err(fault_on_recv(self.state)),
                        Ok(st) => {
                            self.state = st;
                            Ok(Http2Event::EndStream)
                        },
                    }
                }
            },
            FrameType::WindowUpdate => {
                if f.payload.len() != 4 {
                    Err(ProtoError::ConnectionError(ErrorCode::FrameSizeError))
                } else {
                    let increment = read_be31(f.payload.as_slice(), 0);
                    match self.send_window.grant(increment) {
                        Ok(()) => Ok(Http2Event::Idle),
                        Err(e) => match e {
                            ErrorCode::FlowControlError => Err(ProtoError::ConnectionError(e)),
                            _ => Err(ProtoError::StreamError(e)),
                        },
                    }
                }
            },
            FrameType::PushPromise => {
                let open = match self.state {
                    StreamState::Open | StreamState::HalfClosedLocal => true,
                    _ => false,
                };
                match self.role {
                    Role::Client => if open {
                        Ok(Http2Event::PushPromise)
                    } else {
                        Err(ProtoError::ConnectionError(ErrorCode::ProtocolError))
                    },
                    Role::Server => Err(ProtoError::ConnectionError(ErrorCode::ProtocolError)),
                }
            },
            FrameType::Continuation => Ok(Http2Event::Continuation),
            FrameType::Settings | FrameType::Ping | FrameType::GoAway => Err(
                ProtoError::ConnectionError(ErrorCode::ProtocolError),
            ),
        };
        assert(self@.queued == old(self)@.queued);
        r
    }
}

impl Stream {
    /// Takes in a chunk of input and applies the frame that is complete
    /// with it, if one is.
    pub fn parse(&mut self, buf: &[u8]) -> (r: ProtoResult<Http2Event>)
        requires
            old(self)@.wf(),
        ensures
            final(self)@.wf(),
            (final(self)@, r) == spec_parse(old(self)@, buf@),
    {
        let kept = self.in_chain.len();
        self.in_chain.extend_from_slice(buf);
        let ghost input = self.in_chain@;
        assert(input =~= old(self)@.pending + buf@);
        assert(input.subrange(0, kept as int) =~= old(self)@.pending);
        assert(self@.queued == old(self)@.queued);
        proof {
            lemma_parse_one_frame(input, self.max_frame_size);
        }
        match decode_frame(self.in_chain.as_slice(), self.max_frame_size) {
            Decoded::Incomplete(n) => Err(ProtoError::ParseIncomplete(n)),
            Decoded::FrameSizeError => Err(ProtoError::ConnectionError(ErrorCode::FrameSizeError)),
            Decoded::Unknown(n) => {
                if self.block.is_some() {
                    self.in_chain.truncate(kept);
                    assert(self@.queued == old(self)@.queued);
                    return Err(ProtoError::ConnectionError(ErrorCode::ProtocolError));
                }
                let rest = self.in_chain.split_off(n);
                self.in_chain = rest;
                assert(self@.pending =~= input.skip(n as int));
                assert(self@.queued == old(self)@.queued);
                Ok(Http2Event::Idle)
            },
            Decoded::Frame(f, n) => {
                let b = match next_block(self.block, &f) {
                    Err(e) => {
                        self.in_chain.truncate(kept);
                        assert(self@.queued == old(self)@.queued);
                        return Err(ProtoError::ConnectionError(e));
                    },
                    Ok(b) => b,
                };
                let rest = self.in_chain.split_off(n);
                self.in_chain = rest;
                self.block = b;
                assert(self@.pending =~= input.skip(n as int));
                assert(self@.queued == old(self)@.queued);
                if f.stream_id == self.id {
                    self.recv(&f)
                } else {
                    match f.frame_type {
                        FrameType::Settings => if f.stream_id == 0 {
                            Ok(Http2Event::Settings)
                        } else {
                            Ok(Http2Event::Idle)
                        },
                        _ => Ok(Http2Event::Idle),
                    }
                }
            },
        }
    }

    /// The stream whose header block is open in the input parsed so far.
    pub fn open_block(&self) -> (r: Option<u32>)
        ensures
            r == self@.block,
    {
        self.block
    }

    /// Sends one frame with the given payload; see `spec_emit`.
    pub fn emit(&mut self, event: Http2Event, payload: &[u8]) -> (r: ProtoResult<Vec<u8>>)
        requires
            old(self)@.wf(),
            payload@.len() <= MAX_PAYLOAD_LEN,
        ensures
            final(self)@.wf(),
            final(self)@ == spec_emit(old(self)@, event, payload@).0,
            match spec_emit(old(self)@, event, payload@).1 {
                Ok(bytes) => r.is_ok() && r.unwrap()@ == bytes,
                Err(e) => r.is_err() && r.unwrap_err() == e,
            },
    {
        let r = match event {
            Http2Event::Data | Http2Event::EndStream => {
                let ended = match event {
                    Http2Event::EndStream => true,
                    _ => false,
                };
                match follow(
                    self.role,
                    self.state,
                    StreamEvent::DataSend,
                    ended,
                    StreamEvent::EndStreamSend,
                ) {
                    None => Err(fault_on_send(self.state)),
                    Some(st) => {
                        if !self.send_window.take(payload.len() as u32) {
                            Err(ProtoError::WouldBlock)
                        } else {
                            self.state = st;
                            let flags = if ended {
                                FLAG_END_STREAM
                            } else {
                                0
                            };
                            Ok(encode_parts(FrameType::Data, flags, self.id, payload))
                        }
                    },
                }
            },
            Http2Event::Headers => {
                match step(self.role, self.state, StreamEvent::HeaderSend) {
                    None => Err(fault_on_send(self.state)),
                    Some(st) => {
                        self.state = st;
                        Ok(encode_parts(FrameType::Headers, FLAG_END_HEADERS, self.id, payload))
                    },
                }
            },
            Http2Event::PushPromise => {
                let open = match self.state {
                    StreamState::Open | StreamState::HalfClosedRemote => true,
                    _ => false,
                };
                let server = match self.role {
                    Role::Server => true,
                    Role::Client => false,
                };
                if server && open {
                    Ok(encode_parts(FrameType::PushPromise, FLAG_END_HEADERS, self.id, payload))
                } else {
                    Err(fault_on_send(self.state))
                }
            },
            _ => Err(ProtoError::StreamError(ErrorCode::ProtocolError)),
        };
        assert(self@.queued == old(self)@.queued);
        r
    }

    /// Makes the frame that carries out what the application wants to
    /// send, from the first payload queued, and returns its bytes with the
    /// event that took place.
    pub fn create(&mut self, frame: Http2Event) -> (r: ProtoResult<(Vec<u8>, Http2Event)>)
        requires
            old(self)@.wf(),
        ensures
            final(self)@.wf(),
            final(self)@ == spec_create(old(self)@, frame).0,
            match spec_create(old(self)@, frame).1 {
                Ok((bytes, event)) => r.is_ok() && r.unwrap().0@ == bytes && r.unwrap().1
                    == event,
                Err(e) => r.is_err() && r.unwrap_err() == e,
            },
    {
        if self.out_chain.len() > 0 {
            assert(self@.queued[0] == self.out_chain@[0]@);
            let payload = self.out_chain.remove(0);
            assert(self@.queued =~= old(self)@.queued.skip(1));
            assert(self@ == (StreamView { queued: old(self)@.after_payload(), ..old(self)@ }));
            match self.emit(frame, payload.as_slice()) {
                Ok(bytes) => Ok((bytes, frame)),
                Err(e) => {
                    assert(self@.queued == old(self)@.queued.skip(1));
                    assert(self.out_chain@.len() == self@.queued.len());
                    let ghost kept = self.out_chain@;
                    assert(forall|i: int|
                        0 <= i < kept.len() ==> kept[i]@ == old(self)@.queued.skip(1)[i]);
                    self.out_chain.insert(0, payload);
                    assert(self.out_chain@ == kept.insert(0, payload));
                    assert(self@.queued.len() == old(self)@.queued.len());
                    assert forall|i: int| 0 <= i < self@.queued.len() implies self@.queued[i]
                        == old(self)@.queued[i] by {
                        if i > 0 {
                            assert(self.out_chain@[i] == kept[i - 1]);
                            assert(kept[i - 1]@ == old(self)@.queued.skip(1)[i - 1]);
                        }
                    }
                    assert(self@.queued =~= old(self)@.queued);
                    Err(e)
                },
            }
        } else {
            assert(self@.queued =~= old(self)@.queued);
            let payload: Vec<u8> = Vec::new();
            match self.emit(frame, payload.as_slice()) {
                Ok(bytes) => Ok((bytes, frame)),
                Err(e) => Err(e),
            }
        }
    }

    /// Applies one event to the stream's state. An illegal one leaves the
    /// stream as it is.
    pub fn apply(&mut self, event: StreamEvent) -> (r: Result<StreamState, IllegalTransition>)
        requires
            old(self)@.wf(),
        ensures
            final(self)@.wf(),
            match next_state(old(self)@.role, old(self)@.state, event) {
                Some(s) => r == Ok::<StreamState, IllegalTransition>(s) && final(self)@ == (
                StreamView { state: s, ..old(self)@ }),
                None => r == Err::<StreamState, IllegalTransition>(
                    IllegalTransition { state: old(self)@.state, event },
                ) && final(self)@ == old(self)@,
            },
    {
        let r = advance(self.role, self.state, event);
        if let Ok(s) = r {
            self.state = s;
        }
        assert(self@.queued == old(self)@.queued);
        r
    }

    /// Whether the send window covers `n` bytes.
    pub fn covers_send(&self, n: u32) -> (r: bool)
        requires
            self@.wf(),
        ensures
            r == self@.send.take(n as nat).is_some(),
    {
        self.send_window.covers(n)
    }

    /// Uses up `n` bytes of the send window, if it covers them.
    pub fn take_send(&mut self, n: u32) -> (r: bool)
        requires
            old(self)@.wf(),
        ensures
            final(self)@.wf(),
            r == old(self)@.send.take(n as nat).is_some(),
            r ==> final(self)@ == (StreamView {
                send: old(self)@.send.take(n as nat).unwrap(),
                ..old(self)@
            }),
            !r ==> final(self)@ == old(self)@,
    {
        let r = self.send_window.take(n);
        assert(self@.queued == old(self)@.queued);
        r
    }

    /// Uses up `n` bytes of the receive window, if it covers them.
    pub fn take_recv(&mut self, n: u32) -> (r: bool)
        requires
            old(self)@.wf(),
        ensures
            final(self)@.wf(),
            r == old(self)@.recv.take(n as nat).is_some(),
            r ==> final(self)@ == (StreamView {
                recv: old(self)@.recv.take(n as nat).unwrap(),
                ..old(self)@
            }),
            !r ==> final(self)@ == old(self)@,
    {
        let r = self.recv_window.take(n);
        assert(self@.queued == old(self)@.queued);
        r
    }

    /// Adds an increment to the send window.
    pub fn grant_send(&mut self, increment: u32) -> (r: Result<(), ErrorCode>)
        requires
            old(self)@.wf(),
        ensures
            final(self)@.wf(),
            match old(self)@.send.grant(increment as nat) {
                Ok(w) => r.is_ok() && final(self)@ == (StreamView { send: w, ..old(self)@ }),
                Err(e) => r == Err::<(), ErrorCode>(e) && final(self)@ == old(self)@,
            },
    {
        let r = self.send_window.grant(increment);
        assert(self@.queued == old(self)@.queued);
        r
    }

    /// Adds an increment to the receive window.
    pub fn grant_recv(&mut self, increment: u32) -> (r: Result<(), ErrorCode>)
        requires
            old(self)@.wf(),
        ensures
            final(self)@.wf(),
            match old(self)@.recv.grant(increment as nat) {
                Ok(w) => r.is_ok() && final(self)@ == (StreamView { recv: w, ..old(self)@ }),
                Err(e) => r == Err::<(), ErrorCode>(e) && final(self)@ == old(self)@,
            },
    {
        let r = self.recv_window.grant(increment);
        assert(self@.queued == old(self)@.queued);
        r
    }

    /// Whether a new initial size would fit the send window.
    pub fn can_resize_send(&self, initial: u32) -> (r: bool)
        requires
            self@.wf(),
        ensures
            r == self@.send.resize(initial as nat).is_ok(),
    {
        let mut w = self.send_window;
        w.resize(initial).is_ok()
    }

    /// Applies a new initial size to the send window.
    pub fn resize_send(&mut self, initial: u32) -> (r: Result<(), ErrorCode>)
        requires
            old(self)@.wf(),
        ensures
            final(self)@.wf(),
            match old(self)@.send.resize(initial as nat) {
                Ok(w) => r.is_ok() && final(self)@ == (StreamView { send: w, ..old(self)@ }),
                Err(e) => r == Err::<(), ErrorCode>(e) && final(self)@ == old(self)@,
            },
    {
        let r = self.send_window.resize(initial);
        assert(self@.queued == old(self)@.queued);
        r
    }

    /// Whether a new initial size would fit the receive window.
    pub fn can_resize_recv(&self, initial: u32) -> (r: bool)
        requires
            self@.wf(),
        ensures
            r == self@.recv.resize(initial as nat).is_ok(),
    {
        let mut w = self.recv_window;
        w.resize(initial).is_ok()
    }

    /// Applies a new initial size to the receive window.
    pub fn resize_recv(&mut self, initial: u32) -> (r: Result<(), ErrorCode>)
        requires
            old(self)@.wf(),
        ensures
            final(self)@.wf(),
            match old(self)@.recv.resize(initial as nat) {
                Ok(w) => r.is_ok() && final(self)@ == (StreamView { recv: w, ..old(self)@ }),
                Err(e) => r == Err::<(), ErrorCode>(e) && final(self)@ == old(self)@,
            },
    {
        let r = self.recv_window.resize(initial);
        assert(self@.queued == old(self)@.queued);
        r
    }
}

/// A frame that ends the stream in one direction never fails for that
/// reason alone: where a state takes DATA or HEADERS, it takes the end of
/// the stream after them.
pub proof fn lemma_end_follows(role: Role, state: StreamState)
    ensures
        frame_step(role, state, StreamEvent::DataRecv).is_some() ==> path(
            role,
            state,
            StreamEvent::DataRecv,
            true,
            StreamEvent::EndStreamRecv,
        ).is_some(),
        frame_step(role, state, StreamEvent::HeaderRecv).is_some() ==> path(
            role,
            state,
            StreamEvent::HeaderRecv,
            true,
            StreamEvent::EndStreamRecv,
        ).is_some(),
        frame_step(role, state, StreamEvent::DataSend).is_some() ==> path(
            role,
            state,
            StreamEvent::DataSend,
            true,
            StreamEvent::EndStreamSend,
        ).is_some(),
{
}

/// Sending never uses more credit than the window holds: a frame is made
/// only when the credit covers its whole payload, the credit then sinks by
/// exactly the payload's length, and a refusal changes nothing.
pub proof fn lemma_create_within_credit(s: StreamView, event: Http2Event)
    requires
        s.wf(),
        event == Http2Event::Data || event == Http2Event::EndStream,
    ensures
        spec_create(s, event).1.is_ok() ==> s.next_payload().len() <= s.send.credit()
            && spec_create(s, event).0.send.credit() == s.send.credit() - s.next_payload().len(),
        spec_create(s, event).1.is_err() ==> spec_create(s, event).0 == s,
        spec_create(s, event).0.send.credit() <= MAX_WINDOW,
{
}

/// What `create` makes, the peer reads back: the bytes decode to one frame
/// of this stream, of the type that the event stands for, with the payload
/// that was queued.
pub proof fn lemma_created_frame_parses(s: StreamView, event: Http2Event, max: u32)
    requires
        s.wf(),
        s.max_frame_size <= max,
        spec_create(s, event).1.is_ok(),
    ensures
        parse_one(spec_create(s, event).1.unwrap().0, max) is Frame,
        parse_one(spec_create(s, event).1.unwrap().0, max)->Frame_0.stream_id == s.id,
        parse_one(spec_create(s, event).1.unwrap().0, max)->Frame_0.payload == s.next_payload(),
        parse_one(spec_create(s, event).1.unwrap().0, max)->Frame_0.frame_type == (match event {
            Http2Event::Headers => FrameType::Headers,
            Http2Event::PushPromise => FrameType::PushPromise,
            _ => FrameType::Data,
        }),
{
    let payload = s.next_payload();
    let ft = match event {
        Http2Event::Headers => FrameType::Headers,
        Http2Event::PushPromise => FrameType::PushPromise,
        _ => FrameType::Data,
    };
    let flags = match event {
        Http2Event::Headers => FLAG_END_HEADERS,
        Http2Event::PushPromise => FLAG_END_HEADERS,
        Http2Event::EndStream => FLAG_END_STREAM,
        _ => 0u8,
    };
    let f = FrameView { frame_type: ft, flags, stream_id: s.id, payload };
    crate::frame::lemma_round_trip(f, Seq::empty(), max);
    assert(spec_encode(f) + Seq::<u8>::empty() =~= spec_encode(f));
}

/// Whether a result ends the connection: nothing is parsed after it.
pub open spec fn is_fatal(r: ProtoResult<Http2Event>) -> bool {
    match r {
        Err(ProtoError::ConnectionError(_)) => true,
        _ => false,
    }
}

/// Whether a series of results ends with one that ends the connection.
pub open spec fn ends_fatal(results: Seq<ProtoResult<Http2Event>>) -> bool {
    results.len() > 0 && is_fatal(results.last())
}

/// The stream with more input at hand.
pub open spec fn with_input(s: StreamView, buf: Seq<u8>) -> StreamView {
    StreamView { pending: s.pending + buf, ..s }
}

/// Everything that the input at hand gives: one frame after another is
/// taken off, as by calls of `parse` with no new input, until an
/// incomplete frame is left, which is no result, or a result ends the
/// connection.
pub open spec fn spec_drain(s: StreamView) -> (StreamView, Seq<ProtoResult<Http2Event>>)
    decreases s.pending.len(),
{
    let (t, r) = spec_parse(s, Seq::empty());
    match r {
        Err(ProtoError::ParseIncomplete(_)) => (t, Seq::empty()),
        _ => if is_fatal(r) || t.pending.len() >= s.pending.len() {
            (t, seq![r])
        } else {
            let (u, more) = spec_drain(t);
            (u, seq![r] + more)
        },
    }
}

/// What a chunk of input gives in all: the chunk joins the pending input,
/// and every frame that is complete with it is applied.
pub open spec fn spec_parse_all(s: StreamView, buf: Seq<u8>) -> (
    StreamView,
    Seq<ProtoResult<Http2Event>>,
) {
    spec_drain(with_input(s, buf))
}

/// What a series of chunks gives, each parsed in full before the next
/// arrives. After a result that ends the connection no further chunk is
/// taken in.
pub open spec fn spec_parse_chunks(s: StreamView, chunks: Seq<Seq<u8>>) -> (
    StreamView,
    Seq<ProtoResult<Http2Event>>,
)
    decreases chunks.len(),
{
    if chunks.len() == 0 {
        (s, Seq::empty())
    } else {
        let (t, results) = spec_parse_chunks(s, chunks.drop_last());
        if ends_fatal(results) {
            (t, results)
        } else {
            let (u, more) = spec_parse_all(t, chunks.last());
            (u, results + more)
        }
    }
}

/// A frame does to a stream what it does whatever input is pending: the
/// pending input is neither read nor changed.
pub proof fn lemma_recv_keeps_pending(s: StreamView, f: FrameView, buf: Seq<u8>)
    ensures
        spec_recv(with_input(s, buf), f) == (with_input(spec_recv(s, f).0, buf), spec_recv(s, f).1),
        spec_recv(s, f).0.pending == s.pending,
        spec_recv(s, f).0.block == s.block,
        spec_recv(s, f).0.max_frame_size == s.max_frame_size,
{
}

/// `parse` does with a chunk what it does with no chunk once the chunk
/// has joined the pending input: the result is the same, and so is the
/// stream unless the result ends the connection.
pub proof fn lemma_parse_joins_input(s: StreamView, buf: Seq<u8>)
    ensures
        spec_parse(s, buf).1 == spec_parse(with_input(s, buf), Seq::empty()).1,
        !is_fatal(spec_parse(s, buf).1) ==> spec_parse(s, buf).0 == spec_parse(
            with_input(s, buf),
            Seq::empty(),
        ).0,
{
    let input = s.pending + buf;
    assert(with_input(s, buf).pending + Seq::<u8>::empty() =~= input);
    match parse_one(input, s.max_frame_size) {
        Step::Frame(f, n) => {
            match block_after(s.block, f) {
                Ok(b) => {
                    let t = StreamView { pending: input.skip(n as int), block: b, ..s };
                    let u = StreamView {
                        pending: input.skip(n as int),
                        block: b,
                        ..with_input(s, buf)
                    };
                    assert(t == u);
                },
                Err(_) => {},
            }
        },
        _ => {},
    }
}

/// What more input adds to what the input at hand gives: the results of
/// the input at hand come first and stay as they are, and where they do
/// not end the connection, the rest is what the new input gives to the
/// stream as the input at hand has left it.
pub proof fn lemma_drain_more(s: StreamView, more: Seq<u8>)
    ensures
        ends_fatal(spec_drain(s).1) ==> spec_drain(with_input(s, more)).1 == spec_drain(s).1,
        !ends_fatal(spec_drain(s).1) ==> spec_drain(with_input(s, more)) == (
            spec_drain(with_input(spec_drain(s).0, more)).0,
            spec_drain(s).1 + spec_drain(with_input(spec_drain(s).0, more)).1,
        ),
    decreases s.pending.len(),
{
    let empty = Seq::<u8>::empty();
    let w = with_input(s, more);
    let input = s.pending;
    assert(s.pending + empty =~= input);
    assert(w.pending + empty =~= input + more);
    let (t, r) = spec_parse(s, empty);
    let (tw, rw) = spec_parse(w, empty);
    lemma_parse_one_frame(input, s.max_frame_size);
    match parse_one(input, s.max_frame_size) {
        Step::NeedMore(_) => {
            assert(t == s);
            let d = spec_drain(w);
            assert(Seq::<ProtoResult<Http2Event>>::empty() + d.1 =~= d.1);
        },
        Step::TooLarge => {
            lemma_parse_one_prefix(input, more, s.max_frame_size);
        },
        Step::Unknown(n) => {
            lemma_parse_one_prefix(input, more, s.max_frame_size);
            if s.block.is_none() {
                assert((input + more).skip(n as int) =~= input.skip(n as int) + more);
                assert(tw == with_input(t, more));
                lemma_drain_step(s, t, r, more);
            }
        },
        Step::Frame(f, n) => {
            lemma_parse_one_prefix(input, more, s.max_frame_size);
            match block_after(s.block, f) {
                Err(_) => {},
                Ok(b) => {
                    assert((input + more).skip(n as int) =~= input.skip(n as int) + more);
                    let base = StreamView { pending: input.skip(n as int), block: b, ..s };
                    let basew = StreamView {
                        pending: (input + more).skip(n as int),
                        block: b,
                        ..w
                    };
                    assert(basew == with_input(base, more));
                    lemma_recv_keeps_pending(base, f, more);
                    assert(rw == r);
                    assert(tw == with_input(t, more));
                    assert(t.pending == base.pending);
                    if !is_fatal(r) {
                        lemma_drain_step(s, t, r, more);
                    }
                },
            }
        },
    }
}

/// The step of `lemma_drain_more` behind a frame that was taken off.
proof fn lemma_drain_step(s: StreamView, t: StreamView, r: ProtoResult<Http2Event>, more: Seq<u8>)
    requires
        spec_parse(s, Seq::empty()) == (t, r),
        spec_parse(with_input(s, more), Seq::empty()) == (with_input(t, more), r),
        !is_fatal(r),
        !(r is Err && r->Err_0 is ParseIncomplete),
        t.pending.len() < s.pending.len(),
    ensures
        ends_fatal(spec_drain(s).1) ==> spec_drain(with_input(s, more)).1 == spec_drain(s).1,
        !ends_fatal(spec_drain(s).1) ==> spec_drain(with_input(s, more)) == (
            spec_drain(with_input(spec_drain(s).0, more)).0,
            spec_drain(s).1 + spec_drain(with_input(spec_drain(s).0, more)).1,
        ),
    decreases s.pending.len(), 0nat,
{
    lemma_drain_more(t, more);
    let (u, rest) = spec_drain(t);
    let w = with_input(s, more);
    let tw = with_input(t, more);
    assert(tw.pending.len() < w.pending.len());
    assert(spec_drain(s) == (u, seq![r] + rest));
    assert(spec_drain(w) == (spec_drain(tw).0, seq![r] + spec_drain(tw).1));
    if ends_fatal(rest) {
        assert((seq![r] + rest).last() == rest.last());
    } else {
        if rest.len() > 0 {
            assert((seq![r] + rest).last() == rest.last());
        }
        let z = spec_drain(with_input(u, more));
        assert(seq![r] + (rest + z.1) =~= (seq![r] + rest) + z.1);
    }
}

/// Parsing does not depend on how the input is cut into chunks: for a
/// stream that holds no complete frame, a byte sequence that arrives in
/// any number of chunks of any sizes, each parsed in full as it arrives,
/// gives the results that the sequence gives when it arrives at once, and
/// leaves the stream in the same state unless a result ended the
/// connection.
pub proof fn lemma_parse_chunking(s: StreamView, chunks: Seq<Seq<u8>>)
    requires
        spec_drain(s).1.len() == 0,
    ensures
        spec_parse_chunks(s, chunks).1 == spec_parse_all(s, concat(chunks)).1,
        !ends_fatal(spec_parse_chunks(s, chunks).1) ==> spec_parse_chunks(s, chunks).0
            == spec_parse_all(s, concat(chunks)).0,
    decreases chunks.len(),
{
    if chunks.len() == 0 {
        assert(s.pending + Seq::<u8>::empty() =~= s.pending);
        assert(with_input(s, concat(chunks)) == s);
        lemma_drained_is_fixed(s);
    } else {
        let before = chunks.drop_last();
        let last = chunks.last();
        lemma_parse_chunking(s, before);
        let x = with_input(s, concat(before));
        assert((s.pending + concat(before)) + last =~= s.pending + (concat(before) + last));
        assert(with_input(x, last) == with_input(s, concat(chunks)));
        lemma_drain_more(x, last);
    }
}

/// A frame that was taken off, with whatever result short of the end of
/// the connection, has left less input pending.
pub proof fn lemma_parse_consumes(s: StreamView)
    ensures
        match spec_parse(s, Seq::empty()).1 {
            Err(ProtoError::ParseIncomplete(_)) => true,
            Err(ProtoError::ConnectionError(_)) => true,
            _ => spec_parse(s, Seq::empty()).0.pending.len() < s.pending.len(),
        },
{
    let input = s.pending + Seq::<u8>::empty();
    assert(input =~= s.pending);
    lemma_parse_one_frame(input, s.max_frame_size);
    match parse_one(input, s.max_frame_size) {
        Step::Frame(f, n) => {
            match block_after(s.block, f) {
                Ok(b) => {
                    let t = StreamView { pending: input.skip(n as int), block: b, ..s };
                    lemma_recv_keeps_pending(t, f, Seq::empty());
                },
                Err(_) => {},
            }
        },
        _ => {},
    }
}

impl Stream {
    /// Takes in a chunk of input and applies every frame that is complete
    /// with it, one after another, up to a result that ends the
    /// connection. Returns the results in order; a frame that waits for
    /// its rest gives none.
    pub fn parse_all(&mut self, buf: &[u8]) -> (r: Vec<ProtoResult<Http2Event>>)
        requires
            old(self)@.wf(),
        ensures
            final(self)@.wf(),
            r@ == spec_parse_all(old(self)@, buf@).1,
            !ends_fatal(r@) ==> final(self)@ == spec_parse_all(old(self)@, buf@).0,
    {
        let mut out: Vec<ProtoResult<Http2Event>> = Vec::new();
        let ghost w = with_input(old(self)@, buf@);
        let ghost mut x = w;
        let nothing: Vec<u8> = Vec::new();
        assert(nothing@ =~= Seq::<u8>::empty());
        proof {
            lemma_parse_joins_input(old(self)@, buf@);
            assert(out@ + spec_drain(x).1 =~= spec_drain(x).1);
        }
        let mut r = self.parse(buf);
        let mut done = false;
        while !done
            invariant
                self@.wf(),
                nothing@ == Seq::<u8>::empty(),
                spec_parse(x, Seq::empty()).1 == r,
                !is_fatal(r) ==> spec_parse(x, Seq::empty()).0 == self@,
                !done ==> spec_drain(w).1 == out@ + spec_drain(x).1,
                !done ==> (!ends_fatal(spec_drain(x).1) ==> spec_drain(w).0 == spec_drain(x).0),
                done ==> out@ == spec_drain(w).1,
                done ==> (!ends_fatal(out@) ==> self@ == spec_drain(w).0),
            decreases x.pending.len() + (if done { 0int } else { 1int }),
        {
            let ghost before = out@;
            match r {
                Err(ProtoError::ParseIncomplete(_)) => {
                    assert(before + Seq::<ProtoResult<Http2Event>>::empty() =~= before);
                    done = true;
                },
                Err(ProtoError::ConnectionError(_)) => {
                    out.push(r);
                    assert(before + seq![r] =~= out@);
                    done = true;
                },
                _ => {
                    proof {
                        lemma_parse_consumes(x);
                        let t = self@;
                        let rest = spec_drain(t).1;
                        assert(spec_drain(x) == (spec_drain(t).0, seq![r] + rest));
                        assert(before + (seq![r] + rest) =~= before.push(r) + rest);
                        if rest.len() > 0 {
                            assert((seq![r] + rest).last() == rest.last());
                        }
                        x = t;
                    }
                    out.push(r);
                    r = self.parse(nothing.as_slice());
                },
            }
        }
        out
    }
}

/// A stream whose pending input gives nothing is left as it is by
/// draining it.
pub proof fn lemma_drained_is_fixed(s: StreamView)
    requires
        spec_drain(s).1.len() == 0,
    ensures
        spec_drain(s) == (s, Seq::<ProtoResult<Http2Event>>::empty()),
{
    assert(s.pending + Seq::<u8>::empty() =~= s.pending);
    let (t, r) = spec_parse(s, Seq::empty());
    match r {
        Err(ProtoError::ParseIncomplete(_)) => {
            assert(t == s);
        },
        _ => {
            if !(is_fatal(r) || t.pending.len() >= s.pending.len()) {
                let (u, more) = spec_drain(t);
                assert((seq![r] + more).len() > 0);
            }
        },
    }
}

} // verus!
