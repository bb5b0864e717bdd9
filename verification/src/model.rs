//! The connection as a mathematical value: the table of streams, the
//! tombstones and the windows, what each frame and each wish of the
//! application does to them, and the laws that follow.

use crate::control::{spec_go_away, spec_rst_stream, spec_window_update};
use crate::error::{ErrorCode, ProtoError};
use crate::flow::{WindowView, MAX_WINDOW};
use crate::frame::{
    spec_be31, spec_be32, spec_be32_bytes, FrameType, FrameView, DEFAULT_MAX_FRAME_SIZE, FLAG_ACK,
    FLAG_END_HEADERS, FLAG_END_STREAM, MAX_PAYLOAD_LEN, MAX_STREAM_ID,
};
use crate::state::{next_state, Role, StreamEvent, StreamState};
use crate::stream::{spec_emit, spec_recv, Http2Event, Stream, StreamView};
use vstd::prelude::*;

verus! {

/// Where the connection stands.
#[derive(Clone, Copy, Debug, PartialEq, Eq, Structural)]
pub enum ConnectionState {
    /// Nothing was sent or received yet.
    Init,
    /// The preface has passed; the SETTINGS that complete the handshake
    /// are awaited.
    Awaiting,
    /// Streams may be opened.
    Open,
    /// A GOAWAY has passed: the streams that are open may finish, no new
    /// one is accepted.
    GoingAway,
    Closed,
}

/// Why a stream was closed.
#[derive(Clone, Copy, Debug, PartialEq, Eq, Structural)]
pub enum CloseReason {
    /// Both directions ended with END_STREAM.
    Normal,
    /// The peer reset the stream with this code.
    Reset(ErrorCode),
    /// This end reset the stream with this code.
    Error(ErrorCode),
}

/// What is kept of a closed stream, so that a frame that arrives late is
/// known to belong to a closed stream and not to an unknown one.
#[derive(Clone, Copy, Debug, PartialEq, Eq, Structural)]
pub struct Tombstone {
    pub id: u32,
    pub reason: CloseReason,
}

/// What the multiplexer tells the application, and what it asks to have
/// sent to the peer.
#[allow(inconsistent_fields)]
#[derive(Clone, Copy, Debug, PartialEq, Eq, Structural)]
pub enum ConnEvent {
    StreamOpened { id: u32, initiator: Role },
    /// A header block arrived, or where `end_headers` is not set its first
    /// part; it is the payload of the frame just handed in.
    Headers { id: u32, end_stream: bool, end_headers: bool },
    /// A further part of the header block that a `Headers` event, or the
    /// promise on the stream `id`, began; it is the payload of the frame
    /// just handed in. The block is complete with `end_headers`.
    Continuation { id: u32, end_headers: bool },
    /// DATA arrived; it is the payload of the frame just handed in.
    Data { id: u32, len: u32, end_stream: bool },
    StreamClosed { id: u32, reason: CloseReason },
    ConnectionClosed { reason: ErrorCode },
    /// A RST_STREAM is to be sent.
    SendRstStream { id: u32, code: ErrorCode },
    /// A GOAWAY is to be sent.
    SendGoAway { last_id: u32, code: ErrorCode },
    /// The peer's SETTINGS are to be acknowledged.
    SendSettingsAck,
    /// The peer's PING is to be answered with its payload.
    SendPingAck,
}

/// Whether the peer is the one to open the stream `id`: streams that the
/// client opens are odd, those that the server opens are even.
pub open spec fn peer_initiated(role: Role, id: u32) -> bool {
    if role == Role::Server {
        id % 2 == 1
    } else {
        id % 2 == 0
    }
}

/// The first place from `from` on at which `id` stands in `ids`.
pub open spec fn position(ids: Seq<u32>, id: u32, from: int) -> Option<int>
    decreases ids.len() - from,
{
    if from < 0 || from >= ids.len() {
        None
    } else if ids[from] == id {
        Some(from)
    } else {
        position(ids, id, from + 1)
    }
}

/// The identifiers of the streams in a table, in the table's order.
pub open spec fn stream_ids(streams: Seq<StreamView>) -> Seq<u32> {
    Seq::new(streams.len(), |i: int| streams[i].id)
}

/// The identifiers of the tombstones, oldest first.
pub open spec fn tombstone_ids(tombstones: Seq<Tombstone>) -> Seq<u32> {
    Seq::new(tombstones.len(), |i: int| tombstones[i].id)
}

/// The streams of a vector as mathematical values.
pub open spec fn stream_views(streams: Seq<Stream>) -> Seq<StreamView> {
    Seq::new(streams.len(), |i: int| streams[i]@)
}

/// What `position` finds is the first place of `id`; where it finds none,
/// `id` stands nowhere from `from` on.
pub proof fn lemma_position(ids: Seq<u32>, id: u32, from: int)
    requires
        0 <= from,
    ensures
        match position(ids, id, from) {
            Some(i) => from <= i < ids.len() && ids[i] == id && forall|j: int|
                from <= j < i ==> ids[j] != id,
            None => forall|j: int| from <= j < ids.len() ==> ids[j] != id,
        },
    decreases ids.len() - from,
{
    if from < ids.len() && ids[from] != id {
        lemma_position(ids, id, from + 1);
    }
}

/// A connection as a mathematical value.
pub struct ConnView {
    pub role: Role,
    pub state: ConnectionState,
    /// The streams that are not closed, in the order in which they were
    /// opened.
    pub streams: Seq<StreamView>,
    /// What is kept of the streams closed last, oldest first.
    pub tombstones: Seq<Tombstone>,
    /// The number of tombstones kept at most.
    pub tombstone_cap: nat,
    /// Credit for DATA that this end sends, over all streams.
    pub send: WindowView,
    /// Credit for DATA that the peer sends, over all streams.
    pub recv: WindowView,
    /// The initial size of the send window of a new stream.
    pub peer_initial_window: u32,
    /// The initial size of the receive window of a new stream.
    pub local_initial_window: u32,
    /// The largest payload that the peer accepts in one frame.
    pub peer_max_frame_size: u32,
    /// The stream whose header block the application is being handed: its
    /// HEADERS or PUSH_PROMISE was taken without END_HEADERS.
    pub block: Option<u32>,
    /// The highest identifier of a stream that the peer opened.
    pub last_peer_id: u32,
    /// The highest identifier of a stream that this end opened.
    pub last_local_id: u32,
}

impl ConnView {
    /// The place of the stream `id` in the table.
    pub open spec fn find(self, id: u32) -> Option<int> {
        position(stream_ids(self.streams), id, 0)
    }

    /// The place of the tombstone of the stream `id`.
    pub open spec fn find_tombstone(self, id: u32) -> Option<int> {
        position(tombstone_ids(self.tombstones), id, 0)
    }

    /// The highest identifier seen so far of the streams that the same end
    /// opens as `id`.
    pub open spec fn last_id_like(self, id: u32) -> u32 {
        if peer_initiated(self.role, id) {
            self.last_peer_id
        } else {
            self.last_local_id
        }
    }

    pub open spec fn wf(self) -> bool {
        &&& self.send.wf()
        &&& self.recv.wf()
        &&& self.peer_initial_window <= MAX_WINDOW
        &&& self.local_initial_window <= MAX_WINDOW
        &&& self.last_peer_id <= MAX_STREAM_ID
        &&& self.last_local_id <= MAX_STREAM_ID
        &&& self.last_local_id == 0 || !peer_initiated(self.role, self.last_local_id)
        &&& DEFAULT_MAX_FRAME_SIZE <= self.peer_max_frame_size <= MAX_PAYLOAD_LEN
        &&& 1 <= self.tombstone_cap
        &&& self.tombstones.len() <= self.tombstone_cap
        &&& self.state == ConnectionState::Closed ==> self.streams.len() == 0
        &&& forall|i: int|
            0 <= i < self.streams.len() ==> {
                &&& (#[trigger] self.streams[i]).wf()
                &&& self.streams[i].role == self.role
                &&& self.streams[i].state != StreamState::Closed
                &&& self.streams[i].max_frame_size == DEFAULT_MAX_FRAME_SIZE
                &&& self.streams[i].queued.len() == 0
                &&& self.streams[i].pending.len() == 0
                &&& self.streams[i].id <= self.last_id_like(self.streams[i].id)
            }
        &&& forall|i: int, j: int|
            0 <= i < j < self.streams.len() ==> (#[trigger] self.streams[i]).id != (
            #[trigger] self.streams[j]).id
    }
}

/// The table with `n` bytes taken from the send window of the stream at
/// `i`.
pub open spec fn take_send_at(streams: Seq<StreamView>, i: int, n: nat) -> Seq<StreamView> {
    streams.update(i, StreamView { send: streams[i].send.take(n).unwrap(), ..streams[i] })
}

/// Reserves credit for `n` bytes of DATA on the stream `id`: from its send
/// window and from the connection's, from both or from neither. With too
/// little credit in either the answer is `WouldBlock`; a stream that is not
/// in the table is "stream closed".
pub open spec fn spec_reserve_send(c: ConnView, id: u32, n: nat) -> (
    ConnView,
    Result<(), ProtoError>,
) {
    match c.find(id) {
        None => (c, Err(ProtoError::StreamError(ErrorCode::StreamClosed))),
        Some(i) => if c.send.take(n).is_some() && c.streams[i].send.take(n).is_some() {
            (
                ConnView {
                    send: c.send.take(n).unwrap(),
                    streams: take_send_at(c.streams, i, n),
                    ..c
                },
                Ok(()),
            )
        } else {
            (c, Err(ProtoError::WouldBlock))
        },
    }
}

/// Counts `n` bytes of DATA received on the stream `id` against its
/// receive window and the connection's. More than either has authorized is
/// a flow-control error of the connection, and changes nothing.
pub open spec fn spec_consume_recv(c: ConnView, id: u32, n: nat) -> (
    ConnView,
    Result<(), ProtoError>,
) {
    match c.find(id) {
        None => (c, Err(ProtoError::StreamError(ErrorCode::StreamClosed))),
        Some(i) => if c.recv.take(n).is_some() && c.streams[i].recv.take(n).is_some() {
            (
                ConnView {
                    recv: c.recv.take(n).unwrap(),
                    streams: c.streams.update(
                        i,
                        StreamView { recv: c.streams[i].recv.take(n).unwrap(), ..c.streams[i] },
                    ),
                    ..c
                },
                Ok(()),
            )
        } else {
            (c, Err(ProtoError::ConnectionError(ErrorCode::FlowControlError)))
        },
    }
}

/// The error of a WINDOW_UPDATE that a window refuses: a credit above the
/// maximum compromises the connection; an increment of zero does so on
/// the connection's window, and resets the stream on a stream's.
pub open spec fn grant_fault(target: u32, e: ErrorCode) -> ProtoError {
    if target == 0 || e == ErrorCode::FlowControlError {
        ProtoError::ConnectionError(e)
    } else {
        ProtoError::StreamError(e)
    }
}

/// Applies the increment of a WINDOW_UPDATE to the send window of the
/// stream `target`, or to the connection's where `target` is 0.
pub open spec fn spec_grant(c: ConnView, target: u32, increment: nat) -> (
    ConnView,
    Result<(), ProtoError>,
) {
    if target == 0 {
        match c.send.grant(increment) {
            Ok(w) => (ConnView { send: w, ..c }, Ok(())),
            Err(e) => (c, Err(grant_fault(target, e))),
        }
    } else {
        match c.find(target) {
            None => (c, Err(ProtoError::StreamError(ErrorCode::StreamClosed))),
            Some(i) => match c.streams[i].send.grant(increment) {
                Ok(w) => (
                    ConnView {
                        streams: c.streams.update(i, StreamView { send: w, ..c.streams[i] }),
                        ..c
                    },
                    Ok(()),
                ),
                Err(e) => (c, Err(grant_fault(target, e))),
            },
        }
    }
}

/// This end grants the peer more credit: the increment is added to the
/// receive window of the stream `target`, or to the connection's where
/// `target` is 0, and goes out as a WINDOW_UPDATE frame. It is refused as
/// an increment from the peer would be, and as a flow-control error where
/// it needs more than the 31 bits that the frame has for it.
pub open spec fn spec_replenish(c: ConnView, target: u32, increment: nat) -> (
    ConnView,
    Result<Seq<u8>, ProtoError>,
) {
    if increment > MAX_WINDOW {
        (c, Err(ProtoError::ConnectionError(ErrorCode::FlowControlError)))
    } else if target == 0 {
        match c.recv.grant(increment) {
            Ok(w) => (ConnView { recv: w, ..c }, Ok(spec_window_update(target, increment as u32))),
            Err(e) => (c, Err(grant_fault(target, e))),
        }
    } else {
        match c.find(target) {
            None => (c, Err(ProtoError::StreamError(ErrorCode::StreamClosed))),
            Some(i) => match c.streams[i].recv.grant(increment) {
                Ok(w) => (
                    ConnView {
                        streams: c.streams.update(i, StreamView { recv: w, ..c.streams[i] }),
                        ..c
                    },
                    Ok(spec_window_update(target, increment as u32)),
                ),
                Err(e) => (c, Err(grant_fault(target, e))),
            },
        }
    }
}

/// Whether every send window of the table takes the new initial size.
pub open spec fn all_resizable(streams: Seq<StreamView>, initial: nat) -> bool {
    forall|i: int| 0 <= i < streams.len() ==> (#[trigger] streams[i]).send.resize(initial).is_ok()
}

/// The table with every send window moved to the new initial size.
pub open spec fn resize_all(streams: Seq<StreamView>, initial: nat) -> Seq<StreamView> {
    Seq::new(
        streams.len(),
        |i: int| StreamView { send: streams[i].send.resize(initial).unwrap(), ..streams[i] },
    )
}

/// Applies a new SETTINGS_INITIAL_WINDOW_SIZE: the send window of every
/// stream moves by the difference to the old size, and new streams start
/// with the new one. A window may turn negative by this. Where one would
/// exceed the maximum, that is a flow-control error of the connection and
/// nothing changes.
pub open spec fn spec_initial_window_change(c: ConnView, initial: u32) -> (
    ConnView,
    Result<(), ProtoError>,
) {
    if initial <= MAX_WINDOW && all_resizable(c.streams, initial as nat) {
        (
            ConnView {
                streams: resize_all(c.streams, initial as nat),
                peer_initial_window: initial,
                ..c
            },
            Ok(()),
        )
    } else {
        (c, Err(ProtoError::ConnectionError(ErrorCode::FlowControlError)))
    }
}

/// Whether every receive window of the table takes the new initial size.
pub open spec fn all_resizable_recv(streams: Seq<StreamView>, initial: nat) -> bool {
    forall|i: int| 0 <= i < streams.len() ==> (#[trigger] streams[i]).recv.resize(initial).is_ok()
}

/// The table with every receive window moved to the new initial size.
pub open spec fn resize_all_recv(streams: Seq<StreamView>, initial: nat) -> Seq<StreamView> {
    Seq::new(
        streams.len(),
        |i: int| StreamView { recv: streams[i].recv.resize(initial).unwrap(), ..streams[i] },
    )
}

/// This end changes its own SETTINGS_INITIAL_WINDOW_SIZE: the receive
/// window of every stream moves by the difference to the old size, and new
/// streams start with the new one. A window may turn negative by this.
/// Where one would exceed the maximum, that is a flow-control error and
/// nothing changes.
pub open spec fn spec_local_window_change(c: ConnView, initial: u32) -> (
    ConnView,
    Result<(), ProtoError>,
) {
    if initial <= MAX_WINDOW && all_resizable_recv(c.streams, initial as nat) {
        (
            ConnView {
                streams: resize_all_recv(c.streams, initial as nat),
                local_initial_window: initial,
                ..c
            },
            Ok(()),
        )
    } else {
        (c, Err(ProtoError::ConnectionError(ErrorCode::FlowControlError)))
    }
}

/// Whether `s` may stand for `t` in a table: it is well formed and differs
/// from `t` in its state and its windows at most, and is not closed.
pub open spec fn stands_for(s: StreamView, t: StreamView) -> bool {
    &&& s.wf()
    &&& s.id == t.id
    &&& s.role == t.role
    &&& s.state != StreamState::Closed
    &&& s.max_frame_size == t.max_frame_size
    &&& s.queued == t.queued
    &&& s.pending == t.pending
    &&& s.block == t.block
}

/// A stream of the table may change its state and its windows: the table
/// stays well formed, and every stream keeps its place.
pub proof fn lemma_update_keeps_wf(c: ConnView, i: int, s: StreamView)
    requires
        c.wf(),
        0 <= i < c.streams.len(),
        stands_for(s, c.streams[i]),
    ensures
        (ConnView { streams: c.streams.update(i, s), ..c }).wf(),
        stream_ids(c.streams.update(i, s)) == stream_ids(c.streams),
{
    let d = ConnView { streams: c.streams.update(i, s), ..c };
    assert(stream_ids(d.streams) =~= stream_ids(c.streams));
    assert forall|k: int| 0 <= k < d.streams.len() implies {
        &&& (#[trigger] d.streams[k]).wf()
        &&& d.streams[k].role == d.role
        &&& d.streams[k].state != StreamState::Closed
        &&& d.streams[k].max_frame_size == DEFAULT_MAX_FRAME_SIZE
        &&& d.streams[k].queued.len() == 0
        &&& d.streams[k].pending.len() == 0
        &&& d.streams[k].id <= d.last_id_like(d.streams[k].id)
    } by {
        if k != i {
            assert(d.streams[k] == c.streams[k]);
        }
        assert(c.streams[k].wf());
    }
    assert forall|k: int, j: int| 0 <= k < j < d.streams.len() implies (#[trigger] d.streams[k]).id
        != (#[trigger] d.streams[j]).id by {
        assert(d.streams[k].id == c.streams[k].id);
        assert(d.streams[j].id == c.streams[j].id);
    }
}

/// The tombstones after one more: the oldest one leaves where the limit,
/// which is 1 at least, is reached.
pub open spec fn bury(tombstones: Seq<Tombstone>, cap: nat, t: Tombstone) -> Seq<Tombstone> {
    if tombstones.len() < cap {
        tombstones.push(t)
    } else {
        tombstones.skip(1).push(t)
    }
}

/// The connection after the stream at `i` has left the table for a
/// tombstone.
pub open spec fn retire(c: ConnView, i: int, reason: CloseReason) -> ConnView {
    ConnView {
        streams: c.streams.remove(i),
        tombstones: bury(c.tombstones, c.tombstone_cap, Tombstone { id: c.streams[i].id, reason }),
        ..c
    }
}

/// One `StreamClosed` for each stream of the table, in the table's order.
pub open spec fn closing_events(streams: Seq<StreamView>, code: ErrorCode) -> Seq<ConnEvent> {
    Seq::new(
        streams.len(),
        |i: int| ConnEvent::StreamClosed { id: streams[i].id, reason: CloseReason::Error(code) },
    )
}

/// The end of the connection: every stream of the table is closed with
/// `code`, then the connection.
pub open spec fn shutdown(c: ConnView, code: ErrorCode) -> (ConnView, Seq<ConnEvent>) {
    (
        ConnView { state: ConnectionState::Closed, streams: Seq::empty(), ..c },
        closing_events(c.streams, code).push(ConnEvent::ConnectionClosed { reason: code }),
    )
}

/// A connection error: a GOAWAY with the code and the last stream of the
/// peer that was taken up, then the end of the connection.
pub open spec fn fail_connection(c: ConnView, code: ErrorCode) -> (ConnView, Seq<ConnEvent>) {
    (
        shutdown(c, code).0,
        seq![ConnEvent::SendGoAway { last_id: c.last_peer_id, code }] + shutdown(c, code).1,
    )
}

/// A stream error: a RST_STREAM with the code, and the stream at `i` is
/// closed; the connection goes on.
pub open spec fn fail_stream(c: ConnView, i: int, code: ErrorCode) -> (ConnView, Seq<ConnEvent>) {
    (
        retire(c, i, CloseReason::Error(code)),
        seq![
            ConnEvent::SendRstStream { id: c.streams[i].id, code },
            ConnEvent::StreamClosed { id: c.streams[i].id, reason: CloseReason::Error(code) },
        ],
    )
}

/// Closing a stream leaves the table well formed.
pub proof fn lemma_retire_wf(c: ConnView, i: int, reason: CloseReason)
    requires
        c.wf(),
        0 <= i < c.streams.len(),
    ensures
        retire(c, i, reason).wf(),
{
    let d = retire(c, i, reason);
    assert forall|k: int| 0 <= k < d.streams.len() implies {
        &&& (#[trigger] d.streams[k]).wf()
        &&& d.streams[k].role == d.role
        &&& d.streams[k].state != StreamState::Closed
        &&& d.streams[k].max_frame_size == DEFAULT_MAX_FRAME_SIZE
        &&& d.streams[k].queued.len() == 0
        &&& d.streams[k].pending.len() == 0
        &&& d.streams[k].id <= d.last_id_like(d.streams[k].id)
    } by {
        if k < i {
            assert(d.streams[k] == c.streams[k]);
        } else {
            assert(d.streams[k] == c.streams[k + 1]);
        }
    }
    assert forall|k: int, j: int| 0 <= k < j < d.streams.len() implies (#[trigger] d.streams[k]).id
        != (#[trigger] d.streams[j]).id by {
        let k0 = if k < i {
            k
        } else {
            k + 1
        };
        let j0 = if j < i {
            j
        } else {
            j + 1
        };
        assert(d.streams[k] == c.streams[k0]);
        assert(d.streams[j] == c.streams[j0]);
    }
}

/// The state in which a stream joins the table: idle, or reserved where a
/// promise announced it.
pub open spec fn entry_state(role: Role, promise: Option<StreamEvent>) -> StreamState {
    match promise {
        None => StreamState::Idle,
        Some(e) => match next_state(role, StreamState::Idle, e) {
            Some(s) => s,
            None => StreamState::Idle,
        },
    }
}

/// The other end's role.
pub open spec fn peer_of(role: Role) -> Role {
    if role == Role::Client {
        Role::Server
    } else {
        Role::Client
    }
}

/// A stream as the table takes it up: with the windows that SETTINGS
/// prescribe and nothing in its queues. Its own frame size, which bounds
/// what `parse` and `queue` of a stream take, plays no part in the table:
/// what arrives was bounded by the decoder, and what is sent is bounded by
/// the connection's `peer_max_frame_size`.
pub open spec fn new_stream(c: ConnView, id: u32, state: StreamState) -> StreamView {
    StreamView {
        id,
        role: c.role,
        state,
        send: WindowView { initial: c.peer_initial_window as nat, balance: 0 },
        recv: WindowView { initial: c.local_initial_window as nat, balance: 0 },
        max_frame_size: DEFAULT_MAX_FRAME_SIZE,
        pending: Seq::empty(),
        block: None,
        queued: Seq::empty(),
    }
}

/// The connection with one more stream, whose identifier becomes the
/// highest of its kind.
pub open spec fn enter_stream(c: ConnView, s: StreamView) -> ConnView {
    if peer_initiated(c.role, s.id) {
        ConnView { streams: c.streams.push(s), last_peer_id: s.id, ..c }
    } else {
        ConnView { streams: c.streams.push(s), last_local_id: s.id, ..c }
    }
}

/// A stream whose identifier is above all of its kind may join the table.
pub proof fn lemma_enter_wf(c: ConnView, id: u32, state: StreamState)
    requires
        c.wf(),
        c.state != ConnectionState::Closed,
        state != StreamState::Closed,
        state != StreamState::Init,
        id > c.last_id_like(id),
        id <= MAX_STREAM_ID,
    ensures
        enter_stream(c, new_stream(c, id, state)).wf(),
        enter_stream(c, new_stream(c, id, state)).find(id) == Some(c.streams.len() as int),
{
    let s = new_stream(c, id, state);
    let d = enter_stream(c, s);
    assert forall|k: int| 0 <= k < d.streams.len() implies {
        &&& (#[trigger] d.streams[k]).wf()
        &&& d.streams[k].role == d.role
        &&& d.streams[k].state != StreamState::Closed
        &&& d.streams[k].max_frame_size == DEFAULT_MAX_FRAME_SIZE
        &&& d.streams[k].queued.len() == 0
        &&& d.streams[k].pending.len() == 0
        &&& d.streams[k].id <= d.last_id_like(d.streams[k].id)
    } by {
        if k < c.streams.len() {
            assert(d.streams[k] == c.streams[k]);
        }
    }
    assert forall|k: int, j: int| 0 <= k < j < d.streams.len() implies (#[trigger] d.streams[k]).id
        != (#[trigger] d.streams[j]).id by {
        assert(d.streams[k] == c.streams[k]);
        if j < c.streams.len() {
            assert(d.streams[j] == c.streams[j]);
        } else {
            assert(c.streams[k].id <= c.last_id_like(c.streams[k].id));
        }
    }
    lemma_position(stream_ids(d.streams), id, 0);
    assert(stream_ids(d.streams)[c.streams.len() as int] == id);
    assert forall|k: int| 0 <= k < c.streams.len() implies stream_ids(d.streams)[k] != id by {
        assert(d.streams[k] == c.streams[k]);
        assert(c.streams[k].id <= c.last_id_like(c.streams[k].id));
    }
}

/// The header block that the application is being handed after the frame
/// `f` was taken: HEADERS and PUSH_PROMISE begin one unless they end it
/// themselves, and the CONTINUATION with END_HEADERS ends the one of its
/// stream.
pub open spec fn block_handed(block: Option<u32>, f: FrameView) -> Option<u32> {
    match f.frame_type {
        FrameType::Headers | FrameType::PushPromise => if f.has_flag(FLAG_END_HEADERS) {
            None
        } else {
            Some(f.stream_id)
        },
        FrameType::Continuation => if block == Some(f.stream_id) && f.has_flag(FLAG_END_HEADERS) {
            None
        } else {
            block
        },
        _ => block,
    }
}

/// What the application hears of a frame that a stream has taken, while
/// it is being handed the header block `block`. A CONTINUATION is handed
/// on where it continues that block.
pub open spec fn arrival_events(block: Option<u32>, f: FrameView) -> Seq<ConnEvent> {
    match f.frame_type {
        FrameType::Data => seq![
            ConnEvent::Data {
                id: f.stream_id,
                len: f.payload.len() as u32,
                end_stream: f.has_flag(FLAG_END_STREAM),
            },
        ],
        FrameType::Headers => seq![
            ConnEvent::Headers {
                id: f.stream_id,
                end_stream: f.has_flag(FLAG_END_STREAM),
                end_headers: f.has_flag(FLAG_END_HEADERS),
            },
        ],
        FrameType::Continuation => if block == Some(f.stream_id) {
            seq![
                ConnEvent::Continuation {
                    id: f.stream_id,
                    end_headers: f.has_flag(FLAG_END_HEADERS),
                },
            ]
        } else {
            Seq::empty()
        },
        _ => Seq::empty(),
    }
}

/// Why the stream is closed that the frame closed: a RST_STREAM gives the
/// peer's code, END_STREAM is the normal end.
pub open spec fn close_reason(f: FrameView) -> CloseReason {
    if f.frame_type == FrameType::RstStream && f.payload.len() >= 4 {
        CloseReason::Reset(ErrorCode::spec_from_code(spec_be32(f.payload, 0)))
    } else {
        CloseReason::Normal
    }
}

/// A PUSH_PROMISE that its stream has accepted: the stream that it
/// promises, named in the first four bytes of the payload, joins the table
/// as reserved by the peer, and the rest of the payload is the header
/// block of the promise, or its first part. The promised identifier must
/// be one of the
/// peer's and above all that the peer has used, else the connection fails.
/// While the connection is going away the promise is refused.
pub open spec fn on_promise(c: ConnView, f: FrameView) -> (ConnView, Seq<ConnEvent>) {
    if f.payload.len() < 4 {
        fail_connection(c, ErrorCode::FrameSizeError)
    } else {
        let p = spec_be31(f.payload, 0);
        if !peer_initiated(c.role, p) || p <= c.last_peer_id {
            fail_connection(c, ErrorCode::ProtocolError)
        } else if c.state != ConnectionState::Open {
            (c, seq![ConnEvent::SendRstStream { id: p, code: ErrorCode::RefusedStream }])
        } else {
            (
                ConnView {
                    block: block_handed(c.block, f),
                    ..enter_stream(c, new_stream(c, p, StreamState::ReservedRemote))
                },
                seq![ConnEvent::StreamOpened { id: p, initiator: peer_of(c.role) }],
            )
        }
    }
}

/// A frame for the stream at `i` of the table.
///
/// DATA is counted against the connection's receive window first: more
/// than it covers is a flow-control error of the connection. Then the
/// stream takes the frame. A stream error resets the stream and closes it,
/// a connection error ends the connection. Else the application hears of
/// the frame: of DATA, of HEADERS, and of a CONTINUATION that continues
/// the header block that it is being handed. Where the stream is closed by
/// the frame, it leaves the table for a tombstone.
pub open spec fn on_stream_frame(c: ConnView, i: int, f: FrameView) -> (ConnView, Seq<ConnEvent>) {
    if f.frame_type == FrameType::Data && c.recv.take(f.payload.len()).is_none() {
        fail_connection(c, ErrorCode::FlowControlError)
    } else {
        let (s, r) = spec_recv(c.streams[i], f);
        match r {
            Err(ProtoError::StreamError(code)) => fail_stream(c, i, code),
            Err(ProtoError::ConnectionError(code)) => fail_connection(c, code),
            Err(_) => fail_connection(c, ErrorCode::InternalError),
            Ok(Http2Event::PushPromise) => on_promise(c, f),
            Ok(_) => {
                let d = ConnView {
                    recv: if f.frame_type == FrameType::Data {
                        c.recv.take(f.payload.len()).unwrap()
                    } else {
                        c.recv
                    },
                    block: block_handed(c.block, f),
                    ..c
                };
                if s.state == StreamState::Closed {
                    (
                        retire(d, i, close_reason(f)),
                        arrival_events(c.block, f).push(
                            ConnEvent::StreamClosed { id: f.stream_id, reason: close_reason(f) },
                        ),
                    )
                } else {
                    (ConnView { streams: c.streams.update(i, s), ..d }, arrival_events(c.block, f))
                }
            },
        }
    }
}

/// A frame for a stream that is not in the table.
///
/// - The stream has a tombstone: it is closed. The rest of a header block
///   whose first part closed the stream is still handed on. Other frames
///   that would open or feed the stream are answered with RST_STREAM
///   "stream closed"; the rest pass.
/// - Its identifier is not above those already seen of its kind, or is one
///   of this end's own that this end never used: a protocol error of the
///   connection.
/// - It is a new stream of the peer. Only a client opens streams by
///   sending frames, and only by HEADERS; PRIORITY may come before and
///   leaves the stream idle. While the connection is going away the stream
///   is refused. Else it joins the table and takes the frame.
pub open spec fn on_unknown_stream(c: ConnView, f: FrameView) -> (ConnView, Seq<ConnEvent>) {
    let id = f.stream_id;
    if c.find_tombstone(id).is_some() {
        if f.frame_type == FrameType::Continuation && c.block == Some(id) {
            (ConnView { block: block_handed(c.block, f), ..c }, arrival_events(c.block, f))
        } else if f.frame_type == FrameType::Data || f.frame_type == FrameType::Headers
            || f.frame_type == FrameType::PushPromise || f.frame_type == FrameType::Continuation {
            (c, seq![ConnEvent::SendRstStream { id, code: ErrorCode::StreamClosed }])
        } else {
            (c, Seq::empty())
        }
    } else if id <= c.last_id_like(id) || !peer_initiated(c.role, id) || c.role == Role::Client {
        fail_connection(c, ErrorCode::ProtocolError)
    } else if f.frame_type == FrameType::Priority {
        (c, Seq::empty())
    } else if f.frame_type != FrameType::Headers {
        fail_connection(c, ErrorCode::ProtocolError)
    } else if c.state != ConnectionState::Open {
        (c, seq![ConnEvent::SendRstStream { id, code: ErrorCode::RefusedStream }])
    } else {
        let d = enter_stream(c, new_stream(c, id, StreamState::Idle));
        let (e, events) = on_stream_frame(d, c.streams.len() as int, f);
        (e, seq![ConnEvent::StreamOpened { id, initiator: peer_of(c.role) }] + events)
    }
}

/// The handshake: a client sends the preface and is open once the
/// server's SETTINGS have arrived; a server receives the preface and is
/// open once it has sent its SETTINGS. `None` for an event that has no
/// place in the handshake where it stands.
pub open spec fn handshake_next(role: Role, state: ConnectionState, event: StreamEvent) -> Option<
    ConnectionState,
> {
    match (role, state, event) {
        (Role::Client, ConnectionState::Init, StreamEvent::PrefaceSend) => Some(
            ConnectionState::Awaiting,
        ),
        (Role::Client, ConnectionState::Awaiting, StreamEvent::SettingsRecv) => Some(
            ConnectionState::Open,
        ),
        (Role::Server, ConnectionState::Init, StreamEvent::PrefaceRecv) => Some(
            ConnectionState::Awaiting,
        ),
        (Role::Server, ConnectionState::Awaiting, StreamEvent::SettingsSend) => Some(
            ConnectionState::Open,
        ),
        _ => None,
    }
}

/// The identifier of SETTINGS_ENABLE_PUSH.
pub const SETTINGS_ENABLE_PUSH: u32 = 0x2;

/// The identifier of SETTINGS_INITIAL_WINDOW_SIZE.
pub const SETTINGS_INITIAL_WINDOW_SIZE: u32 = 0x4;

/// The identifier of SETTINGS_MAX_FRAME_SIZE.
pub const SETTINGS_MAX_FRAME_SIZE: u32 = 0x5;

/// One setting of the peer: whether it may be sent promises, the initial
/// size of the send windows, or the largest payload it accepts in a frame,
/// which must lie between the default and what 24 bits can announce. A
/// setting that the protocol leaves undefined is passed over.
pub open spec fn apply_setting(c: ConnView, key: nat, value: u32) -> (ConnView, Option<ErrorCode>) {
    if key == SETTINGS_ENABLE_PUSH {
        if value > 1 {
            (c, Some(ErrorCode::ProtocolError))
        } else {
            (c, None)
        }
    } else if key == SETTINGS_INITIAL_WINDOW_SIZE {
        match spec_initial_window_change(c, value).1 {
            Ok(_) => (spec_initial_window_change(c, value).0, None),
            Err(_) => (c, Some(ErrorCode::FlowControlError)),
        }
    } else if key == SETTINGS_MAX_FRAME_SIZE {
        if value < DEFAULT_MAX_FRAME_SIZE || value > MAX_PAYLOAD_LEN {
            (c, Some(ErrorCode::ProtocolError))
        } else {
            (ConnView { peer_max_frame_size: value, ..c }, None)
        }
    } else {
        (c, None)
    }
}

/// The settings of a SETTINGS payload, six bytes each, in order, up to the
/// first that is refused.
pub open spec fn apply_settings(c: ConnView, p: Seq<u8>) -> (ConnView, Option<ErrorCode>)
    decreases p.len(),
{
    if p.len() < 6 {
        (c, None)
    } else {
        let (d, e) = apply_setting(c, (p[0] as nat) * 256 + (p[1] as nat), spec_be32(p, 2));
        if e.is_some() {
            (d, e)
        } else {
            apply_settings(d, p.skip(6))
        }
    }
}

/// A frame for the connection itself (stream 0).
///
/// - SETTINGS: an acknowledgement must be empty; else the payload is a
///   whole number of settings, which are applied and acknowledged, and a
///   client that awaits them is open with them.
/// - PING of eight bytes is answered unless it is an answer itself.
/// - GOAWAY: the first one leaves the connection going away, the second
///   closes it with the code that it carries.
/// - WINDOW_UPDATE adds to the connection's send window.
/// - A wrong length is a frame-size error, a frame of another type a
///   protocol error, of the connection.
pub open spec fn on_connection_frame(c: ConnView, f: FrameView) -> (ConnView, Seq<ConnEvent>) {
    match f.frame_type {
        FrameType::Settings => if f.has_flag(FLAG_ACK) {
            if f.payload.len() != 0 {
                fail_connection(c, ErrorCode::FrameSizeError)
            } else {
                (c, Seq::empty())
            }
        } else if f.payload.len() % 6 != 0 {
            fail_connection(c, ErrorCode::FrameSizeError)
        } else {
            let (d, e) = apply_settings(c, f.payload);
            match e {
                Some(code) => fail_connection(d, code),
                None => (
                    ConnView {
                        state: match handshake_next(d.role, d.state, StreamEvent::SettingsRecv) {
                            Some(st) => st,
                            None => d.state,
                        },
                        ..d
                    },
                    seq![ConnEvent::SendSettingsAck],
                ),
            }
        },
        FrameType::Ping => if f.payload.len() != 8 {
            fail_connection(c, ErrorCode::FrameSizeError)
        } else if f.has_flag(FLAG_ACK) {
            (c, Seq::empty())
        } else {
            (c, seq![ConnEvent::SendPingAck])
        },
        FrameType::GoAway => if f.payload.len() < 8 {
            fail_connection(c, ErrorCode::FrameSizeError)
        } else if c.state == ConnectionState::GoingAway {
            shutdown(c, ErrorCode::spec_from_code(spec_be32(f.payload, 4)))
        } else {
            (ConnView { state: ConnectionState::GoingAway, ..c }, Seq::empty())
        },
        FrameType::WindowUpdate => if f.payload.len() != 4 {
            fail_connection(c, ErrorCode::FrameSizeError)
        } else {
            match c.send.grant(spec_be31(f.payload, 0) as nat) {
                Ok(w) => (ConnView { send: w, ..c }, Seq::empty()),
                Err(e) => fail_connection(c, e),
            }
        },
        _ => fail_connection(c, ErrorCode::ProtocolError),
    }
}

/// What a frame does to the connection, and what follows from it for the
/// application and for the peer.
///
/// - A closed connection takes nothing in.
/// - Before the handshake is over, nothing is accepted but the peer's
///   SETTINGS, and those only after the preface.
/// - A frame on stream 0 is for the connection.
/// - SETTINGS, PING and GOAWAY on another stream are a protocol error of
///   the connection.
/// - Every other frame goes to its stream, if that is in the table, and is
///   judged by its identifier if not.
pub open spec fn spec_on_frame(c: ConnView, f: FrameView) -> (ConnView, Seq<ConnEvent>) {
    if c.state == ConnectionState::Closed {
        (c, Seq::empty())
    } else if c.state == ConnectionState::Init || (c.state == ConnectionState::Awaiting && !(
    f.stream_id == 0 && f.frame_type == FrameType::Settings && !f.has_flag(FLAG_ACK))) {
        fail_connection(c, ErrorCode::ProtocolError)
    } else if f.stream_id == 0 {
        on_connection_frame(c, f)
    } else if f.frame_type == FrameType::Settings || f.frame_type == FrameType::Ping
        || f.frame_type == FrameType::GoAway {
        fail_connection(c, ErrorCode::ProtocolError)
    } else {
        match c.find(f.stream_id) {
            Some(i) => on_stream_frame(c, i, f),
            None => on_unknown_stream(c, f),
        }
    }
}

/// The identifier of the next stream that this end opens: the first is 1
/// for a client and 2 for a server, each further one is two above the
/// last.
pub open spec fn next_local_id(c: ConnView) -> nat {
    if c.last_local_id == 0 && c.role == Role::Client {
        1
    } else {
        (c.last_local_id + 2) as nat
    }
}

/// A client opens a stream: it joins the table idle, under the next
/// identifier. While the connection is not open the stream is refused; a
/// server opens streams by promise only; once the identifiers are used up
/// the connection cannot go on.
pub open spec fn spec_open_stream(c: ConnView) -> (ConnView, Result<u32, ProtoError>) {
    if c.state != ConnectionState::Open {
        (c, Err(ProtoError::StreamError(ErrorCode::RefusedStream)))
    } else if c.role != Role::Client {
        (c, Err(ProtoError::StreamError(ErrorCode::ProtocolError)))
    } else if next_local_id(c) > MAX_STREAM_ID {
        (c, Err(ProtoError::ConnectionError(ErrorCode::ProtocolError)))
    } else {
        (
            enter_stream(c, new_stream(c, next_local_id(c) as u32, StreamState::Idle)),
            Ok(next_local_id(c) as u32),
        )
    }
}

/// A server promises a stream on the stream `parent`: the promise goes out
/// as a PUSH_PROMISE frame whose payload names the new stream before the
/// header block, and the new stream joins the table as reserved by this
/// end.
pub open spec fn spec_promise(c: ConnView, parent: u32, block: Seq<u8>) -> (
    ConnView,
    Result<(u32, Seq<u8>), ProtoError>,
) {
    if c.state != ConnectionState::Open {
        (c, Err(ProtoError::StreamError(ErrorCode::RefusedStream)))
    } else if c.role != Role::Server {
        (c, Err(ProtoError::StreamError(ErrorCode::ProtocolError)))
    } else if next_local_id(c) > MAX_STREAM_ID {
        (c, Err(ProtoError::ConnectionError(ErrorCode::ProtocolError)))
    } else if block.len() + 4 > c.peer_max_frame_size {
        (c, Err(ProtoError::StreamError(ErrorCode::FrameSizeError)))
    } else {
        match c.find(parent) {
            None => (c, Err(ProtoError::StreamError(ErrorCode::StreamClosed))),
            Some(i) => {
                let id = next_local_id(c) as u32;
                match spec_emit(c.streams[i], Http2Event::PushPromise, spec_be32_bytes(id) + block).1 {
                    Err(e) => (c, Err(e)),
                    Ok(bytes) => (
                        enter_stream(c, new_stream(c, id, StreamState::ReservedLocal)),
                        Ok((id, bytes)),
                    ),
                }
            },
        }
    }
}

/// The application sends a frame on the stream `id`.
///
/// The connection must be open or going away, the payload within the
/// largest frame that the peer accepts, the stream in the table; a promise is made by `promise`. DATA
/// needs credit in the connection's send window as well as in the
/// stream's: it is taken from both or from neither, and with too little
/// in either the answer is `WouldBlock`. Where the frame closes the stream,
/// the stream leaves the table for a tombstone and the application hears
/// of it.
pub open spec fn spec_send(c: ConnView, id: u32, event: Http2Event, payload: Seq<u8>) -> (
    ConnView,
    Result<(Seq<u8>, Option<ConnEvent>), ProtoError>,
) {
    let data = event == Http2Event::Data || event == Http2Event::EndStream;
    if c.state != ConnectionState::Open && c.state != ConnectionState::GoingAway {
        (c, Err(ProtoError::StreamError(ErrorCode::RefusedStream)))
    } else if payload.len() > c.peer_max_frame_size {
        (c, Err(ProtoError::StreamError(ErrorCode::FrameSizeError)))
    } else if event == Http2Event::PushPromise {
        (c, Err(ProtoError::StreamError(ErrorCode::ProtocolError)))
    } else {
        match c.find(id) {
            None => (c, Err(ProtoError::StreamError(ErrorCode::StreamClosed))),
            Some(i) => if data && c.send.take(payload.len()).is_none() {
                (c, Err(ProtoError::WouldBlock))
            } else {
                let (s, r) = spec_emit(c.streams[i], event, payload);
                match r {
                    Err(e) => (c, Err(e)),
                    Ok(bytes) => {
                        let d = if data {
                            ConnView { send: c.send.take(payload.len()).unwrap(), ..c }
                        } else {
                            c
                        };
                        if s.state == StreamState::Closed {
                            (
                                retire(d, i, CloseReason::Normal),
                                Ok(
                                    (
                                        bytes,
                                        Some(
                                            ConnEvent::StreamClosed {
                                                id,
                                                reason: CloseReason::Normal,
                                            },
                                        ),
                                    ),
                                ),
                            )
                        } else {
                            (ConnView { streams: c.streams.update(i, s), ..d }, Ok((bytes, None)))
                        }
                    },
                }
            },
        }
    }
}

/// The application cancels the stream `id`: a RST_STREAM goes out and the
/// stream leaves the table for a tombstone. A stream that is not in the
/// table is closed already; one that is idle cannot be reset.
pub open spec fn spec_reset(c: ConnView, id: u32, code: ErrorCode) -> (
    ConnView,
    Result<(Seq<u8>, ConnEvent), ProtoError>,
) {
    match c.find(id) {
        None => (c, Err(ProtoError::StreamError(ErrorCode::StreamClosed))),
        Some(i) => match next_state(c.role, c.streams[i].state, StreamEvent::ResetSend) {
            None => (c, Err(ProtoError::StreamError(ErrorCode::ProtocolError))),
            Some(_) => (
                retire(c, i, CloseReason::Error(code)),
                Ok(
                    (
                        spec_rst_stream(id, code),
                        ConnEvent::StreamClosed { id, reason: CloseReason::Error(code) },
                    ),
                ),
            ),
        },
    }
}

/// This end sends a GOAWAY: the first one leaves the connection going
/// away, a second one closes it. A closed connection sends nothing.
pub open spec fn spec_go_away_sent(c: ConnView, code: ErrorCode) -> (
    ConnView,
    Option<Seq<u8>>,
    Seq<ConnEvent>,
) {
    if c.state == ConnectionState::Closed {
        (c, None, Seq::empty())
    } else if c.state == ConnectionState::GoingAway {
        (shutdown(c, code).0, Some(spec_go_away(c.last_peer_id, code)), shutdown(c, code).1)
    } else {
        (
            ConnView { state: ConnectionState::GoingAway, ..c },
            Some(spec_go_away(c.last_peer_id, code)),
            Seq::empty(),
        )
    }
}

/// This end finds a connection error, such as input that cannot be
/// decoded: the connection fails as `fail_connection` says. A closed
/// connection stays as it is.
pub open spec fn spec_connection_error(c: ConnView, code: ErrorCode) -> (
    ConnView,
    Seq<ConnEvent>,
) {
    if c.state == ConnectionState::Closed {
        (c, Seq::empty())
    } else {
        fail_connection(c, code)
    }
}

/// The connection is given up, on a transport error or after it was idle
/// for too long: every stream is closed with `code`, then the connection.
pub open spec fn spec_abort(c: ConnView, code: ErrorCode) -> (ConnView, Seq<ConnEvent>) {
    if c.state == ConnectionState::Closed {
        (c, Seq::empty())
    } else {
        shutdown(c, code)
    }
}

/// One step of flow control on the sending side.
pub enum FlowOp {
    /// Credit is reserved for so many bytes of DATA on a stream.
    Reserve(u32, nat),
    /// A WINDOW_UPDATE with this increment arrives for a stream, or for the
    /// connection where the stream is 0.
    Grant(u32, nat),
}

/// The connection after one step of flow control, refused or not.
pub open spec fn flow_step(c: ConnView, op: FlowOp) -> ConnView {
    match op {
        FlowOp::Reserve(id, n) => spec_reserve_send(c, id, n).0,
        FlowOp::Grant(target, increment) => spec_grant(c, target, increment).0,
    }
}

/// The connection after a series of steps of flow control.
pub open spec fn flow_run(c: ConnView, ops: Seq<FlowOp>) -> ConnView
    decreases ops.len(),
{
    if ops.len() == 0 {
        c
    } else {
        flow_step(flow_run(c, ops.drop_last()), ops.last())
    }
}

/// No send window, the connection's or a stream's, holds more credit than
/// the maximum.
pub open spec fn windows_bounded(c: ConnView) -> bool {
    &&& c.send.credit() <= MAX_WINDOW
    &&& forall|i: int| 0 <= i < c.streams.len() ==> (#[trigger] c.streams[i]).send.credit()
        <= MAX_WINDOW
}

/// A step of flow control leaves the connection well formed.
pub proof fn lemma_flow_step_wf(c: ConnView, op: FlowOp)
    requires
        c.wf(),
    ensures
        flow_step(c, op).wf(),
{
    match op {
        FlowOp::Reserve(id, n) => {
            lemma_position(stream_ids(c.streams), id, 0);
            match c.find(id) {
                Some(i) => {
                    assert(c.streams[i].wf());
                    if c.send.take(n).is_some() && c.streams[i].send.take(n).is_some() {
                        lemma_update_keeps_wf(
                            ConnView { send: c.send.take(n).unwrap(), ..c },
                            i,
                            StreamView { send: c.streams[i].send.take(n).unwrap(), ..c.streams[i] },
                        );
                    }
                },
                None => {},
            }
        },
        FlowOp::Grant(target, increment) => {
            if target != 0 {
                lemma_position(stream_ids(c.streams), target, 0);
                match c.find(target) {
                    Some(i) => {
                        assert(c.streams[i].wf());
                        match c.streams[i].send.grant(increment) {
                            Ok(w) => {
                                lemma_update_keeps_wf(c, i, StreamView { send: w, ..c.streams[i] });
                            },
                            Err(_) => {},
                        }
                    },
                    None => {},
                }
            }
        },
    }
}

/// Through every series of reservations and grants, no send window ever
/// holds more than the maximum.
pub proof fn lemma_flow_invariant(c: ConnView, ops: Seq<FlowOp>)
    requires
        c.wf(),
    ensures
        flow_run(c, ops).wf(),
        windows_bounded(flow_run(c, ops)),
    decreases ops.len(),
{
    if ops.len() > 0 {
        lemma_flow_invariant(c, ops.drop_last());
        lemma_flow_step_wf(flow_run(c, ops.drop_last()), ops.last());
    }
    let d = flow_run(c, ops);
    assert forall|i: int| 0 <= i < d.streams.len() implies (#[trigger] d.streams[i]).send.credit()
        <= MAX_WINDOW by {
        assert(d.streams[i].wf());
    }
}

/// A reservation never succeeds for more bytes than the credit at hand,
/// of the stream or of the connection; where it succeeds, both sink by
/// exactly the bytes reserved, and where it fails, nothing changes.
pub proof fn lemma_reserve_within_credit(c: ConnView, id: u32, n: nat)
    requires
        c.wf(),
    ensures
        spec_reserve_send(c, id, n).1.is_ok() ==> {
            &&& c.find(id).is_some()
            &&& n <= c.send.credit()
            &&& n <= c.streams[c.find(id).unwrap()].send.credit()
            &&& spec_reserve_send(c, id, n).0.send.credit() == c.send.credit() - n
            &&& spec_reserve_send(c, id, n).0.streams[c.find(id).unwrap()].send.credit()
                == c.streams[c.find(id).unwrap()].send.credit() - n
        },
        spec_reserve_send(c, id, n).1.is_err() ==> spec_reserve_send(c, id, n).0 == c,
{
    lemma_position(stream_ids(c.streams), id, 0);
}

/// Stream identifiers only grow: a frame for a stream that is neither in
/// the table nor remembered as closed, whose identifier is not above the
/// highest seen of its kind, ends the connection with a protocol error.
pub proof fn lemma_stale_id_fails(c: ConnView, f: FrameView)
    requires
        c.wf(),
        c.state == ConnectionState::Open || c.state == ConnectionState::GoingAway,
        f.stream_id != 0,
        f.stream_id <= c.last_id_like(f.stream_id),
        c.find(f.stream_id).is_none(),
        c.find_tombstone(f.stream_id).is_none(),
    ensures
        spec_on_frame(c, f) == fail_connection(c, ErrorCode::ProtocolError),
        spec_on_frame(c, f).0.state == ConnectionState::Closed,
        spec_on_frame(c, f).1[0] == (ConnEvent::SendGoAway {
            last_id: c.last_peer_id,
            code: ErrorCode::ProtocolError,
        }),
{
}

/// A stream that the peer opens takes an identifier above all that the
/// peer has used, and that identifier is the highest from then on.
pub proof fn lemma_new_stream_raises_last_id(c: ConnView, f: FrameView)
    requires
        c.wf(),
        c.state == ConnectionState::Open,
        f.stream_id != 0,
        c.find(f.stream_id).is_none(),
        spec_on_frame(c, f).1.len() > 0,
        spec_on_frame(c, f).1[0] == (ConnEvent::StreamOpened {
            id: f.stream_id,
            initiator: peer_of(c.role),
        }),
    ensures
        f.stream_id > c.last_peer_id,
        peer_initiated(c.role, f.stream_id),
{
}

/// Once the connection is closed, no frame changes it or gives rise to
/// anything.
pub proof fn lemma_closed_stays_closed(c: ConnView, f: FrameView)
    requires
        c.state == ConnectionState::Closed,
    ensures
        spec_on_frame(c, f) == (c, Seq::<ConnEvent>::empty()),
{
}

} // verus!
