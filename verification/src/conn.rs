//! The connection multiplexer: it owns the table of streams and the two
//! windows of the connection, routes each frame to its stream, opens and
//! retires streams, and carries the connection through handshake and
//! shutdown. What each operation does is stated in the model.

use crate::control::{go_away_frame, rst_stream_frame, window_update_frame};
use crate::error::{ErrorCode, ProtoError};
use crate::flow::{FlowWindow, WindowView, DEFAULT_WINDOW, MAX_WINDOW};
use crate::frame::{
    put_be32, read_be31, read_be32, spec_be32, spec_be32_bytes, Frame, FrameType,
    DEFAULT_MAX_FRAME_SIZE, FLAG_ACK, FLAG_END_HEADERS, FLAG_END_STREAM, MAX_PAYLOAD_LEN,
    MAX_STREAM_ID,
};
use crate::model::{
    all_resizable_recv, resize_all_recv, spec_local_window_change,
    block_handed,
    spec_connection_error,
    CloseReason, ConnEvent, ConnView, ConnectionState, SETTINGS_ENABLE_PUSH,
    SETTINGS_INITIAL_WINDOW_SIZE, SETTINGS_MAX_FRAME_SIZE, Tombstone, all_resizable,
    apply_setting, apply_settings, arrival_events, bury, close_reason, closing_events,
    enter_stream, entry_state, fail_connection, fail_stream, handshake_next, lemma_enter_wf,
    lemma_position, lemma_retire_wf, lemma_update_keeps_wf, new_stream, next_local_id,
    on_connection_frame, on_promise, on_stream_frame, on_unknown_stream, peer_initiated,
    peer_of, position, resize_all, retire, shutdown, spec_abort, spec_consume_recv,
    spec_go_away_sent, spec_grant, spec_initial_window_change, spec_on_frame, spec_open_stream,
    spec_promise, spec_replenish, spec_reserve_send, spec_reset, spec_send, stream_ids,
    stream_views, take_send_at, tombstone_ids,
};
use crate::state::{lemma_closed_is_terminal, next_state, Role, StreamEvent, StreamState};
use crate::stream::{Http2Event, Stream, StreamView};
use vstd::prelude::*;

verus! {

/// The multiplexer of one connection.
#[derive(Debug)]
pub struct Connection {
    role: Role,
    state: ConnectionState,
    streams: Vec<Stream>,
    tombstones: Vec<Tombstone>,
    tombstone_cap: usize,
    send_window: FlowWindow,
    recv_window: FlowWindow,
    peer_initial_window: u32,
    local_initial_window: u32,
    peer_max_frame_size: u32,
    block: Option<u32>,
    last_peer_id: u32,
    last_local_id: u32,
}

impl View for Connection {
    type V = ConnView;

    closed spec fn view(&self) -> ConnView {
        ConnView {
            role: self.role,
            state: self.state,
            streams: stream_views(self.streams@),
            tombstones: self.tombstones@,
            tombstone_cap: self.tombstone_cap as nat,
            send: self.send_window@,
            recv: self.recv_window@,
            peer_initial_window: self.peer_initial_window,
            local_initial_window: self.local_initial_window,
            peer_max_frame_size: self.peer_max_frame_size,
            block: self.block,
            last_peer_id: self.last_peer_id,
            last_local_id: self.last_local_id,
        }
    }
}

impl Connection {
    /// A connection on which nothing has happened yet, with the default
    /// windows and frame size. `tombstone_cap` is the number of closed
    /// streams that are remembered; one at least is, also where 0 is asked
    /// for.
    pub fn new(role: Role, tombstone_cap: usize) -> (r: Connection)
        ensures
            r@.wf(),
            r@ == (ConnView {
                role,
                state: ConnectionState::Init,
                streams: Seq::empty(),
                tombstones: Seq::empty(),
                tombstone_cap: if tombstone_cap == 0 {
                    1
                } else {
                    tombstone_cap as nat
                },
                send: WindowView { initial: DEFAULT_WINDOW as nat, balance: 0 },
                recv: WindowView { initial: DEFAULT_WINDOW as nat, balance: 0 },
                peer_initial_window: DEFAULT_WINDOW,
                local_initial_window: DEFAULT_WINDOW,
                peer_max_frame_size: DEFAULT_MAX_FRAME_SIZE,
                block: None,
                last_peer_id: 0,
                last_local_id: 0,
            }),
    {
        let c = Connection {
            role,
            state: ConnectionState::Init,
            streams: Vec::new(),
            tombstones: Vec::new(),
            tombstone_cap: if tombstone_cap == 0 {
                1
            } else {
                tombstone_cap
            },
            send_window: FlowWindow::default_window(),
            recv_window: FlowWindow::default_window(),
            peer_initial_window: DEFAULT_WINDOW,
            local_initial_window: DEFAULT_WINDOW,
            peer_max_frame_size: DEFAULT_MAX_FRAME_SIZE,
            block: None,
            last_peer_id: 0,
            last_local_id: 0,
        };
        assert(c@.streams =~= Seq::<StreamView>::empty());
        assert(c@.tombstones =~= Seq::<Tombstone>::empty());
        c
    }

    /// The largest payload that the peer accepts in one frame.
    pub fn peer_max_frame_size(&self) -> (r: u32)
        ensures
            r == self@.peer_max_frame_size,
    {
        self.peer_max_frame_size
    }

    pub fn role(&self) -> (r: Role)
        ensures
            r == self@.role,
    {
        self.role
    }

    pub fn state(&self) -> (r: ConnectionState)
        ensures
            r == self@.state,
    {
        self.state
    }

    /// The number of streams in the table.
    pub fn stream_count(&self) -> (r: usize)
        ensures
            r == self@.streams.len(),
    {
        self.streams.len()
    }

    /// The highest identifier of a stream that the peer opened.
    pub fn last_peer_id(&self) -> (r: u32)
        ensures
            r == self@.last_peer_id,
    {
        self.last_peer_id
    }

    /// The highest identifier of a stream that this end opened.
    pub fn last_local_id(&self) -> (r: u32)
        ensures
            r == self@.last_local_id,
    {
        self.last_local_id
    }

    /// The credit for DATA that this end sends, over all streams.
    pub fn send_credit(&self) -> (r: i64)
        requires
            self@.wf(),
        ensures
            r == self@.send.credit(),
    {
        self.send_window.credit()
    }

    /// The credit for DATA that the peer sends, over all streams.
    pub fn recv_credit(&self) -> (r: i64)
        requires
            self@.wf(),
        ensures
            r == self@.recv.credit(),
    {
        self.recv_window.credit()
    }

    /// The number of closed streams that are remembered.
    pub fn tombstone_count(&self) -> (r: usize)
        ensures
            r == self@.tombstones.len(),
    {
        self.tombstones.len()
    }

    /// The place of the stream `id` in the table.
    pub fn find(&self, id: u32) -> (r: Option<usize>)
        ensures
            match r {
                Some(i) => self@.find(id) == Some(i as int) && i < self@.streams.len()
                    && self@.streams[i as int].id == id,
                None => self@.find(id).is_none(),
            },
    {
        let ghost ids = stream_ids(self@.streams);
        let mut i: usize = 0;
        while i < self.streams.len()
            invariant
                0 <= i <= self.streams.len(),
                ids == stream_ids(self@.streams),
                position(ids, id, 0) == position(ids, id, i as int),
            decreases self.streams.len() - i,
        {
            if self.streams[i].id() == id {
                return Some(i);
            }
            i = i + 1;
        }
        None
    }

    /// The state of the stream `id`, if it is in the table.
    pub fn stream_state(&self, id: u32) -> (r: Option<StreamState>)
        ensures
            r == match self@.find(id) {
                Some(i) => Some(self@.streams[i].state),
                None => None,
            },
    {
        match self.find(id) {
            Some(i) => Some(self.streams[i].state()),
            None => None,
        }
    }

    /// The send credit of the stream `id`, if it is in the table.
    pub fn stream_send_credit(&self, id: u32) -> (r: Option<i64>)
        requires
            self@.wf(),
        ensures
            r == match self@.find(id) {
                Some(i) => Some(self@.streams[i].send.credit() as i64),
                None => None,
            },
    {
        match self.find(id) {
            Some(i) => {
                assert(self@.streams[i as int].wf());
                Some(self.streams[i].send_credit())
            },
            None => None,
        }
    }

    /// The receive credit of the stream `id`, if it is in the table.
    pub fn stream_recv_credit(&self, id: u32) -> (r: Option<i64>)
        requires
            self@.wf(),
        ensures
            r == match self@.find(id) {
                Some(i) => Some(self@.streams[i].recv.credit() as i64),
                None => None,
            },
    {
        match self.find(id) {
            Some(i) => {
                assert(self@.streams[i as int].wf());
                Some(self.streams[i].recv_credit())
            },
            None => None,
        }
    }

    /// Why the stream `id` was closed, if it is remembered.
    pub fn tombstone(&self, id: u32) -> (r: Option<CloseReason>)
        ensures
            r == match self@.find_tombstone(id) {
                Some(i) => Some(self@.tombstones[i].reason),
                None => None,
            },
    {
        let ghost ids = tombstone_ids(self@.tombstones);
        let mut i: usize = 0;
        while i < self.tombstones.len()
            invariant
                0 <= i <= self.tombstones.len(),
                ids == tombstone_ids(self@.tombstones),
                position(ids, id, 0) == position(ids, id, i as int),
            decreases self.tombstones.len() - i,
        {
            if self.tombstones[i].id == id {
                return Some(self.tombstones[i].reason);
            }
            i = i + 1;
        }
        None
    }
}

impl Connection {
    /// Reserves credit for `n_bytes` of DATA on a stream; see
    /// `spec_reserve_send`.
    pub fn reserve_send(&mut self, stream_id: u32, n_bytes: u32) -> (r: Result<(), ProtoError>)
        requires
            old(self)@.wf(),
        ensures
            final(self)@.wf(),
            (final(self)@, r) == spec_reserve_send(old(self)@, stream_id, n_bytes as nat),
    {
        match self.find(stream_id) {
            None => Err(ProtoError::StreamError(ErrorCode::StreamClosed)),
            Some(i) => {
                assert(self@.streams[i as int].wf());
                if self.send_window.covers(n_bytes) && self.streams[i].covers_send(n_bytes) {
                    self.send_window.take(n_bytes);
                    self.streams[i].take_send(n_bytes);
                    proof {
                        let c = old(self)@;
                        assert(self@.streams =~= take_send_at(c.streams, i as int, n_bytes as nat));
                        lemma_update_keeps_wf(
                            ConnView { send: self@.send, ..c },
                            i as int,
                            self@.streams[i as int],
                        );
                    }
                    Ok(())
                } else {
                    Err(ProtoError::WouldBlock)
                }
            },
        }
    }

    /// Counts `n_bytes` of DATA received on a stream; see
    /// `spec_consume_recv`.
    pub fn consume_recv(&mut self, stream_id: u32, n_bytes: u32) -> (r: Result<(), ProtoError>)
        requires
            old(self)@.wf(),
        ensures
            final(self)@.wf(),
            (final(self)@, r) == spec_consume_recv(old(self)@, stream_id, n_bytes as nat),
    {
        match self.find(stream_id) {
            None => Err(ProtoError::StreamError(ErrorCode::StreamClosed)),
            Some(i) => {
                assert(self@.streams[i as int].wf());
                let mut probe = self.recv_window;
                if !probe.take(n_bytes) {
                    return Err(ProtoError::ConnectionError(ErrorCode::FlowControlError));
                }
                if !self.streams[i].take_recv(n_bytes) {
                    assert(self@.streams =~= old(self)@.streams);
                    return Err(ProtoError::ConnectionError(ErrorCode::FlowControlError));
                }
                self.recv_window = probe;
                proof {
                    let c = old(self)@;
                    assert(self@.streams =~= c.streams.update(
                        i as int,
                        StreamView {
                            recv: c.streams[i as int].recv.take(n_bytes as nat).unwrap(),
                            ..c.streams[i as int]
                        },
                    ));
                    lemma_update_keeps_wf(
                        ConnView { recv: self@.recv, ..c },
                        i as int,
                        self@.streams[i as int],
                    );
                }
                Ok(())
            },
        }
    }

    /// Applies the increment of a WINDOW_UPDATE; see `spec_grant`.
    pub fn grant(&mut self, target: u32, increment: u32) -> (r: Result<(), ProtoError>)
        requires
            old(self)@.wf(),
        ensures
            final(self)@.wf(),
            (final(self)@, r) == spec_grant(old(self)@, target, increment as nat),
    {
        if target == 0 {
            match self.send_window.grant(increment) {
                Ok(()) => Ok(()),
                Err(e) => Err(ProtoError::ConnectionError(e)),
            }
        } else {
            match self.find(target) {
                None => Err(ProtoError::StreamError(ErrorCode::StreamClosed)),
                Some(i) => {
                    assert(self@.streams[i as int].wf());
                    match self.streams[i].grant_send(increment) {
                        Ok(()) => {
                            proof {
                                let c = old(self)@;
                                assert(self@.streams =~= c.streams.update(
                                    i as int,
                                    self@.streams[i as int],
                                ));
                                lemma_update_keeps_wf(c, i as int, self@.streams[i as int]);
                            }
                            Ok(())
                        },
                        Err(e) => {
                            assert(self@.streams =~= old(self)@.streams);
                            match e {
                                ErrorCode::FlowControlError => Err(ProtoError::ConnectionError(e)),
                                _ => Err(ProtoError::StreamError(e)),
                            }
                        },
                    }
                },
            }
        }
    }

    /// Grants the peer more credit; see `spec_replenish`. Returns the bytes
    /// of the WINDOW_UPDATE frame.
    pub fn replenish(&mut self, target: u32, increment: u32) -> (r: Result<Vec<u8>, ProtoError>)
        requires
            old(self)@.wf(),
        ensures
            final(self)@.wf(),
            final(self)@ == spec_replenish(old(self)@, target, increment as nat).0,
            match spec_replenish(old(self)@, target, increment as nat).1 {
                Ok(bytes) => r.is_ok() && r.unwrap()@ == bytes,
                Err(e) => r.is_err() && r.unwrap_err() == e,
            },
    {
        if increment > MAX_WINDOW {
            return Err(ProtoError::ConnectionError(ErrorCode::FlowControlError));
        }
        if target == 0 {
            match self.recv_window.grant(increment) {
                Ok(()) => match window_update_frame(target, increment) {
                    Some(bytes) => Ok(bytes),
                    None => Err(ProtoError::ConnectionError(ErrorCode::InternalError)),
                },
                Err(e) => Err(ProtoError::ConnectionError(e)),
            }
        } else {
            match self.find(target) {
                None => Err(ProtoError::StreamError(ErrorCode::StreamClosed)),
                Some(i) => {
                    assert(self@.streams[i as int].wf());
                    match self.streams[i].grant_recv(increment) {
                        Ok(()) => {
                            proof {
                                let c = old(self)@;
                                assert(self@.streams =~= c.streams.update(
                                    i as int,
                                    self@.streams[i as int],
                                ));
                                lemma_update_keeps_wf(c, i as int, self@.streams[i as int]);
                            }
                            match window_update_frame(target, increment) {
                                Some(bytes) => Ok(bytes),
                                None => Err(ProtoError::ConnectionError(ErrorCode::InternalError)),
                            }
                        },
                        Err(e) => {
                            assert(self@.streams =~= old(self)@.streams);
                            match e {
                                ErrorCode::FlowControlError => Err(ProtoError::ConnectionError(e)),
                                _ => Err(ProtoError::StreamError(e)),
                            }
                        },
                    }
                },
            }
        }
    }

    /// Applies a new SETTINGS_INITIAL_WINDOW_SIZE; see
    /// `spec_initial_window_change`.
    pub fn apply_initial_window_change(&mut self, new_size: u32) -> (r: Result<(), ProtoError>)
        requires
            old(self)@.wf(),
        ensures
            final(self)@.wf(),
            (final(self)@, r) == spec_initial_window_change(old(self)@, new_size),
    {
        if new_size > MAX_WINDOW {
            return Err(ProtoError::ConnectionError(ErrorCode::FlowControlError));
        }
        let n = self.streams.len();
        let mut i: usize = 0;
        while i < n
            invariant
                0 <= i <= n,
                n == self.streams.len(),
                *self == *old(self),
                self@.wf(),
                forall|k: int|
                    0 <= k < i ==> (#[trigger] self@.streams[k]).send.resize(
                        new_size as nat,
                    ).is_ok(),
            decreases n - i,
        {
            assert(self@.streams[i as int].wf());
            if !self.streams[i].can_resize_send(new_size) {
                return Err(ProtoError::ConnectionError(ErrorCode::FlowControlError));
            }
            i = i + 1;
        }
        let ghost c = old(self)@;
        let mut j: usize = 0;
        while j < n
            invariant
                0 <= j <= n,
                n == self.streams.len(),
                n == c.streams.len(),
                c == old(self)@,
                c.wf(),
                all_resizable(c.streams, new_size as nat),
                self@ == (ConnView { streams: self@.streams, ..c }),
                forall|k: int|
                    0 <= k < j ==> (#[trigger] self@.streams[k]) == resize_all(
                        c.streams,
                        new_size as nat,
                    )[k],
                forall|k: int| j <= k < n ==> (#[trigger] self@.streams[k]) == c.streams[k],
                forall|k: int| 0 <= k < n ==> (#[trigger] self@.streams[k]).wf(),
            decreases n - j,
        {
            let ghost before = self@.streams;
            assert(before[j as int] == c.streams[j as int]);
            assert(c.streams[j as int].send.resize(new_size as nat).is_ok());
            let _ = self.streams[j].resize_send(new_size);
            assert(self@.streams =~= before.update(j as int, self@.streams[j as int]));
            assert forall|k: int| 0 <= k < n implies (#[trigger] self@.streams[k]).wf() by {
                if k != j {
                    assert(self@.streams[k] == before[k]);
                }
            }
            j = j + 1;
        }
        self.peer_initial_window = new_size;
        proof {
            let d = ConnView {
                streams: resize_all(c.streams, new_size as nat),
                peer_initial_window: new_size,
                ..c
            };
            assert(self@.streams =~= d.streams);
            assert forall|k: int| 0 <= k < d.streams.len() implies {
                &&& (#[trigger] d.streams[k]).wf()
                &&& d.streams[k].role == d.role
                &&& d.streams[k].state != StreamState::Closed
                &&& d.streams[k].max_frame_size == DEFAULT_MAX_FRAME_SIZE
                &&& d.streams[k].queued.len() == 0
                &&& d.streams[k].pending.len() == 0
                &&& d.streams[k].id <= d.last_id_like(d.streams[k].id)
            } by {
                assert(self@.streams[k].wf());
                assert(c.streams[k].wf());
            }
            assert forall|k: int, l: int| 0 <= k < l < d.streams.len() implies (
            #[trigger] d.streams[k]).id != (#[trigger] d.streams[l]).id by {
                assert(d.streams[k].id == c.streams[k].id);
                assert(d.streams[l].id == c.streams[l].id);
            }
        }
        Ok(())
    }

    /// Applies a new SETTINGS_INITIAL_WINDOW_SIZE of this end; see
    /// `spec_local_window_change`.
    pub fn apply_local_window_change(&mut self, new_size: u32) -> (r: Result<(), ProtoError>)
        requires
            old(self)@.wf(),
        ensures
            final(self)@.wf(),
            (final(self)@, r) == spec_local_window_change(old(self)@, new_size),
    {
        if new_size > MAX_WINDOW {
            return Err(ProtoError::ConnectionError(ErrorCode::FlowControlError));
        }
        let n = self.streams.len();
        let mut i: usize = 0;
        while i < n
            invariant
                0 <= i <= n,
                n == self.streams.len(),
                *self == *old(self),
                self@.wf(),
                forall|k: int|
                    0 <= k < i ==> (#[trigger] self@.streams[k]).recv.resize(
                        new_size as nat,
                    ).is_ok(),
            decreases n - i,
        {
            assert(self@.streams[i as int].wf());
            if !self.streams[i].can_resize_recv(new_size) {
                return Err(ProtoError::ConnectionError(ErrorCode::FlowControlError));
            }
            i = i + 1;
        }
        let ghost c = old(self)@;
        let mut j: usize = 0;
        while j < n
            invariant
                0 <= j <= n,
                n == self.streams.len(),
                n == c.streams.len(),
                c == old(self)@,
                c.wf(),
                all_resizable_recv(c.streams, new_size as nat),
                self@ == (ConnView { streams: self@.streams, ..c }),
                forall|k: int|
                    0 <= k < j ==> (#[trigger] self@.streams[k]) == resize_all_recv(
                        c.streams,
                        new_size as nat,
                    )[k],
                forall|k: int| j <= k < n ==> (#[trigger] self@.streams[k]) == c.streams[k],
                forall|k: int| 0 <= k < n ==> (#[trigger] self@.streams[k]).wf(),
            decreases n - j,
        {
            let ghost before = self@.streams;
            assert(before[j as int] == c.streams[j as int]);
            assert(c.streams[j as int].recv.resize(new_size as nat).is_ok());
            let _ = self.streams[j].resize_recv(new_size);
            assert(self@.streams =~= before.update(j as int, self@.streams[j as int]));
            assert forall|k: int| 0 <= k < n implies (#[trigger] self@.streams[k]).wf() by {
                if k != j {
                    assert(self@.streams[k] == before[k]);
                }
            }
            j = j + 1;
        }
        self.local_initial_window = new_size;
        proof {
            let d = ConnView {
                streams: resize_all_recv(c.streams, new_size as nat),
                local_initial_window: new_size,
                ..c
            };
            assert(self@.streams =~= d.streams);
            assert forall|k: int| 0 <= k < d.streams.len() implies {
                &&& (#[trigger] d.streams[k]).wf()
                &&& d.streams[k].role == d.role
                &&& d.streams[k].state != StreamState::Closed
                &&& d.streams[k].max_frame_size == DEFAULT_MAX_FRAME_SIZE
                &&& d.streams[k].queued.len() == 0
                &&& d.streams[k].pending.len() == 0
                &&& d.streams[k].id <= d.last_id_like(d.streams[k].id)
            } by {
                assert(self@.streams[k].wf());
                assert(c.streams[k].wf());
            }
            assert forall|k: int, l: int| 0 <= k < l < d.streams.len() implies (
            #[trigger] d.streams[k]).id != (#[trigger] d.streams[l]).id by {
                assert(d.streams[k].id == c.streams[k].id);
                assert(d.streams[l].id == c.streams[l].id);
            }
        }
        Ok(())
    }
}

impl Connection {
    /// Remembers a closed stream; see `bury`.
    fn bury(&mut self, t: Tombstone)
        requires
            old(self)@.tombstones.len() <= old(self)@.tombstone_cap,
            1 <= old(self)@.tombstone_cap,
        ensures
            final(self)@ == (ConnView {
                tombstones: bury(old(self)@.tombstones, old(self)@.tombstone_cap, t),
                ..old(self)@
            }),
            final(self)@.tombstones.len() <= final(self)@.tombstone_cap,
    {
        if self.tombstones.len() >= self.tombstone_cap {
            self.tombstones.remove(0);
            assert(self.tombstones@ =~= old(self).tombstones@.skip(1));
        }
        self.tombstones.push(t);
    }

    /// Appends one `StreamClosed` for each stream to `events`, empties the
    /// table and closes the connection; see `shutdown`.
    fn shutdown(&mut self, code: ErrorCode, events: &mut Vec<ConnEvent>)
        requires
            old(self)@.wf(),
        ensures
            final(self)@.wf(),
            final(self)@ == shutdown(old(self)@, code).0,
            final(events)@ == old(events)@ + shutdown(old(self)@, code).1,
    {
        let ghost c = old(self)@;
        let n = self.streams.len();
        let mut i: usize = 0;
        while i < n
            invariant
                0 <= i <= n,
                n == self.streams.len(),
                *self == *old(self),
                c == self@,
                events@ == old(events)@ + closing_events(c.streams, code).subrange(0, i as int),
            decreases n - i,
        {
            let id = self.streams[i].id();
            events.push(ConnEvent::StreamClosed { id, reason: CloseReason::Error(code) });
            assert(events@ =~= old(events)@ + closing_events(c.streams, code).subrange(
                0,
                i as int + 1,
            ));
            i = i + 1;
        }
        events.push(ConnEvent::ConnectionClosed { reason: code });
        self.streams = Vec::new();
        self.state = ConnectionState::Closed;
        proof {
            assert(closing_events(c.streams, code).subrange(0, n as int) =~= closing_events(
                c.streams,
                code,
            ));
            assert(events@ =~= old(events)@ + shutdown(c, code).1);
            assert(self@.streams =~= Seq::<StreamView>::empty());
        }
    }

    /// A connection error; see `fail_connection`.
    fn fail(&mut self, code: ErrorCode, events: &mut Vec<ConnEvent>)
        requires
            old(self)@.wf(),
        ensures
            final(self)@.wf(),
            final(self)@ == fail_connection(old(self)@, code).0,
            final(events)@ == old(events)@ + fail_connection(old(self)@, code).1,
    {
        events.push(ConnEvent::SendGoAway { last_id: self.last_peer_id, code });
        let ghost mid = events@;
        self.shutdown(code, events);
        assert(events@ =~= old(events)@ + fail_connection(old(self)@, code).1);
    }

    /// Takes the stream at `i` out of the table and remembers it; see
    /// `retire`. The stream itself may be closed already.
    fn retire(&mut self, i: usize, reason: CloseReason)
        requires
            i < old(self)@.streams.len(),
            old(self)@.tombstones.len() <= old(self)@.tombstone_cap,
            1 <= old(self)@.tombstone_cap,
        ensures
            final(self)@ == retire(old(self)@, i as int, reason),
    {
        let id = self.streams[i].id();
        let _ = self.streams.remove(i);
        assert(self@.streams =~= old(self)@.streams.remove(i as int));
        self.bury(Tombstone { id, reason });
    }
}

/// Whether the peer is the one to open the stream `id`.
pub fn is_peer_initiated(role: Role, id: u32) -> (r: bool)
    ensures
        r == peer_initiated(role, id),
{
    match role {
        Role::Server => id % 2 == 1,
        Role::Client => id % 2 == 0,
    }
}

/// The other end's role.
pub fn peer_role(role: Role) -> (r: Role)
    ensures
        r == peer_of(role),
{
    match role {
        Role::Client => Role::Server,
        Role::Server => Role::Client,
    }
}

impl Connection {
    /// Takes a new stream into the table, idle or reserved by the promise
    /// `promise`; see `enter_stream`.
    fn take_up(&mut self, id: u32, promise: Option<StreamEvent>) -> (ok: bool)
        requires
            old(self)@.wf(),
            old(self)@.state != ConnectionState::Closed,
            id > old(self)@.last_id_like(id),
            id <= MAX_STREAM_ID,
            promise.is_some() ==> next_state(
                old(self)@.role,
                StreamState::Idle,
                promise.unwrap(),
            ).is_some(),
        ensures
            ok,
            final(self)@.wf(),
            final(self)@ == enter_stream(
                old(self)@,
                new_stream(old(self)@, id, entry_state(old(self)@.role, promise)),
            ),
            final(self)@.find(id) == Some(old(self)@.streams.len() as int),
    {
        let ghost c = self@;
        let ghost state = entry_state(c.role, promise);
        proof {
            if promise.is_some() {
                lemma_closed_is_terminal(c.role, promise.unwrap());
            }
            lemma_enter_wf(c, id, state);
        }
        match Stream::with_id(
            self.role,
            id,
            self.peer_initial_window,
            self.local_initial_window,
            DEFAULT_MAX_FRAME_SIZE,
        ) {
            None => false,
            Some(mut s) => {
                if let Some(e) = promise {
                    let _ = s.apply(e);
                }
                assert(s@ == new_stream(c, id, state));
                self.streams.push(s);
                if is_peer_initiated(self.role, id) {
                    self.last_peer_id = id;
                } else {
                    self.last_local_id = id;
                }
                assert(self@.streams =~= c.streams.push(new_stream(c, id, state)));
                true
            },
        }
    }

    /// A PUSH_PROMISE that its stream has accepted; see `on_promise`.
    fn on_promise(&mut self, f: &Frame, events: &mut Vec<ConnEvent>)
        requires
            old(self)@.wf(),
            old(self)@.state != ConnectionState::Closed,
            old(self)@.role == Role::Client,
        ensures
            final(self)@.wf(),
            final(self)@ == on_promise(old(self)@, f@).0,
            final(events)@ == old(events)@ + on_promise(old(self)@, f@).1,
    {
        if f.payload.len() < 4 {
            self.fail(ErrorCode::FrameSizeError, events);
            return ;
        }
        let p = read_be31(f.payload.as_slice(), 0);
        if !is_peer_initiated(self.role, p) || p <= self.last_peer_id {
            self.fail(ErrorCode::ProtocolError, events);
            return ;
        }
        match self.state {
            ConnectionState::Open => {
                let _ = self.take_up(p, Some(StreamEvent::PushPromiseRecv));
                self.block = Self::handed(self.block, f);
                events.push(ConnEvent::StreamOpened { id: p, initiator: peer_role(self.role) });
                assert(events@ =~= old(events)@ + on_promise(old(self)@, f@).1);
            },
            _ => {
                events.push(ConnEvent::SendRstStream { id: p, code: ErrorCode::RefusedStream });
                assert(events@ =~= old(events)@ + on_promise(old(self)@, f@).1);
            },
        }
    }

    /// The header block that the application is being handed after `f`;
    /// see `block_handed`.
    fn handed(block: Option<u32>, f: &Frame) -> (r: Option<u32>)
        ensures
            r == block_handed(block, f@),
    {
        let ends = f.has_flag(FLAG_END_HEADERS);
        match f.frame_type {
            FrameType::Headers | FrameType::PushPromise => if ends {
                None
            } else {
                Some(f.stream_id)
            },
            FrameType::Continuation => match block {
                Some(id) => if id == f.stream_id && ends {
                    None
                } else {
                    block
                },
                None => block,
            },
            _ => block,
        }
    }

    /// Appends what the application hears of a frame that a stream has
    /// taken; see `arrival_events`.
    fn note_arrival(block: Option<u32>, f: &Frame, events: &mut Vec<ConnEvent>)
        requires
            f@.wf(),
        ensures
            final(events)@ == old(events)@ + arrival_events(block, f@),
    {
        let end_stream = f.has_flag(FLAG_END_STREAM);
        let end_headers = f.has_flag(FLAG_END_HEADERS);
        match f.frame_type {
            FrameType::Data => {
                events.push(
                    ConnEvent::Data { id: f.stream_id, len: f.payload.len() as u32, end_stream },
                );
            },
            FrameType::Headers => {
                events.push(ConnEvent::Headers { id: f.stream_id, end_stream, end_headers });
            },
            FrameType::Continuation => {
                let continues = match block {
                    Some(id) => id == f.stream_id,
                    None => false,
                };
                if continues {
                    events.push(ConnEvent::Continuation { id: f.stream_id, end_headers });
                }
            },
            _ => {},
        }
        assert(events@ =~= old(events)@ + arrival_events(block, f@));
    }

    /// Why the stream is closed that the frame closed; see `close_reason`.
    fn reason_of(f: &Frame) -> (r: CloseReason)
        ensures
            r == close_reason(f@),
    {
        match f.frame_type {
            FrameType::RstStream => if f.payload.len() >= 4 {
                CloseReason::Reset(ErrorCode::from_code(read_be32(f.payload.as_slice(), 0)))
            } else {
                CloseReason::Normal
            },
            _ => CloseReason::Normal,
        }
    }

    /// A frame for the stream at `i` of the table; see `on_stream_frame`.
    fn on_stream_frame(&mut self, i: usize, f: &Frame, events: &mut Vec<ConnEvent>)
        requires
            old(self)@.wf(),
            old(self)@.state != ConnectionState::Closed,
            f@.wf(),
            i < old(self)@.streams.len(),
            old(self)@.streams[i as int].id == f@.stream_id,
        ensures
            final(self)@.wf(),
            final(self)@ == on_stream_frame(old(self)@, i as int, f@).0,
            final(events)@ == old(events)@ + on_stream_frame(old(self)@, i as int, f@).1,
    {
        let ghost c = self@;
        let is_data = match f.frame_type {
            FrameType::Data => true,
            _ => false,
        };
        let len: u32 = f.payload.len() as u32;
        if is_data && !self.recv_window.covers(len) {
            self.fail(ErrorCode::FlowControlError, events);
            return ;
        }
        assert(c.streams[i as int].wf());
        let r = self.streams[i].recv(f);
        let ghost s = self@.streams[i as int];
        assert(self@.streams =~= c.streams.update(i as int, s));
        match r {
            Err(ProtoError::StreamError(code)) => {
                assert(self@.streams =~= c.streams);
                events.push(ConnEvent::SendRstStream { id: f.stream_id, code });
                events.push(
                    ConnEvent::StreamClosed { id: f.stream_id, reason: CloseReason::Error(code) },
                );
                self.retire(i, CloseReason::Error(code));
                proof {
                    lemma_retire_wf(c, i as int, CloseReason::Error(code));
                    assert(events@ =~= old(events)@ + fail_stream(c, i as int, code).1);
                }
            },
            Err(ProtoError::ConnectionError(code)) => {
                assert(self@.streams =~= c.streams);
                self.fail(code, events);
            },
            Err(_) => {
                assert(self@.streams =~= c.streams);
                self.fail(ErrorCode::InternalError, events);
            },
            Ok(Http2Event::PushPromise) => {
                assert(self@.streams =~= c.streams);
                self.on_promise(f, events);
            },
            Ok(_) => {
                if is_data {
                    self.recv_window.take(len);
                }
                Self::note_arrival(self.block, f, events);
                self.block = Self::handed(self.block, f);
                let ghost d = ConnView { streams: c.streams, ..self@ };
                if self.streams[i].state().is_closed() {
                    let reason = Self::reason_of(f);
                    events.push(ConnEvent::StreamClosed { id: f.stream_id, reason });
                    self.retire(i, reason);
                    proof {
                        lemma_retire_wf(d, i as int, reason);
                        assert(self@.streams =~= d.streams.remove(i as int));
                        assert(events@ =~= old(events)@ + arrival_events(c.block, f@).push(
                            ConnEvent::StreamClosed { id: f@.stream_id, reason },
                        ));
                    }
                } else {
                    proof {
                        lemma_update_keeps_wf(d, i as int, s);
                    }
                }
            },
        }
    }

    /// A frame for a stream that is not in the table; see
    /// `on_unknown_stream`.
    fn on_unknown_stream(&mut self, f: &Frame, events: &mut Vec<ConnEvent>)
        requires
            old(self)@.wf(),
            old(self)@.state != ConnectionState::Closed,
            f@.wf(),
            old(self)@.find(f@.stream_id).is_none(),
        ensures
            final(self)@.wf(),
            final(self)@ == on_unknown_stream(old(self)@, f@).0,
            final(events)@ == old(events)@ + on_unknown_stream(old(self)@, f@).1,
    {
        let ghost c = self@;
        let id = f.stream_id;
        if self.tombstone(id).is_some() {
            let continues = match (f.frame_type, self.block) {
                (FrameType::Continuation, Some(b)) => b == id,
                _ => false,
            };
            if continues {
                Self::note_arrival(self.block, f, events);
                self.block = Self::handed(self.block, f);
                return ;
            }
            match f.frame_type {
                FrameType::Data
                | FrameType::Headers
                | FrameType::PushPromise
                | FrameType::Continuation => {
                    events.push(ConnEvent::SendRstStream { id, code: ErrorCode::StreamClosed });
                    assert(events@ =~= old(events)@ + on_unknown_stream(c, f@).1);
                },
                _ => {
                    assert(events@ =~= old(events)@ + on_unknown_stream(c, f@).1);
                },
            }
            return ;
        }
        let peer = is_peer_initiated(self.role, id);
        let last = if peer {
            self.last_peer_id
        } else {
            self.last_local_id
        };
        let client = match self.role {
            Role::Client => true,
            Role::Server => false,
        };
        if id <= last || !peer || client {
            self.fail(ErrorCode::ProtocolError, events);
            return ;
        }
        match f.frame_type {
            FrameType::Priority => {
                assert(events@ =~= old(events)@ + on_unknown_stream(c, f@).1);
            },
            FrameType::Headers => {
                match self.state {
                    ConnectionState::Open => {
                        let n = self.streams.len();
                        let _ = self.take_up(id, None);
                        events.push(
                            ConnEvent::StreamOpened { id, initiator: peer_role(self.role) },
                        );
                        let ghost d = self@;
                        let ghost mid = events@;
                        proof {
                            lemma_position(stream_ids(d.streams), id, 0);
                        }
                        self.on_stream_frame(n, f, events);
                        assert(events@ =~= old(events)@ + on_unknown_stream(c, f@).1);
                    },
                    _ => {
                        events.push(ConnEvent::SendRstStream { id, code: ErrorCode::RefusedStream });
                        assert(events@ =~= old(events)@ + on_unknown_stream(c, f@).1);
                    },
                }
            },
            _ => {
                self.fail(ErrorCode::ProtocolError, events);
            },
        }
    }
}

impl Connection {
    /// Applies one event of the handshake. An event that has no place in
    /// it is a protocol error of the connection, and changes nothing.
    pub fn handshake(&mut self, event: StreamEvent) -> (r: Result<ConnectionState, ProtoError>)
        requires
            old(self)@.wf(),
        ensures
            final(self)@.wf(),
            match handshake_next(old(self)@.role, old(self)@.state, event) {
                Some(st) => r == Ok::<ConnectionState, ProtoError>(st) && final(self)@ == (
                ConnView { state: st, ..old(self)@ }),
                None => r == Err::<ConnectionState, ProtoError>(
                    ProtoError::ConnectionError(ErrorCode::ProtocolError),
                ) && final(self)@ == old(self)@,
            },
    {
        let next = match (self.role, self.state, event) {
            (Role::Client, ConnectionState::Init, StreamEvent::PrefaceSend) => Some(
                ConnectionState::Awaiting,
            ),
            (Role::Client, ConnectionState::Awaiting, StreamEvent::SettingsRecv) => Some(
                ConnectionState::Open,
            ),
            (Role::Server, ConnectionState::Init, StreamEvent::PrefaceRecv) => Some(
                ConnectionState::Awaiting,
            ),
            (Role::Server, ConnectionState::Awaiting, StreamEvent::SettingsSend) => Some(
                ConnectionState::Open,
            ),
            _ => None,
        };
        match next {
            Some(st) => {
                self.state = st;
                Ok(st)
            },
            None => Err(ProtoError::ConnectionError(ErrorCode::ProtocolError)),
        }
    }

    /// One setting of the peer; see `apply_setting`.
    fn apply_setting(&mut self, key: u32, value: u32) -> (r: Option<ErrorCode>)
        requires
            old(self)@.wf(),
        ensures
            final(self)@.wf(),
            (final(self)@, r) == apply_setting(old(self)@, key as nat, value),
    {
        if key == SETTINGS_ENABLE_PUSH {
            if value > 1 {
                Some(ErrorCode::ProtocolError)
            } else {
                None
            }
        } else if key == SETTINGS_INITIAL_WINDOW_SIZE {
            match self.apply_initial_window_change(value) {
                Ok(()) => None,
                Err(_) => Some(ErrorCode::FlowControlError),
            }
        } else if key == SETTINGS_MAX_FRAME_SIZE {
            if value < DEFAULT_MAX_FRAME_SIZE || value > MAX_PAYLOAD_LEN {
                Some(ErrorCode::ProtocolError)
            } else {
                self.peer_max_frame_size = value;
                None
            }
        } else {
            None
        }
    }

    /// The settings of a SETTINGS payload; see `apply_settings`.
    fn apply_settings(&mut self, payload: &[u8]) -> (r: Option<ErrorCode>)
        requires
            old(self)@.wf(),
        ensures
            final(self)@.wf(),
            (final(self)@, r) == apply_settings(old(self)@, payload@),
    {
        let n = payload.len();
        let mut at: usize = 0;
        assert(payload@.skip(0) =~= payload@);
        while n - at >= 6
            invariant
                0 <= at <= n,
                n == payload@.len(),
                self@.wf(),
                apply_settings(old(self)@, payload@) == apply_settings(
                    self@,
                    payload@.skip(at as int),
                ),
            decreases n - at,
        {
            let ghost rest = payload@.skip(at as int);
            let key: u32 = (payload[at] as u32) * 256 + (payload[at + 1] as u32);
            let value = read_be32(payload, at + 2);
            assert(rest[0] == payload@[at as int] && rest[1] == payload@[at as int + 1]);
            assert(spec_be32(rest, 2) == spec_be32(payload@, at as int + 2));
            assert(rest.skip(6) =~= payload@.skip(at as int + 6));
            match self.apply_setting(key, value) {
                Some(e) => {
                    return Some(e);
                },
                None => {},
            }
            at = at + 6;
        }
        None
    }

    /// A frame for the connection itself; see `on_connection_frame`.
    fn on_connection_frame(&mut self, f: &Frame, events: &mut Vec<ConnEvent>)
        requires
            old(self)@.wf(),
            old(self)@.state != ConnectionState::Closed,
            f@.wf(),
        ensures
            final(self)@.wf(),
            final(self)@ == on_connection_frame(old(self)@, f@).0,
            final(events)@ == old(events)@ + on_connection_frame(old(self)@, f@).1,
    {
        let ghost c = self@;
        let ack = f.has_flag(FLAG_ACK);
        let len = f.payload.len();
        match f.frame_type {
            FrameType::Settings => {
                if ack {
                    if len != 0 {
                        self.fail(ErrorCode::FrameSizeError, events);
                    } else {
                        assert(events@ =~= old(events)@ + on_connection_frame(c, f@).1);
                    }
                } else if len % 6 != 0 {
                    self.fail(ErrorCode::FrameSizeError, events);
                } else {
                    match self.apply_settings(f.payload.as_slice()) {
                        Some(code) => {
                            self.fail(code, events);
                        },
                        None => {
                            let ghost d = self@;
                            let client = match self.role {
                                Role::Client => true,
                                Role::Server => false,
                            };
                            let awaiting = match self.state {
                                ConnectionState::Awaiting => true,
                                _ => false,
                            };
                            if client && awaiting {
                                self.state = ConnectionState::Open;
                            }
                            events.push(ConnEvent::SendSettingsAck);
                            assert(events@ =~= old(events)@ + on_connection_frame(c, f@).1);
                        },
                    }
                }
            },
            FrameType::Ping => {
                if len != 8 {
                    self.fail(ErrorCode::FrameSizeError, events);
                } else if ack {
                    assert(events@ =~= old(events)@ + on_connection_frame(c, f@).1);
                } else {
                    events.push(ConnEvent::SendPingAck);
                    assert(events@ =~= old(events)@ + on_connection_frame(c, f@).1);
                }
            },
            FrameType::GoAway => {
                if len < 8 {
                    self.fail(ErrorCode::FrameSizeError, events);
                } else {
                    match self.state {
                        ConnectionState::GoingAway => {
                            let code = ErrorCode::from_code(read_be32(f.payload.as_slice(), 4));
                            self.shutdown(code, events);
                        },
                        _ => {
                            self.state = ConnectionState::GoingAway;
                            assert(events@ =~= old(events)@ + on_connection_frame(c, f@).1);
                        },
                    }
                }
            },
            FrameType::WindowUpdate => {
                if len != 4 {
                    self.fail(ErrorCode::FrameSizeError, events);
                } else {
                    let increment = read_be31(f.payload.as_slice(), 0);
                    match self.send_window.grant(increment) {
                        Ok(()) => {
                            assert(events@ =~= old(events)@ + on_connection_frame(c, f@).1);
                        },
                        Err(e) => {
                            self.fail(e, events);
                        },
                    }
                }
            },
            _ => {
                self.fail(ErrorCode::ProtocolError, events);
            },
        }
    }

    /// Takes in one frame from the peer and returns, in order, what the
    /// application is to hear of it and what is to be sent in answer.
    pub fn recv_frame(&mut self, f: &Frame) -> (events: Vec<ConnEvent>)
        requires
            old(self)@.wf(),
            f@.wf(),
        ensures
            final(self)@.wf(),
            (final(self)@, events@) == spec_on_frame(old(self)@, f@),
    {
        let mut events: Vec<ConnEvent> = Vec::new();
        let ghost c = self@;
        let settings = match f.frame_type {
            FrameType::Settings => true,
            _ => false,
        };
        match self.state {
            ConnectionState::Closed => {
                return events;
            },
            ConnectionState::Init => {
                self.fail(ErrorCode::ProtocolError, &mut events);
                assert(events@ =~= spec_on_frame(c, f@).1);
                return events;
            },
            ConnectionState::Awaiting => {
                if !(f.stream_id == 0 && settings && !f.has_flag(FLAG_ACK)) {
                    self.fail(ErrorCode::ProtocolError, &mut events);
                    assert(events@ =~= spec_on_frame(c, f@).1);
                    return events;
                }
            },
            _ => {},
        }
        if f.stream_id == 0 {
            self.on_connection_frame(f, &mut events);
        } else {
            match f.frame_type {
                FrameType::Settings | FrameType::Ping | FrameType::GoAway => {
                    self.fail(ErrorCode::ProtocolError, &mut events);
                },
                _ => {
                    match self.find(f.stream_id) {
                        Some(i) => {
                            self.on_stream_frame(i, f, &mut events);
                        },
                        None => {
                            self.on_unknown_stream(f, &mut events);
                        },
                    }
                },
            }
        }
        assert(events@ =~= spec_on_frame(c, f@).1);
        events
    }
}

impl Connection {
    /// The identifier of the next stream that this end opens, if one is
    /// left.
    fn next_id(&self) -> (r: Option<u32>)
        requires
            self@.wf(),
        ensures
            r.is_some() == (next_local_id(self@) <= MAX_STREAM_ID),
            r.is_some() ==> r.unwrap() == next_local_id(self@) && r.unwrap() > self@.last_id_like(
                r.unwrap(),
            ),
    {
        let client = match self.role {
            Role::Client => true,
            Role::Server => false,
        };
        if self.last_local_id == 0 && client {
            Some(1)
        } else if self.last_local_id > MAX_STREAM_ID - 2 {
            None
        } else {
            Some(self.last_local_id + 2)
        }
    }

    /// Opens a stream of this end; see `spec_open_stream`.
    pub fn open_stream(&mut self) -> (r: Result<u32, ProtoError>)
        requires
            old(self)@.wf(),
        ensures
            final(self)@.wf(),
            (final(self)@, r) == spec_open_stream(old(self)@),
    {
        match self.state {
            ConnectionState::Open => {},
            _ => {
                return Err(ProtoError::StreamError(ErrorCode::RefusedStream));
            },
        }
        match self.role {
            Role::Client => {},
            Role::Server => {
                return Err(ProtoError::StreamError(ErrorCode::ProtocolError));
            },
        }
        match self.next_id() {
            None => Err(ProtoError::ConnectionError(ErrorCode::ProtocolError)),
            Some(id) => {
                let _ = self.take_up(id, None);
                Ok(id)
            },
        }
    }

    /// Promises a stream on the stream `parent`; see `spec_promise`.
    /// Returns the new stream's identifier and the bytes of the
    /// PUSH_PROMISE frame.
    pub fn promise(&mut self, parent: u32, block: &[u8]) -> (r: Result<(u32, Vec<u8>), ProtoError>)
        requires
            old(self)@.wf(),
        ensures
            final(self)@.wf(),
            final(self)@ == spec_promise(old(self)@, parent, block@).0,
            match spec_promise(old(self)@, parent, block@).1 {
                Ok((id, bytes)) => r.is_ok() && r.unwrap().0 == id && r.unwrap().1@ == bytes,
                Err(e) => r.is_err() && r.unwrap_err() == e,
            },
    {
        let ghost c = self@;
        match self.state {
            ConnectionState::Open => {},
            _ => {
                return Err(ProtoError::StreamError(ErrorCode::RefusedStream));
            },
        }
        match self.role {
            Role::Server => {},
            Role::Client => {
                return Err(ProtoError::StreamError(ErrorCode::ProtocolError));
            },
        }
        let id = match self.next_id() {
            None => {
                return Err(ProtoError::ConnectionError(ErrorCode::ProtocolError));
            },
            Some(id) => id,
        };
        if block.len() > self.peer_max_frame_size as usize - 4 {
            return Err(ProtoError::StreamError(ErrorCode::FrameSizeError));
        }
        match self.find(parent) {
            None => Err(ProtoError::StreamError(ErrorCode::StreamClosed)),
            Some(i) => {
                let mut payload: Vec<u8> = Vec::new();
                put_be32(&mut payload, id);
                payload.extend_from_slice(block);
                assert(payload@ =~= spec_be32_bytes(id) + block@);
                assert(c.streams[i as int].wf());
                let r = self.streams[i].emit(Http2Event::PushPromise, payload.as_slice());
                assert(self@.streams =~= c.streams);
                match r {
                    Err(e) => Err(e),
                    Ok(bytes) => {
                        let _ = self.take_up(id, Some(StreamEvent::PushPromiseSend));
                        Ok((id, bytes))
                    },
                }
            },
        }
    }

    /// Sends a frame on a stream; see `spec_send`. Returns the frame's
    /// bytes, and the closing of the stream where the frame closed it.
    pub fn send(&mut self, id: u32, event: Http2Event, payload: &[u8]) -> (r: Result<
        (Vec<u8>, Option<ConnEvent>),
        ProtoError,
    >)
        requires
            old(self)@.wf(),
        ensures
            final(self)@.wf(),
            final(self)@ == spec_send(old(self)@, id, event, payload@).0,
            match spec_send(old(self)@, id, event, payload@).1 {
                Ok((bytes, closed)) => r.is_ok() && r.unwrap().0@ == bytes && r.unwrap().1
                    == closed,
                Err(e) => r.is_err() && r.unwrap_err() == e,
            },
    {
        let ghost c = self@;
        match self.state {
            ConnectionState::Open | ConnectionState::GoingAway => {},
            _ => {
                return Err(ProtoError::StreamError(ErrorCode::RefusedStream));
            },
        }
        if payload.len() > self.peer_max_frame_size as usize {
            return Err(ProtoError::StreamError(ErrorCode::FrameSizeError));
        }
        let data = match event {
            Http2Event::Data | Http2Event::EndStream => true,
            Http2Event::PushPromise => {
                return Err(ProtoError::StreamError(ErrorCode::ProtocolError));
            },
            _ => false,
        };
        let len: u32 = payload.len() as u32;
        match self.find(id) {
            None => Err(ProtoError::StreamError(ErrorCode::StreamClosed)),
            Some(i) => {
                if data && !self.send_window.covers(len) {
                    return Err(ProtoError::WouldBlock);
                }
                assert(c.streams[i as int].wf());
                let r = self.streams[i].emit(event, payload);
                let ghost s = self@.streams[i as int];
                assert(self@.streams =~= c.streams.update(i as int, s));
                match r {
                    Err(e) => {
                        assert(self@.streams =~= c.streams);
                        Err(e)
                    },
                    Ok(bytes) => {
                        if data {
                            self.send_window.take(len);
                        }
                        let ghost d = ConnView { streams: c.streams, ..self@ };
                        if self.streams[i].state().is_closed() {
                            self.retire(i, CloseReason::Normal);
                            proof {
                                lemma_retire_wf(d, i as int, CloseReason::Normal);
                                assert(self@.streams =~= d.streams.remove(i as int));
                            }
                            Ok(
                                (
                                    bytes,
                                    Some(
                                        ConnEvent::StreamClosed { id, reason: CloseReason::Normal },
                                    ),
                                ),
                            )
                        } else {
                            proof {
                                lemma_update_keeps_wf(d, i as int, s);
                            }
                            Ok((bytes, None))
                        }
                    },
                }
            },
        }
    }

    /// Cancels a stream; see `spec_reset`. Returns the bytes of the
    /// RST_STREAM frame and the closing of the stream.
    pub fn reset_stream(&mut self, id: u32, code: ErrorCode) -> (r: Result<
        (Vec<u8>, ConnEvent),
        ProtoError,
    >)
        requires
            old(self)@.wf(),
        ensures
            final(self)@.wf(),
            final(self)@ == spec_reset(old(self)@, id, code).0,
            match spec_reset(old(self)@, id, code).1 {
                Ok((bytes, closed)) => r.is_ok() && r.unwrap().0@ == bytes && r.unwrap().1
                    == closed,
                Err(e) => r.is_err() && r.unwrap_err() == e,
            },
    {
        let ghost c = self@;
        match self.find(id) {
            None => Err(ProtoError::StreamError(ErrorCode::StreamClosed)),
            Some(i) => {
                assert(c.streams[i as int].wf());
                if !self.streams[i].state().is_live() {
                    return Err(ProtoError::StreamError(ErrorCode::ProtocolError));
                }
                match rst_stream_frame(id, code) {
                    None => Err(ProtoError::StreamError(ErrorCode::ProtocolError)),
                    Some(bytes) => {
                        self.retire(i, CloseReason::Error(code));
                        proof {
                            lemma_retire_wf(c, i as int, CloseReason::Error(code));
                        }
                        Ok(
                            (
                                bytes,
                                ConnEvent::StreamClosed { id, reason: CloseReason::Error(code) },
                            ),
                        )
                    },
                }
            },
        }
    }

    /// Sends a GOAWAY; see `spec_go_away_sent`. Returns the bytes of the
    /// frame, if one goes out, and what the application is to hear.
    pub fn go_away(&mut self, code: ErrorCode) -> (r: (Option<Vec<u8>>, Vec<ConnEvent>))
        requires
            old(self)@.wf(),
        ensures
            final(self)@.wf(),
            final(self)@ == spec_go_away_sent(old(self)@, code).0,
            match spec_go_away_sent(old(self)@, code).1 {
                Some(bytes) => r.0.is_some() && r.0.unwrap()@ == bytes,
                None => r.0.is_none(),
            },
            r.1@ == spec_go_away_sent(old(self)@, code).2,
    {
        let mut events: Vec<ConnEvent> = Vec::new();
        match self.state {
            ConnectionState::Closed => (None, events),
            ConnectionState::GoingAway => {
                let bytes = go_away_frame(self.last_peer_id, code);
                self.shutdown(code, &mut events);
                assert(events@ =~= shutdown(old(self)@, code).1);
                (bytes, events)
            },
            _ => {
                let bytes = go_away_frame(self.last_peer_id, code);
                self.state = ConnectionState::GoingAway;
                (bytes, events)
            },
        }
    }

    /// Fails the connection with `code`; see `spec_connection_error`.
    /// Returns what is to be sent and what the application is to hear.
    pub fn connection_error(&mut self, code: ErrorCode) -> (events: Vec<ConnEvent>)
        requires
            old(self)@.wf(),
        ensures
            final(self)@.wf(),
            (final(self)@, events@) == spec_connection_error(old(self)@, code),
    {
        let mut events: Vec<ConnEvent> = Vec::new();
        match self.state {
            ConnectionState::Closed => {},
            _ => {
                self.fail(code, &mut events);
                assert(events@ =~= fail_connection(old(self)@, code).1);
            },
        }
        events
    }

    /// Gives the connection up; see `spec_abort`.
    pub fn abort(&mut self, code: ErrorCode) -> (events: Vec<ConnEvent>)
        requires
            old(self)@.wf(),
        ensures
            final(self)@.wf(),
            (final(self)@, events@) == spec_abort(old(self)@, code),
    {
        let mut events: Vec<ConnEvent> = Vec::new();
        match self.state {
            ConnectionState::Closed => {},
            _ => {
                self.shutdown(code, &mut events);
                assert(events@ =~= shutdown(old(self)@, code).1);
            },
        }
        events
    }
}

} // verus!
