//! The life cycle of one stream (RFC 7540, section 5.1, figure 2) as a pure
//! function of the endpoint's role, the current state and an event.

use vstd::prelude::*;

verus! {

/// Which end of the connection this engine is.
#[derive(Clone, Copy, Debug, PartialEq, Eq, Structural)]
pub enum Role {
    Client,
    Server,
}

/// The states of a stream. `Init` is where a stream stands before the
/// connection preface has completed; `Closed` is terminal.
#[derive(Clone, Copy, Debug, PartialEq, Eq, Structural)]
pub enum StreamState {
    Init,
    Idle,
    ReservedLocal,
    ReservedRemote,
    Open,
    HalfClosedLocal,
    HalfClosedRemote,
    Closed,
}

/// Everything that can happen to a stream or to the connection handshake.
#[derive(Clone, Copy, Debug, PartialEq, Eq, Structural)]
pub enum StreamEvent {
    PrefaceSend,
    PrefaceRecv,
    Idle,
    SettingsRecv,
    SettingsSend,
    HeaderSend,
    HeaderRecv,
    PushPromiseSend,
    PushPromiseRecv,
    DataSend,
    DataRecv,
    EndStreamSend,
    EndStreamRecv,
    ResetSend,
    ResetRecv,
}

/// An event arrived that the current state has no transition for.
#[derive(Clone, Copy, Debug, PartialEq, Eq, Structural)]
pub struct IllegalTransition {
    pub state: StreamState,
    pub event: StreamEvent,
}

impl StreamState {
    /// A stream that can still be reset: reserved, open or half closed.
    pub open spec fn spec_is_live(self) -> bool {
        self == StreamState::ReservedLocal || self == StreamState::ReservedRemote || self
            == StreamState::Open || self == StreamState::HalfClosedLocal || self
            == StreamState::HalfClosedRemote
    }

    pub fn is_live(self) -> (r: bool)
        ensures
            r == self.spec_is_live(),
    {
        match self {
            StreamState::ReservedLocal
            | StreamState::ReservedRemote
            | StreamState::Open
            | StreamState::HalfClosedLocal
            | StreamState::HalfClosedRemote => true,
            _ => false,
        }
    }

    pub open spec fn spec_is_closed(self) -> bool {
        self == StreamState::Closed
    }

    pub fn is_closed(self) -> (r: bool)
        ensures
            r == self.spec_is_closed(),
    {
        match self {
            StreamState::Closed => true,
            _ => false,
        }
    }
}

/// The transition table. `None` where the state has no transition for the
/// event: every event that has no row here is illegal where it arrives.
///
/// Both roles share the table but for the push promise: a client can only
/// receive one (the promised stream becomes reserved by the remote end), a
/// server can only send one (the promised stream becomes reserved locally).
/// Headers have a row in `Idle` only, where they open the stream. The
/// handshake events (preface, settings) belong to the connection and move
/// no stream.
///
/// DATA is read as an event of its own that moves no stream: it leaves the
/// state as it is, and is legal exactly while the direction it travels in
/// is open (`Open` in both directions, `HalfClosedRemote` for sending,
/// `HalfClosedLocal` for receiving). So DATA on an idle stream is an
/// illegal transition. These four rows apart, a row either opens, reserves,
/// half closes or closes a stream.
pub open spec fn next_state(role: Role, state: StreamState, event: StreamEvent) -> Option<
    StreamState,
> {
    match (state, event) {
        (StreamState::Init, StreamEvent::Idle) => Some(StreamState::Idle),
        (StreamState::Idle, StreamEvent::HeaderSend) => Some(StreamState::Open),
        (StreamState::Idle, StreamEvent::HeaderRecv) => Some(StreamState::Open),
        (StreamState::Idle, StreamEvent::PushPromiseRecv) => if role == Role::Client {
            Some(StreamState::ReservedRemote)
        } else {
            None
        },
        (StreamState::Idle, StreamEvent::PushPromiseSend) => if role == Role::Server {
            Some(StreamState::ReservedLocal)
        } else {
            None
        },
        (StreamState::Open, StreamEvent::DataSend) => Some(StreamState::Open),
        (StreamState::Open, StreamEvent::DataRecv) => Some(StreamState::Open),
        (StreamState::HalfClosedRemote, StreamEvent::DataSend) => Some(
            StreamState::HalfClosedRemote,
        ),
        (StreamState::HalfClosedLocal, StreamEvent::DataRecv) => Some(
            StreamState::HalfClosedLocal,
        ),
        (StreamState::Open, StreamEvent::EndStreamSend) => Some(StreamState::HalfClosedLocal),
        (StreamState::Open, StreamEvent::EndStreamRecv) => Some(StreamState::HalfClosedRemote),
        (StreamState::HalfClosedLocal, StreamEvent::EndStreamRecv) => Some(StreamState::Closed),
        (StreamState::HalfClosedRemote, StreamEvent::EndStreamSend) => Some(StreamState::Closed),
        (s, StreamEvent::ResetSend) => if s.spec_is_live() {
            Some(StreamState::Closed)
        } else {
            None
        },
        (s, StreamEvent::ResetRecv) => if s.spec_is_live() {
            Some(StreamState::Closed)
        } else {
            None
        },
        _ => None,
    }
}

/// The state that a sequence of events leads to, or `None` as soon as one
/// of them is illegal where it arrives.
pub open spec fn run(role: Role, state: StreamState, events: Seq<StreamEvent>) -> Option<
    StreamState,
>
    decreases events.len(),
{
    if events.len() == 0 {
        Some(state)
    } else {
        match next_state(role, state, events[0]) {
            Some(s) => run(role, s, events.subrange(1, events.len() as int)),
            None => None,
        }
    }
}

/// Applies one event to a stream's state: the next state where the table
/// has a transition, `IllegalTransition` with the state and the event
/// where it has none.
pub fn advance(role: Role, state: StreamState, event: StreamEvent) -> (r: Result<
    StreamState,
    IllegalTransition,
>)
    ensures
        r == match next_state(role, state, event) {
            Some(s) => Ok::<StreamState, IllegalTransition>(s),
            None => Err::<StreamState, IllegalTransition>(IllegalTransition { state, event }),
        },
{
    let illegal = Err(IllegalTransition { state, event });
    match (state, event) {
        (StreamState::Init, StreamEvent::Idle) => Ok(StreamState::Idle),
        (StreamState::Idle, StreamEvent::HeaderSend) => Ok(StreamState::Open),
        (StreamState::Idle, StreamEvent::HeaderRecv) => Ok(StreamState::Open),
        (StreamState::Idle, StreamEvent::PushPromiseRecv) => match role {
            Role::Client => Ok(StreamState::ReservedRemote),
            Role::Server => illegal,
        },
        (StreamState::Idle, StreamEvent::PushPromiseSend) => match role {
            Role::Server => Ok(StreamState::ReservedLocal),
            Role::Client => illegal,
        },
        (StreamState::Open, StreamEvent::DataSend) => Ok(StreamState::Open),
        (StreamState::Open, StreamEvent::DataRecv) => Ok(StreamState::Open),
        (StreamState::HalfClosedRemote, StreamEvent::DataSend) => Ok(StreamState::HalfClosedRemote),
        (StreamState::HalfClosedLocal, StreamEvent::DataRecv) => Ok(StreamState::HalfClosedLocal),
        (StreamState::Open, StreamEvent::EndStreamSend) => Ok(StreamState::HalfClosedLocal),
        (StreamState::Open, StreamEvent::EndStreamRecv) => Ok(StreamState::HalfClosedRemote),
        (StreamState::HalfClosedLocal, StreamEvent::EndStreamRecv) => Ok(StreamState::Closed),
        (StreamState::HalfClosedRemote, StreamEvent::EndStreamSend) => Ok(StreamState::Closed),
        (s, StreamEvent::ResetSend) => if s.is_live() {
            Ok(StreamState::Closed)
        } else {
            illegal
        },
        (s, StreamEvent::ResetRecv) => if s.is_live() {
            Ok(StreamState::Closed)
        } else {
            illegal
        },
        _ => illegal,
    }
}

/// Applies a sequence of events in order and stops at the first illegal
/// one.
pub fn advance_all(role: Role, state: StreamState, events: &Vec<StreamEvent>) -> (r: Result<
    StreamState,
    IllegalTransition,
>)
    ensures
        r.is_ok() == run(role, state, events@).is_some(),
        r.is_ok() ==> r.unwrap() == run(role, state, events@).unwrap(),
        r.is_err() ==> exists|k: int|
            0 <= k < events.len() && r.unwrap_err().event == events[k] && run(
                role,
                state,
                events@.subrange(0, k),
            ) == Some(r.unwrap_err().state) && next_state(
                role,
                r.unwrap_err().state,
                events[k],
            ).is_none(),
{
    let mut cur = state;
    let mut i: usize = 0;
    proof {
        assert(events@.subrange(0, 0) =~= Seq::<StreamEvent>::empty());
        assert(events@.subrange(0, events.len() as int) =~= events@);
    }
    while i < events.len()
        invariant
            0 <= i <= events.len(),
            run(role, state, events@.subrange(0, i as int)) == Some(cur),
            run(role, state, events@) == run(role, cur, events@.subrange(i as int, events.len() as int)),
        decreases events.len() - i,
    {
        let ghost rest = events@.subrange(i as int, events.len() as int);
        proof {
            assert(rest[0] == events[i as int]);
            assert(rest.subrange(1, rest.len() as int) =~= events@.subrange(
                i as int + 1,
                events.len() as int,
            ));
        }
        match advance(role, cur, events[i]) {
            Ok(s) => {
                proof {
                    lemma_run_snoc(role, state, events@.subrange(0, i as int), events[i as int]);
                    assert(events@.subrange(0, i as int).push(events[i as int]) =~= events@.subrange(
                        0,
                        i as int + 1,
                    ));
                }
                cur = s;
            },
            Err(e) => {
                return Err(e);
            },
        }
        i = i + 1;
    }
    proof {
        assert(events@.subrange(events.len() as int, events.len() as int) =~= Seq::<
            StreamEvent,
        >::empty());
    }
    Ok(cur)
}

/// Running a sequence and then one more event is running the longer
/// sequence.
pub proof fn lemma_run_snoc(role: Role, state: StreamState, events: Seq<StreamEvent>, e: StreamEvent)
    ensures
        run(role, state, events.push(e)) == match run(role, state, events) {
            Some(s) => next_state(role, s, e),
            None => None,
        },
    decreases events.len(),
{
    let longer = events.push(e);
    if events.len() == 0 {
        assert(longer.subrange(1, longer.len() as int) =~= Seq::<StreamEvent>::empty());
        match next_state(role, state, e) {
            Some(s) => {
                assert(run(role, s, Seq::<StreamEvent>::empty()) == Some(s));
            },
            None => {},
        }
    } else {
        assert(longer[0] == events[0]);
        assert(longer.subrange(1, longer.len() as int) =~= events.subrange(
            1,
            events.len() as int,
        ).push(e));
        match next_state(role, state, events[0]) {
            Some(s) => {
                lemma_run_snoc(role, s, events.subrange(1, events.len() as int), e);
            },
            None => {},
        }
    }
}

/// `Closed` is terminal: no event leads out of it.
pub proof fn lemma_closed_is_terminal(role: Role, event: StreamEvent)
    ensures
        next_state(role, StreamState::Closed, event).is_none(),
{
}

/// A reset, sent or received, is legal in every live state and closes the
/// stream.
pub proof fn lemma_reset_closes(role: Role, state: StreamState)
    requires
        state.spec_is_live(),
    ensures
        next_state(role, state, StreamEvent::ResetSend) == Some(StreamState::Closed),
        next_state(role, state, StreamEvent::ResetRecv) == Some(StreamState::Closed),
{
}

/// In no state may a client send a push promise, or a server receive one.
pub proof fn lemma_push_promise_direction(state: StreamState)
    ensures
        next_state(Role::Client, state, StreamEvent::PushPromiseSend).is_none(),
        next_state(Role::Server, state, StreamEvent::PushPromiseRecv).is_none(),
{
}

/// Headers have a place in `Idle` only, and open the stream there; an end
/// of stream has a place only on a stream that is open in its direction.
pub proof fn lemma_rows_of_headers_and_end(role: Role, state: StreamState)
    ensures
        next_state(role, state, StreamEvent::HeaderSend) == if state == StreamState::Idle {
            Some(StreamState::Open)
        } else {
            None
        },
        next_state(role, state, StreamEvent::HeaderRecv) == if state == StreamState::Idle {
            Some(StreamState::Open)
        } else {
            None
        },
        next_state(role, state, StreamEvent::EndStreamSend).is_some() <==> state
            == StreamState::Open || state == StreamState::HalfClosedRemote,
        next_state(role, state, StreamEvent::EndStreamRecv).is_some() <==> state
            == StreamState::Open || state == StreamState::HalfClosedLocal,
        next_state(role, state, StreamEvent::Idle).is_some() <==> state == StreamState::Init,
{
}

/// DATA and the events of the handshake move no stream: where they are
/// legal the state stays as it is.
pub proof fn lemma_data_moves_nothing(role: Role, state: StreamState, event: StreamEvent)
    requires
        event == StreamEvent::DataSend || event == StreamEvent::DataRecv || event
            == StreamEvent::PrefaceSend || event == StreamEvent::PrefaceRecv || event
            == StreamEvent::SettingsSend || event == StreamEvent::SettingsRecv,
    ensures
        next_state(role, state, event).is_some() ==> next_state(role, state, event) == Some(state),
        next_state(role, state, StreamEvent::DataSend).is_some() <==> state == StreamState::Open
            || state == StreamState::HalfClosedRemote,
        next_state(role, state, StreamEvent::DataRecv).is_some() <==> state == StreamState::Open
            || state == StreamState::HalfClosedLocal,
        next_state(role, state, StreamEvent::PrefaceSend).is_none(),
        next_state(role, state, StreamEvent::PrefaceRecv).is_none(),
        next_state(role, state, StreamEvent::SettingsSend).is_none(),
        next_state(role, state, StreamEvent::SettingsRecv).is_none(),
{
}

/// No transition leads back to `Init`, and a stream leaves `Idle` only by
/// headers or by a push promise.
pub proof fn lemma_no_way_back(role: Role, state: StreamState, event: StreamEvent)
    ensures
        next_state(role, state, event) != Some(StreamState::Init),
        state != StreamState::Init ==> next_state(role, state, event) != Some(StreamState::Idle),
        state == StreamState::Idle && next_state(role, state, event).is_some() ==> event
            == StreamEvent::HeaderSend || event == StreamEvent::HeaderRecv || event
            == StreamEvent::PushPromiseSend || event == StreamEvent::PushPromiseRecv,
{
}

/// The state machine of a stream as a client sees it.
#[derive(Clone, Copy, Debug, PartialEq, Eq, Structural)]
pub struct ClientStreamSM {
    pub state: StreamState,
}

/// The state machine of a stream as a server sees it.
#[derive(Clone, Copy, Debug, PartialEq, Eq, Structural)]
pub struct ServerStreamSM {
    pub state: StreamState,
}

impl ClientStreamSM {
    /// A machine in `Init`.
    pub fn new() -> (r: ClientStreamSM)
        ensures
            r.state == StreamState::Init,
    {
        ClientStreamSM { state: StreamState::Init }
    }

    /// Applies one event: on a legal one the machine moves and the new
    /// state is returned, on an illegal one it stays where it is.
    pub fn advance(&mut self, event: StreamEvent) -> (r: Result<StreamState, IllegalTransition>)
        ensures
            match next_state(Role::Client, old(self).state, event) {
                Some(s) => r == Ok::<StreamState, IllegalTransition>(s) && final(self).state == s,
                None => r == Err::<StreamState, IllegalTransition>(
                    IllegalTransition { state: old(self).state, event },
                ) && final(self).state == old(self).state,
            },
    {
        let r = advance(Role::Client, self.state, event);
        if let Ok(s) = r {
            self.state = s;
        }
        r
    }
}

impl ServerStreamSM {
    /// A machine in `Init`.
    pub fn new() -> (r: ServerStreamSM)
        ensures
            r.state == StreamState::Init,
    {
        ServerStreamSM { state: StreamState::Init }
    }

    /// Applies one event: on a legal one the machine moves and the new
    /// state is returned, on an illegal one it stays where it is.
    pub fn advance(&mut self, event: StreamEvent) -> (r: Result<StreamState, IllegalTransition>)
        ensures
            match next_state(Role::Server, old(self).state, event) {
                Some(s) => r == Ok::<StreamState, IllegalTransition>(s) && final(self).state == s,
                None => r == Err::<StreamState, IllegalTransition>(
                    IllegalTransition { state: old(self).state, event },
                ) && final(self).state == old(self).state,
            },
    {
        let r = advance(Role::Server, self.state, event);
        if let Ok(s) = r {
            self.state = s;
        }
        r
    }
}

} // verus!
