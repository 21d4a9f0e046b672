use vstd::prelude::*;

use crate::parser::{decode_in, in_result_view};
use crate::engine::{idle, recv_spec, send_spec, strip_line_end, EngineModel};
use crate::uci::{InModel, OutModel, ProtocolError, UciIn};

verus! {

/// Something that happened to a connection.
pub enum Event {
    /// A text frame from the client.
    Text(String),
    /// A binary frame from the client.
    Binary,
    /// A ping from the client, with its payload.
    Ping(Vec<u8>),
    /// A pong from the client.
    Pong,
    /// The client closed the socket, or it ended.
    Closed,
    /// Receiving from the socket failed.
    SocketError,
    /// The heartbeat timer fired.
    Tick,
    /// Another session asked for the engine.
    Notified,
}

/// Why a connection ends with an error.
#[derive(Clone, Copy, PartialEq, Eq, Structural, Debug)]
pub enum Failure {
    Protocol(ProtocolError),
    BinaryNotSupported,
    Socket,
}

/// What the connection does in response to an event. Where it ends, the
/// engine is brought to rest first if this connection holds it.
pub enum Action {
    Nothing,
    /// Send the command to the engine, which this connection holds.
    Forward(UciIn),
    /// Start a new session, take the engine, start a new game, then send
    /// the command.
    Acquire(UciIn),
    /// Answer a ping.
    SendPong(Vec<u8>),
    /// Ping the client.
    SendPing,
    /// End the connection normally.
    End,
    /// End the connection with an error.
    Fail(Failure),
}

/// What a connection that holds the engine does when another session may
/// have asked for it.
#[derive(Clone, Copy, PartialEq, Eq, Structural, Debug)]
pub enum Yield {
    /// Go on as before.
    Keep,
    /// Stop the search, and keep the engine until it is idle.
    StopSearch,
    /// Give the engine up.
    Release,
}

/// The state of one client connection.
pub struct Connection {
    held: bool,
    session: u64,
    missed_pong: bool,
}

pub struct ConnectionModel {
    pub held: bool,
    pub session: u64,
    pub missed_pong: bool,
}

impl View for Connection {
    type V = ConnectionModel;

    closed spec fn view(&self) -> ConnectionModel {
        ConnectionModel { held: self.held, session: self.session, missed_pong: self.missed_pong }
    }
}

/// The decision on a text frame that reads as `r`, for a connection that
/// does or does not hold the engine.
pub open spec fn text_action(held: bool, r: Result<Option<InModel>, ProtocolError>) -> ActionKind {
    match r {
        Err(e) => ActionKind::Fail(Failure::Protocol(e)),
        Ok(None) => ActionKind::Nothing,
        Ok(Some(c)) => if held {
            ActionKind::Forward(c)
        } else if c is Stop {
            ActionKind::Nothing
        } else {
            ActionKind::Acquire(c)
        },
    }
}

/// The shape of an action, with commands as their content.
pub enum ActionKind {
    Nothing,
    Forward(InModel),
    Acquire(InModel),
    SendPong(Seq<u8>),
    SendPing,
    End,
    Fail(Failure),
}

impl View for Action {
    type V = ActionKind;

    open spec fn view(&self) -> ActionKind {
        match self {
            Action::Nothing => ActionKind::Nothing,
            Action::Forward(c) => ActionKind::Forward(c@),
            Action::Acquire(c) => ActionKind::Acquire(c@),
            Action::SendPong(d) => ActionKind::SendPong(d@),
            Action::SendPing => ActionKind::SendPing,
            Action::End => ActionKind::End,
            Action::Fail(f) => ActionKind::Fail(*f),
        }
    }
}

/// The decision on a preemption check.
pub open spec fn yield_spec(c: ConnectionModel, current: u64, searching: bool, idle: bool) -> Yield {
    if !c.held || c.session == current {
        Yield::Keep
    } else if searching {
        Yield::StopSearch
    } else if idle {
        Yield::Release
    } else {
        Yield::Keep
    }
}

/// The heartbeat: a tick after a ping that got no answer ends the
/// connection; otherwise the client is pinged.
pub open spec fn tick_spec(c: ConnectionModel) -> (ConnectionModel, ActionKind) {
    if c.missed_pong {
        (c, ActionKind::End)
    } else {
        (ConnectionModel { missed_pong: true, ..c }, ActionKind::SendPing)
    }
}

impl Connection {
    /// A connection that does not hold the engine and has no session yet.
    pub fn new() -> (r: Connection)
        ensures
            r@ == (ConnectionModel { held: false, session: 0, missed_pong: false }),
    {
        Connection { held: false, session: 0, missed_pong: false }
    }

    pub fn is_held(&self) -> (r: bool)
        ensures
            r == self@.held,
    {
        self.held
    }

    pub fn session(&self) -> (r: u64)
        ensures
            r == self@.session,
    {
        self.session
    }

    /// Records that this connection took the engine for session `session`.
    pub fn acquired(&mut self, session: u64)
        ensures
            final(self)@ == (ConnectionModel { held: true, session, ..old(self)@ }),
    {
        self.held = true;
        self.session = session;
    }

    /// Checks whether another session has asked for the engine, given the
    /// current session number and the engine's state. When the engine is
    /// given up, the connection no longer holds it.
    pub fn check_session(&mut self, current: u64, searching: bool, idle: bool) -> (r: Yield)
        ensures
            r == yield_spec(old(self)@, current, searching, idle),
            final(self)@ == if r == Yield::Release {
                ConnectionModel { held: false, ..old(self)@ }
            } else {
                old(self)@
            },
    {
        if !self.held || self.session == current {
            Yield::Keep
        } else if searching {
            Yield::StopSearch
        } else if idle {
            self.held = false;
            Yield::Release
        } else {
            Yield::Keep
        }
    }

    /// Decides what to do about `event`.
    pub fn on_event(&mut self, event: Event) -> (r: Action)
        ensures
            match event {
                Event::Text(t) => r@ == text_action(old(self)@.held, decode_in(t@)) && final(self)@
                    == old(self)@,
                Event::Binary => r@ == ActionKind::Fail(Failure::BinaryNotSupported) && final(self)@ == old(self)@,
                Event::Ping(d) => r@ == ActionKind::SendPong(d@) && final(self)@ == old(self)@,
                Event::Pong => r@ == ActionKind::Nothing && final(self)@ == (ConnectionModel {
                    missed_pong: false,
                    ..old(self)@
                }),
                Event::Closed => r@ == ActionKind::End && final(self)@ == old(self)@,
                Event::SocketError => r@ == ActionKind::Fail(Failure::Socket) && final(self)@ == old(self)@,
                Event::Tick => (final(self)@, r@) == tick_spec(old(self)@),
                Event::Notified => r@ == ActionKind::Nothing && final(self)@ == old(self)@,
            },
    {
        match event {
            Event::Text(t) => match UciIn::from_line(t.as_str()) {
                Err(e) => Action::Fail(Failure::Protocol(e)),
                Ok(None) => Action::Nothing,
                Ok(Some(c)) => if self.held {
                    Action::Forward(c)
                } else if matches!(c, UciIn::Stop) {
                    Action::Nothing
                } else {
                    Action::Acquire(c)
                },
            },
            Event::Binary => Action::Fail(Failure::BinaryNotSupported),
            Event::Ping(d) => Action::SendPong(d),
            Event::Pong => {
                self.missed_pong = false;
                Action::Nothing
            },
            Event::Closed => Action::End,
            Event::SocketError => Action::Fail(Failure::Socket),
            Event::Tick => if self.missed_pong {
                Action::End
            } else {
                self.missed_pong = true;
                Action::SendPing
            },
            Event::Notified => Action::Nothing,
        }
    }
}

/// A client that answers no ping is dropped by the second tick at the
/// latest.
pub proof fn law_heartbeat(c: ConnectionModel)
    ensures
        tick_spec(c).1 is End || tick_spec(tick_spec(c).0).1 is End,
{
}

/// A `stop` from a client that does not hold the engine is ignored: it
/// starts no session and takes the engine from nobody.
pub proof fn law_stop_shortcut()
    ensures
        text_action(false, Ok(Some(InModel::Stop))) == ActionKind::Nothing,
{
}

/// Preemption: a client without the engine that sends any command but
/// `stop` asks for the engine. The holder of an older session stops its
/// search, and gives the engine up as soon as the engine is idle.
pub proof fn law_preemption(
    newcomer: ConnectionModel,
    c: InModel,
    holder: ConnectionModel,
    current: u64,
    searching: bool,
    idle: bool,
)
    requires
        !newcomer.held,
        !(c is Stop),
        holder.held,
        holder.session != current,
    ensures
        text_action(newcomer.held, Ok(Some(c))) == ActionKind::Acquire(c),
        searching ==> yield_spec(holder, current, searching, idle) == Yield::StopSearch,
        !searching && idle ==> yield_spec(holder, current, searching, idle) == Yield::Release,
{
}

/// Preemption runs to its end. The holder of an older session whose
/// engine searches, with no acknowledgement outstanding, stops the search,
/// and `idle_step` writes `stop` and then `isready` once. After that it only
/// reads: the engine stays the holder's while the search winds down. Once
/// the engine has answered with `bestmove` and then `readyok`, it is idle
/// and the holder gives it up.
pub proof fn law_preemption_completes(
    holder: ConnectionModel,
    current: u64,
    e: EngineModel,
    best: Seq<char>,
    ready: Seq<char>,
)
    requires
        holder.held,
        holder.session != current,
        e.searching,
        e.pending_uciok == 0,
        e.pending_readyok == 0,
        crate::parser::decode_out(strip_line_end(best)) matches Ok(Some(OutModel::Bestmove { .. })),
        crate::parser::decode_out(strip_line_end(ready)) == Ok::<_, ProtocolError>(
            Some(OutModel::Readyok),
        ),
    ensures
        yield_spec(holder, current, e.searching, idle(e)) == Yield::StopSearch,
        ({
            let e1 = send_spec(e, InModel::Isready).0;
            let e2 = recv_spec(e1, best).0;
            let e3 = recv_spec(e2, ready).0;
            &&& e1.searching && e1.pending_readyok == 1
            &&& yield_spec(holder, current, e1.searching, idle(e1)) == Yield::StopSearch
            &&& !e2.searching && !idle(e2)
            &&& yield_spec(holder, current, e2.searching, idle(e2)) == Yield::Keep
            &&& idle(e3)
            &&& yield_spec(holder, current, e3.searching, idle(e3)) == Yield::Release
        }),
{
}

/// The newcomer's new game: from an idle engine, after `ucinewgame` and
/// `isready` are sent and `readyok` is received, the engine is idle again.
pub proof fn law_newgame_settles(e: EngineModel, ready: Seq<char>)
    requires
        idle(e),
        crate::parser::decode_out(strip_line_end(ready)) == Ok::<_, ProtocolError>(
            Some(OutModel::Readyok),
        ),
    ensures
        !idle(send_spec(send_spec(e, InModel::Ucinewgame).0, InModel::Isready).0),
        idle(recv_spec(send_spec(send_spec(e, InModel::Ucinewgame).0, InModel::Isready).0, ready).0),
{
}

} // verus!
