//! The handshake: authenticate, then run one command.
//!
//! The session does no I/O. It says what is to be done next and is told what
//! came of it; whoever owns the connection does the work in between.

use crate::error::{Error, ErrorKind};
use crate::packet::{nul_free, Packet, PacketType, PacketView, RawBody};
use vstd::prelude::*;
use vstd::utf8::{decode_utf8, encode_utf8, valid_utf8};

verus! {

/// The id of the packet that carries the password.
pub const AUTH_PACKET_ID: i32 = 0;

/// The id of the packet that carries the command.
pub const COMMAND_PACKET_ID: i32 = 1;

/// How far a session has come.
#[derive(Clone, Copy, Debug, PartialEq, Eq, Structural)]
pub enum State {
    /// Nothing has happened yet.
    Disconnected,
    /// The connection stands; the password is on its way.
    Connected,
    /// The password was sent; the verdict is awaited.
    Authenticating,
    /// The peer accepted the password; the command is on its way.
    Authenticated,
    /// The command was sent; its output is awaited.
    Executing,
    /// The output was handed over.
    Done,
    /// The session ended with this failure.
    Failed(Error),
}

impl State {
    /// Whether the session is over.
    pub open spec fn is_terminal(self) -> bool {
        self is Done || self is Failed
    }
}

/// What the owner of the connection reports to the session.
#[derive(Debug)]
pub enum Event {
    /// The connection was established.
    Connected,
    /// The packet that was to be sent has been written in full.
    Sent,
    /// This packet has arrived.
    Received(Packet),
    /// What was to be done failed.
    Failed(Error),
}

/// What the session asks the owner of the connection to do.
#[derive(Debug)]
pub enum Action {
    /// Connect to this endpoint, then report `Connected`.
    Connect(String),
    /// Write this packet, then report `Sent`.
    Send(Packet),
    /// Read one packet, then report it as `Received`.
    Receive,
    /// Hand this output of the command to the caller. The session is over.
    Finish(String),
    /// Report this failure to the caller. The session is over.
    Abort(Error),
    /// Nothing is left to do.
    Stop,
}

/// An event as a plain value.
pub enum EventView {
    Connected,
    Sent,
    Received(PacketView),
    Failed(Error),
}

/// An action as a plain value.
pub enum ActionView {
    Connect(Seq<char>),
    Send(PacketView),
    Receive,
    Finish(Seq<char>),
    Abort(Error),
    Stop,
}

impl View for Event {
    type V = EventView;

    open spec fn view(&self) -> EventView {
        match self {
            Event::Connected => EventView::Connected,
            Event::Sent => EventView::Sent,
            Event::Received(packet) => EventView::Received(packet@),
            Event::Failed(error) => EventView::Failed(*error),
        }
    }
}

impl View for Action {
    type V = ActionView;

    open spec fn view(&self) -> ActionView {
        match self {
            Action::Connect(endpoint) => ActionView::Connect(endpoint@),
            Action::Send(packet) => ActionView::Send(packet@),
            Action::Receive => ActionView::Receive,
            Action::Finish(output) => ActionView::Finish(output@),
            Action::Abort(error) => ActionView::Abort(*error),
            Action::Stop => ActionView::Stop,
        }
    }
}

/// A session as a plain value.
pub struct SessionView {
    /// How far the session has come.
    pub state: State,
    /// Where to connect to, as "host:port".
    pub endpoint: Seq<char>,
    /// The password, as the bytes of a body.
    pub password: Seq<u8>,
    /// The command, as the bytes of a body.
    pub command: Seq<u8>,
}

/// The packet that submits the password.
pub open spec fn auth_request(session: SessionView) -> PacketView {
    PacketView { id: AUTH_PACKET_ID, kind: PacketType::Auth, body: session.password }
}

/// The packet that submits the command.
pub open spec fn command_request(session: SessionView) -> PacketView {
    PacketView {
        id: COMMAND_PACKET_ID,
        kind: PacketType::ExecCommandOrAuthResponse,
        body: session.command,
    }
}

/// Whether `packet` is the verdict on the password. Packets of any other
/// kind that come before it are passed over.
pub open spec fn is_auth_response(packet: PacketView) -> bool {
    packet.kind == PacketType::ExecCommandOrAuthResponse
}

/// Whether `packet` is the answer to the command. Any other packet that
/// comes before it is passed over.
pub open spec fn is_command_response(packet: PacketView) -> bool {
    packet.id == COMMAND_PACKET_ID && packet.kind == PacketType::ResponseValue
}

/// The session after a failure, and the action that reports it.
pub open spec fn fail(session: SessionView, error: Error) -> (SessionView, ActionView) {
    (SessionView { state: State::Failed(error), ..session }, ActionView::Abort(error))
}

/// The session after `event`, and what is to be done next.
///
/// A session that is over stays as it is. A failure that is reported ends a
/// session that is not over, and so does an event that does not answer what
/// was asked for. Otherwise the session goes from `Disconnected` by
/// `Connected`, `Authenticating`, `Authenticated` and `Executing` to `Done`:
/// it sends the password, waits for the verdict, which accepts by echoing
/// the id of the request and rejects by any other id, sends the command,
/// and waits for the answer, whose body is the output.
pub open spec fn next(session: SessionView, event: EventView) -> (SessionView, ActionView) {
    match session.state {
        State::Done => (session, ActionView::Stop),
        State::Failed(error) => (session, ActionView::Abort(error)),
        State::Disconnected => match event {
            EventView::Connected => (
                SessionView { state: State::Connected, ..session },
                ActionView::Send(auth_request(session)),
            ),
            EventView::Failed(error) => fail(session, error),
            _ => fail(session, Error::OutOfTurn),
        },
        State::Connected => match event {
            EventView::Sent => (
                SessionView { state: State::Authenticating, ..session },
                ActionView::Receive,
            ),
            EventView::Failed(error) => fail(session, error),
            _ => fail(session, Error::OutOfTurn),
        },
        State::Authenticating => match event {
            EventView::Received(packet) => if !is_auth_response(packet) {
                (session, ActionView::Receive)
            } else if packet.id == AUTH_PACKET_ID {
                (
                    SessionView { state: State::Authenticated, ..session },
                    ActionView::Send(command_request(session)),
                )
            } else {
                fail(session, Error::AuthRejected)
            },
            EventView::Failed(error) => fail(session, error),
            _ => fail(session, Error::OutOfTurn),
        },
        State::Authenticated => match event {
            EventView::Sent => (
                SessionView { state: State::Executing, ..session },
                ActionView::Receive,
            ),
            EventView::Failed(error) => fail(session, error),
            _ => fail(session, Error::OutOfTurn),
        },
        State::Executing => match event {
            EventView::Received(packet) => if !is_command_response(packet) {
                (session, ActionView::Receive)
            } else if valid_utf8(packet.body) {
                (
                    SessionView { state: State::Done, ..session },
                    ActionView::Finish(decode_utf8(packet.body)),
                )
            } else {
                fail(session, Error::InvalidUtf8)
            },
            EventView::Failed(error) => fail(session, error),
            _ => fail(session, Error::OutOfTurn),
        },
    }
}

/// The session after each of `events` in turn.
pub open spec fn run(session: SessionView, events: Seq<EventView>) -> SessionView
    decreases events.len(),
{
    if events.len() == 0 {
        session
    } else {
        run(next(session, events[0]).0, events.drop_first())
    }
}

/// One run of the handshake: what is to be sent, and how far it has come.
#[derive(Debug)]
pub struct RconSession {
    state: State,
    endpoint: String,
    password: RawBody,
    command: RawBody,
}

impl View for RconSession {
    type V = SessionView;

    closed spec fn view(&self) -> SessionView {
        SessionView {
            state: self.state,
            endpoint: self.endpoint@,
            password: self.password@,
            command: self.command@,
        }
    }
}

impl RconSession {
    /// A session that is to connect to `endpoint`, submit `password` and
    /// run `command`. Text that holds a NUL character cannot travel in a
    /// packet and is refused here, before anything is sent.
    pub fn new(endpoint: String, password: String, command: String) -> (r: Result<
        RconSession,
        Error,
    >)
        ensures
            nul_free(encode_utf8(password@)) && nul_free(encode_utf8(command@)) ==> (r matches Ok(
                session,
            ) && session@ == (SessionView {
                state: State::Disconnected,
                endpoint: endpoint@,
                password: encode_utf8(password@),
                command: encode_utf8(command@),
            })),
            !(nul_free(encode_utf8(password@)) && nul_free(encode_utf8(command@))) ==> (
            r matches Err(e) && e == Error::InteriorNul),
    {
        let password = match RawBody::from_text(password.as_str()) {
            Ok(body) => body,
            Err(e) => {
                return Err(e);
            },
        };
        let command = match RawBody::from_text(command.as_str()) {
            Ok(body) => body,
            Err(e) => {
                return Err(e);
            },
        };
        Ok(RconSession { state: State::Disconnected, endpoint, password, command })
    }

    /// How far the session has come.
    pub fn state(&self) -> (state: State)
        ensures
            state == self@.state,
    {
        self.state
    }

    /// What is to be done first: connect.
    pub fn begin(&self) -> (action: Action)
        ensures
            action@ == ActionView::Connect(self@.endpoint),
    {
        Action::Connect(self.endpoint.clone())
    }

    /// Ends the session with `error`.
    fn abort(&mut self, error: Error) -> (action: Action)
        ensures
            (final(self)@, action@) == fail(old(self)@, error),
    {
        self.state = State::Failed(error);
        Action::Abort(error)
    }

    /// Takes in what came of the last action and says what is to be done
    /// next.
    pub fn step(&mut self, event: Event) -> (action: Action)
        ensures
            (final(self)@, action@) == next(old(self)@, event@),
    {
        match self.state {
            State::Done => Action::Stop,
            State::Failed(error) => Action::Abort(error),
            State::Disconnected => match event {
                Event::Connected => {
                    self.state = State::Connected;
                    Action::Send(
                        Packet::with_raw_body(
                            AUTH_PACKET_ID,
                            PacketType::Auth,
                            self.password.clone(),
                        ),
                    )
                },
                Event::Failed(error) => self.abort(error),
                _ => self.abort(Error::OutOfTurn),
            },
            State::Connected => match event {
                Event::Sent => {
                    self.state = State::Authenticating;
                    Action::Receive
                },
                Event::Failed(error) => self.abort(error),
                _ => self.abort(Error::OutOfTurn),
            },
            State::Authenticating => match event {
                Event::Received(packet) => {
                    if packet.packet_type() != PacketType::ExecCommandOrAuthResponse {
                        Action::Receive
                    } else if packet.id() == AUTH_PACKET_ID {
                        self.state = State::Authenticated;
                        Action::Send(
                            Packet::with_raw_body(
                                COMMAND_PACKET_ID,
                                PacketType::ExecCommandOrAuthResponse,
                                self.command.clone(),
                            ),
                        )
                    } else {
                        self.abort(Error::AuthRejected)
                    }
                },
                Event::Failed(error) => self.abort(error),
                _ => self.abort(Error::OutOfTurn),
            },
            State::Authenticated => match event {
                Event::Sent => {
                    self.state = State::Executing;
                    Action::Receive
                },
                Event::Failed(error) => self.abort(error),
                _ => self.abort(Error::OutOfTurn),
            },
            State::Executing => match event {
                Event::Received(packet) => {
                    if !(packet.id() == COMMAND_PACKET_ID && packet.packet_type()
                        == PacketType::ResponseValue) {
                        Action::Receive
                    } else {
                        match packet.body() {
                            Ok(output) => {
                                proof {
                                    vstd::utf8::encode_utf8_decode_utf8(output@);
                                }
                                self.state = State::Done;
                                Action::Finish(output)
                            },
                            Err(e) => self.abort(e),
                        }
                    }
                },
                Event::Failed(error) => self.abort(error),
                _ => self.abort(Error::OutOfTurn),
            },
        }
    }
}

/// A verdict that echoes the id of the request authenticates the session
/// and has the command sent.
pub proof fn lemma_auth_accepted(session: SessionView, reply: PacketView)
    requires
        session.state == State::Authenticating,
        reply.kind == PacketType::ExecCommandOrAuthResponse,
        reply.id == AUTH_PACKET_ID,
    ensures
        next(session, EventView::Received(reply)).0.state == State::Authenticated,
        next(session, EventView::Received(reply)).1 == ActionView::Send(
            command_request(session),
        ),
{
}

/// A verdict with any other id, such as -1, fails the session with a
/// protocol error, and whatever is reported after that, the session stays
/// failed: it is never authenticated.
pub proof fn lemma_auth_rejected(session: SessionView, reply: PacketView, later: Seq<EventView>)
    requires
        session.state == State::Authenticating,
        reply.kind == PacketType::ExecCommandOrAuthResponse,
        reply.id != AUTH_PACKET_ID,
    ensures
        next(session, EventView::Received(reply)).0.state == State::Failed(Error::AuthRejected),
        next(session, EventView::Received(reply)).1 == ActionView::Abort(Error::AuthRejected),
        Error::AuthRejected.kind() == ErrorKind::Protocol,
        run(next(session, EventView::Received(reply)).0, later).state == State::Failed(
            Error::AuthRejected,
        ),
{
    lemma_over_stays_over(next(session, EventView::Received(reply)).0, later);
}

/// A session that is over stays as it is, whatever is reported.
pub proof fn lemma_over_stays_over(session: SessionView, events: Seq<EventView>)
    requires
        session.state.is_terminal(),
    ensures
        run(session, events) == session,
    decreases events.len(),
{
    if events.len() > 0 {
        lemma_over_stays_over(session, events.drop_first());
    }
}

/// The only way into `Authenticated` is the verdict that echoes the id of
/// the request, received while the verdict is awaited.
pub proof fn lemma_authenticated_only_by_verdict(session: SessionView, event: EventView)
    requires
        next(session, event).0.state == State::Authenticated,
    ensures
        session.state == State::Authenticating,
        event matches EventView::Received(reply) && is_auth_response(reply) && reply.id
            == AUTH_PACKET_ID,
{
}

/// The only way into `Done` is the answer to the command, received while
/// it is awaited, and the output handed over is the text of its body.
pub proof fn lemma_done_only_by_answer(session: SessionView, event: EventView)
    requires
        session.state != State::Done,
        next(session, event).0.state == State::Done,
    ensures
        session.state == State::Executing,
        event matches EventView::Received(reply) && is_command_response(reply) && valid_utf8(
            reply.body,
        ) && next(session, event).1 == ActionView::Finish(decode_utf8(reply.body)),
{
}

/// A failure that is reported to a session that is not over ends it with
/// that failure.
pub proof fn lemma_failure_ends_session(session: SessionView, error: Error)
    requires
        !session.state.is_terminal(),
    ensures
        next(session, EventView::Failed(error)) == fail(session, error),
{
}

/// Output is handed over only as a session finishes, and a failure only as
/// it fails: no session reports output and then fails, or fails and then
/// reports output, in one step. What is to be sent never changes.
pub proof fn lemma_step_is_coherent(session: SessionView, event: EventView)
    ensures
        next(session, event).1 is Finish <==> session.state != State::Done && next(
            session,
            event,
        ).0.state == State::Done,
        next(session, event).1 matches ActionView::Abort(error) ==> next(session, event).0.state
            == State::Failed(error),
        next(session, event).0.endpoint == session.endpoint,
        next(session, event).0.password == session.password,
        next(session, event).0.command == session.command,
{
}

} // verus!
