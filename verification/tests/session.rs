use rcon::error::{Error, ErrorKind};
use rcon::packet::{Packet, PacketType, RawBody};
use rcon::serialize::{Decode, Encode, IoReader, IoWriter};
use rcon::session::{Action, Event, RconSession, State, AUTH_PACKET_ID, COMMAND_PACKET_ID};

fn session() -> RconSession {
    RconSession::new("localhost:27015".into(), "passwrd".into(), "status".into()).unwrap()
}

fn reply(id: i32, kind: PacketType, body: &str) -> Event {
    Event::Received(Packet::new(id, kind, body.into()).unwrap())
}

fn authenticating() -> RconSession {
    let mut s = session();
    s.step(Event::Connected);
    s.step(Event::Sent);
    assert_eq!(s.state(), State::Authenticating);
    s
}

fn executing() -> RconSession {
    let mut s = authenticating();
    s.step(reply(AUTH_PACKET_ID, PacketType::ExecCommandOrAuthResponse, ""));
    s.step(Event::Sent);
    assert_eq!(s.state(), State::Executing);
    s
}

#[test]
fn ids() {
    assert_eq!(AUTH_PACKET_ID, 0);
    assert_eq!(COMMAND_PACKET_ID, 1);
}

#[test]
fn a_session_starts_disconnected_and_asks_to_connect() {
    let s = session();
    assert_eq!(s.state(), State::Disconnected);
    match s.begin() {
        Action::Connect(endpoint) => assert_eq!(endpoint, "localhost:27015"),
        other => panic!("{:?}", other),
    }
}

#[test]
fn text_with_nul_is_refused_before_anything_is_sent() {
    let r = RconSession::new("h:1".into(), "pass\0wrd".into(), "status".into());
    assert_eq!(r.unwrap_err(), Error::InteriorNul);
    let r = RconSession::new("h:1".into(), "passwrd".into(), "sta\0tus".into());
    assert_eq!(r.unwrap_err(), Error::InteriorNul);
}

#[test]
fn the_whole_handshake() {
    let mut s = session();
    match s.step(Event::Connected) {
        Action::Send(packet) => {
            assert_eq!(packet.id(), 0);
            assert_eq!(packet.packet_type(), PacketType::Auth);
            assert_eq!(packet.body().unwrap(), "passwrd");
        }
        other => panic!("{:?}", other),
    }
    assert_eq!(s.state(), State::Connected);
    assert!(matches!(s.step(Event::Sent), Action::Receive));
    assert_eq!(s.state(), State::Authenticating);
    match s.step(reply(0, PacketType::ExecCommandOrAuthResponse, "")) {
        Action::Send(packet) => {
            assert_eq!(packet.id(), 1);
            assert_eq!(packet.packet_type(), PacketType::ExecCommandOrAuthResponse);
            assert_eq!(packet.body().unwrap(), "status");
        }
        other => panic!("{:?}", other),
    }
    assert_eq!(s.state(), State::Authenticated);
    assert!(matches!(s.step(Event::Sent), Action::Receive));
    assert_eq!(s.state(), State::Executing);
    match s.step(reply(1, PacketType::ResponseValue, "hostname: box")) {
        Action::Finish(output) => assert_eq!(output, "hostname: box"),
        other => panic!("{:?}", other),
    }
    assert_eq!(s.state(), State::Done);
}

#[test]
fn a_verdict_with_the_id_of_the_request_authenticates() {
    let mut s = authenticating();
    let action = s.step(reply(AUTH_PACKET_ID, PacketType::ExecCommandOrAuthResponse, ""));
    assert!(matches!(action, Action::Send(_)));
    assert_eq!(s.state(), State::Authenticated);
}

#[test]
fn a_verdict_with_id_minus_one_fails_the_session() {
    let mut s = authenticating();
    match s.step(reply(-1, PacketType::ExecCommandOrAuthResponse, "")) {
        Action::Abort(error) => {
            assert_eq!(error, Error::AuthRejected);
            assert_eq!(error.kind(), ErrorKind::Protocol);
        }
        other => panic!("{:?}", other),
    }
    assert_eq!(s.state(), State::Failed(Error::AuthRejected));
}

#[test]
fn a_rejected_session_is_never_authenticated() {
    let mut s = authenticating();
    s.step(reply(-1, PacketType::ExecCommandOrAuthResponse, ""));
    let later = [
        reply(0, PacketType::ExecCommandOrAuthResponse, ""),
        Event::Sent,
        Event::Connected,
        reply(1, PacketType::ResponseValue, "out"),
        Event::Failed(Error::ReadFailed),
    ];
    for event in later {
        match s.step(event) {
            Action::Abort(error) => assert_eq!(error, Error::AuthRejected),
            other => panic!("{:?}", other),
        }
        assert_eq!(s.state(), State::Failed(Error::AuthRejected));
    }
}

#[test]
fn a_verdict_with_any_other_id_fails_the_session() {
    for id in [1, 2, -2, i32::MAX, i32::MIN] {
        let mut s = authenticating();
        let action = s.step(reply(id, PacketType::ExecCommandOrAuthResponse, ""));
        assert!(matches!(action, Action::Abort(Error::AuthRejected)));
        assert_eq!(s.state(), State::Failed(Error::AuthRejected));
    }
}

#[test]
fn other_packets_before_the_verdict_are_passed_over() {
    let mut s = authenticating();
    for kind in [PacketType::ResponseValue, PacketType::Auth, PacketType::AuthFailed] {
        for id in [0, -1, 5] {
            assert!(matches!(s.step(reply(id, kind, "noise")), Action::Receive));
            assert_eq!(s.state(), State::Authenticating);
        }
    }
    let action = s.step(reply(0, PacketType::ExecCommandOrAuthResponse, ""));
    assert!(matches!(action, Action::Send(_)));
    assert_eq!(s.state(), State::Authenticated);
}

#[test]
fn other_packets_before_the_answer_are_passed_over() {
    let mut s = executing();
    assert!(matches!(s.step(reply(0, PacketType::ResponseValue, "old")), Action::Receive));
    assert!(matches!(
        s.step(reply(1, PacketType::ExecCommandOrAuthResponse, "echo")),
        Action::Receive
    ));
    assert!(matches!(s.step(reply(-1, PacketType::AuthFailed, "")), Action::Receive));
    assert_eq!(s.state(), State::Executing);
    match s.step(reply(1, PacketType::ResponseValue, "out")) {
        Action::Finish(output) => assert_eq!(output, "out"),
        other => panic!("{:?}", other),
    }
}

#[test]
fn an_answer_that_is_not_text_fails_the_session() {
    let mut s = executing();
    let body = RawBody::new(vec![0xff]).unwrap();
    let packet = Packet::with_raw_body(1, PacketType::ResponseValue, body);
    assert!(matches!(s.step(Event::Received(packet)), Action::Abort(Error::InvalidUtf8)));
    assert_eq!(s.state(), State::Failed(Error::InvalidUtf8));
}

#[test]
fn an_empty_answer_is_an_output() {
    let mut s = executing();
    match s.step(reply(1, PacketType::ResponseValue, "")) {
        Action::Finish(output) => assert_eq!(output, ""),
        other => panic!("{:?}", other),
    }
    assert_eq!(s.state(), State::Done);
}

#[test]
fn a_reported_failure_ends_the_session_from_every_state() {
    let errors = [Error::ConnectFailed, Error::WriteFailed, Error::ReadFailed];
    for reached in 0..5 {
        for error in errors {
            let mut s = session();
            let script = [
                Event::Connected,
                Event::Sent,
                reply(0, PacketType::ExecCommandOrAuthResponse, ""),
                Event::Sent,
            ];
            for event in script.into_iter().take(reached) {
                s.step(event);
            }
            match s.step(Event::Failed(error)) {
                Action::Abort(e) => assert_eq!(e, error),
                other => panic!("{:?}", other),
            }
            assert_eq!(s.state(), State::Failed(error));
        }
    }
}

#[test]
fn a_framing_error_ends_the_session() {
    let mut s = authenticating();
    assert!(matches!(
        s.step(Event::Failed(Error::InvalidSize)),
        Action::Abort(Error::InvalidSize)
    ));
    assert_eq!(s.state(), State::Failed(Error::InvalidSize));
}

#[test]
fn an_event_out_of_turn_ends_the_session() {
    let mut s = session();
    assert!(matches!(s.step(Event::Sent), Action::Abort(Error::OutOfTurn)));
    assert_eq!(s.state(), State::Failed(Error::OutOfTurn));

    let mut s = session();
    s.step(Event::Connected);
    let action = s.step(reply(0, PacketType::ExecCommandOrAuthResponse, ""));
    assert!(matches!(action, Action::Abort(Error::OutOfTurn)));

    let mut s = authenticating();
    assert!(matches!(s.step(Event::Sent), Action::Abort(Error::OutOfTurn)));

    let mut s = executing();
    assert!(matches!(s.step(Event::Connected), Action::Abort(Error::OutOfTurn)));
    assert_eq!(Error::OutOfTurn.kind(), ErrorKind::Protocol);
}

#[test]
fn a_finished_session_stays_finished() {
    let mut s = executing();
    s.step(reply(1, PacketType::ResponseValue, "out"));
    for event in [
        Event::Connected,
        Event::Sent,
        reply(1, PacketType::ResponseValue, "again"),
        Event::Failed(Error::ReadFailed),
    ] {
        assert!(matches!(s.step(event), Action::Stop));
        assert_eq!(s.state(), State::Done);
    }
}

/// Runs a session against a peer whose replies are all written down in
/// advance. Gives what the session came to, what it sent, and every state
/// it went through.
fn against_scripted_peer(replies: &[Packet]) -> (Result<String, Error>, Vec<u8>, Vec<State>) {
    let mut script = IoWriter::new(Vec::new());
    for packet in replies {
        packet.encode(&mut script).unwrap();
    }
    let script = script.into_inner();
    let mut peer = IoReader::new(&script[..]);
    let mut sent = IoWriter::new(Vec::new());
    let mut s = session();
    let mut states = vec![s.state()];
    let mut action = s.begin();
    let result = loop {
        let event = match action {
            Action::Connect(_) => Event::Connected,
            Action::Send(packet) => match packet.encode(&mut sent) {
                Ok(()) => Event::Sent,
                Err(e) => Event::Failed(e),
            },
            Action::Receive => match Packet::decode(&mut peer) {
                Ok(packet) => Event::Received(packet),
                Err(e) => Event::Failed(e),
            },
            Action::Finish(output) => break Ok(output),
            Action::Abort(error) => break Err(error),
            Action::Stop => panic!("asked to go on after the end"),
        };
        action = s.step(event);
        if states.last() != Some(&s.state()) {
            states.push(s.state());
        }
    };
    (result, sent.into_inner(), states)
}

fn from_peer(id: i32, kind: PacketType, body: &str) -> Packet {
    Packet::new(id, kind, body.into()).unwrap()
}

#[test]
fn a_scripted_peer_that_accepts() {
    let (result, sent, states) = against_scripted_peer(&[
        from_peer(0, PacketType::ResponseValue, ""),
        from_peer(0, PacketType::ExecCommandOrAuthResponse, ""),
        from_peer(1, PacketType::ResponseValue, "hostname: box"),
    ]);
    assert_eq!(result, Ok("hostname: box".to_string()));
    assert_eq!(
        states,
        vec![
            State::Disconnected,
            State::Connected,
            State::Authenticating,
            State::Authenticated,
            State::Executing,
            State::Done,
        ]
    );
    let mut expected = from_peer(0, PacketType::Auth, "passwrd").to_bytes();
    expected.extend(from_peer(1, PacketType::ExecCommandOrAuthResponse, "status").to_bytes());
    assert_eq!(sent, expected);
}

#[test]
fn a_scripted_peer_that_rejects() {
    let (result, sent, states) = against_scripted_peer(&[
        from_peer(-1, PacketType::ExecCommandOrAuthResponse, ""),
        from_peer(1, PacketType::ResponseValue, "never read"),
    ]);
    assert_eq!(result, Err(Error::AuthRejected));
    assert_eq!(
        states,
        vec![
            State::Disconnected,
            State::Connected,
            State::Authenticating,
            State::Failed(Error::AuthRejected),
        ]
    );
    assert!(!states.contains(&State::Authenticated));
    assert_eq!(sent, from_peer(0, PacketType::Auth, "passwrd").to_bytes());
}

#[test]
fn a_scripted_peer_that_hangs_up() {
    let (result, _, states) =
        against_scripted_peer(&[from_peer(0, PacketType::ExecCommandOrAuthResponse, "")]);
    assert_eq!(result, Err(Error::UnexpectedEof(4)));
    assert_eq!(states.last(), Some(&State::Failed(Error::UnexpectedEof(4))));
    assert!(states.contains(&State::Authenticated));
}
