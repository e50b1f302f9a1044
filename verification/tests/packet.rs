use rcon::error::{Error, ErrorKind};
use rcon::packet::{Packet, PacketType, RawBody};
use rcon::serialize::{decode_from_slice, encode_to_vec};

const PASSWRD_FRAME: [u8; 21] = [
    0x11, 0x00, 0x00, 0x00, 0x00, 0x00, 0x00, 0x00, 0x03, 0x00, 0x00, 0x00, 0x70, 0x61, 0x73,
    0x73, 0x77, 0x72, 0x64, 0x00, 0x00,
];

#[test]
fn test_decode() {
    let data: Vec<u8> = vec![
        0x11, 0x00, 0x00, 0x00, 0x00, 0x00, 0x00, 0x00, 0x03, 0x00, 0x00, 0x00, 0x70, 0x61,
        0x73, 0x73, 0x77, 0x72, 0x64, 0x00, 0x00,
    ];
    let packet: Packet = decode_from_slice(&data).unwrap();
    assert_eq!(packet.id(), 0);
    assert_eq!(packet.packet_type(), PacketType::Auth);
    assert_eq!(packet.body().unwrap(), "passwrd");
}

#[test]
fn test_encode() {
    let packet = Packet::new(0, PacketType::Auth, "passwrd".into()).unwrap();
    let data = encode_to_vec(&packet).unwrap();
    assert_eq!(
        data,
        vec![
            0x11, 0x00, 0x00, 0x00, 0x00, 0x00, 0x00, 0x00, 0x03, 0x00, 0x00, 0x00, 0x70, 0x61,
            0x73, 0x73, 0x77, 0x72, 0x64, 0x00, 0x00
        ]
    );
}

#[test]
fn to_bytes_is_the_encoding() {
    let packet = Packet::new(0, PacketType::Auth, "passwrd".into()).unwrap();
    assert_eq!(packet.to_bytes(), PASSWRD_FRAME.to_vec());
}

#[test]
fn new_keeps_id_type_and_body() {
    let packet = Packet::new(-7, PacketType::ResponseValue, "hello".into()).unwrap();
    assert_eq!(packet.id(), -7);
    assert_eq!(packet.packet_type(), PacketType::ResponseValue);
    assert_eq!(packet.body().unwrap(), "hello");
    assert_eq!(packet.raw_body().as_bytes(), b"hello");
}

#[test]
fn new_refuses_text_with_nul() {
    let r = Packet::new(1, PacketType::ExecCommandOrAuthResponse, "say\0hi".into());
    assert_eq!(r.unwrap_err(), Error::InteriorNul);
    assert_eq!(Error::InteriorNul.kind(), ErrorKind::Encoding);
}

#[test]
fn new_takes_empty_text() {
    let packet = Packet::new(5, PacketType::AuthFailed, String::new()).unwrap();
    assert_eq!(packet.body().unwrap(), "");
    assert_eq!(
        packet.to_bytes(),
        vec![10, 0, 0, 0, 5, 0, 0, 0, 0xff, 0xff, 0xff, 0xff, 0, 0]
    );
}

#[test]
fn new_encodes_text_as_utf8() {
    let packet = Packet::new(1, PacketType::ResponseValue, "h\u{e9}".into()).unwrap();
    assert_eq!(packet.raw_body().as_bytes(), &[0x68, 0xc3, 0xa9]);
    assert_eq!(packet.body().unwrap(), "h\u{e9}");
}

#[test]
fn raw_body_refuses_nul() {
    assert_eq!(RawBody::new(vec![1, 0, 2]).unwrap_err(), Error::InteriorNul);
    assert_eq!(RawBody::new(vec![0]).unwrap_err(), Error::InteriorNul);
    assert_eq!(RawBody::new(vec![1, 2, 3]).unwrap().as_bytes(), &[1, 2, 3]);
    assert_eq!(RawBody::new(vec![]).unwrap().as_bytes(), &[] as &[u8]);
}

#[test]
fn raw_body_from_text() {
    assert_eq!(RawBody::from_text("abc").unwrap().as_bytes(), b"abc");
    assert_eq!(RawBody::from_text("a\0c").unwrap_err(), Error::InteriorNul);
}

#[test]
fn raw_body_clone_is_equal() {
    let body = RawBody::new(vec![9, 8, 7]).unwrap();
    assert_eq!(body.clone().as_bytes(), body.as_bytes());
}

#[test]
fn with_raw_body_keeps_bytes() {
    let body = RawBody::new(vec![0xff, 0xfe]).unwrap();
    let packet = Packet::with_raw_body(3, PacketType::ResponseValue, body);
    assert_eq!(packet.id(), 3);
    assert_eq!(packet.raw_body().as_bytes(), &[0xff, 0xfe]);
    assert_eq!(packet.into_raw_body().as_bytes(), &[0xff, 0xfe]);
}

#[test]
fn body_refuses_bytes_that_are_not_utf8() {
    let body = RawBody::new(vec![0xff, 0xfe]).unwrap();
    let packet = Packet::with_raw_body(3, PacketType::ResponseValue, body);
    assert_eq!(packet.body().unwrap_err(), Error::InvalidUtf8);
    assert_eq!(Error::InvalidUtf8.kind(), ErrorKind::Encoding);
}

#[test]
fn body_is_the_text_not_the_bytes() {
    let body = RawBody::new(vec![0xe2, 0x82, 0xac]).unwrap();
    let packet = Packet::with_raw_body(3, PacketType::ResponseValue, body);
    let text = packet.body().unwrap();
    assert_eq!(text, "\u{20ac}");
    assert_eq!(text.chars().count(), 1);
}

#[test]
fn type_codes() {
    assert_eq!(PacketType::Auth.code(), 3);
    assert_eq!(PacketType::ExecCommandOrAuthResponse.code(), 2);
    assert_eq!(PacketType::ResponseValue.code(), 0);
    assert_eq!(PacketType::AuthFailed.code(), -1);
}

#[test]
fn type_from_code() {
    assert_eq!(PacketType::try_from(3), Ok(PacketType::Auth));
    assert_eq!(PacketType::try_from(2), Ok(PacketType::ExecCommandOrAuthResponse));
    assert_eq!(PacketType::try_from(0), Ok(PacketType::ResponseValue));
    assert_eq!(PacketType::try_from(-1), Ok(PacketType::AuthFailed));
    assert_eq!(PacketType::try_from(1), Err(Error::InvalidType));
    assert_eq!(PacketType::try_from(4), Err(Error::InvalidType));
    assert_eq!(PacketType::try_from(-2), Err(Error::InvalidType));
    assert_eq!(PacketType::try_from(i32::MAX), Err(Error::InvalidType));
    assert_eq!(PacketType::try_from(i32::MIN), Err(Error::InvalidType));
}

#[test]
fn type_from_code_through_try_into() {
    let kind: Result<PacketType, Error> = 2i32.try_into();
    assert_eq!(kind, Ok(PacketType::ExecCommandOrAuthResponse));
}

#[test]
fn type_aliases() {
    assert_eq!(PacketType::AUTH, PacketType::Auth);
    assert_eq!(PacketType::EXEC_COMMAND, PacketType::ExecCommandOrAuthResponse);
    assert_eq!(PacketType::AUTH_RESPONSE, PacketType::ExecCommandOrAuthResponse);
    assert_eq!(PacketType::RESPONSE_VALUE, PacketType::ResponseValue);
    assert_eq!(PacketType::AUTH_FAILED, PacketType::AuthFailed);
}

#[test]
fn error_kinds() {
    assert_eq!(Error::ConnectFailed.kind(), ErrorKind::Transport);
    assert_eq!(Error::ReadFailed.kind(), ErrorKind::Transport);
    assert_eq!(Error::WriteFailed.kind(), ErrorKind::Transport);
    assert_eq!(Error::UnexpectedEof(3).kind(), ErrorKind::Transport);
    assert_eq!(Error::InvalidSize.kind(), ErrorKind::Framing);
    assert_eq!(Error::InvalidType.kind(), ErrorKind::Framing);
    assert_eq!(Error::MalformedBody.kind(), ErrorKind::Framing);
    assert_eq!(Error::MissingEmptyString.kind(), ErrorKind::Framing);
    assert_eq!(Error::BodyTooLong.kind(), ErrorKind::Framing);
    assert_eq!(Error::AuthRejected.kind(), ErrorKind::Protocol);
    assert_eq!(Error::OutOfTurn.kind(), ErrorKind::Protocol);
    assert_eq!(Error::InteriorNul.kind(), ErrorKind::Encoding);
    assert_eq!(Error::InvalidUtf8.kind(), ErrorKind::Encoding);
}

#[test]
fn error_messages() {
    assert_eq!(Error::InvalidSize.message(), "broken packet: invalid size");
    assert_eq!(Error::InvalidType.message(), "invalid packet type");
    assert_eq!(Error::MissingEmptyString.message(), "broken packet: expected empty string");
    assert_eq!(Error::BodyTooLong.message(), "broken packet: body too long");
    assert_eq!(Error::AuthRejected.message(), "authentication failure");
}
