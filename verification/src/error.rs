//! The failures the library reports, grouped by where they arise.

use vstd::prelude::*;

verus! {

/// The four families a failure belongs to. A caller that only wants to tell
/// "bad password" from "network trouble" looks at the family.
#[derive(Clone, Copy, Debug, PartialEq, Eq, Structural)]
pub enum ErrorKind {
    /// The byte channel could not be opened, failed, or ran dry.
    Transport,
    /// The bytes on the wire do not form a packet.
    Framing,
    /// The peer answered, but not as the handshake allows.
    Protocol,
    /// Text that cannot be put on the wire, or a body that is not text.
    Encoding,
}

/// Every failure the library can report.
#[derive(Clone, Copy, Debug, PartialEq, Eq, Structural)]
pub enum Error {
    /// The connection to the endpoint could not be established.
    ConnectFailed,
    /// Reading from the channel failed.
    ReadFailed,
    /// Writing to the channel failed.
    WriteFailed,
    /// The channel ended before the requested bytes had arrived; so many
    /// of them were still outstanding.
    UnexpectedEof(usize),
    /// The size field declares a body that is empty, negative or over the limit.
    InvalidSize,
    /// The type field holds none of the four known codes.
    InvalidType,
    /// The body does not end in its NUL, or holds a NUL before its end.
    MalformedBody,
    /// The byte after the body, the empty second string, is not NUL.
    MissingEmptyString,
    /// No NUL was found within the longest body that is accepted.
    BodyTooLong,
    /// The peer refused the password.
    AuthRejected,
    /// The driver reported something the session was not waiting for.
    OutOfTurn,
    /// The text holds a NUL character and cannot become a body.
    InteriorNul,
    /// The body is not valid UTF-8 and cannot become text.
    InvalidUtf8,
}

impl Error {
    /// The family of this failure.
    pub open spec fn spec_kind(self) -> ErrorKind {
        match self {
            Error::ConnectFailed
            | Error::ReadFailed
            | Error::WriteFailed
            | Error::UnexpectedEof(_) => ErrorKind::Transport,
            Error::InvalidSize
            | Error::InvalidType
            | Error::MalformedBody
            | Error::MissingEmptyString
            | Error::BodyTooLong => ErrorKind::Framing,
            Error::AuthRejected | Error::OutOfTurn => ErrorKind::Protocol,
            Error::InteriorNul | Error::InvalidUtf8 => ErrorKind::Encoding,
        }
    }

    /// The family of this failure.
    #[verifier::when_used_as_spec(spec_kind)]
    pub fn kind(self) -> (kind: ErrorKind)
        ensures
            kind == self.spec_kind(),
    {
        match self {
            Error::ConnectFailed
            | Error::ReadFailed
            | Error::WriteFailed
            | Error::UnexpectedEof(_) => ErrorKind::Transport,
            Error::InvalidSize
            | Error::InvalidType
            | Error::MalformedBody
            | Error::MissingEmptyString
            | Error::BodyTooLong => ErrorKind::Framing,
            Error::AuthRejected | Error::OutOfTurn => ErrorKind::Protocol,
            Error::InteriorNul | Error::InvalidUtf8 => ErrorKind::Encoding,
        }
    }

    /// The sentence shown to a person for this failure.
    pub open spec fn spec_message(self) -> &'static str {
        match self {
            Error::ConnectFailed => "connection failed",
            Error::ReadFailed => "read failed",
            Error::WriteFailed => "write failed",
            Error::UnexpectedEof(_) => "unexpected end of stream",
            Error::InvalidSize => "broken packet: invalid size",
            Error::InvalidType => "invalid packet type",
            Error::MalformedBody => "broken packet: body is not a NUL-terminated string",
            Error::MissingEmptyString => "broken packet: expected empty string",
            Error::BodyTooLong => "broken packet: body too long",
            Error::AuthRejected => "authentication failure",
            Error::OutOfTurn => "event does not answer the pending action",
            Error::InteriorNul => "text contains a NUL character",
            Error::InvalidUtf8 => "body is not valid UTF-8",
        }
    }

    /// The sentence shown to a person for this failure.
    #[verifier::when_used_as_spec(spec_message)]
    pub fn message(self) -> (text: &'static str)
        ensures
            text == self.spec_message(),
    {
        match self {
            Error::ConnectFailed => "connection failed",
            Error::ReadFailed => "read failed",
            Error::WriteFailed => "write failed",
            Error::UnexpectedEof(_) => "unexpected end of stream",
            Error::InvalidSize => "broken packet: invalid size",
            Error::InvalidType => "invalid packet type",
            Error::MalformedBody => "broken packet: body is not a NUL-terminated string",
            Error::MissingEmptyString => "broken packet: expected empty string",
            Error::BodyTooLong => "broken packet: body too long",
            Error::AuthRejected => "authentication failure",
            Error::OutOfTurn => "event does not answer the pending action",
            Error::InteriorNul => "text contains a NUL character",
            Error::InvalidUtf8 => "body is not valid UTF-8",
        }
    }
}

} // verus!
