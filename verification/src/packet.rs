//! The packet: the unit that travels between client and server.

use crate::error::Error;
use vstd::prelude::*;
use vstd::slice::slice_to_vec;
use vstd::std_specs::convert::TryFromSpecImpl;
use vstd::utf8::{encode_utf8, valid_utf8};

verus! {

/// What a packet is for. Each kind has a fixed code on the wire.
#[derive(Debug, Clone, Copy, PartialEq, Eq, Structural)]
pub enum PacketType {
    /// Client to server: here is the password.
    Auth,
    /// Client to server: run this command. Server to client: the outcome of
    /// the authentication.
    ExecCommandOrAuthResponse,
    /// Server to client: the output of a command.
    ResponseValue,
    /// Server to client: the password was refused.
    AuthFailed,
}

impl PacketType {
    pub const AUTH: Self = Self::Auth;

    pub const EXEC_COMMAND: Self = Self::ExecCommandOrAuthResponse;

    pub const AUTH_RESPONSE: Self = Self::ExecCommandOrAuthResponse;

    pub const RESPONSE_VALUE: Self = Self::ResponseValue;

    pub const AUTH_FAILED: Self = Self::AuthFailed;

    /// The code that stands for this kind on the wire.
    pub open spec fn spec_code(self) -> i32 {
        match self {
            PacketType::Auth => 3i32,
            PacketType::ExecCommandOrAuthResponse => 2i32,
            PacketType::ResponseValue => 0i32,
            PacketType::AuthFailed => -1i32,
        }
    }

    /// The code that stands for this kind on the wire.
    #[verifier::when_used_as_spec(spec_code)]
    pub fn code(self) -> (code: i32)
        ensures
            code == self.spec_code(),
    {
        match self {
            PacketType::Auth => 3,
            PacketType::ExecCommandOrAuthResponse => 2,
            PacketType::ResponseValue => 0,
            PacketType::AuthFailed => -1,
        }
    }

    /// The kind that `code` stands for, if it stands for one.
    pub open spec fn of_code(code: int) -> Option<PacketType> {
        if code == 3 {
            Some(PacketType::Auth)
        } else if code == 2 {
            Some(PacketType::ExecCommandOrAuthResponse)
        } else if code == 0 {
            Some(PacketType::ResponseValue)
        } else if code == -1 {
            Some(PacketType::AuthFailed)
        } else {
            None
        }
    }
}

impl TryFrom<i32> for PacketType {
    type Error = Error;

    /// The kind that `value` stands for. Any number but the four codes is
    /// refused; there is no kind to fall back on.
    fn try_from(value: i32) -> (r: Result<Self, Error>) {
        match value {
            3 => Ok(PacketType::Auth),
            2 => Ok(PacketType::ExecCommandOrAuthResponse),
            0 => Ok(PacketType::ResponseValue),
            -1 => Ok(PacketType::AuthFailed),
            _ => Err(Error::InvalidType),
        }
    }
}

impl TryFromSpecImpl<i32> for PacketType {
    open spec fn obeys_try_from_spec() -> bool {
        true
    }

    open spec fn try_from_spec(value: i32) -> Result<Self, Error> {
        match PacketType::of_code(value as int) {
            Some(kind) => Ok(kind),
            None => Err(Error::InvalidType),
        }
    }
}

/// A kind comes back from its code, and a code that has a kind is the code
/// of that kind.
pub proof fn lemma_code_round_trip(kind: PacketType, code: int)
    ensures
        PacketType::of_code(kind.spec_code() as int) == Some(kind),
        PacketType::of_code(code) matches Some(k) ==> k.spec_code() == code,
        PacketType::of_code(code) is Some <==> code == 3 || code == 2 || code == 0 || code == -1,
{
}

/// No byte of `bytes` is NUL.
pub open spec fn nul_free(bytes: Seq<u8>) -> bool {
    forall|i: int| 0 <= i < bytes.len() ==> bytes[i] != 0
}

/// The bytes of a body: any bytes but NUL, which ends the body on the wire.
#[derive(Debug)]
pub struct RawBody {
    bytes: Vec<u8>,
}

impl View for RawBody {
    type V = Seq<u8>;

    closed spec fn view(&self) -> Seq<u8> {
        self.bytes@
    }
}

impl RawBody {
    #[verifier::type_invariant]
    spec fn holds_no_nul(&self) -> bool {
        nul_free(self.bytes@)
    }

    /// A body of these bytes, unless one of them is NUL.
    pub fn new(bytes: Vec<u8>) -> (r: Result<RawBody, Error>)
        ensures
            nul_free(bytes@) ==> (r matches Ok(body) && body@ == bytes@),
            !nul_free(bytes@) ==> (r matches Err(e) && e == Error::InteriorNul),
    {
        let mut i: usize = 0;
        while i < bytes.len()
            invariant
                i <= bytes@.len(),
                nul_free(bytes@.take(i as int)),
            decreases bytes@.len() - i,
        {
            if bytes[i] == 0 {
                return Err(Error::InteriorNul);
            }
            proof {
                let upto = bytes@.take(i + 1);
                assert forall|k: int| 0 <= k < upto.len() implies upto[k] != 0 by {
                    if k < i {
                        assert(bytes@.take(i as int)[k] == upto[k]);
                    }
                }
            }
            i += 1;
        }
        proof {
            assert(bytes@.take(i as int) =~= bytes@);
        }
        Ok(RawBody { bytes })
    }

    /// A body of bytes that are known to hold no NUL.
    pub(crate) fn from_clean(bytes: Vec<u8>) -> (body: RawBody)
        requires
            nul_free(bytes@),
        ensures
            body@ == bytes@,
    {
        RawBody { bytes }
    }

    /// A body of the text `text` as UTF-8, unless it holds a NUL character.
    pub fn from_text(text: &str) -> (r: Result<RawBody, Error>)
        ensures
            nul_free(encode_utf8(text@)) ==> (r matches Ok(body) && body@ == encode_utf8(text@)),
            !nul_free(encode_utf8(text@)) ==> (r matches Err(e) && e == Error::InteriorNul),
    {
        RawBody::new(slice_to_vec(text.as_bytes()))
    }

    /// The bytes, without the NUL that follows them on the wire.
    pub fn as_bytes(&self) -> (bytes: &[u8])
        ensures
            bytes@ == self@,
            nul_free(self@),
    {
        proof {
            use_type_invariant(self);
        }
        self.bytes.as_slice()
    }
}

impl Clone for RawBody {
    fn clone(&self) -> (copy: Self)
        ensures
            copy@ == self@,
    {
        proof {
            use_type_invariant(self);
        }
        RawBody { bytes: slice_to_vec(self.bytes.as_slice()) }
    }
}

/// A packet as a plain value: what the contracts speak of.
pub struct PacketView {
    /// The number by which a response is matched to its request.
    pub id: i32,
    /// What the packet is for.
    pub kind: PacketType,
    /// The payload, without the NUL that ends it on the wire.
    pub body: Seq<u8>,
}

/// One packet of the protocol.
#[derive(Debug)]
pub struct Packet {
    id: i32,
    kind: PacketType,
    body: RawBody,
}

impl View for Packet {
    type V = PacketView;

    closed spec fn view(&self) -> PacketView {
        PacketView { id: self.id, kind: self.kind, body: self.body@ }
    }
}

/// `String::from_utf8`: the text that `bytes` spell, if they are UTF-8.
/// The standard library documents that the call succeeds exactly on valid
/// UTF-8 and that the string then holds the very bytes it was given.
#[verifier::external_body]
fn text_from_utf8(bytes: Vec<u8>) -> (text: Option<String>)
    ensures
        text is Some <==> valid_utf8(bytes@),
        text matches Some(s) ==> encode_utf8(s@) == bytes@,
{
    match String::from_utf8(bytes) {
        Ok(text) => Some(text),
        Err(_) => None,
    }
}

impl Packet {
    /// A packet whose body is `body` as UTF-8. Text that holds a NUL
    /// character has no place in a packet and is refused.
    pub fn new(id: i32, kind: PacketType, body: String) -> (r: Result<Packet, Error>)
        ensures
            nul_free(encode_utf8(body@)) ==> (r matches Ok(packet) && packet@ == (PacketView {
                id,
                kind,
                body: encode_utf8(body@),
            })),
            !nul_free(encode_utf8(body@)) ==> (r matches Err(e) && e == Error::InteriorNul),
    {
        match RawBody::from_text(body.as_str()) {
            Ok(body) => Ok(Packet { id, kind, body }),
            Err(e) => Err(e),
        }
    }

    /// A packet with the given body.
    pub fn with_raw_body(id: i32, kind: PacketType, body: RawBody) -> (packet: Packet)
        ensures
            packet@ == (PacketView { id, kind, body: body@ }),
    {
        Packet { id, kind, body }
    }

    /// The number by which a response is matched to its request.
    pub fn id(&self) -> (id: i32)
        ensures
            id == self@.id,
    {
        self.id
    }

    /// What the packet is for.
    pub fn packet_type(&self) -> (kind: PacketType)
        ensures
            kind == self@.kind,
    {
        self.kind
    }

    /// The body as text, if it is UTF-8.
    pub fn body(&self) -> (r: Result<String, Error>)
        ensures
            valid_utf8(self@.body) ==> (r matches Ok(text) && encode_utf8(text@) == self@.body),
            !valid_utf8(self@.body) ==> (r matches Err(e) && e == Error::InvalidUtf8),
    {
        match text_from_utf8(slice_to_vec(self.body.as_bytes())) {
            Some(text) => Ok(text),
            None => Err(Error::InvalidUtf8),
        }
    }

    /// The body as bytes, out of the packet.
    pub fn into_raw_body(self) -> (body: RawBody)
        ensures
            body@ == self@.body,
    {
        self.body
    }

    /// The body as bytes.
    pub fn raw_body(&self) -> (body: &RawBody)
        ensures
            body@ == self@.body,
            nul_free(self@.body),
    {
        proof {
            use_type_invariant(&self.body);
        }
        &self.body
    }
}

/// Text survives the way through a packet: the body of a packet made from
/// `text` reads back as `text`.
pub proof fn lemma_text_round_trip(text: Seq<char>, read: Seq<char>)
    requires
        encode_utf8(read) == encode_utf8(text),
    ensures
        valid_utf8(encode_utf8(text)),
        read == text,
{
    vstd::utf8::encode_utf8_valid_utf8(text);
    vstd::utf8::encode_utf8_decode_utf8(text);
    vstd::utf8::encode_utf8_decode_utf8(read);
}

} // verus!
