//! The wire format of a packet, and the two ways of reading it.
//!
//! All integers are little-endian:
//!
//! ```text
//! +----------+----------+----------+------------------------+------+
//! | size:i32 | id:i32   | type:i32 | body (NUL-terminated)  | 0x00 |
//! +----------+----------+----------+------------------------+------+
//! ```
//!
//! `size` counts every byte behind itself. A strict reader trusts it; a
//! lenient reader ignores it and looks for the NUL that ends the body.

use crate::endian::{
    from_le_bytes, le_bytes, le_value, lemma_le_value_bound, lemma_radix_values, residue,
    signed,
};
use crate::error::{Error, ErrorKind};
use crate::packet::{nul_free, Packet, PacketType, PacketView, RawBody};
use crate::serialize::Parsed;
use vstd::prelude::*;
use vstd::slice::{slice_subrange, slice_to_vec};

verus! {

/// The longest body that is accepted, counted without its NUL by a lenient
/// reader and with it by a strict one.
pub const MAX_BODY: usize = 4096;

/// The longest frame that either reader accepts.
pub const MAX_FRAME: usize = 4110;

/// The number of bytes at the head of `bytes` that come before the first
/// NUL; all of them, if there is none.
pub open spec fn run(bytes: Seq<u8>) -> nat
    decreases bytes.len(),
{
    if bytes.len() == 0 || bytes[0] == 0 {
        0
    } else {
        1 + run(bytes.drop_first())
    }
}

/// The signed 32-bit number that stands at offset `at` of `bytes`.
pub open spec fn int_at(bytes: Seq<u8>, at: int) -> int {
    signed(le_value(bytes.subrange(at, at + 4)), 4)
}

/// What the size field holds for a body of `len` bytes: the count of all
/// bytes behind the field, cut to 32 bits.
pub open spec fn size_field(len: nat) -> nat {
    (len + 10) % 0x1_0000_0000
}

/// The bytes that stand for a packet: size, id, type code, the body with its
/// NUL, and the NUL of the empty second string.
pub open spec fn wire_of(packet: PacketView) -> Seq<u8> {
    le_bytes(size_field(packet.body.len()), 4) + le_bytes(residue(packet.id as int, 4), 4)
        + le_bytes(residue(packet.kind.spec_code() as int, 4), 4) + packet.body + seq![0u8]
        + seq![0u8]
}

/// What the head of `bytes` holds, read as one packet.
///
/// A strict reader refuses a size field that declares a body, counted with
/// its NUL, of less than one byte or more than `MAX_BODY`, and then takes
/// exactly that many bytes as the body. A lenient reader takes the body to
/// end at the first NUL and gives up once more than `MAX_BODY` bytes have
/// come without one. Both refuse an unknown type code, and both want the NUL
/// of the empty string behind the body.
pub open spec fn parse_frame(bytes: Seq<u8>, lenient: bool) -> Parsed<PacketView> {
    if bytes.len() < 4 {
        Parsed::Short { missing: (4 - bytes.len()) as nat }
    } else if !lenient && !(0 < int_at(bytes, 0) - 9 <= 4096) {
        Parsed::Malformed { error: Error::InvalidSize }
    } else if bytes.len() < 12 {
        Parsed::Short { missing: (12 - bytes.len()) as nat }
    } else {
        match PacketType::of_code(int_at(bytes, 8)) {
            None => Parsed::Malformed { error: Error::InvalidType },
            Some(kind) => {
                let id = int_at(bytes, 4) as i32;
                if lenient {
                    let found = run(bytes.skip(12));
                    if found > 4096 {
                        Parsed::Malformed { error: Error::BodyTooLong }
                    } else if 12 + found >= bytes.len() {
                        Parsed::Short { missing: 1 }
                    } else {
                        parse_tail(bytes, id, kind, found as int)
                    }
                } else {
                    let declared = int_at(bytes, 0) - 9;
                    if bytes.len() < 12 + declared {
                        Parsed::Short { missing: (12 + declared - bytes.len()) as nat }
                    } else if run(bytes.subrange(12, 12 + declared)) != declared - 1 {
                        Parsed::Malformed { error: Error::MalformedBody }
                    } else {
                        parse_tail(bytes, id, kind, declared - 1)
                    }
                }
            },
        }
    }
}

/// What `bytes` hold behind a body of `len` bytes that starts at offset 12
/// and is followed by its NUL.
pub open spec fn parse_tail(bytes: Seq<u8>, id: i32, kind: PacketType, len: int) -> Parsed<
    PacketView,
> {
    if bytes.len() < 14 + len {
        Parsed::Short { missing: 1 }
    } else if bytes[13 + len] != 0 {
        Parsed::Malformed { error: Error::MissingEmptyString }
    } else {
        Parsed::Value {
            value: PacketView { id, kind, body: bytes.subrange(12, 12 + len) },
            used: (14 + len) as nat,
        }
    }
}

/// What `run` counts: the bytes before it are not NUL, the byte at it is,
/// if there is one.
pub proof fn lemma_run(bytes: Seq<u8>)
    ensures
        run(bytes) <= bytes.len(),
        forall|i: int| 0 <= i < run(bytes) ==> bytes[i] != 0,
        run(bytes) < bytes.len() ==> bytes[run(bytes) as int] == 0,
    decreases bytes.len(),
{
    if bytes.len() != 0 && bytes[0] != 0 {
        let rest = bytes.drop_first();
        lemma_run(rest);
        assert forall|i: int| 0 <= i < run(bytes) implies bytes[i] != 0 by {
            if i > 0 {
                assert(bytes[i] == rest[i - 1]);
            }
        }
    }
}

/// `run` is the only number of which that holds.
pub proof fn lemma_run_is(bytes: Seq<u8>, count: nat)
    requires
        count <= bytes.len(),
        forall|i: int| 0 <= i < count ==> bytes[i] != 0,
        count < bytes.len() ==> bytes[count as int] == 0,
    ensures
        run(bytes) == count,
{
    lemma_run(bytes);
    if run(bytes) < count {
        assert(bytes[run(bytes) as int] == 0);
    }
}

/// Cutting a byte string short cuts its run short and changes nothing else.
pub proof fn lemma_run_take(bytes: Seq<u8>, keep: int)
    requires
        0 <= keep <= bytes.len(),
    ensures
        run(bytes.take(keep)) == if run(bytes) < keep {
            run(bytes)
        } else {
            keep as nat
        },
{
    lemma_run(bytes);
    let count = if run(bytes) < keep {
        run(bytes)
    } else {
        keep as nat
    };
    lemma_run_is(bytes.take(keep), count);
}

/// The length of the run of bytes before the first NUL in `bytes[from..to]`.
pub(crate) fn run_len(bytes: &[u8], from: usize, to: usize) -> (count: usize)
    requires
        from <= to <= bytes@.len(),
    ensures
        count == run(bytes@.subrange(from as int, to as int)),
{
    let ghost window = bytes@.subrange(from as int, to as int);
    let mut at: usize = from;
    while at < to && bytes[at] != 0
        invariant
            from <= at <= to <= bytes@.len(),
            window == bytes@.subrange(from as int, to as int),
            forall|i: int| 0 <= i < at - from ==> window[i] != 0,
        decreases to - at,
    {
        at += 1;
    }
    proof {
        lemma_run_is(window, (at - from) as nat);
    }
    at - from
}

/// The signed 32-bit number that stands at offset `at` of `bytes`.
pub(crate) fn i32_at(bytes: &[u8], at: usize) -> (value: i32)
    requires
        at + 4 <= bytes@.len(),
    ensures
        value == int_at(bytes@, at as int),
{
    assert(at + 4 <= bytes.len());
    let n = from_le_bytes(slice_subrange(bytes, at, at + 4));
    proof {
        lemma_le_value_bound(bytes@.subrange(at as int, at + 4));
        lemma_radix_values();
    }
    if n >= 0x8000_0000 {
        (n as i64 - 0x1_0000_0000) as i32
    } else {
        n as i32
    }
}

/// How far a buffer has come towards holding one packet.
#[derive(Debug)]
pub enum Scan {
    /// The first `used` bytes of the buffer are this packet.
    Complete { packet: Packet, used: usize },
    /// The buffer stops too early: read exactly `missing` more bytes, append
    /// them and scan again.
    Incomplete { missing: usize },
}

/// How the result of a scan relates to what the scanned bytes hold.
pub open spec fn scan_agrees(parsed: Parsed<PacketView>, r: Result<Scan, Error>) -> bool {
    match parsed {
        Parsed::Value { value, used } => {
            &&& r matches Ok(Scan::Complete { packet, used: u })
            &&& packet@ == value
            &&& u == used
        },
        Parsed::Malformed { error } => r matches Err(e) && e == error,
        Parsed::Short { missing } => r matches Ok(Scan::Incomplete { missing: m }) && m
            == missing,
    }
}

/// Says what the bytes read so far hold: a packet, a fault, or the number of
/// bytes that the next exact read has to bring.
pub fn scan_frame(bytes: &[u8], lenient: bool) -> (r: Result<Scan, Error>)
    ensures
        scan_agrees(parse_frame(bytes@, lenient), r),
{
    let len = bytes.len();
    if len < 4 {
        return Ok(Scan::Incomplete { missing: 4 - len });
    }
    let size = i32_at(bytes, 0);
    if !lenient && (size <= 9 || size > 4105) {
        return Err(Error::InvalidSize);
    }
    if len < 12 {
        return Ok(Scan::Incomplete { missing: 12 - len });
    }
    let id = i32_at(bytes, 4);
    let code = i32_at(bytes, 8);
    let kind = match PacketType::try_from(code) {
        Ok(kind) => kind,
        Err(e) => {
            return Err(e);
        },
    };
    let body_len: usize;
    if lenient {
        let end = if len - 12 > 4097 {
            12 + 4097
        } else {
            len
        };
        let found = run_len(bytes, 12, end);
        proof {
            lemma_run_take(bytes@.skip(12), end - 12);
            assert(bytes@.skip(12).take(end - 12) =~= bytes@.subrange(12, end as int));
            lemma_run(bytes@.subrange(12, end as int));
        }
        if found > 4096 {
            return Err(Error::BodyTooLong);
        }
        if 12 + found >= len {
            return Ok(Scan::Incomplete { missing: 1 });
        }
        body_len = found;
        proof {
            let body = bytes@.subrange(12, 12 + body_len);
            assert forall|i: int| 0 <= i < body.len() implies body[i] != 0 by {
                assert(body[i] == bytes@.subrange(12, end as int)[i]);
            }
        }
    } else {
        let declared = (size - 9) as usize;
        if len - 12 < declared {
            return Ok(Scan::Incomplete { missing: 12 + declared - len });
        }
        let found = run_len(bytes, 12, 12 + declared);
        if found != declared - 1 {
            return Err(Error::MalformedBody);
        }
        body_len = found;
        proof {
            let raw = bytes@.subrange(12, 12 + declared);
            let body = bytes@.subrange(12, 12 + body_len);
            lemma_run(raw);
            assert forall|i: int| 0 <= i < body.len() implies body[i] != 0 by {
                assert(body[i] == raw[i]);
            }
        }
    }
    if len < 14 + body_len {
        return Ok(Scan::Incomplete { missing: 1 });
    }
    if bytes[13 + body_len] != 0 {
        return Err(Error::MissingEmptyString);
    }
    let body = RawBody::from_clean(slice_to_vec(slice_subrange(bytes, 12, 12 + body_len)));
    Ok(Scan::Complete { packet: Packet::with_raw_body(id, kind, body), used: 14 + body_len })
}

/// The number at `at` is the same in a byte string and in any head of it
/// that reaches behind the number.
pub proof fn lemma_int_at_take(bytes: Seq<u8>, keep: int, at: int)
    requires
        0 <= at,
        at + 4 <= keep <= bytes.len(),
    ensures
        int_at(bytes.take(keep), at) == int_at(bytes, at),
{
    assert(bytes.take(keep).subrange(at, at + 4) =~= bytes.subrange(at, at + 4));
}

/// The number at `at` fits 32 bits.
pub proof fn lemma_int_at_bounds(bytes: Seq<u8>, at: int)
    requires
        0 <= at,
        at + 4 <= bytes.len(),
    ensures
        -0x8000_0000 <= int_at(bytes, at) < 0x8000_0000,
{
    lemma_le_value_bound(bytes.subrange(at, at + 4));
    lemma_radix_values();
}

/// What a reading of `bytes` implies about their number: a packet takes at
/// least 14 bytes, no more than are there and no more than `MAX_FRAME`, and
/// its body is what lies between the header and the two NULs; a reader that
/// wants more wants at least one byte and never reaches past `MAX_FRAME`.
pub proof fn lemma_parse_bounds(bytes: Seq<u8>, lenient: bool)
    ensures
        match parse_frame(bytes, lenient) {
            Parsed::Value { value, used } => {
                &&& 14 <= used <= bytes.len()
                &&& used <= MAX_FRAME
                &&& used == 14 + value.body.len()
                &&& value.body == bytes.subrange(12, used - 2)
                &&& nul_free(value.body)
                &&& bytes[used - 2] == 0
                &&& bytes[used - 1] == 0
                &&& value.id == int_at(bytes, 4)
                &&& value.kind.spec_code() == int_at(bytes, 8)
                &&& !lenient ==> int_at(bytes, 0) == used - 4
            },
            Parsed::Malformed { error } => error.kind() == ErrorKind::Framing,
            Parsed::Short { missing } => 1 <= missing && bytes.len() + missing <= MAX_FRAME,
        },
{
    if bytes.len() >= 12 {
        lemma_int_at_bounds(bytes, 0);
        lemma_int_at_bounds(bytes, 4);
        let declared = int_at(bytes, 0) - 9;
        if lenient {
            let window = bytes.skip(12);
            lemma_run(window);
            let found = run(window) as int;
            if found <= 4096 && 12 + found < bytes.len() {
                let body = bytes.subrange(12, 12 + found);
                assert forall|i: int| 0 <= i < body.len() implies body[i] != 0 by {
                    assert(body[i] == window[i]);
                }
                assert(window[found] == bytes[12 + found]);
            }
        } else if 0 < declared <= 4096 && bytes.len() >= 12 + declared {
            let raw = bytes.subrange(12, 12 + declared);
            lemma_run(raw);
            if run(raw) == declared - 1 {
                let body = bytes.subrange(12, 11 + declared);
                assert forall|i: int| 0 <= i < body.len() implies body[i] != 0 by {
                    assert(body[i] == raw[i]);
                }
                assert(raw[declared - 1] == bytes[11 + declared]);
            }
        }
    }
}

/// Bytes behind a packet or behind a fault change nothing, and a reader
/// that wants more than there is goes on wanting: what a head of `bytes`
/// holds, `bytes` hold too, unless the head stops too early and `bytes`
/// bring what is missing.
pub proof fn lemma_parse_prefix(bytes: Seq<u8>, keep: int, lenient: bool)
    requires
        0 <= keep <= bytes.len(),
    ensures
        match parse_frame(bytes.take(keep), lenient) {
            Parsed::Value { value, used } => parse_frame(bytes, lenient) == (Parsed::Value {
                value,
                used,
            }),
            Parsed::Malformed { error } => parse_frame(bytes, lenient) == (Parsed::<
                PacketView,
            >::Malformed { error }),
            Parsed::Short { missing } => bytes.len() < keep + missing ==> parse_frame(
                bytes,
                lenient,
            ) == (Parsed::<PacketView>::Short {
                missing: (keep + missing - bytes.len()) as nat,
            }),
        },
{
    let head = bytes.take(keep);
    if keep >= 4 {
        lemma_int_at_take(bytes, keep, 0);
    }
    if keep >= 12 {
        lemma_int_at_take(bytes, keep, 4);
        lemma_int_at_take(bytes, keep, 8);
        if lenient {
            lemma_run_take(bytes.skip(12), keep - 12);
            assert(head.skip(12) =~= bytes.skip(12).take(keep - 12));
            let found = run(head.skip(12)) as int;
            if found <= 4096 && 12 + found < keep {
                assert(head.subrange(12, 12 + found) =~= bytes.subrange(12, 12 + found));
            }
        } else {
            let declared = int_at(bytes, 0) - 9;
            if 0 < declared <= 4096 && keep >= 12 + declared {
                assert(head.subrange(12, 12 + declared) =~= bytes.subrange(12, 12 + declared));
                assert(head.subrange(12, 11 + declared) =~= bytes.subrange(12, 11 + declared));
            }
        }
    }
    if bytes.len() == keep {
        assert(head =~= bytes);
    }
}

/// An exact reader never reads past a packet: where a head of `bytes` stops
/// too early and the next read brings just what is missing, a packet that
/// is then complete ends where the read ended.
pub proof fn lemma_parse_step(bytes: Seq<u8>, keep: int, lenient: bool)
    requires
        0 <= keep <= bytes.len(),
        parse_frame(bytes.take(keep), lenient) is Short,
        keep + parse_frame(bytes.take(keep), lenient)->missing <= bytes.len(),
    ensures
        parse_frame(
            bytes.take(keep + parse_frame(bytes.take(keep), lenient)->missing),
            lenient,
        ) matches Parsed::Value { value, used } ==> used == keep + parse_frame(
            bytes.take(keep),
            lenient,
        )->missing,
{
    let missing = parse_frame(bytes.take(keep), lenient)->missing as int;
    let next = bytes.take(keep + missing);
    assert(next.take(keep) =~= bytes.take(keep));
    lemma_parse_prefix(next, keep, lenient);
    lemma_parse_bounds(next, lenient);
    lemma_parse_bounds(next.take(keep), lenient);
    if parse_frame(next, lenient) is Value {
        let used = parse_frame(next, lenient)->used as int;
        if used < keep + missing {
            if used <= keep {
                // the packet would already be complete in the shorter head
                assert(next.take(keep).take(used) =~= next.take(used));
                lemma_parse_prefix(next, used, lenient);
                lemma_parse_whole(next, lenient);
                lemma_parse_prefix(next.take(keep), used, lenient);
            } else {
                lemma_parse_whole(next, lenient);
                assert(next.take(used).take(keep) =~= next.take(keep));
                lemma_parse_prefix(next.take(used), keep, lenient);
            }
        }
    }
}

/// A packet is held by the very bytes it takes: cutting `bytes` down to the
/// packet at their head leaves the packet.
pub proof fn lemma_parse_whole(bytes: Seq<u8>, lenient: bool)
    requires
        parse_frame(bytes, lenient) is Value,
    ensures
        parse_frame(bytes.take(parse_frame(bytes, lenient)->used as int), lenient)
            == parse_frame(bytes, lenient),
{
    lemma_parse_bounds(bytes, lenient);
    let used = parse_frame(bytes, lenient)->used as int;
    let head = bytes.take(used);
    lemma_int_at_take(bytes, used, 0);
    lemma_int_at_take(bytes, used, 4);
    lemma_int_at_take(bytes, used, 8);
    if lenient {
        lemma_run_take(bytes.skip(12), used - 12);
        assert(head.skip(12) =~= bytes.skip(12).take(used - 12));
        let found = run(bytes.skip(12)) as int;
        assert(head.subrange(12, 12 + found) =~= bytes.subrange(12, 12 + found));
    } else {
        let declared = int_at(bytes, 0) - 9;
        assert(head.subrange(12, 12 + declared) =~= bytes.subrange(12, 12 + declared));
        assert(head.subrange(12, 11 + declared) =~= bytes.subrange(12, 11 + declared));
    }
}

} // verus!
