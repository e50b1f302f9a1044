//! What holds of the wire format as a whole.

use crate::endian::{
    le_bytes, le_value, lemma_le_bytes_len, lemma_le_bytes_of_le_value,
    lemma_le_value_bound, lemma_le_value_of_le_bytes, lemma_radix_values,
    lemma_residue_of_signed, lemma_signed_of_residue, residue,
};
use crate::error::{Error, ErrorKind};
use crate::packet::{lemma_code_round_trip, nul_free, PacketType, PacketView};
use crate::serialize::Parsed;
use crate::wire::{
    int_at, lemma_parse_bounds, lemma_parse_prefix, lemma_run, lemma_run_is, parse_frame, run,
    size_field, wire_of,
};
use vstd::prelude::*;

verus! {

/// The parts of an encoding lie where the format puts them: twelve bytes of
/// header, the body, and two NULs.
pub proof fn lemma_wire_layout(packet: PacketView)
    ensures
        wire_of(packet).len() == 14 + packet.body.len(),
        wire_of(packet).subrange(0, 4) == le_bytes(size_field(packet.body.len()), 4),
        wire_of(packet).subrange(4, 8) == le_bytes(residue(packet.id as int, 4), 4),
        wire_of(packet).subrange(8, 12) == le_bytes(
            residue(packet.kind.spec_code() as int, 4),
            4,
        ),
        wire_of(packet).subrange(12, 12 + packet.body.len() as int) == packet.body,
        wire_of(packet)[12 + packet.body.len() as int] == 0,
        wire_of(packet)[13 + packet.body.len() as int] == 0,
        int_at(wire_of(packet), 4) == packet.id,
        int_at(wire_of(packet), 8) == packet.kind.spec_code(),
{
    let wire = wire_of(packet);
    let size = le_bytes(size_field(packet.body.len()), 4);
    let id = le_bytes(residue(packet.id as int, 4), 4);
    let code = le_bytes(residue(packet.kind.spec_code() as int, 4), 4);
    lemma_le_bytes_len(size_field(packet.body.len()), 4);
    lemma_le_bytes_len(residue(packet.id as int, 4), 4);
    lemma_le_bytes_len(residue(packet.kind.spec_code() as int, 4), 4);
    assert(wire.subrange(0, 4) =~= size);
    assert(wire.subrange(4, 8) =~= id);
    assert(wire.subrange(8, 12) =~= code);
    assert(wire.subrange(12, 12 + packet.body.len() as int) =~= packet.body);
    lemma_radix_values();
    lemma_signed_of_residue(packet.id as int, 4);
    lemma_le_value_of_le_bytes(residue(packet.id as int, 4), 4);
    lemma_signed_of_residue(packet.kind.spec_code() as int, 4);
    lemma_le_value_of_le_bytes(residue(packet.kind.spec_code() as int, 4), 4);
}

/// The size field of an encoding, read as a little-endian number, is the
/// number of bytes behind it, for every body whose frame a signed 32-bit
/// number can count.
pub proof fn lemma_size_field_exact(packet: PacketView)
    requires
        packet.body.len() + 10 <= i32::MAX,
    ensures
        int_at(wire_of(packet), 0) == wire_of(packet).len() - 4,
{
    lemma_wire_layout(packet);
    lemma_radix_values();
    lemma_le_value_of_le_bytes(size_field(packet.body.len()), 4);
}

/// Decoding undoes encoding: a strict reader finds in the encoding of a
/// packet, whatever follows it, that packet and nothing else, for every id,
/// every kind and every NUL-free body of less than 4096 bytes.
pub proof fn lemma_round_trip(packet: PacketView, rest: Seq<u8>)
    requires
        nul_free(packet.body),
        packet.body.len() < 4096,
    ensures
        parse_frame(wire_of(packet) + rest, false) == (Parsed::Value {
            value: packet,
            used: wire_of(packet).len(),
        }),
{
    let wire = wire_of(packet);
    let len = packet.body.len() as int;
    lemma_wire_layout(packet);
    lemma_size_field_exact(packet);
    lemma_code_round_trip(packet.kind, packet.kind.spec_code() as int);
    let raw = wire.subrange(12, 13 + len);
    assert forall|i: int| 0 <= i < len implies raw[i] != 0 by {
        assert(raw[i] == wire.subrange(12, 12 + len)[i]);
    }
    lemma_run_is(raw, len as nat);
    assert(parse_frame(wire, false) == (Parsed::Value { value: packet, used: wire.len() }));
    assert((wire + rest).take(wire.len() as int) =~= wire);
    lemma_parse_prefix(wire + rest, wire.len() as int, false);
}

/// A lenient reader undoes encoding too, for every id, every kind and every
/// NUL-free body of up to 4096 bytes.
pub proof fn lemma_round_trip_lenient(packet: PacketView, rest: Seq<u8>)
    requires
        nul_free(packet.body),
        packet.body.len() <= 4096,
    ensures
        parse_frame(wire_of(packet) + rest, true) == (Parsed::Value {
            value: packet,
            used: wire_of(packet).len(),
        }),
{
    let wire = wire_of(packet);
    let len = packet.body.len() as int;
    lemma_wire_layout(packet);
    lemma_code_round_trip(packet.kind, packet.kind.spec_code() as int);
    let window = wire.skip(12);
    assert forall|i: int| 0 <= i < len implies window[i] != 0 by {
        assert(window[i] == wire.subrange(12, 12 + len)[i]);
    }
    lemma_run_is(window, len as nat);
    assert(parse_frame(wire, true) == (Parsed::Value { value: packet, used: wire.len() }));
    assert((wire + rest).take(wire.len() as int) =~= wire);
    lemma_parse_prefix(wire + rest, wire.len() as int, true);
}

/// A strict reader refuses every size field that declares a body, counted
/// with its NUL, of less than one byte or of more than 4096, whatever else
/// the buffer holds.
pub proof fn lemma_rejects_bad_size(bytes: Seq<u8>)
    requires
        bytes.len() >= 4,
        int_at(bytes, 0) - 9 <= 0 || int_at(bytes, 0) - 9 > 4096,
    ensures
        parse_frame(bytes, false) == (Parsed::<PacketView>::Malformed {
            error: Error::InvalidSize,
        }),
        Error::InvalidSize.kind() == ErrorKind::Framing,
{
}

/// Both readers refuse every type code but 3, 2, 0 and -1 with a framing
/// error, and with the one that names the type unless the size field was
/// refused first.
pub proof fn lemma_rejects_unknown_type(bytes: Seq<u8>, lenient: bool)
    requires
        bytes.len() >= 12,
        int_at(bytes, 8) != 3,
        int_at(bytes, 8) != 2,
        int_at(bytes, 8) != 0,
        int_at(bytes, 8) != -1,
    ensures
        parse_frame(bytes, lenient) matches Parsed::Malformed { error } && error.kind()
            == ErrorKind::Framing,
        lenient || 0 < int_at(bytes, 0) - 9 <= 4096 ==> parse_frame(bytes, lenient) == (
        Parsed::<PacketView>::Malformed { error: Error::InvalidType }),
{
}

/// A strict reader refuses with a framing error every buffer that holds a
/// whole frame by its own size field and whose last byte of that frame, the
/// empty second string, is not NUL; where nothing before that byte is
/// wrong, the error names it.
pub proof fn lemma_rejects_missing_empty_string(bytes: Seq<u8>)
    requires
        bytes.len() >= 4,
        bytes.len() >= 4 + int_at(bytes, 0),
        0 <= 3 + int_at(bytes, 0) ==> bytes[3 + int_at(bytes, 0)] != 0,
    ensures
        parse_frame(bytes, false) matches Parsed::Malformed { error } && error.kind()
            == ErrorKind::Framing,
        ({
            let declared = int_at(bytes, 0) - 9;
            &&& 0 < declared <= 4096
            &&& PacketType::of_code(int_at(bytes, 8)) is Some
            &&& run(bytes.subrange(12, 12 + declared)) == declared - 1
        }) ==> parse_frame(bytes, false) == (Parsed::<PacketView>::Malformed {
            error: Error::MissingEmptyString,
        }),
{
    lemma_parse_bounds(bytes, false);
}

/// What a strict reader accepts, a lenient reader accepts as the same
/// packet.
pub proof fn lemma_lenient_accepts_strict(bytes: Seq<u8>)
    requires
        parse_frame(bytes, false) is Value,
    ensures
        parse_frame(bytes, true) == parse_frame(bytes, false),
{
    lemma_parse_bounds(bytes, false);
    let declared = int_at(bytes, 0) - 9;
    let raw = bytes.subrange(12, 12 + declared);
    let window = bytes.skip(12);
    lemma_run(raw);
    assert forall|i: int| 0 <= i < declared - 1 implies window[i] != 0 by {
        assert(window[i] == raw[i]);
    }
    assert(window[declared - 1] == raw[declared - 1]);
    lemma_run_is(window, (declared - 1) as nat);
}

/// Encoding undoes strict decoding: the bytes in which a strict reader
/// finds a packet are the encoding of that packet, so no two byte strings
/// stand for one packet.
pub proof fn lemma_strict_parse_is_canonical(bytes: Seq<u8>)
    requires
        parse_frame(bytes, false) is Value,
    ensures
        wire_of(parse_frame(bytes, false)->value) == bytes.take(
            parse_frame(bytes, false)->used as int,
        ),
{
    let packet = parse_frame(bytes, false)->value;
    let used = parse_frame(bytes, false)->used as int;
    lemma_parse_bounds(bytes, false);
    lemma_radix_values();
    let size = bytes.subrange(0, 4);
    let id = bytes.subrange(4, 8);
    let code = bytes.subrange(8, 12);
    lemma_le_value_bound(size);
    lemma_le_value_bound(id);
    lemma_le_value_bound(code);
    lemma_le_bytes_of_le_value(size);
    lemma_le_bytes_of_le_value(id);
    lemma_le_bytes_of_le_value(code);
    lemma_residue_of_signed(le_value(id), 4);
    lemma_residue_of_signed(le_value(code), 4);
    assert(size_field(packet.body.len()) == le_value(size));
    assert(residue(packet.id as int, 4) == le_value(id));
    assert(residue(packet.kind.spec_code() as int, 4) == le_value(code));
    assert(wire_of(packet) =~= bytes.take(used));
}

} // verus!
