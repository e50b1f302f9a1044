//! The packet as a value with an encoding: writing it whole, and reading it
//! from a source by exact reads.

use crate::endian::{le_bytes, lemma_radix_values, residue, to_le_bytes};
use crate::error::Error;
use crate::packet::{Packet, PacketView};
use crate::serialize::{decode_agrees, Decode, Decoder, Encode, Encoder, Parsed};
use crate::wire::{
    lemma_parse_bounds, lemma_parse_prefix, lemma_parse_step, parse_frame, scan_agrees,
    scan_frame, size_field, wire_of, Scan, MAX_FRAME,
};
use vstd::prelude::*;

verus! {

/// The digits of `value` in two's complement of four bytes.
fn le_bytes_of_i32(value: i32) -> (bytes: Vec<u8>)
    ensures
        bytes@ == le_bytes(residue(value as int, 4), 4),
{
    proof {
        lemma_radix_values();
    }
    let n: u64 = if value < 0 {
        (value as i64 + 0x1_0000_0000) as u64
    } else {
        value as u64
    };
    to_le_bytes(n, 4)
}

impl Packet {
    /// The bytes that stand for this packet on the wire. The size field
    /// holds the count of the bytes behind it, cut to 32 bits.
    pub fn to_bytes(&self) -> (bytes: Vec<u8>)
        ensures
            bytes@ == wire_of(self@),
    {
        let body = self.raw_body().as_bytes();
        let size: u64 = (body.len() as u64 % 0x1_0000_0000 + 10) % 0x1_0000_0000;
        assert(size == size_field(body@.len()));
        let mut bytes = to_le_bytes(size, 4);
        let id = le_bytes_of_i32(self.id());
        let code = le_bytes_of_i32(self.packet_type().code());
        bytes.extend_from_slice(id.as_slice());
        bytes.extend_from_slice(code.as_slice());
        bytes.extend_from_slice(body);
        bytes.push(0);
        bytes.push(0);
        assert(bytes@ =~= wire_of(self@));
        bytes
    }

    /// Says what the bytes read so far hold, for a reader that trusts the
    /// size field: a packet, a fault, or the number of bytes that the next
    /// exact read has to bring.
    pub fn scan(bytes: &[u8]) -> (r: Result<Scan, Error>)
        ensures
            scan_agrees(parse_frame(bytes@, false), r),
    {
        scan_frame(bytes, false)
    }
}

/// Reads one packet from `decoder` by exact reads, each sized by what the
/// bytes before it say, so that no byte behind the packet is taken.
pub fn read_frame<D: Decoder>(decoder: &mut D, lenient: bool) -> (r: Result<Packet, Error>)
    ensures
        decode_agrees(
            parse_frame(old(decoder).remaining(), lenient),
            old(decoder).steady(),
            old(decoder).remaining(),
            match r {
                Ok(packet) => Ok(packet@),
                Err(e) => Err(e),
            },
            final(decoder).remaining(),
        ),
        final(decoder).steady() == old(decoder).steady(),
{
    let ghost before = decoder.remaining();
    let ghost steady = decoder.steady();
    let mut taken: Vec<u8> = Vec::new();
    proof {
        assert(taken@ =~= before.take(0));
        assert(before.skip(0) =~= before);
        lemma_parse_bounds(taken@, lenient);
    }
    loop
        invariant
            before == old(decoder).remaining(),
            steady == old(decoder).steady(),
            taken@.len() <= before.len(),
            taken@.len() <= MAX_FRAME,
            taken@ == before.take(taken@.len() as int),
            decoder.remaining() == before.skip(taken@.len() as int),
            decoder.steady() == steady,
            parse_frame(taken@, lenient) matches Parsed::Value { value, used } ==> used
                == taken@.len(),
        decreases MAX_FRAME - taken@.len(),
    {
        let ghost keep = taken@.len() as int;
        proof {
            lemma_parse_prefix(before, keep, lenient);
            lemma_parse_bounds(taken@, lenient);
        }
        match scan_frame(taken.as_slice(), lenient) {
            Err(e) => {
                return Err(e);
            },
            Ok(Scan::Complete { packet, .. }) => {
                return Ok(packet);
            },
            Ok(Scan::Incomplete { missing }) => {
                let mut chunk: Vec<u8> = vec![0u8; missing];
                match decoder.read(chunk.as_mut_slice()) {
                    Err(e) => {
                        return Err(e);
                    },
                    Ok(()) => {
                        proof {
                            lemma_parse_step(before, keep, lenient);
                        }
                        taken.extend_from_slice(chunk.as_slice());
                        proof {
                            assert(taken@ =~= before.take(keep + missing));
                            assert(decoder.remaining() =~= before.skip(keep + missing));
                        }
                    },
                }
            },
        }
    }
}

impl Encode for Packet {
    open spec fn wire(&self) -> Seq<u8> {
        wire_of(self@)
    }

    /// Builds the whole frame in memory and hands it to the sink in one
    /// piece, so that a sink never sees part of a packet that could not be
    /// built.
    fn encode<E: Encoder>(&self, encoder: &mut E) -> (r: Result<(), Error>) {
        let frame = self.to_bytes();
        encoder.write(frame.as_slice())
    }
}

impl Decode for Packet {
    open spec fn parse(bytes: Seq<u8>) -> Parsed<PacketView> {
        parse_frame(bytes, false)
    }

    fn decode<D: Decoder>(decoder: &mut D) -> (r: Result<Self, Error>) {
        read_frame(decoder, false)
    }
}

} // verus!
