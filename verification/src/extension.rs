//! A reader for peers that report a wrong size: it ignores the size field
//! and takes the body to end at its first NUL.

use crate::codec::read_frame;
use crate::error::Error;
use crate::packet::{Packet, PacketType, PacketView, RawBody};
use crate::serialize::{Decode, Decoder, Parsed};
use crate::wire::{parse_frame, scan_agrees, scan_frame, Scan};
use vstd::prelude::*;

verus! {

/// A packet that was read without trust in its size field.
#[derive(Debug)]
pub struct PacketDecodableAnySize {
    id: i32,
    kind: PacketType,
    body: RawBody,
}

impl View for PacketDecodableAnySize {
    type V = PacketView;

    closed spec fn view(&self) -> PacketView {
        PacketView { id: self.id, kind: self.kind, body: self.body@ }
    }
}

impl PacketDecodableAnySize {
    /// The same packet as an ordinary one.
    pub fn into_packet(self) -> (packet: Packet)
        ensures
            packet@ == self@,
    {
        Packet::with_raw_body(self.id, self.kind, self.body)
    }

    /// Says what the bytes read so far hold, for a reader that ignores the
    /// size field: a packet, a fault, or the number of bytes that the next
    /// exact read has to bring.
    pub fn scan(bytes: &[u8]) -> (r: Result<Scan, Error>)
        ensures
            scan_agrees(parse_frame(bytes@, true), r),
    {
        scan_frame(bytes, true)
    }
}

impl Decode for PacketDecodableAnySize {
    open spec fn parse(bytes: Seq<u8>) -> Parsed<PacketView> {
        parse_frame(bytes, true)
    }

    fn decode<D: Decoder>(decoder: &mut D) -> (r: Result<Self, Error>) {
        match read_frame(decoder, true) {
            Ok(packet) => {
                let id = packet.id();
                let kind = packet.packet_type();
                Ok(PacketDecodableAnySize { id, kind, body: packet.into_raw_body() })
            },
            Err(e) => Err(e),
        }
    }
}

} // verus!
