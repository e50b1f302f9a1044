//! The fixed-width integers as values with an encoding: each travels as its
//! bytes in little-endian order, a signed one in two's complement.

use crate::endian::{
    le_bytes, le_value, lemma_le_value_bound, lemma_radix_values, residue, signed,
};
use crate::error::Error;
use crate::serialize::{read_le, write_le, Decode, Decoder, Encode, Encoder, Parsed};
use vstd::prelude::*;

verus! {

impl Encode for u8 {
    open spec fn wire(&self) -> Seq<u8> {
        le_bytes(*self as nat, 1)
    }

    fn encode<E: Encoder>(&self, encoder: &mut E) -> (r: Result<(), Error>) {
        write_le(encoder, *self as u64, 1)
    }
}

impl Decode for u8 {
    open spec fn parse(bytes: Seq<u8>) -> Parsed<u8> {
        if bytes.len() >= 1 {
            Parsed::Value { value: le_value(bytes.take(1)) as u8, used: 1 }
        } else {
            Parsed::Short { missing: (1 - bytes.len()) as nat }
        }
    }

    fn decode<D: Decoder>(decoder: &mut D) -> (r: Result<Self, Error>) {
        let ghost before = decoder.remaining();
        match read_le(decoder, 1) {
            Ok(n) => {
                proof {
                    lemma_le_value_bound(before.take(1));
                    lemma_radix_values();
                }
                Ok(n as u8)
            },
            Err(e) => Err(e),
        }
    }
}

impl Encode for i16 {
    open spec fn wire(&self) -> Seq<u8> {
        le_bytes(residue(*self as int, 2), 2)
    }

    fn encode<E: Encoder>(&self, encoder: &mut E) -> (r: Result<(), Error>) {
        proof {
            lemma_radix_values();
        }
        let n: u64 = if *self < 0 {
            (*self as i128 + 0x1_0000) as u64
        } else {
            *self as u64
        };
        write_le(encoder, n, 2)
    }
}

impl Decode for i16 {
    open spec fn parse(bytes: Seq<u8>) -> Parsed<i16> {
        if bytes.len() >= 2 {
            Parsed::Value { value: signed(le_value(bytes.take(2)), 2) as i16, used: 2 }
        } else {
            Parsed::Short { missing: (2 - bytes.len()) as nat }
        }
    }

    fn decode<D: Decoder>(decoder: &mut D) -> (r: Result<Self, Error>) {
        let ghost before = decoder.remaining();
        match read_le(decoder, 2) {
            Ok(n) => {
                proof {
                    lemma_le_value_bound(before.take(2));
                    lemma_radix_values();
                }
                if n >= 0x8000 {
                    Ok((n as i128 - 0x1_0000) as i16)
                } else {
                    Ok(n as i16)
                }
            },
            Err(e) => Err(e),
        }
    }
}

impl Encode for u16 {
    open spec fn wire(&self) -> Seq<u8> {
        le_bytes(*self as nat, 2)
    }

    fn encode<E: Encoder>(&self, encoder: &mut E) -> (r: Result<(), Error>) {
        write_le(encoder, *self as u64, 2)
    }
}

impl Decode for u16 {
    open spec fn parse(bytes: Seq<u8>) -> Parsed<u16> {
        if bytes.len() >= 2 {
            Parsed::Value { value: le_value(bytes.take(2)) as u16, used: 2 }
        } else {
            Parsed::Short { missing: (2 - bytes.len()) as nat }
        }
    }

    fn decode<D: Decoder>(decoder: &mut D) -> (r: Result<Self, Error>) {
        let ghost before = decoder.remaining();
        match read_le(decoder, 2) {
            Ok(n) => {
                proof {
                    lemma_le_value_bound(before.take(2));
                    lemma_radix_values();
                }
                Ok(n as u16)
            },
            Err(e) => Err(e),
        }
    }
}

impl Encode for i32 {
    open spec fn wire(&self) -> Seq<u8> {
        le_bytes(residue(*self as int, 4), 4)
    }

    fn encode<E: Encoder>(&self, encoder: &mut E) -> (r: Result<(), Error>) {
        proof {
            lemma_radix_values();
        }
        let n: u64 = if *self < 0 {
            (*self as i128 + 0x1_0000_0000) as u64
        } else {
            *self as u64
        };
        write_le(encoder, n, 4)
    }
}

impl Decode for i32 {
    open spec fn parse(bytes: Seq<u8>) -> Parsed<i32> {
        if bytes.len() >= 4 {
            Parsed::Value { value: signed(le_value(bytes.take(4)), 4) as i32, used: 4 }
        } else {
            Parsed::Short { missing: (4 - bytes.len()) as nat }
        }
    }

    fn decode<D: Decoder>(decoder: &mut D) -> (r: Result<Self, Error>) {
        let ghost before = decoder.remaining();
        match read_le(decoder, 4) {
            Ok(n) => {
                proof {
                    lemma_le_value_bound(before.take(4));
                    lemma_radix_values();
                }
                if n >= 0x8000_0000 {
                    Ok((n as i128 - 0x1_0000_0000) as i32)
                } else {
                    Ok(n as i32)
                }
            },
            Err(e) => Err(e),
        }
    }
}

impl Encode for u32 {
    open spec fn wire(&self) -> Seq<u8> {
        le_bytes(*self as nat, 4)
    }

    fn encode<E: Encoder>(&self, encoder: &mut E) -> (r: Result<(), Error>) {
        write_le(encoder, *self as u64, 4)
    }
}

impl Decode for u32 {
    open spec fn parse(bytes: Seq<u8>) -> Parsed<u32> {
        if bytes.len() >= 4 {
            Parsed::Value { value: le_value(bytes.take(4)) as u32, used: 4 }
        } else {
            Parsed::Short { missing: (4 - bytes.len()) as nat }
        }
    }

    fn decode<D: Decoder>(decoder: &mut D) -> (r: Result<Self, Error>) {
        let ghost before = decoder.remaining();
        match read_le(decoder, 4) {
            Ok(n) => {
                proof {
                    lemma_le_value_bound(before.take(4));
                    lemma_radix_values();
                }
                Ok(n as u32)
            },
            Err(e) => Err(e),
        }
    }
}

impl Encode for i64 {
    open spec fn wire(&self) -> Seq<u8> {
        le_bytes(residue(*self as int, 8), 8)
    }

    fn encode<E: Encoder>(&self, encoder: &mut E) -> (r: Result<(), Error>) {
        proof {
            lemma_radix_values();
        }
        let n: u64 = if *self < 0 {
            (*self as i128 + 0x1_0000_0000_0000_0000) as u64
        } else {
            *self as u64
        };
        write_le(encoder, n, 8)
    }
}

impl Decode for i64 {
    open spec fn parse(bytes: Seq<u8>) -> Parsed<i64> {
        if bytes.len() >= 8 {
            Parsed::Value { value: signed(le_value(bytes.take(8)), 8) as i64, used: 8 }
        } else {
            Parsed::Short { missing: (8 - bytes.len()) as nat }
        }
    }

    fn decode<D: Decoder>(decoder: &mut D) -> (r: Result<Self, Error>) {
        let ghost before = decoder.remaining();
        match read_le(decoder, 8) {
            Ok(n) => {
                proof {
                    lemma_le_value_bound(before.take(8));
                    lemma_radix_values();
                }
                if n >= 0x8000_0000_0000_0000 {
                    Ok((n as i128 - 0x1_0000_0000_0000_0000) as i64)
                } else {
                    Ok(n as i64)
                }
            },
            Err(e) => Err(e),
        }
    }
}

impl Encode for u64 {
    open spec fn wire(&self) -> Seq<u8> {
        le_bytes(*self as nat, 8)
    }

    fn encode<E: Encoder>(&self, encoder: &mut E) -> (r: Result<(), Error>) {
        write_le(encoder, *self as u64, 8)
    }
}

impl Decode for u64 {
    open spec fn parse(bytes: Seq<u8>) -> Parsed<u64> {
        if bytes.len() >= 8 {
            Parsed::Value { value: le_value(bytes.take(8)) as u64, used: 8 }
        } else {
            Parsed::Short { missing: (8 - bytes.len()) as nat }
        }
    }

    fn decode<D: Decoder>(decoder: &mut D) -> (r: Result<Self, Error>) {
        let ghost before = decoder.remaining();
        match read_le(decoder, 8) {
            Ok(n) => {
                proof {
                    lemma_le_value_bound(before.take(8));
                    lemma_radix_values();
                }
                Ok(n as u64)
            },
            Err(e) => Err(e),
        }
    }
}

} // verus!
