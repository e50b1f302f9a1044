use rcon::error::Error;
use rcon::serialize::{decode_from_slice, encode_to_vec, Decode, Encode, IoReader, IoWriter};

#[test]
fn i32_encoding() {
    assert_eq!(encode_to_vec(&17i32).unwrap(), vec![0x11, 0, 0, 0]);
    assert_eq!(encode_to_vec(&-1i32).unwrap(), vec![0xff; 4]);
    assert_eq!(encode_to_vec(&i32::MIN).unwrap(), vec![0, 0, 0, 0x80]);
    assert_eq!(encode_to_vec(&i32::MAX).unwrap(), vec![0xff, 0xff, 0xff, 0x7f]);
}

#[test]
fn i32_decoding() {
    assert_eq!(decode_from_slice::<i32>(&[0x11, 0, 0, 0]), Ok(17));
    assert_eq!(decode_from_slice::<i32>(&[0xff; 4]), Ok(-1));
    assert_eq!(decode_from_slice::<i32>(&[0, 0, 0, 0x80]), Ok(i32::MIN));
    assert_eq!(decode_from_slice::<i32>(&[0xff, 0xff, 0xff, 0x7f, 9]), Ok(i32::MAX));
    assert_eq!(decode_from_slice::<i32>(&[1, 2, 3]), Err(Error::UnexpectedEof(1)));
}

#[test]
fn every_width_matches_the_standard_encoding() {
    assert_eq!(encode_to_vec(&0xabu8).unwrap(), 0xabu8.to_le_bytes().to_vec());
    assert_eq!(encode_to_vec(&-2i16).unwrap(), (-2i16).to_le_bytes().to_vec());
    assert_eq!(encode_to_vec(&i16::MIN).unwrap(), i16::MIN.to_le_bytes().to_vec());
    assert_eq!(encode_to_vec(&0xbeefu16).unwrap(), 0xbeefu16.to_le_bytes().to_vec());
    assert_eq!(encode_to_vec(&0xdead_beefu32).unwrap(), 0xdead_beefu32.to_le_bytes().to_vec());
    assert_eq!(encode_to_vec(&i64::MIN).unwrap(), i64::MIN.to_le_bytes().to_vec());
    assert_eq!(encode_to_vec(&-3i64).unwrap(), (-3i64).to_le_bytes().to_vec());
    assert_eq!(encode_to_vec(&u64::MAX).unwrap(), u64::MAX.to_le_bytes().to_vec());
}

#[test]
fn every_width_round_trips() {
    for v in [0u8, 1, 0x7f, 0x80, 0xff] {
        assert_eq!(decode_from_slice::<u8>(&encode_to_vec(&v).unwrap()), Ok(v));
    }
    for v in [0i16, 1, -1, i16::MIN, i16::MAX] {
        assert_eq!(decode_from_slice::<i16>(&encode_to_vec(&v).unwrap()), Ok(v));
    }
    for v in [0u16, 1, 0x8000, u16::MAX] {
        assert_eq!(decode_from_slice::<u16>(&encode_to_vec(&v).unwrap()), Ok(v));
    }
    for v in [0i32, 1, -1, i32::MIN, i32::MAX] {
        assert_eq!(decode_from_slice::<i32>(&encode_to_vec(&v).unwrap()), Ok(v));
    }
    for v in [0u32, 1, 0x8000_0000, u32::MAX] {
        assert_eq!(decode_from_slice::<u32>(&encode_to_vec(&v).unwrap()), Ok(v));
    }
    for v in [0i64, 1, -1, i64::MIN, i64::MAX] {
        assert_eq!(decode_from_slice::<i64>(&encode_to_vec(&v).unwrap()), Ok(v));
    }
    for v in [0u64, 1, 0x8000_0000_0000_0000, u64::MAX] {
        assert_eq!(decode_from_slice::<u64>(&encode_to_vec(&v).unwrap()), Ok(v));
    }
}

#[test]
fn every_width_wants_all_its_bytes() {
    assert_eq!(decode_from_slice::<u8>(&[]), Err(Error::UnexpectedEof(1)));
    assert_eq!(decode_from_slice::<i16>(&[1]), Err(Error::UnexpectedEof(1)));
    assert_eq!(decode_from_slice::<u16>(&[]), Err(Error::UnexpectedEof(2)));
    assert_eq!(decode_from_slice::<u32>(&[1, 2, 3]), Err(Error::UnexpectedEof(1)));
    assert_eq!(decode_from_slice::<i64>(&[0; 7]), Err(Error::UnexpectedEof(1)));
    assert_eq!(decode_from_slice::<u64>(&[0; 3]), Err(Error::UnexpectedEof(5)));
}

#[test]
fn numbers_in_a_row() {
    let mut writer = IoWriter::new(Vec::new());
    0x0102_0304u32.encode(&mut writer).unwrap();
    0xffu8.encode(&mut writer).unwrap();
    (-2i16).encode(&mut writer).unwrap();
    let bytes = writer.into_inner();
    assert_eq!(bytes, vec![4, 3, 2, 1, 0xff, 0xfe, 0xff]);
    let mut reader = IoReader::new(&bytes[..]);
    assert_eq!(u32::decode(&mut reader), Ok(0x0102_0304));
    assert_eq!(u8::decode(&mut reader), Ok(0xff));
    assert_eq!(i16::decode(&mut reader), Ok(-2));
    assert_eq!(u8::decode(&mut reader), Err(Error::UnexpectedEof(1)));
}
