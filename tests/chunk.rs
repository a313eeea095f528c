use pngme::chunk::Chunk;
use pngme::chunk_type::ChunkType;
use pngme::error::PngError;
use std::convert::TryFrom;
use std::str::FromStr;

fn chunk_bytes(length: u32, chunk_type: &[u8], data: &[u8], crc: u32) -> Vec<u8> {
    length
        .to_be_bytes()
        .iter()
        .chain(chunk_type.iter())
        .chain(data.iter())
        .chain(crc.to_be_bytes().iter())
        .copied()
        .collect()
}

fn testing_chunk() -> Chunk {
    let data_length: u32 = 42;
    let chunk_type = "RuSt".as_bytes();
    let message_bytes = "This is where your secret message will be!".as_bytes();
    let crc: u32 = 2882656334;

    let chunk_data = chunk_bytes(data_length, chunk_type, message_bytes, crc);

    Chunk::try_from(chunk_data.as_ref()).unwrap()
}

#[test]
fn test_new_chunk() {
    let chunk_type = ChunkType::from_str("RuSt").unwrap();
    let data = "This is where your secret message will be!".as_bytes().to_vec();
    let chunk = Chunk::new(chunk_type, data);
    assert_eq!(chunk.length(), 42);
    assert_eq!(chunk.crc(), 2882656334);
}

#[test]
fn test_chunk_length() {
    let chunk = testing_chunk();
    assert_eq!(chunk.length(), 42);
}

#[test]
fn test_chunk_type() {
    let chunk = testing_chunk();
    assert_eq!(chunk.chunk_type().to_string(), String::from("RuSt"));
}

#[test]
fn test_chunk_string() {
    let chunk = testing_chunk();
    let chunk_string = chunk.data_as_string().unwrap();
    let expected_chunk_string = String::from("This is where your secret message will be!");
    assert_eq!(chunk_string, expected_chunk_string);
}

#[test]
fn test_chunk_crc() {
    let chunk = testing_chunk();
    assert_eq!(chunk.crc(), 2882656334);
}

#[test]
fn test_valid_chunk_from_bytes() {
    let data_length: u32 = 42;
    let chunk_type = "RuSt".as_bytes();
    let message_bytes = "This is where your secret message will be!".as_bytes();
    let crc: u32 = 2882656334;

    let chunk_data = chunk_bytes(data_length, chunk_type, message_bytes, crc);

    let chunk = Chunk::try_from(chunk_data.as_ref()).unwrap();

    let chunk_string = chunk.data_as_string().unwrap();
    let expected_chunk_string = String::from("This is where your secret message will be!");

    assert_eq!(chunk.length(), 42);
    assert_eq!(chunk.chunk_type().to_string(), String::from("RuSt"));
    assert_eq!(chunk_string, expected_chunk_string);
    assert_eq!(chunk.crc(), 2882656334);
}

#[test]
fn test_invalid_chunk_from_bytes() {
    let data_length: u32 = 42;
    let chunk_type = "RuSt".as_bytes();
    let message_bytes = "This is where your secret message will be!".as_bytes();
    let crc: u32 = 2882656333;

    let chunk_data = chunk_bytes(data_length, chunk_type, message_bytes, crc);

    let chunk = Chunk::try_from(chunk_data.as_ref());

    assert!(chunk.is_err());
}

#[test]
pub fn test_chunk_trait_impls() {
    let data_length: u32 = 42;
    let chunk_type = "RuSt".as_bytes();
    let message_bytes = "This is where your secret message will be!".as_bytes();
    let crc: u32 = 2882656334;

    let chunk_data = chunk_bytes(data_length, chunk_type, message_bytes, crc);

    let chunk: Chunk = TryFrom::try_from(chunk_data.as_ref()).unwrap();

    let _chunk_string = format!("{:?}", chunk);
}

#[test]
fn parsed_chunk_is_54_bytes_and_serializes_back() {
    let bytes = chunk_bytes(
        42,
        b"RuSt",
        b"This is where your secret message will be!",
        2882656334,
    );
    assert_eq!(bytes.len(), 54);
    let chunk = Chunk::parse(&bytes).unwrap();
    assert_eq!(chunk.as_bytes(), bytes);
    assert_eq!(chunk.data(), b"This is where your secret message will be!");
}

#[test]
fn corrupted_crc_is_a_mismatch() {
    let bytes = chunk_bytes(
        42,
        b"RuSt",
        b"This is where your secret message will be!",
        2882656333,
    );
    assert_eq!(Chunk::parse(&bytes).unwrap_err(), PngError::CrcMismatch);
}

#[test]
fn new_chunk_round_trips() {
    let t = ChunkType::parse("ruSt").unwrap();
    for data in [vec![], vec![0u8], vec![1, 2, 3, 255], vec![7u8; 1000]] {
        let chunk = Chunk::new(t, data.clone());
        let bytes = chunk.as_bytes();
        assert_eq!(bytes.len(), 12 + data.len());
        let back = Chunk::parse(&bytes).unwrap();
        assert_eq!(back.data(), &data[..]);
        assert_eq!(back.chunk_type(), &t);
        assert_eq!(back.crc(), chunk.crc());
        assert_eq!(back.length(), chunk.length());
    }
}

#[test]
fn empty_chunk_has_known_crc() {
    // CRC-32 of "IEND" with no data, as found in every PNG file.
    let chunk = Chunk::new(ChunkType::parse("IEND").unwrap(), vec![]);
    assert_eq!(chunk.crc(), 0xAE42_6082);
    assert_eq!(chunk.length(), 0);
    assert_eq!(
        chunk.as_bytes(),
        vec![0, 0, 0, 0, b'I', b'E', b'N', b'D', 0xAE, 0x42, 0x60, 0x82]
    );
}

#[test]
fn tampering_any_byte_of_type_or_data_is_detected() {
    let original = Chunk::new(ChunkType::parse("RuSt").unwrap(), b"hidden message".to_vec()).as_bytes();
    for i in 4..original.len() - 4 {
        for flip in [1u8, 0x20, 0x80] {
            let mut bytes = original.clone();
            bytes[i] ^= flip;
            let r = Chunk::parse(&bytes);
            let type_still_letters = bytes[4..8].iter().all(|b| b.is_ascii_alphabetic());
            if type_still_letters {
                assert_eq!(r.unwrap_err(), PngError::CrcMismatch);
            } else {
                assert_eq!(r.unwrap_err(), PngError::InvalidTypeCode);
            }
        }
    }
}

#[test]
fn short_buffers_are_too_short() {
    assert_eq!(Chunk::parse(&[]).unwrap_err(), PngError::TooShort);
    assert_eq!(Chunk::parse(&[0; 11]).unwrap_err(), PngError::TooShort);
    let mut bytes = Chunk::new(ChunkType::parse("RuSt").unwrap(), vec![1, 2, 3]).as_bytes();
    bytes.pop();
    assert_eq!(Chunk::parse(&bytes).unwrap_err(), PngError::TooShort);
}

#[test]
fn bad_type_code_in_chunk() {
    let bytes = chunk_bytes(0, b"Ru1t", b"", 0);
    assert_eq!(Chunk::parse(&bytes).unwrap_err(), PngError::InvalidTypeCode);
}

#[test]
fn trailing_bytes_after_a_chunk_are_ignored() {
    let mut bytes = Chunk::new(ChunkType::parse("RuSt").unwrap(), vec![9, 8]).as_bytes();
    bytes.extend_from_slice(&[1, 2, 3]);
    let chunk = Chunk::parse(&bytes).unwrap();
    assert_eq!(chunk.data(), &[9, 8]);
}

#[test]
fn text_of_empty_and_non_utf8_data() {
    let t = ChunkType::parse("RuSt").unwrap();
    assert_eq!(Chunk::new(t, vec![]).data_as_string(), Err(PngError::EmptyPayload));
    assert_eq!(Chunk::new(t, vec![0xff, 0xfe]).data_as_string(), Err(PngError::InvalidEncoding));
    assert_eq!(
        Chunk::new(t, "h\u{e9}llo".as_bytes().to_vec()).data_as_string(),
        Ok(String::from("h\u{e9}llo"))
    );
}
