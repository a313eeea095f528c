use pngme::chunk_type::{byte_to_bits, ChunkType};
use pngme::error::PngError;
use std::convert::TryFrom;
use std::str::FromStr;

#[test]
pub fn test_chunk_type_from_bytes() {
    let expected = [82, 117, 83, 116];
    let actual = ChunkType::try_from([82, 117, 83, 116]).unwrap();

    assert_eq!(expected, actual.bytes());
}

#[test]
pub fn test_chunk_type_from_str() {
    let expected = ChunkType::try_from([82, 117, 83, 116]).unwrap();
    let actual = ChunkType::from_str("RuSt").unwrap();
    assert_eq!(expected, actual);
}

#[test]
pub fn test_chunk_type_is_critical() {
    let chunk = ChunkType::from_str("RuSt").unwrap();
    assert!(chunk.is_critical());
}

#[test]
pub fn test_chunk_type_is_not_critical() {
    let chunk = ChunkType::from_str("ruSt").unwrap();
    assert!(!chunk.is_critical());
}

#[test]
pub fn test_chunk_type_is_public() {
    let chunk = ChunkType::from_str("RUSt").unwrap();
    assert!(chunk.is_public());
}

#[test]
pub fn test_chunk_type_is_not_public() {
    let chunk = ChunkType::from_str("RuSt").unwrap();
    assert!(!chunk.is_public());
}

#[test]
pub fn test_chunk_type_is_reserved_bit_valid() {
    let chunk = ChunkType::from_str("RuSt").unwrap();
    assert!(chunk.is_reserved_bit_valid());
}

#[test]
pub fn test_chunk_type_is_reserved_bit_invalid() {
    let chunk = ChunkType::from_str("Rust").unwrap();
    assert!(!chunk.is_reserved_bit_valid());
}

#[test]
pub fn test_chunk_type_is_safe_to_copy() {
    let chunk = ChunkType::from_str("RuSt").unwrap();
    assert!(chunk.is_safe_to_copy());
}

#[test]
pub fn test_chunk_type_is_unsafe_to_copy() {
    let chunk = ChunkType::from_str("RuST").unwrap();
    assert!(!chunk.is_safe_to_copy());
}

#[test]
pub fn test_valid_chunk_is_valid() {
    let chunk = ChunkType::from_str("RuSt").unwrap();
    assert!(chunk.is_valid());
}

#[test]
pub fn test_invalid_chunk_is_valid() {
    let chunk = ChunkType::from_str("Rust").unwrap();
    assert!(!chunk.is_valid());

    let chunk = ChunkType::from_str("Ru1t");
    assert!(chunk.is_err());
}

#[test]
pub fn test_chunk_type_string() {
    let chunk = ChunkType::from_str("RuSt").unwrap();
    assert_eq!(&chunk.to_string(), "RuSt");
}

#[test]
pub fn test_chunk_type_trait_impls() {
    let chunk_type_1: ChunkType = TryFrom::try_from([82, 117, 83, 116]).unwrap();
    let chunk_type_2: ChunkType = FromStr::from_str("RuSt").unwrap();
    let _chunk_string = chunk_type_1.to_string();
    let _are_chunks_equal = chunk_type_1 == chunk_type_2;
}

#[test]
fn construct_keeps_the_four_bytes() {
    for code in [*b"RuSt", *b"abcd", *b"ZZZZ", *b"aZbY"] {
        let t = ChunkType::construct(code).unwrap();
        assert_eq!(t.bytes(), code);
    }
}

#[test]
fn construct_refuses_non_letters() {
    for code in [*b"Ru1t", *b"@abc", *b"abc[", *b"ab`c", *b"{abc", [0, 0, 0, 0], [200, 65, 65, 65]] {
        assert_eq!(ChunkType::construct(code), Err(PngError::InvalidTypeCode));
    }
}

#[test]
fn parse_refuses_digit() {
    assert_eq!(ChunkType::parse("Ru1t"), Err(PngError::InvalidTypeCode));
}

#[test]
fn parse_refuses_wrong_length() {
    assert_eq!(ChunkType::parse("RuS"), Err(PngError::InvalidTypeCode));
    assert_eq!(ChunkType::parse(""), Err(PngError::InvalidTypeCode));
    assert_eq!(ChunkType::parse("RuStX"), Err(PngError::InvalidTypeCode));
    assert_eq!(ChunkType::parse("Ru\u{e9}"), Err(PngError::InvalidTypeCode));
}

#[test]
fn same_code_is_case_sensitive() {
    let a = ChunkType::parse("RuSt").unwrap();
    let b = ChunkType::parse("RuSt").unwrap();
    let c = ChunkType::parse("rust").unwrap();
    assert!(a.same_code(&b));
    assert!(!a.same_code(&c));
}

#[test]
fn lowercase_reserved_byte_is_not_valid() {
    let t = ChunkType::parse("RUsT").unwrap();
    assert!(!t.is_valid());
    assert!(!t.is_reserved_bit_valid());
    let t = ChunkType::parse("IHDR").unwrap();
    assert!(t.is_valid());
    assert!(t.is_critical());
    assert!(t.is_public());
    assert!(!t.is_safe_to_copy());
}

#[test]
fn bits_of_a_byte() {
    assert_eq!(byte_to_bits(0b1010_0110), [1, 0, 1, 0, 0, 1, 1, 0]);
    assert_eq!(byte_to_bits(0), [0; 8]);
    assert_eq!(byte_to_bits(255), [1; 8]);
    assert_eq!(byte_to_bits(b'a')[2], 1);
    assert_eq!(byte_to_bits(b'A')[2], 0);
}
