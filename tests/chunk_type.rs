use pngme::chunk_type::ChunkType;
use pngme::error::PngError;
use std::str::FromStr;

#[test]
pub fn test_chunk_type_from_bytes() {
    let expected = [82, 117, 83, 116];
    let actual = ChunkType::try_from([82, 117, 83, 116]).unwrap();

    assert_eq!(expected, actual.bytes());
}

#[test]
pub fn test_chunk_type_from_str() {
    let expected = ChunkType::try_from([82, 117, 83, 116]).unwrap();
    let actual = ChunkType::from_str("RuSt").unwrap();
    assert_eq!(expected, actual);
}

#[test]
pub fn test_chunk_type_is_critical() {
    let chunk = ChunkType::from_str("RuSt").unwrap();
    assert!(chunk.is_critical());
}

#[test]
pub fn test_chunk_type_is_not_critical() {
    let chunk = ChunkType::from_str("ruSt").unwrap();
    assert!(!chunk.is_critical());
}

#[test]
pub fn test_chunk_type_is_public() {
    let chunk = ChunkType::from_str("RUSt").unwrap();
    assert!(chunk.is_public());
}

#[test]
pub fn test_chunk_type_is_not_public() {
    let chunk = ChunkType::from_str("RuSt").unwrap();
    assert!(!chunk.is_public());
}

#[test]
pub fn test_chunk_type_is_reserved_bit_valid() {
    let chunk = ChunkType::from_str("RuSt").unwrap();
    assert!(chunk.is_reserved_bit_valid());
}

#[test]
pub fn test_chunk_type_is_reserved_bit_invalid() {
    let chunk = ChunkType::from_str("Rust").unwrap();
    assert!(!chunk.is_reserved_bit_valid());
}

#[test]
pub fn test_chunk_type_is_safe_to_copy() {
    let chunk = ChunkType::from_str("RuSt").unwrap();
    assert!(chunk.is_safe_to_copy());
}

#[test]
pub fn test_chunk_type_is_unsafe_to_copy() {
    let chunk = ChunkType::from_str("RuST").unwrap();
    assert!(!chunk.is_safe_to_copy());
}

#[test]
pub fn test_valid_chunk_is_valid() {
    let chunk = ChunkType::from_str("RuSt").unwrap();
    assert!(chunk.is_valid());
}

#[test]
pub fn test_invalid_chunk_is_valid() {
    let chunk = ChunkType::from_str("Rust").unwrap();
    assert!(!chunk.is_valid());

    let chunk = ChunkType::from_str("Ru1t");
    assert!(chunk.is_err());
}

#[test]
pub fn test_chunk_type_string() {
    let chunk = ChunkType::from_str("RuSt").unwrap();
    assert_eq!(&chunk.to_string(), "RuSt");
}

#[test]
pub fn test_chunk_type_trait_impls() {
    let chunk_type_1: ChunkType = TryFrom::try_from([82, 117, 83, 116]).unwrap();
    let chunk_type_2: ChunkType = FromStr::from_str("RuSt").unwrap();
    let _chunk_string = chunk_type_1.to_string();
    let _are_chunks_equal = chunk_type_1 == chunk_type_2;
}

#[test]
fn type_text_errors() {
    assert_eq!(ChunkType::from_text("Ru1t"), Err(PngError::InvalidTypeCode));
    assert_eq!(ChunkType::from_text("RuS"), Err(PngError::WrongLength));
    assert_eq!(ChunkType::from_text("RuStx"), Err(PngError::WrongLength));
    assert_eq!(ChunkType::from_text(""), Err(PngError::WrongLength));
    assert_eq!(ChunkType::from_text("Ru t"), Err(PngError::InvalidTypeCode));
}

#[test]
fn type_bytes_accept_only_letters() {
    assert!(ChunkType::from_bytes(*b"AZaz").is_ok());
    assert_eq!(ChunkType::from_bytes(*b"Ru1t"), Err(PngError::InvalidTypeCode));
    assert_eq!(ChunkType::from_bytes(*b"Ru@t"), Err(PngError::InvalidTypeCode));
    assert_eq!(ChunkType::from_bytes(*b"Ru[t"), Err(PngError::InvalidTypeCode));
    assert_eq!(ChunkType::from_bytes(*b"Ru`t"), Err(PngError::InvalidTypeCode));
    assert_eq!(ChunkType::from_bytes(*b"Ru{t"), Err(PngError::InvalidTypeCode));
    assert_eq!(ChunkType::from_bytes([82, 117, 200, 116]), Err(PngError::InvalidTypeCode));
}

#[test]
fn reserved_lowercase_parses_but_is_not_valid() {
    let t = ChunkType::from_text("Rust").unwrap();
    assert_eq!(t.bytes(), *b"Rust");
    assert!(!t.is_valid());
}

#[test]
fn fixed_slice_of_four() {
    assert_eq!(ChunkType::convert_to_fixed_slice(&[1, 2, 3, 4]), [1, 2, 3, 4]);
}
