use std::str::FromStr;

use pngme::chunk_type::ChunkType;
use pngme::error::PngError;

#[test]
pub fn chunk_type_test() {
    let a = 82;
    let b = 114;
    println!("{:b}", a);
    println!("{:b}", b);
}

#[test]
pub fn test_chunk_type_from_bytes() {
    let expected = [82, 117, 83, 116];
    let actual = ChunkType::try_from([82, 117, 83, 116]).unwrap();

    assert_eq!(expected, actual.bytes());
}

#[test]
pub fn test_chunk_type_from_str() {
    let expected = ChunkType::try_from([82, 117, 83, 116]).unwrap();
    let actual = ChunkType::from_str("RuSt").unwrap();
    assert_eq!(expected, actual);
}

#[test]
pub fn test_chunk_type_is_critical() {
    let chunk = ChunkType::from_str("RuSt").unwrap();
    assert!(chunk.is_critical());
}

#[test]
pub fn test_chunk_type_is_not_critical() {
    let chunk = ChunkType::from_str("ruSt").unwrap();
    assert!(!chunk.is_critical());
}

#[test]
pub fn test_chunk_type_is_public() {
    let chunk = ChunkType::from_str("RUSt").unwrap();
    assert!(chunk.is_public());
}

#[test]
pub fn test_chunk_type_is_not_public() {
    let chunk = ChunkType::from_str("RuSt").unwrap();
    assert!(!chunk.is_public());
}

#[test]
pub fn test_chunk_type_is_reserved_bit_valid() {
    let chunk = ChunkType::from_str("RuSt").unwrap();
    assert!(chunk.is_reserved_bit_valid());
}

#[test]
pub fn test_chunk_type_is_reserved_bit_invalid() {
    let chunk = ChunkType::from_str("Rust").unwrap();
    assert!(!chunk.is_reserved_bit_valid());
}

#[test]
pub fn test_chunk_type_is_safe_to_copy() {
    let chunk = ChunkType::from_str("RuSt").unwrap();
    assert!(chunk.is_safe_to_copy());
}

#[test]
pub fn test_chunk_type_is_unsafe_to_copy() {
    let chunk = ChunkType::from_str("RuST").unwrap();
    assert!(!chunk.is_safe_to_copy());
}

#[test]
pub fn test_valid_chunk_is_valid() {
    let chunk = ChunkType::from_str("RuSt").unwrap();
    assert!(chunk.is_valid());
}

#[test]
pub fn test_invalid_chunk_is_valid() {
    let chunk = ChunkType::from_str("Rust").unwrap();
    assert!(!chunk.is_valid());

    let chunk = ChunkType::from_str("Ru1t");
    assert!(chunk.is_err());
}

#[test]
pub fn test_chunk_type_string() {
    let chunk = ChunkType::from_str("RuSt").unwrap();
    assert_eq!(&chunk.to_string(), "RuSt");
}

#[test]
pub fn test_chunk_type_trait_impls() {
    let chunk_type_1: ChunkType = TryFrom::try_from([82, 117, 83, 116]).unwrap();
    let chunk_type_2: ChunkType = FromStr::from_str("RuSt").unwrap();
    let _chunk_string = chunk_type_1.to_string();
    let _are_chunks_equal = chunk_type_1 == chunk_type_2;
}

#[test]
fn well_formed_iff_third_letter_upper_case() {
    for tag in ["RuSt", "ruSt", "RUST", "rust", "abCd"] {
        let t = ChunkType::from_str(tag).unwrap();
        let third = tag.as_bytes()[2];
        assert_eq!(t.is_valid(), third.is_ascii_uppercase());
    }
    assert!(!ChunkType::from_str("RUsT").unwrap().is_valid());
}

#[test]
fn from_str_rejects_wrong_byte_length() {
    assert_eq!(ChunkType::from_str("RuS"), Err(PngError::ChunkTypeError));
    assert_eq!(ChunkType::from_str("RuStX"), Err(PngError::ChunkTypeError));
    assert_eq!(ChunkType::from_str(""), Err(PngError::ChunkTypeError));
    // four characters, five bytes
    assert_eq!(ChunkType::from_str("Ruéa"), Err(PngError::ChunkTypeError));
}

#[test]
fn from_bytes_rejects_non_letters() {
    assert_eq!(ChunkType::from_bytes([82, 117, 64, 116]), Err(PngError::ChunkTypeError));
    assert_eq!(ChunkType::from_bytes([82, 117, 91, 116]), Err(PngError::ChunkTypeError));
    assert_eq!(ChunkType::from_bytes([0, 117, 83, 116]), Err(PngError::ChunkTypeError));
    assert!(ChunkType::from_bytes([65, 90, 97, 122]).is_ok());
}

#[test]
fn constructed_type_has_letters_only() {
    let t = ChunkType::from_bytes([82, 117, 83, 116]).unwrap();
    assert!(!t.is_err());
}

#[test]
fn equality_is_case_sensitive() {
    let a = ChunkType::from_str("RuSt").unwrap();
    let b = ChunkType::from_str("rUsT").unwrap();
    assert!(a != b);
}
