use pngme::chunk_type::ChunkType;
use pngme::error::PngError;
use std::convert::TryFrom;
use std::str::FromStr;

#[test]
pub fn test_chunk_type_from_bytes() {
    let expected = [82, 117, 83, 116];
    let actual = ChunkType::try_from([82, 117, 83, 116]).unwrap();

    assert_eq!(expected, actual.bytes());
}

#[test]
pub fn test_chunk_type_from_str() {
    let expected = ChunkType::try_from([82, 117, 83, 116]).unwrap();
    let actual = ChunkType::from_str("RuSt").unwrap();
    assert_eq!(expected, actual);
}

#[test]
pub fn test_chunk_type_is_critical() {
    let chunk = ChunkType::from_str("RuSt").unwrap();
    assert!(chunk.is_critical());
}

#[test]
pub fn test_chunk_type_is_not_critical() {
    let chunk = ChunkType::from_str("ruSt").unwrap();
    assert!(!chunk.is_critical());
}

#[test]
pub fn test_chunk_type_is_public() {
    let chunk = ChunkType::from_str("RUSt").unwrap();
    assert!(chunk.is_public());
}

#[test]
pub fn test_chunk_type_is_not_public() {
    let chunk = ChunkType::from_str("RuSt").unwrap();
    assert!(!chunk.is_public());
}

#[test]
pub fn test_chunk_type_is_reserved_bit_valid() {
    let chunk = ChunkType::from_str("RuSt").unwrap();
    assert!(chunk.is_reserved_bit_valid());
}

#[test]
pub fn test_chunk_type_is_reserved_bit_invalid() {
    let chunk = ChunkType::from_str("Rust").unwrap();
    assert!(!chunk.is_reserved_bit_valid());
}

#[test]
pub fn test_chunk_type_is_safe_to_copy() {
    let chunk = ChunkType::from_str("RuSt").unwrap();
    assert!(chunk.is_safe_to_copy());
}

#[test]
pub fn test_chunk_type_is_unsafe_to_copy() {
    let chunk = ChunkType::from_str("RuST").unwrap();
    assert!(!chunk.is_safe_to_copy());
}

#[test]
pub fn test_valid_chunk_is_valid() {
    let chunk = ChunkType::from_str("RuSt").unwrap();
    assert!(chunk.is_valid());
}

#[test]
pub fn test_invalid_chunk_is_valid() {
    let chunk = ChunkType::from_str("Rust").unwrap();
    assert!(!chunk.is_valid());

    let chunk = ChunkType::from_str("Ru1t");
    assert!(chunk.is_err());
}

#[test]
pub fn test_chunk_type_string() {
    let chunk = ChunkType::from_str("RuSt").unwrap();
    assert_eq!(&chunk.to_string().unwrap(), "RuSt");
}

#[test]
pub fn test_chunk_type_trait_impls() {
    let chunk_type_1: ChunkType = TryFrom::try_from([82, 117, 83, 116]).unwrap();
    let chunk_type_2: ChunkType = FromStr::from_str("RuSt").unwrap();
    let _chunk_string = chunk_type_1.to_string().unwrap();
    let _are_chunks_equal = chunk_type_1 == chunk_type_2;
}

#[test]
fn from_str_refuses_wrong_lengths() {
    for s in ["", "R", "RuS", "RuStX", "RuStRuSt"] {
        assert_eq!(ChunkType::from_str(s), Err(PngError::InvalidTypeString));
    }
}

#[test]
fn from_str_refuses_non_letters() {
    for s in ["Ru1t", "RuS ", "@uSt", "Ru[t", "Ru`t", "Ru{t", "é"] {
        assert_eq!(ChunkType::from_str(s), Err(PngError::InvalidTypeString));
    }
}

#[test]
fn from_str_counts_bytes_not_characters() {
    // two characters of two bytes each make four bytes, none a letter
    assert_eq!(ChunkType::from_str("éé"), Err(PngError::InvalidTypeString));
}

#[test]
fn letter_codes_read_back_unchanged() {
    for s in ["RuSt", "rust", "RUST", "IHDR", "tEXt", "zzAZ"] {
        let t = ChunkType::from_str(s).unwrap();
        assert_eq!(t.to_string().unwrap(), s);
        assert_eq!(&t.bytes(), s.as_bytes());
    }
}

#[test]
fn case_predicates_on_each_position() {
    let t = ChunkType::from_str("RuSt").unwrap();
    assert!(t.is_critical() && !t.is_public() && t.is_reserved_bit_valid() && t.is_safe_to_copy());
    let t = ChunkType::from_str("ruSt").unwrap();
    assert!(!t.is_critical());
    let t = ChunkType::from_str("RUSt").unwrap();
    assert!(t.is_public());
    let t = ChunkType::from_str("RuST").unwrap();
    assert!(!t.is_safe_to_copy());
}

#[test]
fn bytes_are_kept_as_given() {
    let t = ChunkType::try_from([0, 255, 49, 32]).unwrap();
    assert_eq!(t.bytes(), [0, 255, 49, 32]);
    assert!(!t.is_valid());
    assert!(!t.is_critical());
    assert!(!t.is_safe_to_copy());
}

#[test]
fn non_utf8_type_has_no_text() {
    let t = ChunkType::try_from([82, 255, 83, 116]).unwrap();
    assert_eq!(t.to_string(), Err(PngError::InvalidUtf8));
}

#[test]
fn validity_needs_letters_and_capital_third() {
    assert!(ChunkType::try_from(*b"IHDR").unwrap().is_valid());
    assert!(!ChunkType::try_from(*b"IHdR").unwrap().is_valid());
    assert!(!ChunkType::try_from(*b"I1DR").unwrap().is_valid());
}

#[test]
fn equality_is_bytewise() {
    let a = ChunkType::from_str("RuSt").unwrap();
    let b = ChunkType::from_str("RuST").unwrap();
    assert!(a != b);
    assert!(a == ChunkType::try_from(*b"RuSt").unwrap());
}
