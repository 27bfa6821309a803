use pngme::chunk::Chunk;
use pngme::chunk_type::ChunkType;
use pngme::error::PngError;
use std::convert::TryFrom;
use std::str::FromStr;

fn chunk_bytes(data_length: u32, chunk_type: &[u8], message_bytes: &[u8], crc: u32) -> Vec<u8> {
    data_length
        .to_be_bytes()
        .iter()
        .chain(chunk_type.iter())
        .chain(message_bytes.iter())
        .chain(crc.to_be_bytes().iter())
        .copied()
        .collect()
}

fn testing_chunk() -> Chunk {
    let data_length: u32 = 42;
    let chunk_type = "RuSt".as_bytes();
    let message_bytes = "This is where your secret message will be!".as_bytes();
    let crc: u32 = 2882656334;
    let chunk_data = chunk_bytes(data_length, chunk_type, message_bytes, crc);

    Chunk::try_from(chunk_data.as_ref()).unwrap()
}

#[test]
fn test_new_chunk() {
    let chunk_type = ChunkType::from_str("RuSt").unwrap();
    let data = "This is where your secret message will be!"
        .as_bytes()
        .to_vec();
    let chunk = Chunk::new(chunk_type, data);
    assert_eq!(chunk.length(), 42);
    assert_eq!(chunk.crc(), 2882656334);
}

#[test]
fn test_chunk_length() {
    let chunk = testing_chunk();
    assert_eq!(chunk.length(), 42);
}

#[test]
fn test_chunk_type() {
    let chunk = testing_chunk();
    assert_eq!(chunk.chunk_type().to_string().unwrap(), String::from("RuSt"));
}

#[test]
fn test_chunk_string() {
    let chunk = testing_chunk();
    let chunk_string = chunk.data_as_string().unwrap();
    let expected_chunk_string = String::from("This is where your secret message will be!");
    assert_eq!(chunk_string, expected_chunk_string);
}

#[test]
fn test_chunk_crc() {
    let chunk = testing_chunk();
    assert_eq!(chunk.crc(), 2882656334);
}

#[test]
fn test_valid_chunk_from_bytes() {
    let data_length: u32 = 42;
    let chunk_type = "RuSt".as_bytes();
    let message_bytes = "This is where your secret message will be!".as_bytes();
    let crc: u32 = 2882656334;
    let chunk_data = chunk_bytes(data_length, chunk_type, message_bytes, crc);
    let chunk = Chunk::try_from(chunk_data.as_ref()).unwrap();
    let chunk_string = chunk.data_as_string().unwrap();
    let expected_chunk_string = String::from("This is where your secret message will be!");
    assert_eq!(chunk.length(), 42);
    assert_eq!(chunk.chunk_type().to_string().unwrap(), String::from("RuSt"));
    assert_eq!(chunk_string, expected_chunk_string);
    assert_eq!(chunk.crc(), 2882656334);
}

#[test]
fn test_invalid_chunk_from_bytes() {
    let data_length: u32 = 42;
    let chunk_type = "RuSt".as_bytes();
    let message_bytes = "This is where your secret message will be!".as_bytes();
    let crc: u32 = 2882656333;
    let chunk_data = chunk_bytes(data_length, chunk_type, message_bytes, crc);
    let chunk = Chunk::try_from(chunk_data.as_ref());
    assert!(chunk.is_err());
}

#[test]
pub fn test_chunk_trait_impls() {
    let data_length: u32 = 42;
    let chunk_type = "RuSt".as_bytes();
    let message_bytes = "This is where your secret message will be!".as_bytes();
    let crc: u32 = 2882656334;
    let chunk_data = chunk_bytes(data_length, chunk_type, message_bytes, crc);
    let chunk: Chunk = TryFrom::try_from(chunk_data.as_ref()).unwrap();
    let _chunk_string = format!("{:?}", chunk);
}

#[test]
fn altered_checksum_is_a_mismatch() {
    let msg = "This is where your secret message will be!".as_bytes();
    let bytes = chunk_bytes(42, b"RuSt", msg, 2882656333);
    assert_eq!(Chunk::try_from(bytes.as_slice()).err(), Some(PngError::ChecksumMismatch));
}

#[test]
fn new_then_decode_gives_the_same_chunk() {
    let payloads: [&[u8]; 4] = [b"", b"x", b"This is where your secret message will be!", &[0, 255, 7, 128]];
    for p in payloads {
        let t = ChunkType::from_str("tEXt").unwrap();
        let c = Chunk::new(t, p.to_vec());
        let bytes = c.as_bytes();
        assert_eq!(bytes.len(), 12 + p.len());
        let d = Chunk::try_from(bytes.as_slice()).unwrap();
        assert_eq!(d.length(), c.length());
        assert_eq!(d.chunk_type(), c.chunk_type());
        assert_eq!(d.data(), c.data());
        assert_eq!(d.crc(), c.crc());
        assert_eq!(d.as_bytes(), bytes);
    }
}

#[test]
fn encoding_layout() {
    let c = Chunk::new(ChunkType::from_str("RuSt").unwrap(), b"This is where your secret message will be!".to_vec());
    let expected = chunk_bytes(42, b"RuSt", b"This is where your secret message will be!", 2882656334);
    assert_eq!(c.as_bytes(), expected);
}

#[test]
fn checksum_of_known_inputs() {
    // IEND with an empty payload has the well-known checksum AE 42 60 82
    let c = Chunk::new(ChunkType::from_str("IEND").unwrap(), Vec::new());
    assert_eq!(c.crc(), 0xAE426082);
    assert_eq!(c.length(), 0);
}

#[test]
fn short_input_is_truncated() {
    assert_eq!(Chunk::try_from(&[0u8, 0, 0][..]).err(), Some(PngError::TruncatedInput));
    assert_eq!(Chunk::try_from(&[][..]).err(), Some(PngError::TruncatedInput));
}

#[test]
fn payload_longer_than_input_is_truncated() {
    let mut bytes = chunk_bytes(42, b"RuSt", b"short", 0);
    bytes.truncate(8 + 5);
    assert_eq!(Chunk::try_from(bytes.as_slice()).err(), Some(PngError::TruncatedInput));
}

#[test]
fn missing_checksum_field() {
    let full = Chunk::new(ChunkType::from_str("RuSt").unwrap(), b"abc".to_vec()).as_bytes();
    for cut in 1..=4 {
        let bytes = &full[..full.len() - cut];
        assert_eq!(Chunk::try_from(bytes).err(), Some(PngError::MissingChecksum));
    }
}

#[test]
fn trailing_bytes_are_ignored() {
    let mut bytes = Chunk::new(ChunkType::from_str("RuSt").unwrap(), b"abc".to_vec()).as_bytes();
    bytes.extend_from_slice(&[1, 2, 3]);
    let c = Chunk::try_from(bytes.as_slice()).unwrap();
    assert_eq!(c.data(), b"abc");
}

#[test]
fn type_bytes_are_not_checked_on_decode() {
    let c = Chunk::new(ChunkType::try_from([1, 2, 3, 4]).unwrap(), b"z".to_vec());
    let d = Chunk::try_from(c.as_bytes().as_slice()).unwrap();
    assert_eq!(d.chunk_type().bytes(), [1, 2, 3, 4]);
}

#[test]
fn non_utf8_payload_has_no_text() {
    let c = Chunk::new(ChunkType::from_str("RuSt").unwrap(), vec![0xff, 0xfe]);
    assert_eq!(c.data_as_string(), Err(PngError::InvalidUtf8));
    let c = Chunk::new(ChunkType::from_str("RuSt").unwrap(), "héllo".as_bytes().to_vec());
    assert_eq!(c.data_as_string().unwrap(), "héllo");
}

#[test]
fn stored_checksum_must_equal_computed() {
    let t = ChunkType::from_str("RuSt").unwrap();
    let msg = b"This is where your secret message will be!".to_vec();
    let ok = Chunk::with_stored_crc(t, msg.clone(), 2882656334, 2882656334).unwrap();
    assert_eq!(ok.crc(), 2882656334);
    assert_eq!(ok.length(), 42);
    let bad = Chunk::with_stored_crc(t, msg, 2882656333, 2882656334);
    assert_eq!(bad.err(), Some(PngError::ChecksumMismatch));
}
