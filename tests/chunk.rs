use std::str::FromStr;

use pngme::chunk::Chunk;
use pngme::chunk_type::ChunkType;
use pngme::error::PngError;
use pngme::utils::read_be_u32;

fn record(data_length: u32, chunk_type: &[u8], message_bytes: &[u8], crc: u32) -> Vec<u8> {
    data_length
        .to_be_bytes()
        .iter()
        .chain(chunk_type.iter())
        .chain(message_bytes.iter())
        .chain(crc.to_be_bytes().iter())
        .copied()
        .collect()
}

fn testing_chunk() -> Chunk {
    let data_length: u32 = 42;
    let chunk_type = "RuSt".as_bytes();
    let message_bytes = "This is where your secret message will be!".as_bytes();
    let crc: u32 = 2882656334;

    let chunk_data: Vec<u8> = record(data_length, chunk_type, message_bytes, crc);

    Chunk::try_from(chunk_data.as_ref()).unwrap()
}

#[test]
fn chunk_test() {
    let a = testing_chunk();
    println!("{:?}", a);
}

#[test]
fn test_new_chunk() {
    let chunk_type = ChunkType::from_str("RuSt").unwrap();
    let data = "This is where your secret message will be!".as_bytes().to_vec();
    let chunk = Chunk::new(chunk_type, data);
    assert_eq!(chunk.length(), 42);
    assert_eq!(chunk.crc(), 2882656334);
}

#[test]
fn test_chunk_length() {
    let chunk = testing_chunk();
    assert_eq!(chunk.length(), 42);
}

#[test]
fn test_chunk_type() {
    let chunk = testing_chunk();
    assert_eq!(chunk.chunk_type().to_string(), String::from("RuSt"));
}

#[test]
fn test_chunk_string() {
    let chunk = testing_chunk();
    let chunk_string = chunk.data_as_string().unwrap();
    let expected_chunk_string = String::from("This is where your secret message will be!");
    assert_eq!(chunk_string, expected_chunk_string);
}

#[test]
fn test_chunk_crc() {
    let chunk = testing_chunk();
    assert_eq!(chunk.crc(), 2882656334);
}

#[test]
fn test_valid_chunk_from_bytes() {
    let data_length: u32 = 42;
    let chunk_type = "RuSt".as_bytes();
    let message_bytes = "This is where your secret message will be!".as_bytes();
    let crc: u32 = 2882656334;

    let chunk_data: Vec<u8> = record(data_length, chunk_type, message_bytes, crc);

    let chunk = Chunk::try_from(chunk_data.as_ref()).unwrap();

    let chunk_string = chunk.data_as_string().unwrap();
    let expected_chunk_string = String::from("This is where your secret message will be!");

    assert_eq!(chunk.length(), 42);
    assert_eq!(chunk.chunk_type().to_string(), String::from("RuSt"));
    assert_eq!(chunk_string, expected_chunk_string);
    assert_eq!(chunk.crc(), 2882656334);
}

#[test]
fn test_invalid_chunk_from_bytes() {
    let data_length: u32 = 42;
    let chunk_type = "RuSt".as_bytes();
    let message_bytes = "This is where your secret message will be!".as_bytes();
    let crc: u32 = 2882656333;

    let chunk_data: Vec<u8> = record(data_length, chunk_type, message_bytes, crc);

    let chunk = Chunk::try_from(chunk_data.as_ref());

    assert!(chunk.is_err());
}

#[test]
pub fn test_chunk_trait_impls() {
    let data_length: u32 = 42;
    let chunk_type = "RuSt".as_bytes();
    let message_bytes = "This is where your secret message will be!".as_bytes();
    let crc: u32 = 2882656334;

    let chunk_data: Vec<u8> = record(data_length, chunk_type, message_bytes, crc);

    let chunk: Chunk = TryFrom::try_from(chunk_data.as_ref()).unwrap();

    let _chunk_string = format!("{:?}", chunk);
}

#[test]
fn new_chunk_encodes_then_decodes_to_same_fields() {
    let t = ChunkType::from_str("RuSt").unwrap();
    let msg = "This is where your secret message will be!";
    let chunk = Chunk::new(t, msg.as_bytes().to_vec());
    let bytes = chunk.as_bytes();
    assert_eq!(bytes.len(), 12 + 42);
    assert_eq!(&bytes[0..4], &[0, 0, 0, 42]);
    assert_eq!(&bytes[4..8], b"RuSt");
    assert_eq!(&bytes[bytes.len() - 4..], &2882656334u32.to_be_bytes());
    let back = Chunk::from_record(&bytes).unwrap();
    assert_eq!(back.length(), 42);
    assert_eq!(back.chunk_type().bytes(), *b"RuSt");
    assert_eq!(back.data(), msg.as_bytes());
    assert_eq!(back.crc(), 2882656334);
}

#[test]
fn empty_data_chunk_round_trips() {
    let t = ChunkType::from_str("IEND").unwrap();
    let chunk = Chunk::new(t, Vec::new());
    let bytes = chunk.as_bytes();
    // the well-known record of an IEND chunk
    assert_eq!(bytes, vec![0, 0, 0, 0, 73, 69, 78, 68, 174, 66, 96, 130]);
    let back = Chunk::from_record(&bytes).unwrap();
    assert_eq!(back.length(), 0);
    assert_eq!(back.crc(), 0xAE426082);
}

#[test]
fn every_single_bit_flip_in_type_or_data_is_a_crc_error() {
    let t = ChunkType::from_str("RuSt").unwrap();
    let bytes = Chunk::new(t, b"hidden".to_vec()).as_bytes();
    for k in 4..bytes.len() - 4 {
        for bit in 0..8 {
            let mut flipped = bytes.clone();
            flipped[k] ^= 1u8 << bit;
            assert_eq!(Chunk::from_record(&flipped).err(), Some(PngError::CRCError));
        }
    }
}

#[test]
fn short_record_is_a_chunk_error() {
    assert_eq!(Chunk::from_record(&[0, 0, 0, 0, 73, 69, 78, 68, 174, 66, 96]).err(), Some(PngError::ChunkError));
    assert_eq!(Chunk::from_record(&[]).err(), Some(PngError::ChunkError));
}

fn checksum(body: &[u8]) -> u32 {
    crc::Crc::<u32>::new(&crc::CRC_32_ISO_HDLC).checksum(body)
}

#[test]
fn length_field_disagreeing_with_size_is_a_chunk_error() {
    let bytes = record(5, b"RuSt", b"abcd", checksum(b"RuStabcd"));
    assert_eq!(Chunk::from_record(&bytes).err(), Some(PngError::ChunkError));
}

#[test]
fn crc_mismatch_is_reported_before_a_wrong_length() {
    let bytes = record(5, b"RuSt", b"abcd", 0);
    assert_eq!(Chunk::from_record(&bytes).err(), Some(PngError::CRCError));
}

#[test]
fn bad_type_is_reported_before_a_wrong_length() {
    let bytes = record(9, b"Ru1t", b"abcd", checksum(b"Ru1tabcd"));
    assert_eq!(Chunk::from_record(&bytes).err(), Some(PngError::ChunkTypeError));
}

#[test]
fn try_from_bytes_accepts_letters_only() {
    assert_eq!(ChunkType::try_from([82, 117, 49, 116]), Err(PngError::ChunkTypeError));
    let t = ChunkType::try_from([82, 117, 83, 116]).unwrap();
    assert_eq!(t.bytes(), [82, 117, 83, 116]);
    assert!(!t.is_err());
    assert_eq!(ChunkType::from_str("RuSt").unwrap(), t);
}

#[test]
fn bad_type_with_matching_crc_is_a_type_error() {
    let crc = checksum(b"Ru1tdata");
    let bytes = record(4, b"Ru1t", b"data", crc);
    assert_eq!(Chunk::from_record(&bytes).err(), Some(PngError::ChunkTypeError));
}

#[test]
fn invalid_utf8_data_is_an_encoding_error() {
    let t = ChunkType::from_str("RuSt").unwrap();
    let chunk = Chunk::new(t, vec![0xff, 0xfe, 0x41]);
    assert_eq!(chunk.data_as_string(), Err(PngError::EncodingError));
    let ok = Chunk::new(ChunkType::from_str("RuSt").unwrap(), "héllo".as_bytes().to_vec());
    assert_eq!(ok.data_as_string().unwrap(), "héllo");
}

#[test]
fn read_be_u32_reads_first_four_bytes() {
    assert_eq!(read_be_u32(&[0xAB, 0xCD, 0xEF, 0x12, 0x99]), 0xABCDEF12);
    assert_eq!(read_be_u32(&[0, 0, 0, 42]), 42);
    assert_eq!(pngme::utils::write_be_u32(0xABCDEF12), [0xAB, 0xCD, 0xEF, 0x12]);
}

#[test]
fn lossy_text_replaces_invalid_bytes() {
    let t = ChunkType::from_str("RuSt").unwrap();
    let chunk = Chunk::new(t, vec![b'a', 0xff, b'b']);
    assert_eq!(chunk.data_as_lossy_string(), "a\u{FFFD}b");
    let ok = Chunk::new(ChunkType::from_str("RuSt").unwrap(), "héllo".as_bytes().to_vec());
    assert_eq!(ok.data_as_lossy_string(), "héllo");
}
