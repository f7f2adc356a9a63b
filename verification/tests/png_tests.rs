use pngme::chunk::Chunk;
use pngme::chunk_type::ChunkType;
use pngme::error::Error;
use pngme::ops::{decode_and_fetch, decode_and_remove, encode_and_append};
use pngme::png::Png;

const SIGNATURE: [u8; 8] = [137, 80, 78, 71, 13, 10, 26, 10];

fn chunk_from(type_str: &str, message: &str) -> Chunk {
    let chunk_type = ChunkType::from_str(type_str).unwrap();
    Chunk::new(chunk_type, message.as_bytes().to_vec())
}

fn testing_png_bytes() -> Vec<u8> {
    let mut png = Png::new();
    png.append_chunk(chunk_from("FrSt", "I am the first chunk"));
    png.append_chunk(chunk_from("miDl", "I am another chunk"));
    png.append_chunk(chunk_from("LASt", "I am the last chunk"));
    png.as_bytes()
}

#[test]
fn test_signature_only_round_trip() {
    let png = Png::new();
    let bytes = png.as_bytes();
    assert_eq!(bytes, SIGNATURE.to_vec());
    let decoded = Png::try_from(bytes.as_ref()).unwrap();
    assert_eq!(decoded.chunks().len(), 0);
    assert_eq!(decoded.as_bytes(), bytes);
}

#[test]
fn test_round_trip_preserves_records_and_bytes() {
    let bytes = testing_png_bytes();
    let decoded = Png::try_from(bytes.as_ref()).unwrap();
    assert_eq!(decoded.chunks().len(), 3);
    assert_eq!(decoded.chunks()[0].chunk_type().to_string(), "FrSt");
    assert_eq!(decoded.chunks()[1].chunk_type().to_string(), "miDl");
    assert_eq!(decoded.chunks()[2].chunk_type().to_string(), "LASt");
    assert_eq!(
        decoded.chunks()[1].data_as_string().unwrap(),
        "I am another chunk"
    );
    assert_eq!(decoded.as_bytes(), bytes);
}

#[test]
fn test_png_too_small() {
    let bytes = [137u8, 80, 78, 71, 13, 10, 26];
    let r = Png::try_from(bytes.as_ref());
    assert!(matches!(r, Err(Error::PngTooSmall)));
}

#[test]
fn test_invalid_header() {
    let bytes = [13u8, 80, 78, 71, 13, 10, 26, 10];
    let r = Png::try_from(bytes.as_ref());
    assert!(matches!(r, Err(Error::InvalidHeader)));
}

#[test]
fn test_chunk_too_small() {
    let chunk = chunk_from("TeSt", "hi");
    let wire = chunk.as_bytes();
    let r = Chunk::try_from(&wire[..11]);
    assert!(matches!(r, Err(Error::ChunkTooSmall)));
}

#[test]
fn test_invalid_chunk_type_byte() {
    let mut wire = chunk_from("TeSt", "hello").as_bytes();
    wire[5] = b'1';
    let r = Chunk::try_from(wire.as_ref());
    assert!(matches!(r, Err(Error::InvalidChunkType)));
}

#[test]
fn test_invalid_chunk_size() {
    let mut wire = chunk_from("TeSt", "hello").as_bytes();
    wire[3] = 200;
    let r = Chunk::try_from(wire.as_ref());
    assert!(matches!(
        r,
        Err(Error::InvalidChunkSize { bytes_recv: 17, length_field: 200 })
    ));
}

#[test]
fn test_payload_bit_flip_rejected() {
    let chunk = chunk_from("TeSt", "hello");
    let wire = chunk.as_bytes();
    for bit in 0..8 {
        let mut corrupted = wire.clone();
        corrupted[8] ^= 1 << bit;
        let r = Chunk::try_from(corrupted.as_ref());
        assert!(matches!(r, Err(Error::InvalidCRC)));
    }
}

#[test]
fn test_type_case_bit_flip_rejected() {
    let chunk = chunk_from("TeSt", "hello");
    let mut wire = chunk.as_bytes();
    // Flipping bit 5 of a type byte keeps it a letter, so only the
    // checksum can catch the change.
    wire[4] ^= 0x20;
    let r = Chunk::try_from(wire.as_ref());
    assert!(matches!(r, Err(Error::InvalidCRC)));
}

#[test]
fn test_crc_bit_flip_rejected() {
    let chunk = chunk_from("TeSt", "hello");
    let wire = chunk.as_bytes();
    let crc_start = wire.len() - 4;
    for bit in 0..8 {
        let mut corrupted = wire.clone();
        corrupted[crc_start] ^= 1 << bit;
        let r = Chunk::try_from(corrupted.as_ref());
        assert!(matches!(r, Err(Error::InvalidCRC)));
    }
}

#[test]
fn test_data_not_utf8() {
    let chunk_type = ChunkType::from_str("TeSt").unwrap();
    let chunk = Chunk::new(chunk_type, vec![0xff, 0xfe, 0xfd]);
    let r = chunk.data_as_string();
    assert!(matches!(r, Err(Error::DataNotUTF8)));
}

#[test]
fn test_append_and_remove_first_by_type() {
    let mut png = Png::try_from(testing_png_bytes().as_ref()).unwrap();
    png.append_chunk(chunk_from("TEST", "hello"));
    let removed = png.remove_chunk("TEST").unwrap();
    assert_eq!(removed.chunk_type().to_string(), "TEST");
    assert_eq!(removed.data_as_string().unwrap(), "hello");
    assert!(png.chunk_by_type("TEST").is_none());
    let again = png.remove_chunk("TEST");
    assert!(matches!(again, Err(Error::NoChunkOfGivenTypeFound)));
    assert_eq!(png.chunks().len(), 3);
}

#[test]
fn test_remove_takes_first_of_equal_types() {
    let mut png = Png::new();
    png.append_chunk(chunk_from("DuPe", "one"));
    png.append_chunk(chunk_from("DuPe", "two"));
    let removed = png.remove_chunk("DuPe").unwrap();
    assert_eq!(removed.data_as_string().unwrap(), "one");
    let left = png.chunk_by_type("DuPe").unwrap();
    assert_eq!(left.data_as_string().unwrap(), "two");
}

#[test]
fn test_chunk_by_type_finds_first_without_removing() {
    let png = Png::try_from(testing_png_bytes().as_ref()).unwrap();
    let found = png.chunk_by_type("miDl").unwrap();
    assert_eq!(found.data_as_string().unwrap(), "I am another chunk");
    assert!(png.chunk_by_type("none").is_none());
    assert!(png.chunk_by_type("NoNe").is_none());
    assert_eq!(png.chunks().len(), 3);
}

#[test]
fn test_encode_then_fetch_secret() {
    let minimal = Png::new().as_bytes();
    let with_secret =
        encode_and_append(minimal.as_ref(), "ruSt", b"secret".to_vec()).unwrap();
    let fetched = decode_and_fetch(with_secret.as_ref(), "ruSt").unwrap();
    assert_eq!(fetched, "secret");
}

#[test]
fn test_encode_and_append_rejects_bad_type() {
    let minimal = Png::new().as_bytes();
    let r = encode_and_append(minimal.as_ref(), "Ru1t", b"secret".to_vec());
    assert!(matches!(r, Err(Error::InvalidChunkType)));
    let r = encode_and_append(minimal.as_ref(), "Rusty", b"secret".to_vec());
    assert!(matches!(r, Err(Error::InvalidChunkType)));
}

#[test]
fn test_decode_and_fetch_not_found() {
    let bytes = testing_png_bytes();
    let r = decode_and_fetch(bytes.as_ref(), "NoNe");
    assert!(matches!(r, Err(Error::NoChunkOfGivenTypeFound)));
}

#[test]
fn test_decode_and_remove_round_trip() {
    let minimal = Png::new().as_bytes();
    let with_secret =
        encode_and_append(minimal.as_ref(), "ruSt", b"secret".to_vec()).unwrap();
    let without = decode_and_remove(with_secret.as_ref(), "ruSt").unwrap();
    assert_eq!(without, minimal);
    let r = decode_and_remove(without.as_ref(), "ruSt");
    assert!(matches!(r, Err(Error::NoChunkOfGivenTypeFound)));
}

#[test]
fn test_known_crc_value_on_wire() {
    // The CRC-32/ISO-HDLC checksum of type "RuSt" followed by this payload.
    let chunk = chunk_from("RuSt", "This is where your secret message will be!");
    assert_eq!(chunk.crc(), 2882656334);
    let wire = chunk.as_bytes();
    let expected: Vec<u8> = 42u32
        .to_be_bytes()
        .iter()
        .chain("RuSt".as_bytes().iter())
        .chain("This is where your secret message will be!".as_bytes().iter())
        .chain(2882656334u32.to_be_bytes().iter())
        .copied()
        .collect();
    assert_eq!(wire, expected);
}

#[test]
fn test_decode_propagates_record_error() {
    let mut bytes = testing_png_bytes();
    let len = bytes.len();
    bytes[len - 1] ^= 1;
    let r = Png::try_from(bytes.as_ref());
    assert!(matches!(r, Err(Error::InvalidCRC)));
}
