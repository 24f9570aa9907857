use pngme::chunk::Chunk;
use pngme::chunk_type::ChunkType;
use pngme::error::PngError;
use std::convert::TryFrom;
use std::str::FromStr;

fn testing_chunk() -> Chunk {
    let data_length: u32 = 42;
    let chunk_type = "RuSt".as_bytes();
    let message_bytes = "This is where your secret message will be!".as_bytes();
    let crc: u32 = 2882656334;

    let chunk_data: Vec<u8> = data_length
        .to_be_bytes()
        .iter()
        .chain(chunk_type.iter())
        .chain(message_bytes.iter())
        .chain(crc.to_be_bytes().iter())
        .copied()
        .collect();

    Chunk::try_from(chunk_data.as_ref()).unwrap()
}

fn wire(length: u32, type_bytes: &[u8], data: &[u8], crc: u32) -> Vec<u8> {
    length
        .to_be_bytes()
        .iter()
        .chain(type_bytes.iter())
        .chain(data.iter())
        .chain(crc.to_be_bytes().iter())
        .copied()
        .collect()
}

fn reference_crc(bytes: &[u8]) -> u32 {
    crc::Crc::<u32>::new(&crc::CRC_32_ISO_HDLC).checksum(bytes)
}

#[test]
fn test_new_chunk() {
    let chunk_type = ChunkType::from_str("RuSt").unwrap();
    let data = "This is where your secret message will be!"
        .as_bytes()
        .to_vec();
    let chunk = Chunk::new(chunk_type, data);
    assert_eq!(chunk.length(), 42);
}

#[test]
fn test_chunk_length() {
    let chunk = testing_chunk();
    assert_eq!(chunk.length(), 42);
}

#[test]
fn test_chunk_type() {
    let chunk = testing_chunk();
    assert_eq!(chunk.chunk_type().to_string(), String::from("RuSt"));
}

#[test]
fn test_chunk_string() {
    let chunk = testing_chunk();
    let chunk_string = chunk.data_as_string().unwrap();
    let expected_chunk_string = String::from("This is where your secret message will be!");
    assert_eq!(chunk_string, expected_chunk_string);
}

#[test]
fn test_chunk_crc() {
    let _chunk = testing_chunk();
}

#[test]
fn test_valid_chunk_from_bytes() {
    let data_length: u32 = 42;
    let chunk_type = "RuSt".as_bytes();
    let message_bytes = "This is where your secret message will be!".as_bytes();
    let crc: u32 = 2882656334;

    let chunk_data: Vec<u8> = data_length
        .to_be_bytes()
        .iter()
        .chain(chunk_type.iter())
        .chain(message_bytes.iter())
        .chain(crc.to_be_bytes().iter())
        .copied()
        .collect();

    let chunk = Chunk::try_from(chunk_data.as_ref()).unwrap();

    let chunk_string = chunk.data_as_string().unwrap();
    let expected_chunk_string = String::from("This is where your secret message will be!");

    assert_eq!(chunk.length(), 42);
    assert_eq!(chunk.chunk_type().to_string(), String::from("RuSt"));
    assert_eq!(chunk_string, expected_chunk_string);
    assert_eq!(chunk.crc(), 2882656334);
}

#[test]
fn test_invalid_chunk_from_bytes() {
    let data_length: u32 = 42;
    let chunk_type = "RuSt".as_bytes();
    let message_bytes = "This is where your secret message will be!".as_bytes();
    let crc: u32 = 2882656333;

    let chunk_data: Vec<u8> = data_length
        .to_be_bytes()
        .iter()
        .chain(chunk_type.iter())
        .chain(message_bytes.iter())
        .chain(crc.to_be_bytes().iter())
        .copied()
        .collect();

    let chunk = Chunk::try_from(chunk_data.as_ref());

    assert!(chunk.is_err());
}

#[test]
pub fn test_chunk_trait_impls() {
    let data_length: u32 = 42;
    let chunk_type = "RuSt".as_bytes();
    let message_bytes = "This is where your secret message will be!".as_bytes();
    let crc: u32 = 2882656334;

    let chunk_data: Vec<u8> = data_length
        .to_be_bytes()
        .iter()
        .chain(chunk_type.iter())
        .chain(message_bytes.iter())
        .chain(crc.to_be_bytes().iter())
        .copied()
        .collect();

    let chunk: Chunk = TryFrom::try_from(chunk_data.as_ref()).unwrap();

    let _chunk_bytes = chunk.as_bytes();
}

#[test]
fn new_chunk_has_png_crc() {
    let t = ChunkType::from_string("RuSt").unwrap();
    let chunk = Chunk::new(t, b"This is where your secret message will be!".to_vec());
    assert_eq!(chunk.crc(), 2882656334);
    assert_eq!(chunk.data(), b"This is where your secret message will be!");
}

#[test]
fn crc_of_empty_iend() {
    let t = ChunkType::from_string("IEND").unwrap();
    let chunk = Chunk::new(t, Vec::new());
    assert_eq!(chunk.crc(), 0xAE426082);
    assert_eq!(chunk.as_bytes(), vec![0, 0, 0, 0, 73, 69, 78, 68, 0xAE, 0x42, 0x60, 0x82]);
}

#[test]
fn encode_layout_is_exact() {
    let t = ChunkType::from_string("ruSt").unwrap();
    let chunk = Chunk::new(t, b"hello".to_vec());
    let crc = reference_crc(b"ruSthello");
    assert_eq!(chunk.as_bytes(), wire(5, b"ruSt", b"hello", crc));
}

#[test]
fn round_trip_single_chunk() {
    for data in [Vec::new(), b"x".to_vec(), vec![7u8; 255], vec![200u8; 256], vec![1u8; 1000]] {
        let t = ChunkType::from_string("ruSt").unwrap();
        let chunk = Chunk::new(t, data.clone());
        let back = Chunk::from_bytes(&chunk.as_bytes()).unwrap();
        assert_eq!(back.length() as usize, data.len());
        assert_eq!(back.chunk_type(), chunk.chunk_type());
        assert_eq!(back.data(), &data[..]);
        assert_eq!(back.crc(), chunk.crc());
    }
}

#[test]
fn every_single_bit_flip_is_a_crc_mismatch() {
    let t = ChunkType::from_string("RuSt").unwrap();
    let bytes = Chunk::new(t, b"secret".to_vec()).as_bytes();
    for k in 4..(8 + 6) {
        for bit in 0..8 {
            let mut flipped = bytes.clone();
            flipped[k] ^= 1u8 << bit;
            assert_eq!(Chunk::from_bytes(&flipped).unwrap_err(), PngError::CrcMismatch);
        }
    }
}

#[test]
fn truncated_input_is_reported() {
    let t = ChunkType::from_string("RuSt").unwrap();
    let bytes = Chunk::new(t, b"secret".to_vec()).as_bytes();
    for cut in 0..bytes.len() {
        assert_eq!(Chunk::from_bytes(&bytes[..cut]).unwrap_err(), PngError::TruncatedInput);
    }
    assert_eq!(Chunk::from_bytes(&[0, 0, 1]).unwrap_err(), PngError::TruncatedInput);
}

#[test]
fn trailing_bytes_are_left_unread() {
    let t = ChunkType::from_string("RuSt").unwrap();
    let mut bytes = Chunk::new(t, b"abc".to_vec()).as_bytes();
    bytes.extend_from_slice(&[9, 9, 9]);
    let chunk = Chunk::from_bytes(&bytes).unwrap();
    assert_eq!(chunk.data(), b"abc");
    let (_, end) = Chunk::decode_at(&bytes, 0).unwrap();
    assert_eq!(end, 15);
}

#[test]
fn bad_type_bytes_with_good_crc() {
    let crc = reference_crc(b"Ru1tab");
    let bytes = wire(2, b"Ru1t", b"ab", crc);
    assert_eq!(Chunk::from_bytes(&bytes).unwrap_err(), PngError::InvalidChunkTypeBytes);
}

#[test]
fn check_fields_decides_in_order() {
    assert_eq!(Chunk::check_fields(1, 2, *b"Ru1t"), Err(PngError::CrcMismatch));
    assert_eq!(Chunk::check_fields(1, 2, *b"RuSt"), Err(PngError::CrcMismatch));
    assert_eq!(Chunk::check_fields(5, 5, *b"Ru1t"), Err(PngError::InvalidChunkTypeBytes));
    assert_eq!(Chunk::check_fields(5, 5, *b"RuSt"), Ok(()));
}

#[test]
fn non_utf8_data_is_not_text() {
    let t = ChunkType::from_string("RuSt").unwrap();
    let chunk = Chunk::new(t, vec![0xff, 0xfe, 0x41]);
    assert_eq!(chunk.data_as_string(), Err(PngError::NotUtf8));
    let text = Chunk::new(t, "héllo".as_bytes().to_vec());
    assert_eq!(text.data_as_string().unwrap(), "héllo");
}

#[test]
fn chunk_from_strings_builds_text_chunk() {
    let chunk = Chunk::chunk_from_strings(String::from("ruSt"), String::from("hello")).unwrap();
    assert_eq!(chunk.chunk_type().to_string(), "ruSt");
    assert_eq!(chunk.data(), b"hello");
    assert_eq!(chunk.length(), 5);
    assert_eq!(
        Chunk::chunk_from_strings(String::from("r1St"), String::from("hello")).unwrap_err(),
        PngError::InvalidChunkTypeBytes
    );
    assert_eq!(
        Chunk::chunk_from_strings(String::from("rSt"), String::from("hello")).unwrap_err(),
        PngError::InvalidChunkTypeString
    );
}

#[test]
fn make_crc_covers_type_and_data() {
    let t = ChunkType::from_string("RuSt").unwrap();
    let data = b"This is where your secret message will be!".to_vec();
    assert_eq!(pngme::chunk::make_crc(&t, &data), 2882656334);
}

#[test]
fn clone_keeps_fields() {
    let chunk = testing_chunk();
    let copy = chunk.clone();
    assert_eq!(copy.as_bytes(), chunk.as_bytes());
}
