use pngme::chunk::Chunk;
use pngme::chunk_type::ChunkType;
use pngme::error::PngError;

fn testing_chunk() -> Chunk {
    let data_length: u32 = 42;
    let chunk_type = "RuSt".as_bytes();
    let message_bytes = "This is where your secret message will be!".as_bytes();
    let crc: u32 = 2882656334;

    let chunk_data: Vec<u8> = data_length
        .to_be_bytes()
        .iter()
        .chain(chunk_type.iter())
        .chain(message_bytes.iter())
        .chain(crc.to_be_bytes().iter())
        .copied()
        .collect();

    Chunk::try_from(chunk_data.as_ref()).unwrap()
}

#[test]
fn test_new_chunk() {
    let chunk_type = ChunkType::from_str("RuSt").unwrap();
    let data = "This is where your secret message will be!"
        .as_bytes()
        .to_vec();
    let chunk = Chunk::new(chunk_type, data);
    assert_eq!(chunk.length(), 42);
    assert_eq!(chunk.crc(), 2882656334);
}

#[test]
fn test_chunk_length() {
    let chunk = testing_chunk();
    assert_eq!(chunk.length(), 42);
}

#[test]
fn test_chunk_type() {
    let chunk = testing_chunk();
    assert_eq!(chunk.chunk_type().to_text(), String::from("RuSt"));
}

#[test]
fn test_chunk_string() {
    let chunk = testing_chunk();
    let chunk_string = chunk.data_as_string().unwrap();
    let expected_chunk_string = String::from("This is where your secret message will be!");
    assert_eq!(chunk_string, expected_chunk_string);
}

#[test]
fn test_chunk_crc() {
    let chunk = testing_chunk();
    assert_eq!(chunk.crc(), 2882656334);
}

#[test]
fn test_valid_chunk_from_bytes() {
    let data_length: u32 = 42;
    let chunk_type = "RuSt".as_bytes();
    let message_bytes = "This is where your secret message will be!".as_bytes();
    let crc: u32 = 2882656334;

    let chunk_data: Vec<u8> = data_length
        .to_be_bytes()
        .iter()
        .chain(chunk_type.iter())
        .chain(message_bytes.iter())
        .chain(crc.to_be_bytes().iter())
        .copied()
        .collect();

    let chunk = Chunk::try_from(chunk_data.as_ref()).unwrap();

    let chunk_string = chunk.data_as_string().unwrap();
    let expected_chunk_string = String::from("This is where your secret message will be!");

    assert_eq!(chunk.length(), 42);
    assert_eq!(chunk.chunk_type().to_text(), String::from("RuSt"));
    assert_eq!(chunk_string, expected_chunk_string);
    assert_eq!(chunk.crc(), 2882656334);
}

#[test]
fn test_invalid_chunk_from_bytes() {
    let data_length: u32 = 42;
    let chunk_type = "RuSt".as_bytes();
    let message_bytes = "This is where your secret message will be!".as_bytes();
    let crc: u32 = 2882656333;

    let chunk_data: Vec<u8> = data_length
        .to_be_bytes()
        .iter()
        .chain(chunk_type.iter())
        .chain(message_bytes.iter())
        .chain(crc.to_be_bytes().iter())
        .copied()
        .collect();

    let chunk = Chunk::try_from(chunk_data.as_ref());

    assert!(chunk.is_err());
}

#[test]
pub fn test_chunk_trait_impls() {
    let data_length: u32 = 42;
    let chunk_type = "RuSt".as_bytes();
    let message_bytes = "This is where your secret message will be!".as_bytes();
    let crc: u32 = 2882656334;

    let chunk_data: Vec<u8> = data_length
        .to_be_bytes()
        .iter()
        .chain(chunk_type.iter())
        .chain(message_bytes.iter())
        .chain(crc.to_be_bytes().iter())
        .copied()
        .collect();

    let chunk: Chunk = Chunk::try_from(chunk_data.as_ref()).unwrap();

    let _chunk_string = format!("{}", chunk.data_as_string().unwrap());
}

#[test]
fn test_wrong_crc_is_invalid_crc_error() {
    let data_length: u32 = 42;
    let chunk_type = "RuSt".as_bytes();
    let message_bytes = "This is where your secret message will be!".as_bytes();
    let crc: u32 = 2882656333;

    let chunk_data: Vec<u8> = data_length
        .to_be_bytes()
        .iter()
        .chain(chunk_type.iter())
        .chain(message_bytes.iter())
        .chain(crc.to_be_bytes().iter())
        .copied()
        .collect();

    assert_eq!(
        Chunk::try_from(chunk_data.as_ref()),
        Err(PngError::InvalidCrc)
    );
}

#[test]
fn test_single_bit_flips_in_data_are_rejected() {
    let chunk = Chunk::new(
        ChunkType::from_str("RuSt").unwrap(),
        "This is where your secret message will be!".as_bytes().to_vec(),
    );
    let serialized = chunk.as_bytes();
    let data_start = 8;
    let data_end = serialized.len() - 4;
    for byte_index in data_start..data_end {
        for bit in 0..8 {
            let mut corrupted = serialized.clone();
            corrupted[byte_index] ^= 1u8 << bit;
            assert_eq!(
                Chunk::try_from(corrupted.as_ref()),
                Err(PngError::InvalidCrc)
            );
        }
    }
}

#[test]
fn test_truncated_payload_is_truncated_input_error() {
    let chunk = Chunk::new(
        ChunkType::from_str("RuSt").unwrap(),
        "This is where your secret message will be!".as_bytes().to_vec(),
    );
    let serialized = chunk.as_bytes();
    // Cut the buffer in the middle of the payload: the declared length now
    // exceeds the bytes that remain.
    let truncated = &serialized[..20];
    assert_eq!(Chunk::try_from(truncated), Err(PngError::TruncatedInput));
}

#[test]
fn test_invalid_type_byte_is_invalid_chunk_type_error() {
    let data_length: u32 = 4;
    let chunk_type = "Ru1t".as_bytes();
    let message_bytes = "data".as_bytes();
    let crc: u32 = 0;

    let chunk_data: Vec<u8> = data_length
        .to_be_bytes()
        .iter()
        .chain(chunk_type.iter())
        .chain(message_bytes.iter())
        .chain(crc.to_be_bytes().iter())
        .copied()
        .collect();

    assert_eq!(
        Chunk::try_from(chunk_data.as_ref()),
        Err(PngError::InvalidChunkType)
    );
}

#[test]
fn test_non_utf8_payload_is_utf8_decode_error() {
    let chunk = Chunk::new(ChunkType::from_str("ruSt").unwrap(), vec![0xc3, 0x28]);
    assert_eq!(chunk.data_as_string(), Err(PngError::Utf8DecodeError));
}

#[test]
fn test_chunk_round_trip() {
    let chunk = Chunk::new(ChunkType::from_str("ruSt").unwrap(), vec![1, 2, 3, 255, 0]);
    let parsed = Chunk::try_from(chunk.as_bytes().as_ref()).unwrap();
    assert_eq!(parsed, chunk);
}

#[test]
fn test_empty_payload_round_trip() {
    let chunk = Chunk::new(ChunkType::from_str("IEND").unwrap(), Vec::new());
    assert_eq!(chunk.length(), 0);
    let parsed = Chunk::try_from(chunk.as_bytes().as_ref()).unwrap();
    assert_eq!(parsed, chunk);
}
