use pngme::chunk::Chunk;
use pngme::chunk_type::ChunkType;
use pngme::error::PngError;
use pngme::png::Png;

fn chunk_from(chunk_type: &str, data: &str) -> Chunk {
    Chunk::new(
        ChunkType::from_str(chunk_type).unwrap(),
        data.as_bytes().to_vec(),
    )
}

fn testing_chunks() -> Vec<Chunk> {
    vec![
        chunk_from("IHDR", "I am the first chunk"),
        chunk_from("tEXt", "foo"),
        chunk_from("IEND", ""),
    ]
}

fn chunk_type_texts(png: &Png) -> Vec<String> {
    png.ancillary_chunks()
        .iter()
        .map(|c| c.chunk_type().to_text())
        .collect()
}

#[test]
fn test_append_chunk_goes_before_terminator() {
    let mut png = Png::from_chunks(testing_chunks());
    png.append_chunk(chunk_from("ruSt", "secret"));
    let bytes = png.as_bytes();
    let parsed = Png::try_from(bytes.as_ref()).unwrap();
    let texts: Vec<String> = vec![
        parsed.chunk_by_type("IHDR").unwrap().chunk_type().to_text(),
        parsed.chunk_by_type("tEXt").unwrap().chunk_type().to_text(),
        parsed.chunk_by_type("ruSt").unwrap().chunk_type().to_text(),
        parsed.chunk_by_type("IEND").unwrap().chunk_type().to_text(),
    ];
    assert_eq!(texts, vec!["IHDR", "tEXt", "ruSt", "IEND"]);
}

#[test]
fn test_end_to_end_append_serialize_parse_remove() {
    let mut png = Png::from_chunks(testing_chunks());
    let original_bytes = png.as_bytes();

    png.append_chunk(chunk_from("ruSt", "secret"));
    let appended_bytes = png.as_bytes();

    // The appended chunk sits immediately before the terminator.
    let expected: Vec<u8> = {
        let chunks = vec![
            chunk_from("IHDR", "I am the first chunk"),
            chunk_from("tEXt", "foo"),
            chunk_from("ruSt", "secret"),
            chunk_from("IEND", ""),
        ];
        Png::from_chunks(chunks).as_bytes()
    };
    assert_eq!(appended_bytes, expected);

    // Serializing and parsing reproduces the same 4-chunk container.
    let reparsed = Png::try_from(appended_bytes.as_ref()).unwrap();
    assert_eq!(reparsed, png);
    assert_eq!(reparsed.as_bytes(), appended_bytes);

    // Removing the appended chunk restores the original 3-chunk stream.
    let removed = png.remove_chunk("ruSt").unwrap();
    assert_eq!(removed.data_as_string().unwrap(), "secret");
    assert_eq!(png.as_bytes(), original_bytes);
}

#[test]
fn test_ancillary_chunks_in_order() {
    let mut png = Png::from_chunks(testing_chunks());
    png.append_chunk(chunk_from("ruSt", "secret"));
    // IHDR and IEND are critical; tEXt and ruSt are ancillary, in that order.
    assert_eq!(chunk_type_texts(&png), vec!["tEXt", "ruSt"]);
}

#[test]
fn test_ancillary_chunks_empty_when_all_critical() {
    let png = Png::from_chunks(vec![chunk_from("IHDR", "x"), chunk_from("IEND", "")]);
    assert_eq!(chunk_type_texts(&png), Vec::<String>::new());
}

#[test]
fn test_invalid_signature_is_rejected() {
    let mut bytes = Png::from_chunks(testing_chunks()).as_bytes();
    bytes[0] = 13;
    assert_eq!(
        Png::try_from(bytes.as_ref()),
        Err(PngError::InvalidSignature)
    );
    assert_eq!(Png::try_from(&bytes[..4]), Err(PngError::InvalidSignature));
}

#[test]
fn test_truncated_container_is_rejected() {
    let bytes = Png::from_chunks(testing_chunks()).as_bytes();
    // Cut inside the first chunk's payload: its declared length exceeds what
    // remains, so the record parse fails and the container parse propagates it.
    let truncated = &bytes[..8 + 12];
    assert_eq!(Png::try_from(truncated), Err(PngError::TruncatedInput));
}

#[test]
fn test_chunk_by_type_finds_first_match() {
    let mut png = Png::from_chunks(testing_chunks());
    png.append_chunk(chunk_from("ruSt", "first"));
    png.append_chunk(chunk_from("ruSt", "second"));
    let found = png.chunk_by_type("ruSt").unwrap();
    assert_eq!(found.data_as_string().unwrap(), "first");
    assert!(png.chunk_by_type("ruST").is_none());
}

#[test]
fn test_remove_chunk_removes_first_match_only() {
    let mut png = Png::from_chunks(testing_chunks());
    png.append_chunk(chunk_from("ruSt", "first"));
    png.append_chunk(chunk_from("ruSt", "second"));
    let removed = png.remove_chunk("ruSt").unwrap();
    assert_eq!(removed.data_as_string().unwrap(), "first");
    let still_there = png.chunk_by_type("ruSt").unwrap();
    assert_eq!(still_there.data_as_string().unwrap(), "second");
}

#[test]
fn test_remove_chunk_missing_is_chunk_not_found() {
    let mut png = Png::from_chunks(testing_chunks());
    assert_eq!(png.remove_chunk("ruSt"), Err(PngError::ChunkNotFound));
}

#[test]
fn test_corrupted_crc_in_container_is_rejected() {
    let bytes = Png::from_chunks(testing_chunks()).as_bytes();
    let mut corrupted = bytes.clone();
    // Flip one bit in the first chunk's payload (signature 8 + header 8).
    corrupted[8 + 8] ^= 1;
    assert_eq!(Png::try_from(corrupted.as_ref()), Err(PngError::InvalidCrc));
}
