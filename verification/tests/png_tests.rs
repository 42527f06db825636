use pngme_lib::chunk::{Chunk, ChunkParseError};
use pngme_lib::chunk_type::{ChunkType, ChunkTypeParseError};
use pngme_lib::png::{Png, PngParseError, STANDARD_HEADER};
use std::str::FromStr;

fn chunk_of(chunk_type: &str, data: &str) -> Chunk {
    Chunk::new(
        ChunkType::from_str(chunk_type).unwrap(),
        data.as_bytes().to_vec(),
    )
}

fn three_chunks() -> Vec<Chunk> {
    vec![
        chunk_of("FrSt", "I am the first chunk"),
        chunk_of("miDl", "I am another chunk"),
        chunk_of("LASt", "I am the last chunk"),
    ]
}

fn three_chunk_bytes() -> Vec<u8> {
    let mut bytes = STANDARD_HEADER.to_vec();
    for chunk in three_chunks() {
        bytes.extend_from_slice(&chunk.as_bytes());
    }
    bytes
}

#[test]
fn test_png_header_value() {
    assert_eq!(
        STANDARD_HEADER,
        [0x89, 0x50, 0x4e, 0x47, 0x0d, 0x0a, 0x1a, 0x0a]
    );
}

#[test]
fn test_png_from_chunks() {
    let png = Png::from_chunks(three_chunks());
    assert_eq!(png.chunks().len(), 3);
    assert_eq!(png.chunks()[0].chunk_type().to_string(), "FrSt");
    assert_eq!(png.chunks()[1].chunk_type().to_string(), "miDl");
    assert_eq!(png.chunks()[2].chunk_type().to_string(), "LASt");
}

#[test]
fn test_png_empty_container() {
    let png = Png::from_chunks(Vec::new());
    assert_eq!(png.chunks().len(), 0);
    assert_eq!(png.as_bytes(), STANDARD_HEADER.to_vec());
    let parsed = Png::try_from(&STANDARD_HEADER[..]).unwrap();
    assert_eq!(parsed.chunks().len(), 0);
}

#[test]
fn test_png_as_bytes_layout() {
    let png = Png::from_chunks(vec![chunk_of("teSt", "hi"), chunk_of("IEND", "")]);
    assert_eq!(
        png.as_bytes(),
        vec![
            137, 80, 78, 71, 13, 10, 26, 10, 0, 0, 0, 2, 116, 101, 83, 116, 104, 105, 99, 169, 78,
            218, 0, 0, 0, 0, 73, 69, 78, 68, 174, 66, 96, 130
        ]
    );
}

#[test]
fn test_png_parse_valid() {
    let bytes = three_chunk_bytes();
    let png = Png::try_from(bytes.as_slice()).unwrap();
    assert_eq!(png.chunks().len(), 3);
    assert_eq!(png.chunks()[0].data_as_string(), "I am the first chunk");
    assert_eq!(png.chunks()[0].crc(), 920434671);
    assert_eq!(png.chunks()[1].data_as_string(), "I am another chunk");
    assert_eq!(png.chunks()[1].crc(), 3346321170);
    assert_eq!(png.chunks()[2].data_as_string(), "I am the last chunk");
    assert_eq!(png.chunks()[2].crc(), 313548900);
}

#[test]
fn test_png_parse_hand_written_bytes() {
    let bytes: Vec<u8> = vec![
        137, 80, 78, 71, 13, 10, 26, 10, 0, 0, 0, 2, 116, 101, 83, 116, 104, 105, 99, 169, 78,
        218, 0, 0, 0, 0, 73, 69, 78, 68, 174, 66, 96, 130,
    ];
    let png = Png::try_from(bytes.as_slice()).unwrap();
    assert_eq!(png.chunks().len(), 2);
    assert_eq!(png.chunks()[0].chunk_type().to_string(), "teSt");
    assert_eq!(png.chunks()[0].data(), b"hi");
    assert_eq!(png.chunks()[1].chunk_type().to_string(), "IEND");
    assert_eq!(png.chunks()[1].length(), 0);
    assert_eq!(png.as_bytes(), bytes);
}

#[test]
fn test_png_invalid_signature() {
    let mut bytes = three_chunk_bytes();
    bytes[0] = 13;
    assert_eq!(
        Png::try_from(bytes.as_slice()).err(),
        Some(PngParseError::InvalidSignature)
    );
    for i in 0..8 {
        let mut bytes = three_chunk_bytes();
        bytes[i] ^= 0x01;
        assert_eq!(
            Png::try_from(bytes.as_slice()).err(),
            Some(PngParseError::InvalidSignature)
        );
    }
}

#[test]
fn test_png_signature_is_judged_first() {
    let mut bytes = vec![1, 2, 3, 4, 5, 6, 7, 8];
    bytes.extend_from_slice(b"not a chunk at all");
    assert_eq!(
        Png::try_from(bytes.as_slice()).err(),
        Some(PngParseError::InvalidSignature)
    );
    let mut bytes = vec![0u8; 8];
    bytes.extend_from_slice(&chunk_of("teSt", "hi").as_bytes());
    assert_eq!(
        Png::try_from(bytes.as_slice()).err(),
        Some(PngParseError::InvalidSignature)
    );
}

#[test]
fn test_png_too_short_for_signature() {
    for n in 0..8 {
        assert_eq!(
            Png::try_from(&STANDARD_HEADER[..n]).err(),
            Some(PngParseError::InvalidSignature)
        );
    }
}

#[test]
fn test_png_invalid_chunk() {
    let mut bytes = three_chunk_bytes();
    let last = bytes.len() - 1;
    bytes[last] ^= 0xff;
    match Png::try_from(bytes.as_slice()) {
        Err(PngParseError::InvalidChunk(ChunkParseError::InvalidCrc { expected, actual })) => {
            assert_eq!(actual, 313548900);
            assert_eq!(expected, 313548900 ^ 0xff);
        }
        other => panic!("unexpected result {:?}", other),
    }
}

#[test]
fn test_png_first_failing_chunk_is_reported() {
    let mut bytes = STANDARD_HEADER.to_vec();
    bytes.extend_from_slice(&chunk_of("teSt", "hi").as_bytes());
    let mut bad = chunk_of("miDl", "x").as_bytes();
    bad[5] = b'1';
    bytes.extend_from_slice(&bad);
    let mut worse = chunk_of("LASt", "y").as_bytes();
    worse[12] ^= 1;
    bytes.extend_from_slice(&worse);
    assert_eq!(
        Png::try_from(bytes.as_slice()).err(),
        Some(PngParseError::InvalidChunk(
            ChunkParseError::InvalidChunkType(ChunkTypeParseError::InvalidCharacter('1'))
        ))
    );
}

#[test]
fn test_png_truncated() {
    let bytes = three_chunk_bytes();
    for cut in 1..12 {
        assert_eq!(
            Png::try_from(&bytes[..bytes.len() - cut]).err(),
            Some(PngParseError::InvalidChunk(ChunkParseError::ChunkTooShort))
        );
    }
}

#[test]
fn test_png_trailing_bytes_are_a_short_chunk() {
    let mut bytes = three_chunk_bytes();
    bytes.extend_from_slice(&[0, 0, 0]);
    assert_eq!(
        Png::try_from(bytes.as_slice()).err(),
        Some(PngParseError::InvalidChunk(ChunkParseError::ChunkTooShort))
    );
}

#[test]
fn test_png_round_trip_from_chunks() {
    let png = Png::from_chunks(three_chunks());
    let bytes = png.as_bytes();
    assert_eq!(bytes, three_chunk_bytes());
    let parsed = Png::try_from(bytes.as_slice()).unwrap();
    assert_eq!(parsed.chunks(), png.chunks());
    assert_eq!(parsed.as_bytes(), bytes);
}

#[test]
fn test_png_round_trip_after_operations() {
    let mut png = Png::from_chunks(three_chunks());
    png.append_chunk(chunk_of("TeSt", "Message"));
    png.remove_chunk("miDl").unwrap();
    png.append_chunk(chunk_of("FrSt", "again"));
    let bytes = png.as_bytes();
    let parsed = Png::try_from(bytes.as_slice()).unwrap();
    assert_eq!(parsed.chunks(), png.chunks());
    assert_eq!(parsed.as_bytes(), bytes);
}

#[test]
fn test_png_append_chunk() {
    let mut png = Png::from_chunks(three_chunks());
    png.append_chunk(chunk_of("TeSt", "Message"));
    assert_eq!(png.chunks().len(), 4);
    let last = &png.chunks()[3];
    assert_eq!(last.chunk_type().to_string(), "TeSt");
    assert_eq!(last.data_as_string(), "Message");
    let found = png.chunk_by_type("TeSt").unwrap();
    assert_eq!(found.data(), b"Message");
}

#[test]
fn test_png_append_find_remove() {
    let mut png = Png::from_chunks(three_chunks());
    let before = png.as_bytes();
    png.append_chunk(chunk_of("TeSt", "Message"));
    assert_eq!(png.chunk_by_type("TeSt").unwrap().data(), b"Message");
    let removed = png.remove_chunk("TeSt").unwrap();
    assert_eq!(removed.data(), b"Message");
    assert_eq!(removed.chunk_type().to_string(), "TeSt");
    assert!(png.chunk_by_type("TeSt").is_none());
    assert_eq!(png.chunks().len(), 3);
    assert_eq!(png.as_bytes(), before);
}

#[test]
fn test_png_chunk_by_type() {
    let png = Png::from_chunks(three_chunks());
    let chunk = png.chunk_by_type("FrSt").unwrap();
    assert_eq!(chunk.chunk_type().to_string(), "FrSt");
    assert_eq!(chunk.data_as_string(), "I am the first chunk");
    let chunk = png.chunk_by_type("LASt").unwrap();
    assert_eq!(chunk.data_as_string(), "I am the last chunk");
}

#[test]
fn test_png_chunk_by_type_not_found() {
    let png = Png::from_chunks(three_chunks());
    assert!(png.chunk_by_type("TeSt").is_none());
    assert!(png.chunk_by_type("frSt").is_none());
    assert!(png.chunk_by_type("FrS").is_none());
    assert!(png.chunk_by_type("FrStx").is_none());
    assert!(png.chunk_by_type("").is_none());
    assert!(png.chunk_by_type("Fr\u{e9}").is_none());
    assert_eq!(png.chunks().len(), 3);
}

#[test]
fn test_png_first_match_wins() {
    let mut png = Png::from_chunks(vec![
        chunk_of("RuSt", "first"),
        chunk_of("miDl", "between"),
        chunk_of("RuSt", "second"),
    ]);
    assert_eq!(png.chunk_by_type("RuSt").unwrap().data(), b"first");
    png.append_chunk(chunk_of("RuSt", "third"));
    assert_eq!(png.chunk_by_type("RuSt").unwrap().data(), b"first");

    assert_eq!(png.remove_chunk("RuSt").unwrap().data(), b"first");
    assert_eq!(png.chunks().len(), 3);
    assert_eq!(png.chunks()[0].data(), b"between");
    assert_eq!(png.chunks()[1].data(), b"second");
    assert_eq!(png.chunks()[2].data(), b"third");
    assert_eq!(png.chunk_by_type("RuSt").unwrap().data(), b"second");
}

#[test]
fn test_png_remove_chunk_not_found() {
    let mut png = Png::from_chunks(three_chunks());
    let before = png.as_bytes();
    assert!(png.remove_chunk("TeSt").is_none());
    assert_eq!(png.chunks().len(), 3);
    assert_eq!(png.as_bytes(), before);
}

#[test]
fn test_png_remove_shifts_later_chunks() {
    let mut png = Png::from_chunks(three_chunks());
    let removed = png.remove_chunk("FrSt").unwrap();
    assert_eq!(removed.data_as_string(), "I am the first chunk");
    assert_eq!(png.chunks().len(), 2);
    assert_eq!(png.chunks()[0].chunk_type().to_string(), "miDl");
    assert_eq!(png.chunks()[1].chunk_type().to_string(), "LASt");
}

#[test]
fn test_png_append_after_terminal_chunk() {
    let mut png = Png::from_chunks(vec![chunk_of("IHDR", "head"), chunk_of("IEND", "")]);
    png.append_chunk(chunk_of("RuSt", "late"));
    assert_eq!(png.chunks()[2].chunk_type().to_string(), "RuSt");
    assert_eq!(png.chunks()[1].chunk_type().to_string(), "IEND");
}
