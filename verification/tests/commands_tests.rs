use pngme_lib::chunk::{Chunk, ChunkParseError};
use pngme_lib::chunk_type::{ChunkType, ChunkTypeParseError};
use pngme_lib::commands::{
    decode, encode, output_path, print, remove, report_found, report_listed, report_removed,
    CommandError,
};
use pngme_lib::png::{Png, PngParseError};
use std::str::FromStr;

fn sample_file() -> Vec<u8> {
    Png::from_chunks(vec![
        Chunk::new(ChunkType::from_str("IHDR").unwrap(), b"head".to_vec()),
        Chunk::new(ChunkType::from_str("RuSt").unwrap(), b"hidden".to_vec()),
        Chunk::new(ChunkType::from_str("IEND").unwrap(), Vec::new()),
    ])
    .as_bytes()
}

#[test]
fn test_encode_appends_a_chunk() {
    let file = sample_file();
    let out = encode(&file, "teSt", String::from("hi")).unwrap();
    let mut expected = file.clone();
    expected.extend_from_slice(&[0, 0, 0, 2, 116, 101, 83, 116, 104, 105, 99, 169, 78, 218]);
    assert_eq!(out, expected);

    let png = Png::try_from(out.as_slice()).unwrap();
    assert_eq!(png.chunks().len(), 4);
    assert_eq!(png.chunk_by_type("teSt").unwrap().data_as_string(), "hi");
}

#[test]
fn test_encode_empty_message() {
    let file = sample_file();
    let out = encode(&file, "teSt", String::new()).unwrap();
    let png = Png::try_from(out.as_slice()).unwrap();
    assert_eq!(png.chunks()[3].length(), 0);
    assert_eq!(png.chunks()[3].crc(), 1308318382);
}

#[test]
fn test_encode_message_is_stored_as_utf8() {
    let file = sample_file();
    let out = encode(&file, "teSt", String::from("h\u{e9}")).unwrap();
    let png = Png::try_from(out.as_slice()).unwrap();
    assert_eq!(png.chunks()[3].data(), &[0x68, 0xc3, 0xa9]);
}

#[test]
fn test_encode_errors() {
    let file = sample_file();
    assert_eq!(
        encode(&file[..5], "teSt", String::from("hi")),
        Err(CommandError::InvalidPng(PngParseError::InvalidSignature))
    );
    assert_eq!(
        encode(&file[..file.len() - 1], "teSt", String::from("hi")),
        Err(CommandError::InvalidPng(PngParseError::InvalidChunk(
            ChunkParseError::ChunkTooShort
        )))
    );
    assert_eq!(
        encode(&file, "te5t", String::from("hi")),
        Err(CommandError::InvalidChunkType(
            ChunkTypeParseError::InvalidCharacter('5')
        ))
    );
    assert_eq!(
        encode(&file, "test1", String::from("hi")),
        Err(CommandError::InvalidChunkType(
            ChunkTypeParseError::InvalidLength(5)
        ))
    );
    // A file that is no container is reported before a bad chunk type.
    assert_eq!(
        encode(&[], "te5t", String::from("hi")),
        Err(CommandError::InvalidPng(PngParseError::InvalidSignature))
    );
}

#[test]
fn test_decode_reports_payload() {
    let file = sample_file();
    assert_eq!(
        decode(&file, "RuSt"),
        Ok(String::from("Found chunk: \"hidden\""))
    );
    assert_eq!(decode(&file, "IEND"), Ok(String::from("Found chunk: \"\"")));
}

#[test]
fn test_decode_errors() {
    let file = sample_file();
    assert_eq!(decode(&file, "teSt"), Err(CommandError::ChunkNotFound));
    assert_eq!(decode(&file, "nope!"), Err(CommandError::ChunkNotFound));
    assert_eq!(
        decode(&file[1..], "RuSt"),
        Err(CommandError::InvalidPng(PngParseError::InvalidSignature))
    );
}

#[test]
fn test_decode_after_encode() {
    let file = sample_file();
    let out = encode(&file, "teSt", String::from("a secret")).unwrap();
    assert_eq!(
        decode(&out, "teSt"),
        Ok(String::from("Found chunk: \"a secret\""))
    );
}

#[test]
fn test_remove_takes_first_match() {
    let file = sample_file();
    let (line, out) = remove(&file, "RuSt").unwrap();
    assert_eq!(line, "Removed chunk with message: \"hidden\"");
    let png = Png::try_from(out.as_slice()).unwrap();
    assert_eq!(png.chunks().len(), 2);
    assert_eq!(png.chunks()[0].chunk_type().to_string(), "IHDR");
    assert_eq!(png.chunks()[1].chunk_type().to_string(), "IEND");
    assert_eq!(decode(&out, "RuSt"), Err(CommandError::ChunkNotFound));
}

#[test]
fn test_remove_undoes_encode() {
    let file = sample_file();
    let out = encode(&file, "teSt", String::from("hi")).unwrap();
    let (line, back) = remove(&out, "teSt").unwrap();
    assert_eq!(line, "Removed chunk with message: \"hi\"");
    assert_eq!(back, file);
}

#[test]
fn test_remove_errors() {
    let file = sample_file();
    assert_eq!(remove(&file, "teSt"), Err(CommandError::ChunkNotFound));
    assert_eq!(
        remove(&[0u8; 20], "RuSt"),
        Err(CommandError::InvalidPng(PngParseError::InvalidSignature))
    );
}

#[test]
fn test_print_lists_every_chunk() {
    let file = sample_file();
    assert_eq!(
        print(&file),
        Ok(vec![
            String::from("Chunk \"IHDR\": \"head\""),
            String::from("Chunk \"RuSt\": \"hidden\""),
            String::from("Chunk \"IEND\": \"\""),
        ])
    );
}

#[test]
fn test_print_empty_container_and_errors() {
    let empty = Png::from_chunks(Vec::new()).as_bytes();
    assert_eq!(print(&empty), Ok(Vec::new()));
    assert_eq!(
        print(&empty[..7]),
        Err(CommandError::InvalidPng(PngParseError::InvalidSignature))
    );
}

#[test]
fn test_print_replaces_malformed_text() {
    let file = Png::from_chunks(vec![Chunk::new(
        ChunkType::from_str("RuSt").unwrap(),
        vec![0x66, 0xff, 0x6f],
    )])
    .as_bytes();
    assert_eq!(
        print(&file),
        Ok(vec![String::from("Chunk \"RuSt\": \"f\u{fffd}o\"")])
    );
}

#[test]
fn test_output_path() {
    assert_eq!(output_path("in.png", Some("out.png")), "out.png");
    assert_eq!(output_path("in.png", None), "in.png");
}

#[test]
fn test_report_lines() {
    assert_eq!(report_found("hello"), "Found chunk: \"hello\"");
    assert_eq!(report_found(""), "Found chunk: \"\"");
    assert_eq!(
        report_removed("hello"),
        "Removed chunk with message: \"hello\""
    );
    assert_eq!(report_listed("RuSt", "hello"), "Chunk \"RuSt\": \"hello\"");
    assert_eq!(report_listed("", "\""), "Chunk \"\": \"\"\"");
}
