//! What each command of the tool computes, between the bytes read from a
//! file and the bytes written back or the lines shown.

use crate::chunk::{Chunk, ChunkView};
use crate::chunk_type::{validate, ChunkType, ChunkTypeParseError};
use crate::png::{first_with_type, parse_png, png_bytes, views, Png, PngParseError};
use crate::text::{ascii_chars, utf8_lossy};
use core::str::FromStr;
use vstd::prelude::*;
use vstd::slice::slice_to_vec;
use vstd::string::{StringExecFns, StringSliceAdditionalSpecFns};
use vstd::utf8::encode_utf8;

verus! {

/// Why a command could not be carried out.
#[derive(Debug, Clone, Copy, PartialEq, Eq)]
pub enum CommandError {
    /// The file is not a container.
    InvalidPng(PngParseError),
    /// The text given as a chunk type is not a type tag.
    InvalidChunkType(ChunkTypeParseError),
    /// The message has more bytes than a chunk's length field can count;
    /// holds their number.
    MessageTooLong(usize),
    /// The container holds no chunk of the type asked for.
    ChunkNotFound,
}

/// The file that results from appending to the container in `file` a chunk
/// of the type spelled by the bytes `chunk_type`, with payload `message`.
pub open spec fn encoded(file: Seq<u8>, chunk_type: Seq<u8>, message: Seq<u8>) -> Result<
    Seq<u8>,
    CommandError,
> {
    match parse_png(file) {
        Err(e) => Err(CommandError::InvalidPng(e)),
        Ok(chunks) => match validate(chunk_type) {
            Err(e) => Err(CommandError::InvalidChunkType(e)),
            Ok(()) => if message.len() > u32::MAX {
                Err(CommandError::MessageTooLong(message.len() as usize))
            } else {
                Ok(png_bytes(chunks.push(ChunkView { chunk_type, data: message })))
            },
        },
    }
}

/// The line that reports a chunk that was found: its payload as text, in
/// double quotes.
pub open spec fn found_text(message: Seq<char>) -> Seq<char> {
    "Found chunk: \""@ + message + "\""@
}

/// The line that reports a chunk that was removed: its payload as text, in
/// double quotes.
pub open spec fn removed_text(message: Seq<char>) -> Seq<char> {
    "Removed chunk with message: \""@ + message + "\""@
}

/// The line that lists one chunk: its type and its payload as text, each
/// in double quotes.
pub open spec fn listed_text(chunk_type: Seq<char>, message: Seq<char>) -> Seq<char> {
    "Chunk \""@ + chunk_type + "\": \""@ + message + "\""@
}

/// The line that reports `chunk` as found.
pub open spec fn found_line(chunk: ChunkView) -> Seq<char> {
    found_text(utf8_lossy(chunk.data))
}

/// The line that reports `chunk` as removed.
pub open spec fn removed_line(chunk: ChunkView) -> Seq<char> {
    removed_text(utf8_lossy(chunk.data))
}

/// The line that lists `chunk`.
pub open spec fn listed_line(chunk: ChunkView) -> Seq<char> {
    listed_text(ascii_chars(chunk.chunk_type), utf8_lossy(chunk.data))
}

/// The report on the first chunk of the type `tag` in the container in `file`.
pub open spec fn decoded(file: Seq<u8>, tag: Seq<char>) -> Result<Seq<char>, CommandError> {
    match parse_png(file) {
        Err(e) => Err(CommandError::InvalidPng(e)),
        Ok(chunks) => match first_with_type(chunks, tag) {
            None => Err(CommandError::ChunkNotFound),
            Some(i) => Ok(found_line(chunks[i])),
        },
    }
}

/// The report on the first chunk of the type `tag` in the container in
/// `file`, and the file without that chunk.
pub open spec fn removed(file: Seq<u8>, tag: Seq<char>) -> Result<
    (Seq<char>, Seq<u8>),
    CommandError,
> {
    match parse_png(file) {
        Err(e) => Err(CommandError::InvalidPng(e)),
        Ok(chunks) => match first_with_type(chunks, tag) {
            None => Err(CommandError::ChunkNotFound),
            Some(i) => Ok((removed_line(chunks[i]), png_bytes(chunks.remove(i)))),
        },
    }
}

/// One line for each chunk of the container in `file`, in order.
pub open spec fn printed(file: Seq<u8>) -> Result<Seq<Seq<char>>, CommandError> {
    match parse_png(file) {
        Err(e) => Err(CommandError::InvalidPng(e)),
        Ok(chunks) => Ok(Seq::new(chunks.len(), |i: int| listed_line(chunks[i]))),
    }
}

/// The texts of the strings of `lines`, in order.
pub open spec fn texts(lines: Seq<String>) -> Seq<Seq<char>> {
    Seq::new(lines.len(), |i: int| lines[i]@)
}

/// Parses the container in `file`.
fn parse_file(file: &[u8]) -> (r: Result<Png, CommandError>)
    ensures
        match parse_png(file@) {
            Ok(chunks) => r is Ok && r->Ok_0@ == chunks,
            Err(e) => r == Err::<Png, CommandError>(CommandError::InvalidPng(e)),
        },
{
    match Png::try_from(file) {
        Ok(png) => Ok(png),
        Err(e) => Err(CommandError::InvalidPng(e)),
    }
}

/// Writes the line that reports a chunk with the text `message` as found.
pub fn report_found(message: &str) -> (line: String)
    ensures
        line@ == found_text(message@),
{
    let mut line = "Found chunk: \"".to_owned();
    line.append(message);
    line.append("\"");
    line
}

/// Writes the line that reports a chunk with the text `message` as removed.
pub fn report_removed(message: &str) -> (line: String)
    ensures
        line@ == removed_text(message@),
{
    let mut line = "Removed chunk with message: \"".to_owned();
    line.append(message);
    line.append("\"");
    line
}

/// Writes the line that lists a chunk of type `chunk_type` with the text
/// `message`.
pub fn report_listed(chunk_type: &str, message: &str) -> (line: String)
    ensures
        line@ == listed_text(chunk_type@, message@),
{
    let mut line = "Chunk \"".to_owned();
    line.append(chunk_type);
    line.append("\": \"");
    line.append(message);
    line.append("\"");
    line
}

/// Where the result of encoding is written: the output path if one was
/// given, else the path that was read.
pub fn output_path<P>(png_path: P, output_png_path: Option<P>) -> (r: P)
    ensures
        r == match output_png_path {
            Some(path) => path,
            None => png_path,
        },
{
    if let Some(path) = output_png_path {
        path
    } else {
        png_path
    }
}

/// Appends to the container in `file` a chunk of type `chunk_type` that
/// holds `message`, and gives the new file.
pub fn encode(file: &[u8], chunk_type: &str, message: String) -> (r: Result<Vec<u8>, CommandError>)
    ensures
        match encoded(file@, encode_utf8(chunk_type@), encode_utf8(message@)) {
            Ok(bytes) => r is Ok && r->Ok_0@ == bytes,
            Err(e) => r == Err::<Vec<u8>, CommandError>(e),
        },
{
    let mut png = parse_file(file)?;
    let chunk_type = match ChunkType::from_str(chunk_type) {
        Ok(t) => t,
        Err(e) => {
            return Err(CommandError::InvalidChunkType(e));
        },
    };
    let data = slice_to_vec(message.as_str().as_bytes());
    if data.len() > u32::MAX as usize {
        return Err(CommandError::MessageTooLong(data.len()));
    }
    let chunk = Chunk::new(chunk_type, data);
    png.append_chunk(chunk);
    Ok(png.as_bytes())
}

/// Reports the payload of the first chunk of type `chunk_type` in the
/// container in `file`.
pub fn decode(file: &[u8], chunk_type: &str) -> (r: Result<String, CommandError>)
    ensures
        match decoded(file@, chunk_type@) {
            Ok(line) => r is Ok && r->Ok_0@ == line,
            Err(e) => r == Err::<String, CommandError>(e),
        },
{
    let png = parse_file(file)?;
    match png.chunk_by_type(chunk_type) {
        None => Err(CommandError::ChunkNotFound),
        Some(chunk) => Ok(report_found(chunk.data_as_string().as_str())),
    }
}

/// Takes the first chunk of type `chunk_type` out of the container in
/// `file`; reports its payload and gives the new file.
pub fn remove(file: &[u8], chunk_type: &str) -> (r: Result<(String, Vec<u8>), CommandError>)
    ensures
        match removed(file@, chunk_type@) {
            Ok((line, bytes)) => r is Ok && r->Ok_0.0@ == line && r->Ok_0.1@ == bytes,
            Err(e) => r == Err::<(String, Vec<u8>), CommandError>(e),
        },
{
    let mut png = parse_file(file)?;
    match png.remove_chunk(chunk_type) {
        None => Err(CommandError::ChunkNotFound),
        Some(chunk) => {
            let line = report_removed(chunk.data_as_string().as_str());
            Ok((line, png.as_bytes()))
        },
    }
}

/// Lists the chunks of the container in `file`, one line each.
pub fn print(file: &[u8]) -> (r: Result<Vec<String>, CommandError>)
    ensures
        match printed(file@) {
            Ok(lines) => r is Ok && texts(r->Ok_0@) == lines,
            Err(e) => r == Err::<Vec<String>, CommandError>(e),
        },
{
    let png = parse_file(file)?;
    let chunks = png.chunks();
    let mut lines: Vec<String> = Vec::new();
    let mut i: usize = 0;
    while i < chunks.len()
        invariant
            i <= chunks@.len(),
            lines@.len() == i,
            forall|j: int| 0 <= j < i ==> (#[trigger] lines@[j])@ == listed_line(chunks@[j]@),
        decreases chunks@.len() - i,
    {
        let chunk = &chunks[i];
        let line = report_listed(
            chunk.chunk_type().to_string().as_str(),
            chunk.data_as_string().as_str(),
        );
        lines.push(line);
        i += 1;
    }
    assert(texts(lines@) =~= Seq::new(png@.len(), |i: int| listed_line(png@[i])));
    Ok(lines)
}

} // verus!
