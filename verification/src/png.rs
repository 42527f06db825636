//! The container: the fixed signature followed by chunks in order.

use crate::chunk::{
    lemma_bytes_of_parse_prefix, lemma_parse_prefix_of_bytes, parse_prefix, Chunk, ChunkParseError,
    ChunkView,
};
use crate::chunk_type::ChunkType;
use crate::text::{ascii_chars, lemma_ascii_bytes_decode};
use vstd::prelude::*;
use vstd::slice::slice_subrange;
use vstd::std_specs::convert::TryFromSpecImpl;
use vstd::string::StringSliceAdditionalSpecFns;

verus! {

/// The eight bytes that every container starts with.
pub const STANDARD_HEADER: [u8; 8] = [137, 80, 78, 71, 13, 10, 26, 10];

/// Why bytes were refused as a container.
#[derive(Debug, Clone, Copy, PartialEq, Eq)]
pub enum PngParseError {
    /// The input does not start with the signature.
    InvalidSignature,
    /// A chunk was refused; no chunk after it was looked at.
    InvalidChunk(ChunkParseError),
}

/// The signature as a sequence of bytes.
pub open spec fn signature() -> Seq<u8> {
    seq![137u8, 80u8, 78u8, 71u8, 13u8, 10u8, 26u8, 10u8]
}

/// True when `raw` starts with the signature.
pub open spec fn has_signature(raw: Seq<u8>) -> bool {
    raw.len() >= 8 && raw.take(8) == signature()
}

/// True when every chunk of `chunks` is well formed.
pub open spec fn all_wf(chunks: Seq<ChunkView>) -> bool {
    forall|i: int| 0 <= i < chunks.len() ==> (#[trigger] chunks[i]).wf()
}

/// The bytes of each chunk in turn, one after the other.
pub open spec fn concat_bytes(chunks: Seq<ChunkView>) -> Seq<u8>
    decreases chunks.len(),
{
    if chunks.len() == 0 {
        Seq::empty()
    } else {
        chunks.first().bytes() + concat_bytes(chunks.drop_first())
    }
}

/// The container on the wire: the signature, then the chunks.
pub open spec fn png_bytes(chunks: Seq<ChunkView>) -> Seq<u8> {
    signature() + concat_bytes(chunks)
}

/// The chunks that `raw` holds back to back, or the error of the first one
/// that is refused.
pub open spec fn parse_chunks(raw: Seq<u8>) -> Result<Seq<ChunkView>, ChunkParseError>
    decreases raw.len(),
    via parse_chunks_terminates
{
    if raw.len() == 0 {
        Ok(Seq::empty())
    } else {
        match parse_prefix(raw) {
            Err(e) => Err(e),
            Ok(first) => match parse_chunks(raw.skip(12 + first.data.len() as int)) {
                Err(e) => Err(e),
                Ok(rest) => Ok(seq![first] + rest),
            },
        }
    }
}

#[via_fn]
proof fn parse_chunks_terminates(raw: Seq<u8>) {
    if parse_prefix(raw) is Ok {
        lemma_bytes_of_parse_prefix(raw);
    }
}

/// The container that `raw` holds.
pub open spec fn parse_png(raw: Seq<u8>) -> Result<Seq<ChunkView>, PngParseError> {
    if !has_signature(raw) {
        Err(PngParseError::InvalidSignature)
    } else {
        match parse_chunks(raw.skip(8)) {
            Err(e) => Err(PngParseError::InvalidChunk(e)),
            Ok(chunks) => Ok(chunks),
        }
    }
}

/// True when `chunk` has the type tag that `tag` spells.
pub open spec fn has_type(chunk: ChunkView, tag: Seq<char>) -> bool {
    ascii_chars(chunk.chunk_type) == tag
}

/// True when `i` is the position of the first chunk of `chunks` whose type
/// tag `tag` spells.
pub open spec fn is_first_with_type(chunks: Seq<ChunkView>, tag: Seq<char>, i: int) -> bool {
    &&& 0 <= i < chunks.len()
    &&& has_type(chunks[i], tag)
    &&& forall|j: int| 0 <= j < i ==> !has_type(#[trigger] chunks[j], tag)
}

/// The position of the first chunk of `chunks` whose type tag `tag` spells,
/// if there is one.
pub open spec fn first_with_type(chunks: Seq<ChunkView>, tag: Seq<char>) -> Option<int> {
    if exists|i: int| is_first_with_type(chunks, tag, i) {
        Some(choose|i: int| is_first_with_type(chunks, tag, i))
    } else {
        None
    }
}

/// The first chunk of a type stands at one position only.
pub proof fn lemma_first_with_type(chunks: Seq<ChunkView>, tag: Seq<char>, i: int)
    requires
        is_first_with_type(chunks, tag, i),
    ensures
        first_with_type(chunks, tag) == Some(i),
{
    let k = choose|k: int| is_first_with_type(chunks, tag, k);
    if k < i {
        assert(!has_type(chunks[k], tag));
    } else if i < k {
        assert(!has_type(chunks[i], tag));
    }
}

/// Where no chunk is the first of a type, none of the first `n` has it.
proof fn lemma_none_of_type(chunks: Seq<ChunkView>, tag: Seq<char>, n: int)
    requires
        first_with_type(chunks, tag) is None,
        0 <= n <= chunks.len(),
    ensures
        forall|j: int| 0 <= j < n ==> !has_type(#[trigger] chunks[j], tag),
    decreases n,
{
    if n > 0 {
        lemma_none_of_type(chunks, tag, n - 1);
        if has_type(chunks[n - 1], tag) {
            assert(is_first_with_type(chunks, tag, n - 1));
        }
    }
}

/// A lookup by type finds nothing exactly when no chunk has the type.
pub proof fn lemma_first_with_type_is_none(chunks: Seq<ChunkView>, tag: Seq<char>)
    ensures
        first_with_type(chunks, tag) is None <==> forall|j: int|
            0 <= j < chunks.len() ==> !has_type(#[trigger] chunks[j], tag),
{
    if first_with_type(chunks, tag) is None {
        lemma_none_of_type(chunks, tag, chunks.len() as int);
    }
}

/// The views of the chunks of `chunks`, in order.
pub open spec fn views(chunks: Seq<Chunk>) -> Seq<ChunkView> {
    Seq::new(chunks.len(), |i: int| chunks[i]@)
}

/// An ordered sequence of chunks.
#[derive(Debug)]
pub struct Png {
    chunks: Vec<Chunk>,
}

impl View for Png {
    type V = Seq<ChunkView>;

    closed spec fn view(&self) -> Seq<ChunkView> {
        views(self.chunks@)
    }
}

/// Decides whether the type tag `tag` is spelled `text`.
fn tag_is(tag: &ChunkType, text: &str) -> (r: bool)
    ensures
        r == (ascii_chars(tag@) == text@),
{
    let spelled = text.as_bytes();
    let bytes = tag.bytes();
    proof {
        lemma_ascii_bytes_decode(tag@);
        vstd::utf8::encode_utf8_decode_utf8(text@);
        vstd::utf8::decode_utf8_encode_utf8(tag@);
    }
    if spelled.len() != 4 {
        return false;
    }
    let r = spelled[0] == bytes[0] && spelled[1] == bytes[1] && spelled[2] == bytes[2]
        && spelled[3] == bytes[3];
    proof {
        if r {
            assert(spelled@ =~= tag@);
        }
    }
    r
}

/// Decides whether `raw` starts with the signature.
fn starts_with_signature(raw: &[u8]) -> (r: bool)
    ensures
        r == has_signature(raw@),
{
    if raw.len() < 8 {
        return false;
    }
    let mut i: usize = 0;
    while i < 8
        invariant
            i <= 8 <= raw@.len(),
            forall|j: int| 0 <= j < i ==> raw@[j] == signature()[j],
        decreases 8 - i,
    {
        if raw[i] != STANDARD_HEADER[i] {
            assert(raw@.take(8)[i as int] != signature()[i as int]);
            return false;
        }
        i += 1;
    }
    assert(raw@.take(8) =~= signature());
    true
}

impl Png {
    /// Every chunk of a container is well formed.
    #[verifier::type_invariant]
    pub open spec fn wf(&self) -> bool {
        all_wf(self@)
    }

    /// Makes a container of the given chunks, in their order.
    pub fn from_chunks(chunks: Vec<Chunk>) -> (r: Png)
        ensures
            r@ == views(chunks@),
            all_wf(r@),
    {
        let mut png = Png { chunks: Vec::new() };
        for chunk in it: chunks
            invariant
                png@ == views(it.seq().take(it.index())),
                it.seq() == chunks@,
        {
            png.append_chunk(chunk);
        }
        proof {
            use_type_invariant(&png);
        }
        png
    }

    /// Adds `chunk` after the last chunk, whatever that chunk is: a
    /// terminal `IEND` chunk is not kept last, and a type that the container
    /// already holds is not refused.
    pub fn append_chunk(&mut self, chunk: Chunk)
        ensures
            final(self)@ == old(self)@.push(chunk@),
    {
        proof {
            use_type_invariant(&*self);
            use_type_invariant(&chunk);
        }
        let mut chunks: Vec<Chunk> = Vec::new();
        core::mem::swap(&mut self.chunks, &mut chunks);
        chunks.push(chunk);
        assert(views(chunks@) =~= old(self)@.push(chunk@));
        self.chunks = chunks;
    }

    /// The position of the first chunk whose type tag `chunk_type` spells.
    fn position_of(&self, chunk_type: &str) -> (r: Option<usize>)
        ensures
            match r {
                Some(i) => first_with_type(self@, chunk_type@) == Some(i as int) && i
                    < self.chunks@.len(),
                None => first_with_type(self@, chunk_type@) is None,
            },
    {
        let mut i: usize = 0;
        while i < self.chunks.len()
            invariant
                i <= self.chunks@.len(),
                forall|j: int| 0 <= j < i ==> !has_type(#[trigger] self@[j], chunk_type@),
            decreases self.chunks@.len() - i,
        {
            if tag_is(self.chunks[i].chunk_type(), chunk_type) {
                proof {
                    lemma_first_with_type(self@, chunk_type@, i as int);
                }
                return Some(i);
            }
            i += 1;
        }
        None
    }

    /// The first chunk whose type tag `chunk_type` spells, if there is one.
    pub fn chunk_by_type(&self, chunk_type: &str) -> (r: Option<&Chunk>)
        ensures
            match first_with_type(self@, chunk_type@) {
                Some(i) => r is Some && r->Some_0@ == self@[i],
                None => r is None,
            },
    {
        match self.position_of(chunk_type) {
            Some(i) => Some(&self.chunks[i]),
            None => None,
        }
    }

    /// Takes out the first chunk whose type tag `chunk_type` spells, if
    /// there is one; the chunks after it move up by one place.
    pub fn remove_chunk(&mut self, chunk_type: &str) -> (r: Option<Chunk>)
        ensures
            match first_with_type(old(self)@, chunk_type@) {
                Some(i) => r is Some && r->Some_0@ == old(self)@[i] && final(self)@ == old(
                    self,
                )@.remove(i) && final(self)@.len() == old(self)@.len() - 1,
                None => r is None && final(self)@ == old(self)@,
            },
    {
        proof {
            use_type_invariant(&*self);
        }
        match self.position_of(chunk_type) {
            Some(i) => {
                let mut chunks: Vec<Chunk> = Vec::new();
                core::mem::swap(&mut self.chunks, &mut chunks);
                let chunk = chunks.remove(i);
                assert(views(chunks@) =~= old(self)@.remove(i as int));
                self.chunks = chunks;
                Some(chunk)
            },
            None => None,
        }
    }

    /// The chunks, in order.
    pub fn chunks(&self) -> (r: &[Chunk])
        ensures
            views(r@) == self@,
            all_wf(self@),
    {
        proof {
            use_type_invariant(self);
        }
        self.chunks.as_slice()
    }

    /// The container on the wire: the signature, then each chunk's bytes.
    /// Parsing these bytes gives the same chunks back.
    pub fn as_bytes(&self) -> (r: Vec<u8>)
        ensures
            r@ == png_bytes(self@),
            parse_png(r@) == Ok::<Seq<ChunkView>, PngParseError>(self@),
    {
        proof {
            use_type_invariant(self);
            lemma_parse_of_png_bytes(self@);
        }
        let mut out: Vec<u8> = Vec::new();
        out.extend_from_slice(STANDARD_HEADER.as_slice());
        assert(out@ =~= signature());
        let mut i: usize = 0;
        assert(self@.take(0) =~= Seq::empty());
        while i < self.chunks.len()
            invariant
                i <= self.chunks@.len(),
                out@ == signature() + concat_bytes(self@.take(i as int)),
            decreases self.chunks@.len() - i,
        {
            let bytes = self.chunks[i].as_bytes();
            let ghost before = out@;
            out.extend_from_slice(bytes.as_slice());
            proof {
                lemma_concat_bytes_push(self@.take(i as int), self@[i as int]);
                assert(self@.take(i as int).push(self@[i as int]) =~= self@.take(i + 1));
                assert(out@ =~= before + bytes@);
            }
            i += 1;
        }
        assert(self@.take(i as int) =~= self@);
        out
    }
}

impl TryFrom<&[u8]> for Png {
    type Error = PngParseError;

    /// Parses a container: the signature, then chunks until the input ends.
    fn try_from(bytes: &[u8]) -> (r: Result<Self, Self::Error>)
        ensures
            match parse_png(bytes@) {
                Ok(chunks) => r is Ok && r->Ok_0@ == chunks && all_wf(chunks) && png_bytes(chunks)
                    == bytes@,
                Err(e) => r == Err::<Png, PngParseError>(e),
            },
            !has_signature(bytes@) ==> r == Err::<Png, PngParseError>(
                PngParseError::InvalidSignature,
            ),
    {
        proof {
            if parse_png(bytes@) is Ok {
                lemma_png_bytes_of_parse(bytes@);
            }
        }
        if !starts_with_signature(bytes) {
            return Err(PngParseError::InvalidSignature);
        }
        let mut chunks: Vec<Chunk> = Vec::new();
        let mut cursor: usize = 8;
        assert(bytes@.skip(8).skip(0) =~= bytes@.skip(8));
        while cursor < bytes.len()
            invariant
                has_signature(bytes@),
                8 <= cursor <= bytes@.len(),
                all_wf(views(chunks@)),
                match parse_chunks(bytes@.skip(cursor as int)) {
                    Ok(rest) => parse_chunks(bytes@.skip(8)) == Ok::<
                        Seq<ChunkView>,
                        ChunkParseError,
                    >(views(chunks@) + rest),
                    Err(e) => parse_chunks(bytes@.skip(8)) == Err::<
                        Seq<ChunkView>,
                        ChunkParseError,
                    >(e),
                },
            decreases bytes@.len() - cursor,
        {
            let remaining = slice_subrange(bytes, cursor, bytes.len());
            assert(remaining@ =~= bytes@.skip(cursor as int));
            match Chunk::try_from_prefix(remaining) {
                Err(e) => {
                    return Err(PngParseError::InvalidChunk(e));
                },
                Ok(chunk) => {
                    let ghost before = views(chunks@);
                    let size = 12 + chunk.length();
                    assert(remaining@.skip(size as int) =~= bytes@.skip(cursor + size));
                    cursor += size;
                    chunks.push(chunk);
                    proof {
                        assert(views(chunks@) =~= before.push(chunk@));
                        let rest = parse_chunks(bytes@.skip(cursor as int));
                        if rest is Ok {
                            assert(before + (seq![chunk@] + rest->Ok_0) =~= views(chunks@)
                                + rest->Ok_0);
                        }
                    }
                },
            }
        }
        assert(views(chunks@) + Seq::<ChunkView>::empty() =~= views(chunks@));
        Ok(Png { chunks })
    }
}

/// A container owns a vector, which no spec function can construct: what
/// `try_from` returns is stated in its own contract, over views.
impl TryFromSpecImpl<&[u8]> for Png {
    open spec fn obeys_try_from_spec() -> bool {
        false
    }

    open spec fn try_from_spec(v: &[u8]) -> Result<Self, Self::Error> {
        arbitrary()
    }
}

/// The bytes of a sequence with one more chunk at its end are the bytes of
/// the sequence followed by those of the chunk.
pub proof fn lemma_concat_bytes_push(chunks: Seq<ChunkView>, last: ChunkView)
    ensures
        concat_bytes(chunks.push(last)) == concat_bytes(chunks) + last.bytes(),
    decreases chunks.len(),
{
    if chunks.len() == 0 {
        let rest = chunks.push(last).drop_first();
        assert(rest.len() == 0);
        assert(concat_bytes(rest) =~= Seq::empty());
        assert(concat_bytes(chunks.push(last)) =~= concat_bytes(chunks) + last.bytes());
    } else {
        lemma_concat_bytes_push(chunks.drop_first(), last);
        assert(chunks.push(last).drop_first() =~= chunks.drop_first().push(last));
        assert(concat_bytes(chunks.push(last)) =~= concat_bytes(chunks) + last.bytes());
    }
}

/// Chunks written back to back parse to the same chunks.
pub proof fn lemma_parse_chunks_of_concat_bytes(chunks: Seq<ChunkView>)
    requires
        all_wf(chunks),
    ensures
        parse_chunks(concat_bytes(chunks)) == Ok::<Seq<ChunkView>, ChunkParseError>(chunks),
    decreases chunks.len(),
{
    if chunks.len() == 0 {
        assert(chunks =~= Seq::empty());
    } else {
        let first = chunks.first();
        let rest = chunks.drop_first();
        let raw = concat_bytes(chunks);
        assert(first.wf());
        assert(all_wf(rest)) by {
            assert forall|i: int| 0 <= i < rest.len() implies (#[trigger] rest[i]).wf() by {
                assert(chunks[i + 1].wf());
            }
        }
        lemma_parse_prefix_of_bytes(first, concat_bytes(rest));
        lemma_parse_chunks_of_concat_bytes(rest);
        assert(raw.skip(12 + first.data.len() as int) =~= concat_bytes(rest));
        assert(seq![first] + rest =~= chunks);
    }
}

/// Serialising then parsing a container gives its chunks back, so that
/// serialising once more gives the same bytes.
pub proof fn lemma_parse_of_png_bytes(chunks: Seq<ChunkView>)
    requires
        all_wf(chunks),
    ensures
        parse_png(png_bytes(chunks)) == Ok::<Seq<ChunkView>, PngParseError>(chunks),
        png_bytes(parse_png(png_bytes(chunks))->Ok_0) == png_bytes(chunks),
{
    let raw = png_bytes(chunks);
    assert(raw.take(8) =~= signature());
    assert(raw.skip(8) =~= concat_bytes(chunks));
    lemma_parse_chunks_of_concat_bytes(chunks);
}

/// Bytes that parse to chunks are exactly those chunks written back to back.
pub proof fn lemma_concat_bytes_of_parse_chunks(raw: Seq<u8>)
    requires
        parse_chunks(raw) is Ok,
    ensures
        all_wf(parse_chunks(raw)->Ok_0),
        concat_bytes(parse_chunks(raw)->Ok_0) == raw,
    decreases raw.len(),
{
    if raw.len() == 0 {
        assert(concat_bytes(Seq::empty()) =~= raw);
    } else {
        assert(parse_prefix(raw) is Ok);
        let first = parse_prefix(raw)->Ok_0;
        let size = 12 + first.data.len() as int;
        assert(parse_chunks(raw.skip(size)) is Ok);
        let rest = parse_chunks(raw.skip(size))->Ok_0;
        let chunks = seq![first] + rest;
        assert(parse_chunks(raw)->Ok_0 == chunks);
        lemma_bytes_of_parse_prefix(raw);
        lemma_concat_bytes_of_parse_chunks(raw.skip(size));
        assert(chunks.first() == first);
        assert(chunks.drop_first() =~= rest);
        assert(all_wf(chunks)) by {
            assert forall|i: int| 0 <= i < chunks.len() implies (#[trigger] chunks[i]).wf() by {
                if i > 0 {
                    assert(chunks[i] == rest[i - 1]);
                }
            }
        }
        assert(concat_bytes(chunks) == raw.take(size) + raw.skip(size));
        assert(raw.take(size) + raw.skip(size) =~= raw);
    }
}

/// Parsing then serialising a container gives the same bytes back.
pub proof fn lemma_png_bytes_of_parse(raw: Seq<u8>)
    requires
        parse_png(raw) is Ok,
    ensures
        all_wf(parse_png(raw)->Ok_0),
        png_bytes(parse_png(raw)->Ok_0) == raw,
{
    assert(has_signature(raw));
    assert(parse_chunks(raw.skip(8)) is Ok);
    lemma_concat_bytes_of_parse_chunks(raw.skip(8));
    assert(raw.take(8) + raw.skip(8) =~= raw);
}

/// Bytes that do not start with the signature are refused for that reason,
/// whatever else they hold.
pub proof fn lemma_signature_is_required(raw: Seq<u8>)
    requires
        raw.len() < 8 || raw.take(8) != signature(),
    ensures
        parse_png(raw) == Err::<Seq<ChunkView>, PngParseError>(PngParseError::InvalidSignature),
{
}

/// Where a lookup by the type of `chunk` finds nothing in a container:
/// once `chunk` is appended, the same lookup finds it, at the last
/// position; once the chunk found is removed, the container is as it was,
/// one chunk shorter, and the lookup finds nothing again.
pub proof fn lemma_append_find_remove(chunks: Seq<ChunkView>, chunk: ChunkView)
    requires
        first_with_type(chunks, ascii_chars(chunk.chunk_type)) is None,
    ensures
        ({
            let tag = ascii_chars(chunk.chunk_type);
            let appended = chunks.push(chunk);
            let at = chunks.len() as int;
            &&& first_with_type(appended, tag) == Some(at)
            &&& appended[at] == chunk
            &&& appended.remove(at) == chunks
            &&& appended.remove(at).len() == appended.len() - 1
            &&& first_with_type(appended.remove(at), tag) is None
        }),
{
    let tag = ascii_chars(chunk.chunk_type);
    let appended = chunks.push(chunk);
    let at = chunks.len() as int;
    lemma_first_with_type_is_none(chunks, tag);
    assert(is_first_with_type(appended, tag, at));
    lemma_first_with_type(appended, tag, at);
    assert(appended.remove(at) =~= chunks);
}

} // verus!
