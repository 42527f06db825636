//! A chunk: a length-prefixed, checksummed record made of a type tag and a
//! payload.

use crate::checksum::{crc32, crc32_iso_hdlc};
use crate::chunk_type::{
    is_type_tag, lemma_validate_ok_iff_type_tag, validate, ChunkType, ChunkTypeParseError,
};
use crate::endian::{
    be_bytes, from_be_bytes, lemma_be_bytes_of_from_be_bytes, lemma_from_be_bytes_of_be_bytes,
    u32_from_be_bytes, u32_to_be_bytes,
};
use crate::text::{
    ascii_chars, byte_list, decimal, push_byte_list, push_decimal, string_from_utf8_lossy,
    utf8_lossy,
};
use vstd::prelude::*;
use vstd::slice::{slice_subrange, slice_to_vec};
use vstd::std_specs::cmp::PartialEqSpecImpl;
use vstd::std_specs::convert::TryFromSpecImpl;
use vstd::string::StringExecFns;
use vstd::utf8::{decode_utf8, valid_utf8};

verus! {

/// Why bytes were refused as a chunk.
#[derive(Debug, Clone, Copy, PartialEq, Eq)]
pub enum ChunkParseError {
    /// The input ends before the length, the type, the payload or the
    /// checksum is complete.
    ChunkTooShort,
    /// The four type bytes are not a type tag.
    InvalidChunkType(ChunkTypeParseError),
    /// The checksum the input declares (`expected`) is not the one computed
    /// from its type and payload (`actual`).
    InvalidCrc { expected: u32, actual: u32 },
    /// Bytes remain after the chunk.
    ChunkTooLong,
}

/// The fields of a chunk as they stand in a byte sequence, with the
/// checksum that the bytes declare, right or wrong.
pub struct FrameView {
    pub chunk_type: Seq<u8>,
    pub data: Seq<u8>,
    pub crc: u32,
}

impl FrameView {
    /// The type is a type tag and the payload's length fits in 32 bits.
    pub open spec fn wf(self) -> bool {
        &&& is_type_tag(self.chunk_type)
        &&& self.data.len() <= u32::MAX
    }

    /// The fields on the wire: the payload's length, the type, the payload,
    /// the checksum; the two integers big-endian.
    pub open spec fn bytes(self) -> Seq<u8> {
        be_bytes(self.data.len() as u32) + self.chunk_type + self.data + be_bytes(self.crc)
    }

    /// The fields as text, one to a line: the length, the type tag, the
    /// payload as a list of its bytes, and the checksum.
    pub open spec fn text(self) -> Seq<char> {
        "Chunk {\n  length: "@ + decimal(self.data.len()) + "\n  chunk_type: "@ + ascii_chars(
            self.chunk_type,
        ) + "\n  data: "@ + byte_list(self.data) + "\n  crc: "@ + decimal(self.crc as nat)
            + "\n}\n"@
    }
}

/// What a chunk is: its type tag and its payload. The length and the
/// checksum follow from these.
pub struct ChunkView {
    pub chunk_type: Seq<u8>,
    pub data: Seq<u8>,
}

impl ChunkView {
    /// The type is a type tag and the payload's length fits in 32 bits.
    pub open spec fn wf(self) -> bool {
        &&& is_type_tag(self.chunk_type)
        &&& self.data.len() <= u32::MAX
    }

    /// The number of payload bytes.
    pub open spec fn length(self) -> nat {
        self.data.len()
    }

    /// The checksum over the type bytes followed by the payload.
    pub open spec fn crc(self) -> u32 {
        crc32_iso_hdlc(self.chunk_type + self.data)
    }

    /// The fields of the chunk, with the checksum that belongs to them.
    pub open spec fn frame(self) -> FrameView {
        FrameView { chunk_type: self.chunk_type, data: self.data, crc: self.crc() }
    }

    /// The chunk on the wire: length, type, payload, checksum.
    pub open spec fn bytes(self) -> Seq<u8> {
        self.frame().bytes()
    }

    /// The chunk as text.
    pub open spec fn text(self) -> Seq<char> {
        self.frame().text()
    }
}

/// Splits the start of `raw` into the fields of one chunk: the length and
/// the type are read first, then as many payload bytes as the length says,
/// then the declared checksum.
#[verifier::opaque]
pub open spec fn frame(raw: Seq<u8>) -> Result<FrameView, ChunkParseError> {
    if raw.len() < 8 {
        Err(ChunkParseError::ChunkTooShort)
    } else {
        match validate(raw.subrange(4, 8)) {
            Err(e) => Err(ChunkParseError::InvalidChunkType(e)),
            Ok(()) => {
                let length = from_be_bytes(raw.subrange(0, 4)) as int;
                if raw.len() < 12 + length {
                    Err(ChunkParseError::ChunkTooShort)
                } else {
                    Ok(
                        FrameView {
                            chunk_type: raw.subrange(4, 8),
                            data: raw.subrange(8, 8 + length),
                            crc: from_be_bytes(raw.subrange(8 + length, 12 + length)),
                        },
                    )
                }
            },
        }
    }
}

/// The verdict on a declared checksum, given the computed one.
pub open spec fn crc_verdict(declared: u32, computed: u32) -> Result<(), ChunkParseError> {
    if declared == computed {
        Ok(())
    } else {
        Err(ChunkParseError::InvalidCrc { expected: declared, actual: computed })
    }
}

/// The chunk at the start of `raw`, whatever follows it.
pub open spec fn parse_prefix(raw: Seq<u8>) -> Result<ChunkView, ChunkParseError> {
    match frame(raw) {
        Err(e) => Err(e),
        Ok(f) => {
            let chunk = ChunkView { chunk_type: f.chunk_type, data: f.data };
            match crc_verdict(f.crc, chunk.crc()) {
                Err(e) => Err(e),
                Ok(()) => Ok(chunk),
            }
        },
    }
}

/// The chunk that `raw` holds, from its first byte to its last.
pub open spec fn parse(raw: Seq<u8>) -> Result<ChunkView, ChunkParseError> {
    match parse_prefix(raw) {
        Err(e) => Err(e),
        Ok(chunk) => if raw.len() > 12 + chunk.data.len() {
            Err(ChunkParseError::ChunkTooLong)
        } else {
            Ok(chunk)
        },
    }
}

/// The bytes of well-formed fields, whatever follows them, split into
/// those fields.
pub proof fn lemma_frame_of_bytes(fields: FrameView, rest: Seq<u8>)
    requires
        fields.wf(),
    ensures
        fields.bytes().len() == 12 + fields.data.len(),
        frame(fields.bytes() + rest) == Ok::<FrameView, ChunkParseError>(fields),
{
    reveal(frame);
    let raw = fields.bytes() + rest;
    let length = fields.data.len() as u32;
    lemma_from_be_bytes_of_be_bytes(length);
    lemma_from_be_bytes_of_be_bytes(fields.crc);
    assert(raw.subrange(0, 4) =~= be_bytes(length));
    assert(raw.subrange(4, 8) =~= fields.chunk_type);
    assert(raw.subrange(8, 8 + length) =~= fields.data);
    assert(raw.subrange(8 + length, 12 + length) =~= be_bytes(fields.crc));
    lemma_validate_ok_iff_type_tag(fields.chunk_type);
}

/// Bytes that split into fields begin with exactly those fields' bytes.
pub proof fn lemma_bytes_of_frame(raw: Seq<u8>)
    requires
        frame(raw) is Ok,
    ensures
        ({
            let fields = frame(raw)->Ok_0;
            &&& fields.wf()
            &&& 12 + fields.data.len() <= raw.len()
            &&& fields.bytes() == raw.take(12 + fields.data.len() as int)
        }),
{
    reveal(frame);
    let fields = frame(raw)->Ok_0;
    let length = from_be_bytes(raw.subrange(0, 4));
    lemma_validate_ok_iff_type_tag(raw.subrange(4, 8));
    lemma_be_bytes_of_from_be_bytes(raw.subrange(0, 4));
    lemma_be_bytes_of_from_be_bytes(raw.subrange(8 + length, 12 + length));
    assert(fields.bytes() =~= raw.take(12 + length));
}

/// The bytes of a chunk, whatever follows them, parse to that chunk.
pub proof fn lemma_parse_prefix_of_bytes(chunk: ChunkView, rest: Seq<u8>)
    requires
        chunk.wf(),
    ensures
        chunk.bytes().len() == 12 + chunk.data.len(),
        parse_prefix(chunk.bytes() + rest) == Ok::<ChunkView, ChunkParseError>(chunk),
{
    lemma_frame_of_bytes(chunk.frame(), rest);
}

/// Serialising then parsing a chunk gives the chunk back.
pub proof fn lemma_parse_of_bytes(chunk: ChunkView)
    requires
        chunk.wf(),
    ensures
        parse(chunk.bytes()) == Ok::<ChunkView, ChunkParseError>(chunk),
{
    lemma_parse_prefix_of_bytes(chunk, Seq::empty());
    assert(chunk.bytes() + Seq::<u8>::empty() =~= chunk.bytes());
}

/// Bytes that parse to a chunk begin with exactly that chunk's bytes.
pub proof fn lemma_bytes_of_parse_prefix(raw: Seq<u8>)
    requires
        parse_prefix(raw) is Ok,
    ensures
        ({
            let chunk = parse_prefix(raw)->Ok_0;
            &&& chunk.wf()
            &&& 12 + chunk.data.len() <= raw.len()
            &&& chunk.bytes() == raw.take(12 + chunk.data.len() as int)
        }),
{
    lemma_bytes_of_frame(raw);
}

/// A chunk whose declared checksum has one byte changed is refused, and the
/// error holds the checksum as declared and as computed.
pub proof fn lemma_tampered_crc_is_refused(chunk: ChunkView, i: int, b: u8)
    requires
        chunk.wf(),
        0 <= i < 4,
        b != be_bytes(chunk.crc())[i],
    ensures
        parse(chunk.bytes().update(8 + chunk.data.len() + i, b)) == Err::<
            ChunkView,
            ChunkParseError,
        >(
            ChunkParseError::InvalidCrc {
                expected: from_be_bytes(be_bytes(chunk.crc()).update(i, b)),
                actual: chunk.crc(),
            },
        ),
        from_be_bytes(be_bytes(chunk.crc()).update(i, b)) != chunk.crc(),
{
    let declared = be_bytes(chunk.crc()).update(i, b);
    let tampered = FrameView { crc: from_be_bytes(declared), ..chunk.frame() };
    lemma_be_bytes_of_from_be_bytes(declared);
    assert(tampered.bytes() =~= chunk.bytes().update(8 + chunk.data.len() + i, b));
    lemma_frame_of_bytes(tampered, Seq::empty());
    assert(tampered.bytes() + Seq::<u8>::empty() =~= tampered.bytes());
}

/// The fields of a chunk as read from bytes, checksum not yet verified.
#[derive(Debug)]
pub struct Frame {
    pub chunk_type: ChunkType,
    pub data: Vec<u8>,
    pub crc: u32,
}

impl View for Frame {
    type V = FrameView;

    open spec fn view(&self) -> FrameView {
        FrameView { chunk_type: self.chunk_type@, data: self.data@, crc: self.crc }
    }
}

impl Frame {
    /// Reads the fields of the chunk at the start of `raw`.
    pub fn read(raw: &[u8]) -> (r: Result<Frame, ChunkParseError>)
        ensures
            match frame(raw@) {
                Ok(f) => r is Ok && r->Ok_0@ == f && f.wf() && 12 + f.data.len() <= raw@.len()
                    <= usize::MAX && f.bytes() == raw@.take(12 + f.data.len() as int),
                Err(e) => r == Err::<Frame, ChunkParseError>(e),
            },
    {
        proof {
            reveal(frame);
            if frame(raw@) is Ok {
                lemma_bytes_of_frame(raw@);
            }
        }
        if raw.len() < 8 {
            return Err(ChunkParseError::ChunkTooShort);
        }
        let length_bytes = [raw[0], raw[1], raw[2], raw[3]];
        assert(length_bytes@ =~= raw@.subrange(0, 4));
        let length = u32_from_be_bytes(length_bytes);
        let type_bytes = [raw[4], raw[5], raw[6], raw[7]];
        assert(type_bytes@ =~= raw@.subrange(4, 8));
        let chunk_type = match ChunkType::try_from(type_bytes) {
            Ok(t) => t,
            Err(e) => {
                return Err(ChunkParseError::InvalidChunkType(e));
            },
        };
        let rest = raw.len() - 8;
        if rest < length as usize || rest - (length as usize) < 4 {
            return Err(ChunkParseError::ChunkTooShort);
        }
        let data_end = 8 + length as usize;
        let data = slice_to_vec(slice_subrange(raw, 8, data_end));
        let crc_bytes = [raw[data_end], raw[data_end + 1], raw[data_end + 2], raw[data_end + 3]];
        assert(crc_bytes@ =~= raw@.subrange(data_end as int, data_end + 4));
        let crc = u32_from_be_bytes(crc_bytes);
        Ok(Frame { chunk_type, data, crc })
    }

    /// The fields on the wire, with the checksum as it stands here. The
    /// bytes split into the same fields again.
    pub fn as_bytes(&self) -> (r: Vec<u8>)
        requires
            self.data@.len() <= u32::MAX,
        ensures
            r@ == self@.bytes(),
            r@.len() == 12 + self.data@.len(),
            frame(r@) == Ok::<FrameView, ChunkParseError>(self@),
    {
        proof {
            use_type_invariant(&self.chunk_type);
            lemma_frame_of_bytes(self@, Seq::empty());
            assert(self@.bytes() + Seq::<u8>::empty() =~= self@.bytes());
        }
        write_fields(self.data.len() as u32, &self.chunk_type, self.data.as_slice(), self.crc)
    }

    /// The fields as text, with the checksum as it stands here.
    pub fn to_string(&self) -> (s: String)
        ensures
            s@ == self@.text(),
    {
        describe_fields(self.data.len(), &self.chunk_type, self.data.as_slice(), self.crc)
    }
}

/// Lays out the fields of a chunk as they go on the wire.
fn write_fields(length: u32, chunk_type: &ChunkType, data: &[u8], crc: u32) -> (r: Vec<u8>)
    requires
        length == data@.len(),
    ensures
        r@ == (FrameView { chunk_type: chunk_type@, data: data@, crc }).bytes(),
        r@.len() == 12 + data@.len(),
{
    let mut out: Vec<u8> = Vec::new();
    out.extend_from_slice(u32_to_be_bytes(length).as_slice());
    out.extend_from_slice(chunk_type.bytes().as_slice());
    out.extend_from_slice(data);
    out.extend_from_slice(u32_to_be_bytes(crc).as_slice());
    assert(out@ =~= (FrameView { chunk_type: chunk_type@, data: data@, crc }).bytes());
    out
}

/// Writes the fields of a chunk as text.
fn describe_fields(length: usize, chunk_type: &ChunkType, data: &[u8], crc: u32) -> (s: String)
    requires
        length == data@.len(),
    ensures
        s@ == (FrameView { chunk_type: chunk_type@, data: data@, crc }).text(),
{
    let mut out = "Chunk {\n  length: ".to_owned();
    push_decimal(&mut out, length as u64);
    out.append("\n  chunk_type: ");
    out.append(chunk_type.to_string().as_str());
    out.append("\n  data: ");
    push_byte_list(&mut out, data);
    out.append("\n  crc: ");
    push_decimal(&mut out, crc as u64);
    out.append("\n}\n");
    out
}

/// Accepts a declared checksum that equals the computed one, and reports
/// both where they differ.
pub fn check_crc(declared: u32, computed: u32) -> (r: Result<(), ChunkParseError>)
    ensures
        r == crc_verdict(declared, computed),
{
    if computed != declared {
        Err(ChunkParseError::InvalidCrc { expected: declared, actual: computed })
    } else {
        Ok(())
    }
}

/// A chunk whose length and checksum always agree with its type and payload.
#[derive(Debug)]
pub struct Chunk {
    length: u32,
    chunk_type: ChunkType,
    data: Vec<u8>,
    crc: u32,
}

impl View for Chunk {
    type V = ChunkView;

    closed spec fn view(&self) -> ChunkView {
        ChunkView { chunk_type: self.chunk_type@, data: self.data@ }
    }
}

impl Chunk {
    /// The stored length and checksum are those of the type and payload.
    pub closed spec fn fields_agree(&self) -> bool {
        &&& self.length == self@.length()
        &&& self.crc == self@.crc()
    }

    /// Every chunk has a type tag, a payload that its length field can
    /// count, and the length and checksum that belong to them.
    #[verifier::type_invariant]
    pub open spec fn wf(&self) -> bool {
        &&& self@.wf()
        &&& self.fields_agree()
    }

    /// Makes a chunk of a type tag and a payload; the length and the
    /// checksum are computed from them.
    pub fn new(chunk_type: ChunkType, data: Vec<u8>) -> (r: Chunk)
        requires
            data@.len() <= u32::MAX,
        ensures
            r@ == (ChunkView { chunk_type: chunk_type@, data: data@ }),
            r@.wf(),
            r@.length() == data@.len(),
    {
        let crc = Chunk::calculate_crc(&chunk_type, data.as_slice());
        proof {
            use_type_invariant(&chunk_type);
        }
        Chunk { length: data.len() as u32, chunk_type, data, crc }
    }

    /// The number of payload bytes.
    pub fn length(&self) -> (r: usize)
        ensures
            r == self@.length(),
            self@.wf(),
    {
        proof {
            use_type_invariant(self);
        }
        self.length as usize
    }

    /// The type tag.
    pub fn chunk_type(&self) -> (r: &ChunkType)
        ensures
            r@ == self@.chunk_type,
            self@.wf(),
    {
        proof {
            use_type_invariant(self);
        }
        &self.chunk_type
    }

    /// The payload.
    pub fn data(&self) -> (r: &[u8])
        ensures
            r@ == self@.data,
            self@.wf(),
    {
        proof {
            use_type_invariant(self);
        }
        self.data.as_slice()
    }

    /// The checksum over the type bytes followed by the payload.
    pub fn crc(&self) -> (r: u32)
        ensures
            r == self@.crc(),
            self@.wf(),
    {
        proof {
            use_type_invariant(self);
        }
        self.crc
    }

    /// The payload as text; malformed UTF-8 is replaced, never refused.
    pub fn data_as_string(&self) -> (s: String)
        ensures
            s@ == utf8_lossy(self@.data),
            valid_utf8(self@.data) ==> s@ == decode_utf8(self@.data),
    {
        string_from_utf8_lossy(self.data.as_slice())
    }

    /// Computes the checksum over the type bytes followed by `data`.
    fn calculate_crc(chunk_type: &ChunkType, data: &[u8]) -> (crc: u32)
        ensures
            crc == crc32_iso_hdlc(chunk_type@ + data@),
    {
        let mut covered: Vec<u8> = Vec::new();
        covered.extend_from_slice(chunk_type.bytes().as_slice());
        covered.extend_from_slice(data);
        assert(covered@ =~= chunk_type@ + data@);
        crc32(covered.as_slice())
    }

    /// The chunk on the wire: the length and the checksum big-endian, the
    /// type and the payload between them. `12 + length` bytes in all, which
    /// parse to the same chunk.
    pub fn as_bytes(&self) -> (r: Vec<u8>)
        ensures
            r@ == self@.bytes(),
            r@.len() == 12 + self@.length(),
            parse(r@) == Ok::<ChunkView, ChunkParseError>(self@),
    {
        proof {
            use_type_invariant(self);
            lemma_parse_of_bytes(self@);
        }
        write_fields(self.length, &self.chunk_type, self.data.as_slice(), self.crc)
    }

    /// The chunk as text, for diagnostics.
    pub fn to_string(&self) -> (s: String)
        ensures
            s@ == self@.text(),
    {
        proof {
            use_type_invariant(self);
        }
        describe_fields(self.length as usize, &self.chunk_type, self.data.as_slice(), self.crc)
    }

    /// Parses the chunk at the start of `raw`, whatever follows it.
    pub fn try_from_prefix(raw: &[u8]) -> (r: Result<Chunk, ChunkParseError>)
        ensures
            match parse_prefix(raw@) {
                Ok(chunk) => r is Ok && r->Ok_0@ == chunk && chunk.wf() && 12 + chunk.data.len()
                    <= raw@.len() && chunk.bytes() == raw@.take(12 + chunk.data.len() as int),
                Err(e) => r == Err::<Chunk, ChunkParseError>(e),
            },
    {
        proof {
            if parse_prefix(raw@) is Ok {
                lemma_bytes_of_parse_prefix(raw@);
            }
        }
        let fields = match Frame::read(raw) {
            Ok(f) => f,
            Err(e) => {
                return Err(e);
            },
        };
        let data_end = 8 + fields.data.len();
        let covered = slice_subrange(raw, 4, data_end);
        assert(covered@ =~= fields.chunk_type@ + fields.data@) by {
            reveal(frame);
        }
        let actual = crc32(covered);
        match check_crc(fields.crc, actual) {
            Ok(()) => {
                proof {
                    use_type_invariant(&fields.chunk_type);
                }
                Ok(
                    Chunk {
                        length: fields.data.len() as u32,
                        chunk_type: fields.chunk_type,
                        data: fields.data,
                        crc: fields.crc,
                    },
                )
            },
            Err(e) => Err(e),
        }
    }
}

impl PartialEq for Chunk {
    /// Two chunks are equal exactly when their types and payloads are.
    fn eq(&self, other: &Self) -> (r: bool) {
        proof {
            use_type_invariant(self);
            use_type_invariant(other);
        }
        let r = self.length == other.length && self.chunk_type == other.chunk_type && self.data
            == other.data && self.crc == other.crc;
        proof {
            if self@ == other@ {
                assert(self.data@ == other.data@);
            }
            if r {
                assert(self.data@ =~= other.data@);
            }
        }
        r
    }
}

impl Eq for Chunk {}

impl PartialEqSpecImpl for Chunk {
    open spec fn obeys_eq_spec() -> bool {
        true
    }

    open spec fn eq_spec(&self, other: &Self) -> bool {
        self@ == other@
    }
}

impl TryFrom<&[u8]> for Chunk {
    type Error = ChunkParseError;

    /// Parses bytes that hold exactly one chunk.
    fn try_from(raw: &[u8]) -> (r: Result<Self, Self::Error>)
        ensures
            match parse(raw@) {
                Ok(chunk) => r is Ok && r->Ok_0@ == chunk && chunk.wf() && chunk.bytes() == raw@,
                Err(e) => r == Err::<Chunk, ChunkParseError>(e),
            },
    {
        proof {
            if parse(raw@) is Ok {
                lemma_bytes_of_parse_prefix(raw@);
                assert(raw@.take(raw@.len() as int) =~= raw@);
            }
        }
        let chunk = match Chunk::try_from_prefix(raw) {
            Ok(c) => c,
            Err(e) => {
                return Err(e);
            },
        };
        if raw.len() > 12 + chunk.data.len() {
            return Err(ChunkParseError::ChunkTooLong);
        }
        Ok(chunk)
    }
}

/// A chunk owns a vector, which no spec function can construct: what
/// `try_from` returns is stated in its own contract, over views.
impl TryFromSpecImpl<&[u8]> for Chunk {
    open spec fn obeys_try_from_spec() -> bool {
        false
    }

    open spec fn try_from_spec(v: &[u8]) -> Result<Self, Self::Error> {
        arbitrary()
    }
}

} // verus!
