//! The four-byte type tag of a chunk and the flags encoded in its letters' case.

use crate::text::{ascii_chars, lemma_ascii_bytes_decode, lemma_ascii_chars_encode};
use vstd::prelude::*;
use vstd::std_specs::cmp::PartialEqSpecImpl;
use vstd::std_specs::convert::TryFromSpecImpl;
use vstd::string::{StrSliceExecFns, StringSliceAdditionalSpecFns};
use vstd::utf8::{decode_utf8, encode_utf8, valid_utf8};

verus! {

/// Why bytes or text were refused as a type tag.
#[derive(Debug, Clone, Copy, PartialEq, Eq)]
pub enum ChunkTypeParseError {
    /// The input is not four bytes long; holds its length.
    InvalidLength(usize),
    /// The input is not well-formed UTF-8.
    InvalidUtf8,
    /// The input holds this character, which is not an ASCII letter.
    InvalidCharacter(char),
}

/// True when `b` is an ASCII letter, `A`-`Z` or `a`-`z`.
pub open spec fn is_ascii_letter(b: u8) -> bool {
    (0x41 <= b <= 0x5a) || (0x61 <= b <= 0x7a)
}

/// True when `s` can be the bytes of a type tag: exactly four ASCII letters.
pub open spec fn is_type_tag(s: Seq<u8>) -> bool {
    &&& s.len() == 4
    &&& forall|i: int| 0 <= i < 4 ==> is_ascii_letter(#[trigger] s[i])
}

/// True when bit 5 (value `0x20`) of `b` is set.
pub open spec fn bit5_set(b: u8) -> bool {
    b & 0x20 != 0
}

/// In an ASCII letter, bit 5 tells the case: it is set in the lower-case
/// letters and clear in the upper-case ones.
pub proof fn lemma_bit5_is_lower_case(b: u8)
    requires
        is_ascii_letter(b),
    ensures
        bit5_set(b) <==> 0x61 <= b,
{
    assert((0x41 <= b <= 0x5a) ==> b & 0x20 == 0) by (bit_vector);
    assert((0x61 <= b <= 0x7a) ==> b & 0x20 != 0) by (bit_vector);
}

/// True when `c` is an ASCII letter, `A`-`Z` or `a`-`z`.
pub open spec fn is_letter_char(c: char) -> bool {
    ('A' <= c <= 'Z') || ('a' <= c <= 'z')
}

/// True when `i` is the position of the first character of `chars` that is
/// not an ASCII letter.
pub open spec fn is_first_non_letter(chars: Seq<char>, i: int) -> bool {
    &&& 0 <= i < chars.len()
    &&& !is_letter_char(chars[i])
    &&& forall|j: int| 0 <= j < i ==> is_letter_char(#[trigger] chars[j])
}

/// The first character of `chars` that is not an ASCII letter, if there is one.
pub open spec fn first_non_letter(chars: Seq<char>) -> Option<char> {
    if exists|i: int| is_first_non_letter(chars, i) {
        Some(chars[choose|i: int| is_first_non_letter(chars, i)])
    } else {
        None
    }
}

/// The first character that is not an ASCII letter stands at one position only.
pub proof fn lemma_first_non_letter(chars: Seq<char>, i: int)
    requires
        is_first_non_letter(chars, i),
    ensures
        first_non_letter(chars) == Some(chars[i]),
{
    let k = choose|k: int| is_first_non_letter(chars, k);
    if k < i {
        assert(is_letter_char(chars[k]));
    } else if i < k {
        assert(is_letter_char(chars[i]));
    }
}

/// The verdict on `content` as the bytes of a type tag: the length is
/// checked first, then the encoding, then each character in order.
pub open spec fn validate(content: Seq<u8>) -> Result<(), ChunkTypeParseError> {
    if content.len() != 4 {
        Err(ChunkTypeParseError::InvalidLength(content.len() as usize))
    } else if !valid_utf8(content) {
        Err(ChunkTypeParseError::InvalidUtf8)
    } else {
        match first_non_letter(decode_utf8(content)) {
            Some(c) => Err(ChunkTypeParseError::InvalidCharacter(c)),
            None => Ok(()),
        }
    }
}

/// Where no character is a first non-letter, the first `n` are all letters.
proof fn lemma_all_letters(chars: Seq<char>, n: int)
    requires
        first_non_letter(chars) is None,
        0 <= n <= chars.len(),
    ensures
        forall|j: int| 0 <= j < n ==> is_letter_char(#[trigger] chars[j]),
    decreases n,
{
    if n > 0 {
        lemma_all_letters(chars, n - 1);
        if !is_letter_char(chars[n - 1]) {
            assert(is_first_non_letter(chars, n - 1));
        }
    }
}

/// Bytes pass validation exactly when they are four ASCII letters.
pub proof fn lemma_validate_ok_iff_type_tag(content: Seq<u8>)
    ensures
        validate(content) is Ok <==> is_type_tag(content),
        validate(content) is Ok ==> decode_utf8(content) == ascii_chars(content),
{
    if is_type_tag(content) {
        lemma_ascii_bytes_decode(content);
    }
    if validate(content) is Ok {
        let chars = decode_utf8(content);
        lemma_all_letters(chars, chars.len() as int);
        assert(vstd::utf8::is_ascii_chars(chars));
        lemma_ascii_chars_encode(content);
        assert forall|i: int| 0 <= i < 4 implies is_ascii_letter(#[trigger] content[i]) by {
            assert(is_letter_char(chars[i]));
        }
    }
}

/// Four ASCII letters are accepted as a tag, and the text of that tag
/// spells the same four bytes.
pub proof fn lemma_bytes_round_trip(bytes: Seq<u8>)
    requires
        is_type_tag(bytes),
    ensures
        validate(bytes) is Ok,
        encode_utf8(ascii_chars(bytes)) == bytes,
{
    lemma_validate_ok_iff_type_tag(bytes);
    vstd::utf8::decode_utf8_encode_utf8(bytes);
}

/// Text that is accepted as a tag is the text of that tag.
pub proof fn lemma_text_round_trip(text: Seq<char>)
    requires
        validate(encode_utf8(text)) is Ok,
    ensures
        is_type_tag(encode_utf8(text)),
        ascii_chars(encode_utf8(text)) == text,
{
    lemma_validate_ok_iff_type_tag(encode_utf8(text));
    vstd::utf8::encode_utf8_decode_utf8(text);
}

/// A validated four-byte chunk type tag.
#[derive(Debug, Clone, Copy)]
pub struct ChunkType {
    bytes: [u8; 4],
}

impl View for ChunkType {
    type V = Seq<u8>;

    closed spec fn view(&self) -> Seq<u8> {
        self.bytes@
    }
}

impl ChunkType {
    /// Every tag holds four ASCII letters.
    #[verifier::type_invariant]
    pub open spec fn wf(&self) -> bool {
        is_type_tag(self@)
    }

    /// Critical: byte 0 has bit 5 clear.
    pub open spec fn spec_is_critical(&self) -> bool {
        !bit5_set(self@[0])
    }

    /// Public: byte 1 has bit 5 clear.
    pub open spec fn spec_is_public(&self) -> bool {
        !bit5_set(self@[1])
    }

    /// Reserved bit valid: byte 2 has bit 5 clear.
    pub open spec fn spec_is_reserved_bit_valid(&self) -> bool {
        !bit5_set(self@[2])
    }

    /// Safe to copy: byte 3 has bit 5 set.
    pub open spec fn spec_is_safe_to_copy(&self) -> bool {
        bit5_set(self@[3])
    }

    /// A tag is valid exactly when its reserved bit is.
    pub open spec fn spec_is_valid(&self) -> bool {
        self.spec_is_reserved_bit_valid()
    }

    /// Judges `content` as the bytes of a type tag.
    fn validate_content(content: &[u8]) -> (r: Result<(), ChunkTypeParseError>)
        ensures
            r == validate(content@),
    {
        if content.len() != 4 {
            return Err(ChunkTypeParseError::InvalidLength(content.len()));
        }
        match core::str::from_utf8(content) {
            Err(_) => Err(ChunkTypeParseError::InvalidUtf8),
            Ok(text) => {
                proof {
                    vstd::utf8::encode_utf8_decode_utf8(text@);
                }
                let n = text.unicode_len();
                let mut i: usize = 0;
                while i < n
                    invariant
                        i <= n,
                        n == text@.len(),
                        content@.len() == 4,
                        valid_utf8(content@),
                        text@ == decode_utf8(content@),
                        forall|j: int| 0 <= j < i ==> is_letter_char(#[trigger] text@[j]),
                    decreases n - i,
                {
                    let c = text.get_char(i);
                    if !(('A' <= c && c <= 'Z') || ('a' <= c && c <= 'z')) {
                        proof {
                            lemma_first_non_letter(text@, i as int);
                        }
                        return Err(ChunkTypeParseError::InvalidCharacter(c));
                    }
                    i += 1;
                }
                Ok(())
            },
        }
    }

    /// The tag as text: one character for each of its four letters. The
    /// text is accepted as a tag, and spells the same bytes.
    pub fn to_string(&self) -> (s: String)
        ensures
            s@ == ascii_chars(self@),
            encode_utf8(s@) == self@,
            validate(encode_utf8(s@)) is Ok,
    {
        proof {
            use_type_invariant(self);
            lemma_ascii_bytes_decode(self@);
            lemma_bytes_round_trip(self@);
        }
        let text = core::str::from_utf8(self.bytes.as_slice()).expect("a type tag is ASCII");
        proof {
            vstd::utf8::encode_utf8_decode_utf8(text@);
        }
        text.to_owned()
    }

    /// Tests bit 5 of `byte`.
    fn is_5th_bit_set(byte: &u8) -> (r: bool)
        ensures
            r == bit5_set(*byte),
    {
        *byte & 0b00100000 > 0
    }

    /// The four bytes of the tag.
    pub fn bytes(&self) -> (r: [u8; 4])
        ensures
            r@ == self@,
            is_type_tag(r@),
    {
        proof {
            use_type_invariant(self);
        }
        self.bytes
    }

    /// Whether the tag is valid, which is to say whether its reserved bit is.
    #[verifier::when_used_as_spec(spec_is_valid)]
    pub fn is_valid(&self) -> (r: bool)
        ensures
            r == self.spec_is_valid(),
            r == self.spec_is_reserved_bit_valid(),
    {
        self.is_reserved_bit_valid()
    }

    /// Whether the chunk is critical rather than ancillary.
    #[verifier::when_used_as_spec(spec_is_critical)]
    pub fn is_critical(&self) -> (r: bool)
        ensures
            r == self.spec_is_critical(),
    {
        !ChunkType::is_5th_bit_set(&self.bytes[0])
    }

    /// Whether the chunk is public rather than private.
    #[verifier::when_used_as_spec(spec_is_public)]
    pub fn is_public(&self) -> (r: bool)
        ensures
            r == self.spec_is_public(),
    {
        !ChunkType::is_5th_bit_set(&self.bytes[1])
    }

    /// Whether the reserved bit is as the format asks.
    #[verifier::when_used_as_spec(spec_is_reserved_bit_valid)]
    pub fn is_reserved_bit_valid(&self) -> (r: bool)
        ensures
            r == self.spec_is_reserved_bit_valid(),
    {
        !ChunkType::is_5th_bit_set(&self.bytes[2])
    }

    /// Whether the chunk may be copied by a program that does not know it.
    #[verifier::when_used_as_spec(spec_is_safe_to_copy)]
    pub fn is_safe_to_copy(&self) -> (r: bool)
        ensures
            r == self.spec_is_safe_to_copy(),
    {
        ChunkType::is_5th_bit_set(&self.bytes[3])
    }
}

impl PartialEq for ChunkType {
    /// Two tags are equal exactly when their bytes are.
    fn eq(&self, other: &Self) -> (r: bool) {
        let r = self.bytes[0] == other.bytes[0] && self.bytes[1] == other.bytes[1]
            && self.bytes[2] == other.bytes[2] && self.bytes[3] == other.bytes[3];
        proof {
            if r {
                assert(self@ =~= other@);
            }
        }
        r
    }
}

impl Eq for ChunkType {}

impl PartialEqSpecImpl for ChunkType {
    open spec fn obeys_eq_spec() -> bool {
        true
    }

    open spec fn eq_spec(&self, other: &Self) -> bool {
        self@ == other@
    }
}

impl TryFrom<[u8; 4]> for ChunkType {
    type Error = ChunkTypeParseError;

    /// Makes a tag of four raw bytes, or says why they are refused.
    fn try_from(value: [u8; 4]) -> (r: Result<Self, Self::Error>)
        ensures
            match validate(value@) {
                Ok(()) => r is Ok && r->Ok_0@ == value@,
                Err(e) => r == Err::<ChunkType, ChunkTypeParseError>(e),
            },
    {
        match ChunkType::validate_content(value.as_slice()) {
            Ok(()) => {
                proof {
                    lemma_validate_ok_iff_type_tag(value@);
                }
                Ok(ChunkType { bytes: value })
            },
            Err(e) => Err(e),
        }
    }
}

impl core::str::FromStr for ChunkType {
    type Err = ChunkTypeParseError;

    /// Makes a tag of text, or says why it is refused.
    fn from_str(s: &str) -> (r: Result<Self, Self::Err>)
        ensures
            match validate(s.spec_bytes()) {
                Ok(()) => r is Ok && r->Ok_0@ == s.spec_bytes(),
                Err(e) => r == Err::<ChunkType, ChunkTypeParseError>(e),
            },
    {
        let value = s.as_bytes();
        match ChunkType::validate_content(value) {
            Ok(()) => {
                proof {
                    lemma_validate_ok_iff_type_tag(value@);
                }
                let bytes = [value[0], value[1], value[2], value[3]];
                assert(bytes@ =~= value@);
                Ok(ChunkType { bytes })
            },
            Err(e) => Err(e),
        }
    }
}

impl TryFromSpecImpl<[u8; 4]> for ChunkType {
    open spec fn obeys_try_from_spec() -> bool {
        true
    }

    closed spec fn try_from_spec(v: [u8; 4]) -> Result<Self, Self::Error> {
        match validate(v@) {
            Ok(()) => Ok(ChunkType { bytes: v }),
            Err(e) => Err(e),
        }
    }
}

} // verus!
