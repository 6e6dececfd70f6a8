use vstd::prelude::*;
use vstd::std_specs::convert::TryFromSpec;
use vstd::utf8::{decode_utf8, encode_utf8, valid_utf8};
use vstd::string::StringSliceAdditionalSpecFns;

use crate::error::PngError;

verus! {

broadcast use vstd::utf8::group_utf8_lib;

/// An ASCII upper-case letter.
pub open spec fn is_upper(b: u8) -> bool {
    65 <= b <= 90
}

/// An ASCII lower-case letter.
pub open spec fn is_lower(b: u8) -> bool {
    97 <= b <= 122
}

/// An ASCII letter of either case.
pub open spec fn is_letter(b: u8) -> bool {
    is_upper(b) || is_lower(b)
}

/// Exactly four bytes, each an ASCII letter: the bytes of a chunk type.
pub open spec fn all_letters(s: Seq<u8>) -> bool {
    &&& s.len() == 4
    &&& forall|i: int| 0 <= i < 4 ==> #[trigger] is_letter(s[i])
}

/// The text that shows a chunk type: one character per byte.
pub open spec fn tag_text(tag: Seq<u8>) -> Seq<char> {
    tag.map_values(|b: u8| b as char)
}

/// The four-letter type of a chunk. Each letter's case carries one flag.
#[derive(Debug)]
pub struct ChunkType(u8, u8, u8, u8);

impl View for ChunkType {
    type V = Seq<u8>;

    closed spec fn view(&self) -> Seq<u8> {
        seq![self.0, self.1, self.2, self.3]
    }
}

/// Shows the text of an ASCII tag as UTF-8: its bytes again.
proof fn lemma_tag_text_utf8(tag: Seq<u8>)
    requires
        all_letters(tag),
    ensures
        encode_utf8(tag_text(tag)) == tag,
        valid_utf8(tag),
        decode_utf8(tag) == tag_text(tag),
{
    let t = tag_text(tag);
    assert(vstd::utf8::is_ascii_chars(t)) by {
        assert forall|i: int| 0 <= i < t.len() implies '\0' <= #[trigger] t[i] <= '\u{7f}' by {
            assert(is_letter(tag[i]));
        }
    }
    vstd::utf8::is_ascii_chars_encode_utf8(t);
    assert forall|i: int| 0 <= i < 4 implies #[trigger] encode_utf8(t)[i] == tag[i] by {
        assert(is_letter(tag[i]));
        assert(t[i] as u8 == encode_utf8(t)[i]);
    }
    assert(encode_utf8(t) =~= tag);
}

/// A string names a tag exactly when its UTF-8 bytes are the tag's bytes.
pub proof fn lemma_tag_text_bytes(tag: Seq<u8>, s: Seq<char>)
    requires
        all_letters(tag),
    ensures
        (encode_utf8(s) == tag) <==> (s == tag_text(tag)),
{
    lemma_tag_text_utf8(tag);
    if encode_utf8(s) == tag {
        vstd::utf8::encode_utf8_decode_utf8(s);
    }
}

impl ChunkType {
    /// The bytes are four ASCII letters, as every constructor ensures.
    pub open spec fn wf(&self) -> bool {
        all_letters(self@)
    }

    /// Makes a chunk type of four bytes; fails unless each is an ASCII letter.
    pub fn from_bytes(value: [u8; 4]) -> (r: Result<ChunkType, PngError>)
        ensures
            r is Ok <==> all_letters(value@),
            r matches Ok(t) ==> t@ == value@ && t.wf(),
            r matches Err(e) ==> e == PngError::ChunkTypeError,
    {
        let mut i: usize = 0;
        while i < 4
            invariant
                0 <= i <= 4,
                value@.len() == 4,
                forall|j: int| 0 <= j < i ==> #[trigger] is_letter(value@[j]),
            decreases 4 - i,
        {
            if !is_ascii_letter(value[i]) {
                return Err(PngError::ChunkTypeError);
            }
            i = i + 1;
        }
        let t = ChunkType(value[0], value[1], value[2], value[3]);
        assert(t@ =~= value@);
        Ok(t)
    }

    /// Makes a chunk type of a string; fails unless its UTF-8 bytes are four
    /// ASCII letters.
    pub fn from_tag_str(s: &str) -> (r: Result<ChunkType, PngError>)
        ensures
            r is Ok <==> all_letters(s.spec_bytes()),
            r matches Ok(t) ==> t@ == s.spec_bytes() && t.wf() && tag_text(t@) == s@,
            r matches Err(e) ==> e == PngError::ChunkTypeError,
    {
        let b = s.as_bytes();
        if b.len() != 4 {
            return Err(PngError::ChunkTypeError);
        }
        let r = ChunkType::from_bytes([b[0], b[1], b[2], b[3]]);
        proof {
            assert(seq![b@[0], b@[1], b@[2], b@[3]] =~= b@);
            if all_letters(b@) {
                lemma_tag_text_bytes(b@, s@);
            }
        }
        r
    }

    /// The four bytes of the type.
    pub fn bytes(&self) -> (r: [u8; 4])
        ensures
            r@ == self@,
    {
        let r = [self.0, self.1, self.2, self.3];
        assert(r@ =~= self@);
        r
    }

    /// Critical chunks have an upper-case first letter.
    pub fn is_critical(&self) -> (r: bool)
        ensures
            r == is_upper(self@[0]),
    {
        is_ascii_upper(self.0)
    }

    /// Public chunks have an upper-case second letter.
    pub fn is_public(&self) -> (r: bool)
        ensures
            r == is_upper(self@[1]),
    {
        is_ascii_upper(self.1)
    }

    /// The reserved bit is valid when the third letter is upper case.
    pub fn is_reserved_bit_valid(&self) -> (r: bool)
        ensures
            r == is_upper(self@[2]),
    {
        is_ascii_upper(self.2)
    }

    /// Safe-to-copy chunks have a lower-case fourth letter.
    pub fn is_safe_to_copy(&self) -> (r: bool)
        ensures
            r == is_lower(self@[3]),
    {
        is_ascii_lower(self.3)
    }

    /// A type is valid exactly when its reserved bit is valid.
    pub fn is_valid(&self) -> (r: bool)
        ensures
            r == is_upper(self@[2]),
    {
        self.is_reserved_bit_valid()
    }

    /// Whether some byte of the type is not an ASCII letter.
    pub fn is_err(&self) -> (r: bool)
        ensures
            r == !all_letters(self@),
    {
        !(is_ascii_letter(self.0) && is_ascii_letter(self.1) && is_ascii_letter(self.2)
            && is_ascii_letter(self.3))
    }

    /// The type as text, one character per byte.
    pub fn to_string(&self) -> (r: String)
        requires
            self.wf(),
        ensures
            r@ == tag_text(self@),
    {
        proof {
            lemma_tag_text_utf8(self@);
        }
        let v: Vec<u8> = vec![self.0, self.1, self.2, self.3];
        assert(v@ =~= self@);
        match crate::chunk::utf8_string(v) {
            Some(s) => s,
            None => String::new(),
        }
    }
}

/// Byte-wise equality of types.
impl PartialEq for ChunkType {
    fn eq(&self, other: &ChunkType) -> (r: bool) {
        self.0 == other.0 && self.1 == other.1 && self.2 == other.2 && self.3 == other.3
    }
}

impl vstd::std_specs::cmp::PartialEqSpecImpl for ChunkType {
    open spec fn obeys_eq_spec() -> bool {
        true
    }

    open spec fn eq_spec(&self, other: &ChunkType) -> bool {
        self@ == other@
    }
}

impl TryFrom<[u8; 4]> for ChunkType {
    type Error = PngError;

    fn try_from(value: [u8; 4]) -> Result<ChunkType, PngError> {
        ChunkType::from_bytes(value)
    }
}

impl vstd::std_specs::convert::TryFromSpecImpl<[u8; 4]> for ChunkType {
    open spec fn obeys_try_from_spec() -> bool {
        true
    }

    closed spec fn try_from_spec(value: [u8; 4]) -> Result<ChunkType, PngError> {
        if all_letters(value@) {
            Ok(ChunkType(value@[0], value@[1], value@[2], value@[3]))
        } else {
            Err(PngError::ChunkTypeError)
        }
    }
}

/// What `ChunkType::try_from` returns: a type of the same four bytes when
/// each is an ASCII letter, and `ChunkTypeError` otherwise.
pub proof fn lemma_try_from_bytes(value: [u8; 4])
    ensures
        <ChunkType as TryFromSpec<[u8; 4]>>::obeys_try_from_spec(),
        <ChunkType as TryFromSpec<[u8; 4]>>::try_from_spec(value) is Ok <==> all_letters(value@),
        <ChunkType as TryFromSpec<[u8; 4]>>::try_from_spec(value) matches Ok(t) ==> t@ == value@
            && t.wf(),
        !all_letters(value@) ==> <ChunkType as TryFromSpec<[u8; 4]>>::try_from_spec(value)
            == Err::<ChunkType, PngError>(PngError::ChunkTypeError),
{
    if all_letters(value@) {
        let t = ChunkType(value@[0], value@[1], value@[2], value@[3]);
        assert(t@ =~= value@);
    }
}

impl core::str::FromStr for ChunkType {
    type Err = PngError;

    fn from_str(s: &str) -> Result<ChunkType, PngError> {
        ChunkType::from_tag_str(s)
    }
}

fn is_ascii_upper(b: u8) -> (r: bool)
    ensures
        r == is_upper(b),
{
    65 <= b && b <= 90
}

fn is_ascii_lower(b: u8) -> (r: bool)
    ensures
        r == is_lower(b),
{
    97 <= b && b <= 122
}

fn is_ascii_letter(b: u8) -> (r: bool)
    ensures
        r == is_letter(b),
{
    is_ascii_upper(b) || is_ascii_lower(b)
}

} // verus!
