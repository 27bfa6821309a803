use crate::error::PngError;
use crate::text::string_from_utf8;
use vstd::prelude::*;
use vstd::string::StringSliceAdditionalSpecFns;
use vstd::utf8::{
    decode_utf8, encode_utf8, encode_utf8_decode_utf8, encode_utf8_valid_utf8, valid_utf8,
};

verus! {

/// An ASCII capital letter.
pub open spec fn is_upper(b: u8) -> bool {
    65 <= b <= 90
}

/// An ASCII small letter.
pub open spec fn is_lower(b: u8) -> bool {
    97 <= b <= 122
}

/// An ASCII letter of either case.
pub open spec fn is_alpha(b: u8) -> bool {
    is_upper(b) || is_lower(b)
}

/// Four bytes, each an ASCII letter: the shape of a type code written as text.
pub open spec fn is_letter_code(code: Seq<u8>) -> bool {
    code.len() == 4 && forall|i: int| 0 <= i < 4 ==> #[trigger] is_alpha(code[i])
}

/// A type code that the PNG format accepts: four letters, the third capital.
pub open spec fn is_valid_code(code: Seq<u8>) -> bool {
    is_letter_code(code) && is_upper(code[2])
}

fn is_ascii_upper(b: u8) -> (r: bool)
    ensures
        r == is_upper(b),
{
    65 <= b && b <= 90
}

fn is_ascii_lower(b: u8) -> (r: bool)
    ensures
        r == is_lower(b),
{
    97 <= b && b <= 122
}

fn is_ascii_alpha(b: u8) -> (r: bool)
    ensures
        r == is_alpha(b),
{
    is_ascii_upper(b) || is_ascii_lower(b)
}

/// The four-byte type code of a chunk. The case of each letter carries one
/// property of the chunk.
#[derive(Debug, Clone, Copy)]
pub struct ChunkType {
    pub type_code: [u8; 4],
}

impl ChunkType {
    /// Builds a type from any four bytes; whether they form a valid code is
    /// asked separately with `is_valid`.
    pub fn try_from(bytes: [u8; 4]) -> (r: Result<ChunkType, PngError>)
        ensures
            r == Ok::<ChunkType, PngError>(ChunkType { type_code: bytes }),
    {
        Ok(ChunkType { type_code: bytes })
    }

    /// Parses a type from its text: exactly four bytes, each an ASCII letter.
    pub fn from_str(s: &str) -> (r: Result<ChunkType, PngError>)
        ensures
            r is Ok <==> is_letter_code(s.spec_bytes()),
            r matches Ok(t) ==> t.type_code@ == s.spec_bytes(),
            r matches Err(e) ==> e == PngError::InvalidTypeString,
    {
        let b = s.as_bytes();
        if b.len() != 4 {
            return Err(PngError::InvalidTypeString);
        }
        if !is_ascii_alpha(b[0]) || !is_ascii_alpha(b[1]) || !is_ascii_alpha(b[2])
            || !is_ascii_alpha(b[3]) {
            proof {
                let k: int = if !is_alpha(b@[0]) { 0 } else if !is_alpha(b@[1]) { 1 } else if !is_alpha(b@[2]) { 2 } else { 3 };
                assert(!is_alpha(s.spec_bytes()[k]));
            }
            return Err(PngError::InvalidTypeString);
        }
        let t = ChunkType { type_code: [b[0], b[1], b[2], b[3]] };
        assert(t.type_code@ =~= s.spec_bytes());
        Ok(t)
    }

    /// The four bytes of the code.
    pub fn bytes(&self) -> (r: [u8; 4])
        ensures
            r@ == self.type_code@,
    {
        self.type_code
    }

    /// A critical chunk has a capital first letter.
    pub fn is_critical(&self) -> (r: bool)
        ensures
            r == is_upper(self.type_code@[0]),
    {
        is_ascii_upper(self.type_code[0])
    }

    /// A public chunk has a capital second letter.
    pub fn is_public(&self) -> (r: bool)
        ensures
            r == is_upper(self.type_code@[1]),
    {
        is_ascii_upper(self.type_code[1])
    }

    /// The reserved bit is valid when the third letter is a capital.
    pub fn is_reserved_bit_valid(&self) -> (r: bool)
        ensures
            r == is_upper(self.type_code@[2]),
    {
        is_ascii_upper(self.type_code[2])
    }

    /// A chunk is safe to copy when its fourth letter is small.
    pub fn is_safe_to_copy(&self) -> (r: bool)
        ensures
            r == is_lower(self.type_code@[3]),
    {
        is_ascii_lower(self.type_code[3])
    }

    /// Four letters with a valid reserved bit.
    pub fn is_valid(&self) -> (r: bool)
        ensures
            r == is_valid_code(self.type_code@),
    {
        let c = self.type_code;
        let r = is_ascii_alpha(c[0]) && is_ascii_alpha(c[1]) && is_ascii_alpha(c[2])
            && is_ascii_alpha(c[3]) && self.is_reserved_bit_valid();
        proof {
            if r {
                assert forall|i: int| 0 <= i < 4 implies #[trigger] is_alpha(self.type_code@[i]) by {
                    assert(i == 0 || i == 1 || i == 2 || i == 3);
                }
            } else if !is_upper(c@[2]) {
            } else {
                let k: int = if !is_alpha(c@[0]) { 0 } else if !is_alpha(c@[1]) { 1 } else if !is_alpha(c@[2]) { 2 } else { 3 };
                assert(!is_alpha(self.type_code@[k]));
            }
        }
        r
    }

    /// The code read as text. It fails only on bytes that are not UTF-8,
    /// which a type built from arbitrary bytes may hold.
    pub fn to_string(&self) -> (r: Result<String, PngError>)
        ensures
            r is Ok <==> valid_utf8(self.type_code@),
            r matches Ok(s) ==> s@ == decode_utf8(self.type_code@),
            r matches Err(e) ==> e == PngError::InvalidUtf8,
    {
        let mut v: Vec<u8> = Vec::new();
        v.push(self.type_code[0]);
        v.push(self.type_code[1]);
        v.push(self.type_code[2]);
        v.push(self.type_code[3]);
        assert(v@ =~= self.type_code@);
        match string_from_utf8(v) {
            Some(s) => Ok(s),
            None => Err(PngError::InvalidUtf8),
        }
    }
}

impl std::str::FromStr for ChunkType {
    type Err = PngError;

    fn from_str(s: &str) -> Result<ChunkType, PngError> {
        ChunkType::from_str(s)
    }
}

impl std::convert::TryFrom<[u8; 4]> for ChunkType {
    type Error = PngError;

    fn try_from(bytes: [u8; 4]) -> Result<ChunkType, PngError> {
        ChunkType::try_from(bytes)
    }
}

impl vstd::std_specs::convert::TryFromSpecImpl<[u8; 4]> for ChunkType {
    open spec fn obeys_try_from_spec() -> bool {
        true
    }

    open spec fn try_from_spec(bytes: [u8; 4]) -> Result<ChunkType, PngError> {
        Ok(ChunkType { type_code: bytes })
    }
}

impl PartialEq for ChunkType {
    fn eq(&self, other: &ChunkType) -> (r: bool) {
        let r = self.type_code[0] == other.type_code[0] && self.type_code[1] == other.type_code[1]
            && self.type_code[2] == other.type_code[2] && self.type_code[3]
            == other.type_code[3];
        proof {
            if r {
                assert(self.type_code@ =~= other.type_code@);
            }
        }
        r
    }
}

impl vstd::std_specs::cmp::PartialEqSpecImpl for ChunkType {
    open spec fn obeys_eq_spec() -> bool {
        true
    }

    open spec fn eq_spec(&self, other: &ChunkType) -> bool {
        self.type_code@ == other.type_code@
    }
}

/// A type parsed from text reads back as that same text: four letters are
/// valid UTF-8, and decoding their bytes gives the characters again.
pub proof fn lemma_letter_code_text_round_trip(s: &str)
    requires
        is_letter_code(s.spec_bytes()),
    ensures
        valid_utf8(s.spec_bytes()),
        decode_utf8(s.spec_bytes()) == s@,
{
    encode_utf8_valid_utf8(s@);
    encode_utf8_decode_utf8(s@);
}

} // verus!
