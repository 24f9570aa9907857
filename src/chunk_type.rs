use vstd::prelude::*;
use vstd::utf8::*;
use crate::error::PngError;
use crate::text::{lemma_ascii_utf8, string_from_utf8};

verus! {

broadcast use vstd::string::is_ascii_spec_bytes;

/// A byte in `A-Z` or `a-z`.
pub open spec fn is_letter(b: u8) -> bool {
    (65 <= b && b <= 90) || (97 <= b && b <= 122)
}

/// A byte in `A-Z`.
pub open spec fn is_upper(b: u8) -> bool {
    65 <= b && b <= 90
}

/// Every byte is a letter.
pub open spec fn all_letters(s: Seq<u8>) -> bool {
    forall|i: int| 0 <= i < s.len() ==> is_letter(#[trigger] s[i])
}

/// Four letter bytes: what every chunk type holds.
pub open spec fn valid_type_bytes(s: Seq<u8>) -> bool {
    s.len() == 4 && all_letters(s)
}

/// The bytes of a sequence of ASCII characters.
pub open spec fn ascii_bytes(cs: Seq<char>) -> Seq<u8> {
    Seq::new(cs.len(), |i: int| cs[i] as u8)
}

/// A string that names a chunk type: four ASCII letters.
pub open spec fn valid_type_str(cs: Seq<char>) -> bool {
    is_ascii_chars(cs) && valid_type_bytes(ascii_bytes(cs))
}

/// Reading a chunk type from text: four ASCII characters are needed, and then each must be a
/// letter.
pub open spec fn parse_type_str(cs: Seq<char>) -> Result<Seq<u8>, PngError> {
    if !is_ascii_chars(cs) || cs.len() != 4 {
        Err(PngError::InvalidChunkTypeString)
    } else if !all_letters(ascii_bytes(cs)) {
        Err(PngError::InvalidChunkTypeBytes)
    } else {
        Ok(ascii_bytes(cs))
    }
}

/// A chunk type is valid when its bytes are letters and its reserved bit (third byte) is uppercase.
pub open spec fn type_is_valid(s: Seq<u8>) -> bool {
    all_letters(s) && is_upper(s[2])
}

/// A four-byte chunk type; each byte is an ASCII letter, and its case carries a property flag.
#[derive(Debug, Clone, Copy)]
pub struct ChunkType {
    bytes: [u8; 4],
}

impl View for ChunkType {
    type V = Seq<u8>;

    closed spec fn view(&self) -> Seq<u8> {
        self.bytes@
    }
}

impl ChunkType {
    #[verifier::type_invariant]
    spec fn inv(&self) -> bool {
        all_letters(self.bytes@)
    }

    /// Builds a chunk type from four bytes, each of which must be a letter.
    pub fn from_bytes(bytes: [u8; 4]) -> (r: Result<ChunkType, PngError>)
        ensures
            r is Ok <==> all_letters(bytes@),
            r matches Ok(t) ==> t@ == bytes@,
            r matches Err(e) ==> e == PngError::InvalidChunkTypeBytes,
    {
        let mut i: usize = 0;
        while i < 4
            invariant
                0 <= i <= 4,
                forall|j: int| 0 <= j < i ==> is_letter(#[trigger] bytes@[j]),
            decreases 4 - i,
        {
            if !ChunkType::is_valid_byte(bytes[i]) {
                return Err(PngError::InvalidChunkTypeBytes);
            }
            i += 1;
        }
        Ok(ChunkType { bytes })
    }

    /// Builds a chunk type from a string of exactly four ASCII letters. A string that is not
    /// four ASCII characters is an invalid string; four ASCII characters that are not all
    /// letters are invalid bytes.
    pub fn from_string(s: &str) -> (r: Result<ChunkType, PngError>)
        ensures
            r is Ok <==> valid_type_str(s@),
            r matches Ok(t) ==> t@ == ascii_bytes(s@),
            match parse_type_str(s@) {
                Ok(b) => r matches Ok(t) && t@ == b,
                Err(e) => r matches Err(e2) && e2 == e,
            },
    {
        if !s.is_ascii() {
            return Err(PngError::InvalidChunkTypeString);
        }
        let b = s.as_bytes();
        assert(b@ =~= ascii_bytes(s@));
        if b.len() != 4 {
            return Err(PngError::InvalidChunkTypeString);
        }
        let bytes: [u8; 4] = [b[0], b[1], b[2], b[3]];
        assert(bytes@ =~= b@);
        ChunkType::from_bytes(bytes)
    }

    /// The four bytes of the type.
    pub fn bytes(&self) -> (r: [u8; 4])
        ensures
            r@ == self@,
            valid_type_bytes(r@),
    {
        proof {
            use_type_invariant(self);
        }
        self.bytes
    }

    /// Byte-for-byte equality of two chunk types.
    pub fn equals(&self, other: &ChunkType) -> (r: bool)
        ensures
            r == (self@ == other@),
    {
        let mut i: usize = 0;
        while i < 4
            invariant
                0 <= i <= 4,
                forall|j: int| 0 <= j < i ==> self.bytes@[j] == other.bytes@[j],
            decreases 4 - i,
        {
            if self.bytes[i] != other.bytes[i] {
                return false;
            }
            i += 1;
        }
        assert(self.bytes@ =~= other.bytes@);
        true
    }

    /// Whether a byte may appear in a chunk type.
    pub fn is_valid_byte(byte: u8) -> (r: bool)
        ensures
            r == is_letter(byte),
    {
        (byte > 64 && byte < 91) || (byte > 96 && byte < 123)
    }

    /// All bytes are letters and the reserved bit is set (third byte uppercase).
    pub fn is_valid(&self) -> (r: bool)
        ensures
            r == type_is_valid(self@),
    {
        let mut i: usize = 0;
        while i < 4
            invariant
                0 <= i <= 4,
                forall|j: int| 0 <= j < i ==> is_letter(#[trigger] self.bytes@[j]),
            decreases 4 - i,
        {
            if !ChunkType::is_valid_byte(self.bytes[i]) {
                return false;
            }
            i += 1;
        }
        self.is_reserved_bit_valid()
    }

    /// Whether the byte at position `i` is uppercase.
    pub fn i_is_uppercase(&self, i: usize) -> (r: bool)
        requires
            i < 4,
        ensures
            r == is_upper(self@[i as int]),
    {
        let b = self.bytes[i];
        b > 64 && b < 91
    }

    /// Critical chunk: first byte uppercase.
    pub fn is_critical(&self) -> (r: bool)
        ensures
            r == is_upper(self@[0]),
    {
        self.i_is_uppercase(0)
    }

    /// Public chunk: second byte uppercase.
    pub fn is_public(&self) -> (r: bool)
        ensures
            r == is_upper(self@[1]),
    {
        self.i_is_uppercase(1)
    }

    /// Reserved bit valid: third byte uppercase.
    pub fn is_reserved_bit_valid(&self) -> (r: bool)
        ensures
            r == is_upper(self@[2]),
    {
        self.i_is_uppercase(2)
    }

    /// Safe to copy: fourth byte lowercase.
    pub fn is_safe_to_copy(&self) -> (r: bool)
        ensures
            r == !is_upper(self@[3]),
    {
        !self.i_is_uppercase(3)
    }

    /// The four characters of the type, as text.
    pub fn to_string(&self) -> (r: String)
        ensures
            valid_utf8(self@),
            r@ == decode_utf8(self@),
            valid_type_str(r@),
            ascii_bytes(r@) == self@,
    {
        proof {
            use_type_invariant(self);
            lemma_type_text_round_trip(self.bytes@);
        }
        let v: Vec<u8> = vec![self.bytes[0], self.bytes[1], self.bytes[2], self.bytes[3]];
        assert(v@ =~= self.bytes@);
        match string_from_utf8(v) {
            Some(s) => s,
            None => String::new(),
        }
    }
}

impl PartialEq for ChunkType {
    fn eq(&self, other: &ChunkType) -> (r: bool) {
        self.equals(other)
    }
}

impl vstd::std_specs::cmp::PartialEqSpecImpl for ChunkType {
    open spec fn obeys_eq_spec() -> bool {
        true
    }

    open spec fn eq_spec(&self, other: &ChunkType) -> bool {
        self@ == other@
    }
}

impl Eq for ChunkType {
}

impl TryFrom<[u8; 4]> for ChunkType {
    type Error = PngError;

    fn try_from(bytes: [u8; 4]) -> (r: Result<ChunkType, PngError>)
        ensures
            r is Ok <==> all_letters(bytes@),
            r matches Ok(t) ==> t@ == bytes@,
            r matches Err(e) ==> e == PngError::InvalidChunkTypeBytes,
    {
        ChunkType::from_bytes(bytes)
    }
}

impl vstd::std_specs::convert::TryFromSpecImpl<[u8; 4]> for ChunkType {
    open spec fn obeys_try_from_spec() -> bool {
        false
    }

    open spec fn try_from_spec(bytes: [u8; 4]) -> Result<ChunkType, PngError> {
        arbitrary()
    }
}

impl core::str::FromStr for ChunkType {
    type Err = PngError;

    fn from_str(s: &str) -> (r: Result<ChunkType, PngError>)
        ensures
            r is Ok <==> valid_type_str(s@),
            r matches Ok(t) ==> t@ == ascii_bytes(s@),
            match parse_type_str(s@) {
                Ok(b) => r matches Ok(t) && t@ == b,
                Err(e) => r matches Err(e2) && e2 == e,
            },
    {
        ChunkType::from_string(s)
    }
}

/// The text of a chunk type reads back as that type: decoding its four letter bytes gives four
/// ASCII letters whose bytes are the type's bytes.
pub proof fn lemma_type_text_round_trip(t: Seq<u8>)
    requires
        valid_type_bytes(t),
    ensures
        valid_utf8(t),
        valid_type_str(decode_utf8(t)),
        ascii_bytes(decode_utf8(t)) == t,
{
    assert forall|i: int| 0 <= i < t.len() implies #[trigger] t[i] < 128 by {
        assert(is_letter(t[i]));
    }
    lemma_ascii_utf8(t);
    let cs = decode_utf8(t);
    assert forall|i: int| 0 <= i < cs.len() implies (#[trigger] cs[i] as u8) == t[i] && '\0' <= cs[i]
        <= '\u{7f}' by {
        let x = t[i] as u32;
        assert(cs[i] == (x as char));
        assert(x < 128);
        assert(((x as char) as u32) == x);
    }
    assert(ascii_bytes(cs) =~= t);
}

} // verus!
