use crate::error::PngError;
use vstd::prelude::*;
use vstd::utf8::{decode_utf8, encode_utf8, valid_utf8};

verus! {

broadcast use vstd::utf8::group_utf8_lib;

/// Whether a code point is an ASCII letter, `A`-`Z` or `a`-`z`.
pub open spec fn is_letter(x: int) -> bool {
    (65 <= x <= 90) || (97 <= x <= 122)
}

/// Whether a code point is an uppercase ASCII letter.
pub open spec fn is_upper(x: int) -> bool {
    65 <= x <= 90
}

/// Whether a code point is a lowercase ASCII letter.
pub open spec fn is_lower(x: int) -> bool {
    97 <= x <= 122
}

/// Whether every byte of `s` is an ASCII letter.
pub open spec fn all_letters(s: Seq<u8>) -> bool {
    forall|i: int| 0 <= i < s.len() ==> is_letter(#[trigger] s[i] as int)
}

/// Whether every character of `s` is an ASCII letter.
pub open spec fn all_letter_chars(s: Seq<char>) -> bool {
    forall|i: int| 0 <= i < s.len() ==> is_letter(#[trigger] s[i] as int)
}

/// The characters that the bytes of a chunk type stand for.
pub open spec fn text_of(bytes: Seq<u8>) -> Seq<char> {
    Seq::new(bytes.len(), |i: int| bytes[i] as char)
}

/// A four-byte chunk type. The case of each letter carries one property bit.
#[derive(Debug, Clone, Copy, PartialEq, Eq, Structural)]
pub struct ChunkType {
    pub ancillary: u8,
    pub private: u8,
    pub reserved: u8,
    pub safe_to_copy: u8,
}

impl View for ChunkType {
    type V = Seq<u8>;

    open spec fn view(&self) -> Seq<u8> {
        seq![self.ancillary, self.private, self.reserved, self.safe_to_copy]
    }
}

/// The chunk type whose four bytes are `s`.
pub open spec fn type_of(s: Seq<u8>) -> ChunkType {
    ChunkType { ancillary: s[0], private: s[1], reserved: s[2], safe_to_copy: s[3] }
}

fn is_letter_byte(b: u8) -> (r: bool)
    ensures
        r == is_letter(b as int),
{
    (65 <= b && b <= 90) || (97 <= b && b <= 122)
}

impl ChunkType {
    /// A chunk type is a value only when all four bytes are ASCII letters.
    pub open spec fn wf(self) -> bool {
        all_letters(self@)
    }

    /// The four characters of the type.
    pub open spec fn text(self) -> Seq<char> {
        text_of(self@)
    }

    /// Builds a chunk type from its four bytes; each must be an ASCII letter.
    pub fn from_bytes(c: [u8; 4]) -> (r: Result<ChunkType, PngError>)
        ensures
            r is Ok <==> all_letters(c@),
            r matches Ok(t) ==> t@ == c@ && t.wf(),
            r matches Err(e) ==> e == PngError::InvalidTypeCode,
    {
        let a = c[0];
        let p = c[1];
        let s = c[2];
        let k = c[3];
        if is_letter_byte(a) && is_letter_byte(p) && is_letter_byte(s) && is_letter_byte(k) {
            let t = ChunkType { ancillary: a, private: p, reserved: s, safe_to_copy: k };
            assert(t@ =~= c@);
            Ok(t)
        } else {
            assert(!all_letters(c@)) by {
                if !is_letter(a as int) {
                    assert(!is_letter(c@[0] as int));
                } else if !is_letter(p as int) {
                    assert(!is_letter(c@[1] as int));
                } else if !is_letter(s as int) {
                    assert(!is_letter(c@[2] as int));
                } else {
                    assert(!is_letter(c@[3] as int));
                }
            }
            Err(PngError::InvalidTypeCode)
        }
    }
}


/// Relies on `String::from_utf8`: it succeeds exactly on valid UTF-8, and the
/// string then holds the characters that the bytes encode.
#[verifier::external_body]
pub(crate) fn string_from_utf8(v: Vec<u8>) -> (r: Option<String>)
    ensures
        r is Some <==> valid_utf8(v@),
        r matches Some(s) ==> s@ == decode_utf8(v@),
{
    String::from_utf8(v).ok()
}

/// Whether every byte of `s` is ASCII.
pub open spec fn all_ascii(s: Seq<u8>) -> bool {
    forall|i: int| 0 <= i < s.len() ==> #[trigger] s[i] < 128
}

/// ASCII bytes are valid UTF-8 and decode to the characters they stand for.
pub proof fn lemma_ascii_utf8(bytes: Seq<u8>)
    requires
        all_ascii(bytes),
    ensures
        valid_utf8(bytes),
        decode_utf8(bytes) == text_of(bytes),
{
    let chars = text_of(bytes);
    assert(vstd::utf8::is_ascii_chars(chars));
    assert(encode_utf8(chars) =~= bytes);
    vstd::utf8::encode_utf8_decode_utf8(chars);
}

/// Encoding ASCII letters as UTF-8 gives their bytes back, and decoding those
/// bytes gives the letters.
proof fn lemma_letters_utf8(bytes: Seq<u8>)
    requires
        all_letters(bytes),
    ensures
        valid_utf8(bytes),
        decode_utf8(bytes) == text_of(bytes),
{
    let chars = text_of(bytes);
    assert(vstd::utf8::is_ascii_chars(chars));
    assert(encode_utf8(chars) =~= bytes);
    vstd::utf8::encode_utf8_decode_utf8(chars);
}

impl ChunkType {
    /// Builds a chunk type from a string of exactly four ASCII letters.
    pub fn from_text(s: &str) -> (r: Result<ChunkType, PngError>)
        ensures
            s@.len() != 4 ==> r == Err::<ChunkType, PngError>(PngError::WrongLength),
            s@.len() == 4 && !all_letter_chars(s@) ==> r == Err::<ChunkType, PngError>(
                PngError::InvalidTypeCode,
            ),
            r is Ok <==> s@.len() == 4 && all_letter_chars(s@),
            r matches Ok(t) ==> t.text() == s@ && t.wf(),
            r matches Ok(t) ==> forall|i: int| 0 <= i < 4 ==> #[trigger] t@[i] as int == s@[i] as int,
    {
        if s.unicode_len() != 4 {
            return Err(PngError::WrongLength);
        }
        let mut c: [u8; 4] = [0u8; 4];
        let mut i: usize = 0;
        while i < 4
            invariant
                0 <= i <= 4,
                s@.len() == 4,
                forall|j: int| 0 <= j < i ==> is_letter(#[trigger] s@[j] as int) && c@[j] as int
                    == s@[j] as int,
            decreases 4 - i,
        {
            let x = s.get_char(i) as u32;
            if !((65 <= x && x <= 90) || (97 <= x && x <= 122)) {
                return Err(PngError::InvalidTypeCode);
            }
            c[i] = x as u8;
            i += 1;
        }
        let r = ChunkType::from_bytes(c);
        assert forall|j: int| 0 <= j < 4 implies is_letter(#[trigger] c@[j] as int) by {
            assert(is_letter(s@[j] as int));
        }
        match r {
            Ok(t) => {
                assert(t.text() =~= s@) by {
                    assert forall|j: int| 0 <= j < 4 implies t.text()[j] == s@[j] by {
                        assert(c@[j] as int == s@[j] as int);
                    }
                }
                Ok(t)
            },
            Err(e) => Err(e),
        }
    }

    /// The four bytes of the type.
    pub fn bytes(&self) -> (r: [u8; 4])
        ensures
            r@ == self@,
    {
        let r = [self.ancillary, self.private, self.reserved, self.safe_to_copy];
        assert(r@ =~= self@);
        r
    }

    /// Whether the type conforms to the PNG rules: four letters, with an
    /// uppercase third letter.
    pub fn is_valid(&self) -> (r: bool)
        ensures
            r == (self.wf() && is_upper(self.reserved as int)),
    {
        is_letter_byte(self.ancillary) && is_letter_byte(self.private) && (65 <= self.reserved
            && self.reserved <= 90) && is_letter_byte(self.safe_to_copy)
    }

    /// Critical chunks have an uppercase first letter.
    pub fn is_critical(&self) -> (r: bool)
        ensures
            r == is_upper(self.ancillary as int),
    {
        65 <= self.ancillary && self.ancillary <= 90
    }

    /// Public chunks have an uppercase second letter.
    pub fn is_public(&self) -> (r: bool)
        ensures
            r == is_upper(self.private as int),
    {
        65 <= self.private && self.private <= 90
    }

    /// The third letter must be uppercase.
    pub fn is_reserved_bit_valid(&self) -> (r: bool)
        ensures
            r == is_upper(self.reserved as int),
    {
        65 <= self.reserved && self.reserved <= 90
    }

    /// Safe-to-copy chunks have a lowercase fourth letter.
    pub fn is_safe_to_copy(&self) -> (r: bool)
        ensures
            r == is_lower(self.safe_to_copy as int),
    {
        97 <= self.safe_to_copy && self.safe_to_copy <= 122
    }

    /// The four bytes at the start of `v`, which must be exactly four long.
    pub fn convert_to_fixed_slice(v: &[u8]) -> (r: [u8; 4])
        requires
            v@.len() == 4,
        ensures
            r@ == v@,
    {
        let r = [v[0], v[1], v[2], v[3]];
        assert(r@ =~= v@);
        r
    }

    /// The four letters of the type as a string.
    pub fn to_string(&self) -> (r: String)
        requires
            self.wf(),
        ensures
            r@ == self.text(),
    {
        let b = self.bytes();
        let v: Vec<u8> = vec![b[0], b[1], b[2], b[3]];
        assert(v@ =~= self@);
        proof {
            lemma_letters_utf8(v@);
        }
        match string_from_utf8(v) {
            Some(s) => s,
            None => String::new(),
        }
    }
}

/// Two chunk types that read the same are the same.
pub proof fn lemma_text_injective(a: ChunkType, b: ChunkType)
    requires
        a.text() == b.text(),
    ensures
        a == b,
{
    assert forall|i: int| 0 <= i < 4 implies a@[i] == b@[i] by {
        assert(a.text()[i] == b.text()[i]);
        assert(a.text()[i] as int == a@[i] as int);
        assert(b.text()[i] as int == b@[i] as int);
    }
    assert(a@[0] == b@[0] && a@[1] == b@[1] && a@[2] == b@[2] && a@[3] == b@[3]);
}

/// The text of a valid chunk type is four ASCII letters.
pub proof fn lemma_text_letters(t: ChunkType)
    requires
        t.wf(),
    ensures
        t.text().len() == 4,
        all_letter_chars(t.text()),
{
    assert forall|i: int| 0 <= i < 4 implies is_letter(#[trigger] t.text()[i] as int) by {
        assert(is_letter(t@[i] as int));
    }
}

impl TryFrom<[u8; 4]> for ChunkType {
    type Error = PngError;

    fn try_from(c: [u8; 4]) -> Result<ChunkType, PngError> {
        ChunkType::from_bytes(c)
    }
}

impl vstd::std_specs::convert::TryFromSpecImpl<[u8; 4]> for ChunkType {
    open spec fn obeys_try_from_spec() -> bool {
        true
    }

    open spec fn try_from_spec(c: [u8; 4]) -> Result<ChunkType, PngError> {
        if all_letters(c@) {
            Ok(type_of(c@))
        } else {
            Err(PngError::InvalidTypeCode)
        }
    }
}

impl std::str::FromStr for ChunkType {
    type Err = PngError;

    fn from_str(s: &str) -> Result<ChunkType, PngError> {
        ChunkType::from_text(s)
    }
}

} // verus!
