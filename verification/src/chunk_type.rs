//! The validated 4-byte PNG chunk type code and its property bits.
use crate::error::PngError;
use crate::text::bytes_to_text;
use crate::text::lemma_ascii_bytes_utf8;
use vstd::prelude::*;
use vstd::string::StringSliceAdditionalSpecFns;

verus! {

/// A byte in the ASCII letter ranges `A`-`Z` (65-90) or `a`-`z` (97-122).
pub open spec fn spec_is_letter(b: u8) -> bool {
    (65 <= b && b <= 90) || (97 <= b && b <= 122)
}

/// Exactly four bytes, each an ASCII letter: the shape of every legal type code.
pub open spec fn spec_letters(s: Seq<u8>) -> bool {
    s.len() == 4 && (forall|i: int| 0 <= i < 4 ==> spec_is_letter(#[trigger] s[i]))
}

/// Bit 5 (value `0x20`) of a byte: the PNG property bit that upper and lower
/// case ASCII letters differ in.
pub open spec fn spec_fifth_bit(b: u8) -> bool {
    (b >> 5u8) & 1u8 != 0
}

/// A 4-byte PNG chunk type code. Every value of this type holds four ASCII
/// letters; the reserved property bit may still be set, which `is_valid`
/// reports separately.
#[derive(Debug, Clone, Copy, PartialEq, Eq, Structural)]
pub struct ChunkType(u8, u8, u8, u8);

impl View for ChunkType {
    type V = Seq<u8>;

    closed spec fn view(&self) -> Seq<u8> {
        seq![self.0, self.1, self.2, self.3]
    }
}

impl ChunkType {
    /// Every chunk type code consists of four ASCII letters; nothing else can
    /// be constructed.
    #[verifier::type_invariant]
    pub open spec fn well_formed(self) -> bool {
        spec_letters(self@)
    }

    fn is_valid_b(val: u8) -> (r: bool)
        ensures
            r == spec_is_letter(val),
    {
        (65 <= val && val <= 90) || (97 <= val && val <= 122)
    }

    /// Gets the fifth bit of the byte as a bool.
    fn get_fifth_bit(val: u8) -> (r: bool)
        ensures
            r == spec_fifth_bit(val),
    {
        (val >> 5u8) & 1u8 != 0
    }

    /// Checks whether all four bytes are ASCII letters.
    fn has_valid_bytes(val: [u8; 4]) -> (r: bool)
        ensures
            r == spec_letters(val@),
    {
        let r = Self::is_valid_b(val[0]) && Self::is_valid_b(val[1]) && Self::is_valid_b(val[2])
            && Self::is_valid_b(val[3]);
        proof {
            if r {
                assert forall|i: int| 0 <= i < 4 implies spec_is_letter(#[trigger] val@[i]) by {
                    assert(i == 0 || i == 1 || i == 2 || i == 3);
                }
            }
        }
        r
    }

    /// Builds a type code from four raw bytes; fails with `InvalidChunkType`
    /// if any byte is outside the ASCII letter ranges. The reserved property
    /// bit is not checked here: a code like `Rust` is constructible but not
    /// `is_valid`.
    pub fn try_from(value: [u8; 4]) -> (r: Result<ChunkType, PngError>)
        ensures
            r is Ok <==> spec_letters(value@),
            r matches Ok(ct) ==> ct@ == value@,
            r is Err ==> r == Err::<ChunkType, PngError>(PngError::InvalidChunkType),
    {
        if Self::has_valid_bytes(value) {
            let ct = ChunkType(value[0], value[1], value[2], value[3]);
            proof {
                assert(ct@ =~= value@);
            }
            Ok(ct)
        } else {
            Err(PngError::InvalidChunkType)
        }
    }

    /// Builds a type code from text; fails with `InvalidChunkType` unless the
    /// string is exactly 4 bytes, all ASCII letters.
    pub fn from_str(s: &str) -> (r: Result<ChunkType, PngError>)
        ensures
            r is Ok <==> spec_letters(s.spec_bytes()),
            r matches Ok(ct) ==> ct@ == s.spec_bytes(),
            r is Err ==> r == Err::<ChunkType, PngError>(PngError::InvalidChunkType),
    {
        let bytes: &[u8] = s.as_bytes();
        if bytes.len() != 4 {
            return Err(PngError::InvalidChunkType);
        }
        let owned: [u8; 4] = [bytes[0], bytes[1], bytes[2], bytes[3]];
        proof {
            assert(owned@ =~= s.spec_bytes());
        }
        ChunkType::try_from(owned)
    }

    /// Returns the four raw bytes of the type code.
    pub fn bytes(&self) -> (r: [u8; 4])
        ensures
            r@ == self@,
    {
        let r = [self.0, self.1, self.2, self.3];
        proof {
            assert(r@ =~= self@);
        }
        r
    }

    /// The text form of the type code: its four bytes read as characters.
    /// Always succeeds, because the bytes are guaranteed ASCII letters.
    pub fn to_text(&self) -> (r: String)
        ensures
            r@ == crate::text::spec_bytes_as_chars(self@),
    {
        let b = self.bytes();
        proof {
            use_type_invariant(self);
            lemma_ascii_bytes_utf8(self@);
        }
        match bytes_to_text(b.as_slice()) {
            Some(s) => s,
            None => vstd::pervasive::unreached(),
        }
    }

    /// A type code is fully spec-valid when its bytes are ASCII letters (true
    /// by construction) and the reserved bit is clear.
    pub fn is_valid(&self) -> (r: bool)
        ensures
            r == (spec_letters(self@) && !spec_fifth_bit(self@[2])),
    {
        Self::has_valid_bytes(self.bytes()) && self.is_reserved_bit_valid()
    }

    /// Critical (bit 5 of the first byte clear) or ancillary.
    pub fn is_critical(&self) -> (r: bool)
        ensures
            r == !spec_fifth_bit(self@[0]),
    {
        !Self::get_fifth_bit(self.0)
    }

    /// Public (bit 5 of the second byte clear) or private.
    pub fn is_public(&self) -> (r: bool)
        ensures
            r == !spec_fifth_bit(self@[1]),
    {
        !Self::get_fifth_bit(self.1)
    }

    /// The reserved bit (bit 5 of the third byte) must be clear for a
    /// well-formed code.
    pub fn is_reserved_bit_valid(&self) -> (r: bool)
        ensures
            r == !spec_fifth_bit(self@[2]),
    {
        !Self::get_fifth_bit(self.2)
    }

    /// Safe to copy (bit 5 of the fourth byte set) or unsafe to copy.
    pub fn is_safe_to_copy(&self) -> (r: bool)
        ensures
            r == spec_fifth_bit(self@[3]),
    {
        Self::get_fifth_bit(self.3)
    }
}

} // verus!
