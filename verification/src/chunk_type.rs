//! The 4-byte identifier naming a record's kind.
//!
//! Each byte must be an ASCII letter; bit 5 of each byte carries one
//! semantic flag (critical, public, reserved, safe-to-copy).

use crate::error::Error;
use crate::wire::utf8_to_string;
use vstd::prelude::*;
use vstd::utf8::encode_utf8;

verus! {

/// Bit 5 of a type byte, the bit that distinguishes upper from lower case
/// and thereby carries the byte's semantic flag.
pub const FLAG_BIT: u8 = 0x20;

/// An ASCII letter, upper or lower case: the only bytes allowed in a chunk
/// type. The excluded range 91..=96 is exactly the gap between the
/// upper-case and lower-case letters.
pub open spec fn is_letter_byte(b: u8) -> bool {
    (65 <= b <= 90) || (97 <= b <= 122)
}

/// Four bytes form a well-formed chunk type exactly when each one is an
/// ASCII letter.
pub open spec fn wf_type_bytes(s: Seq<u8>) -> bool {
    s.len() == 4 && (forall|i: int| 0 <= i < 4 ==> is_letter_byte(#[trigger] s[i]))
}

/// A string names a chunk type exactly when its UTF-8 encoding is the
/// type's four bytes.
pub open spec fn name_matches(type_bytes: Seq<u8>, name: Seq<char>) -> bool {
    encode_utf8(name) == type_bytes
}

/// The 4-byte identifier of a record's kind. Immutable once constructed;
/// construction restricts every byte to an ASCII letter.
#[derive(Debug, Clone, PartialEq, Eq)]
pub struct ChunkType {
    bytes: [u8; 4],
}

impl View for ChunkType {
    type V = Seq<u8>;

    closed spec fn view(&self) -> Seq<u8> {
        self.bytes@
    }
}

impl ChunkType {
    /// All four bytes are ASCII letters.
    pub open spec fn wf(&self) -> bool {
        wf_type_bytes(self@)
    }

    /// Accepts exactly the 4-byte combinations drawn from `A`-`Z` and
    /// `a`-`z`; any byte outside those two ranges is rejected.
    pub fn try_from(bytes: [u8; 4]) -> (r: Result<ChunkType, Error>)
        ensures
            r is Ok <==> wf_type_bytes(bytes@),
            r matches Ok(t) ==> t@ == bytes@,
            r matches Err(e) ==> e == Error::InvalidChunkType,
    {
        let mut i: usize = 0;
        while i < 4
            invariant
                i <= 4,
                forall|j: int| 0 <= j < i ==> is_letter_byte(#[trigger] bytes@[j]),
            decreases 4 - i,
        {
            let b = bytes[i];
            if !(65 <= b && b <= 122) || (b > 90 && b < 97) {
                return Err(Error::InvalidChunkType);
            }
            i += 1;
        }
        Ok(ChunkType { bytes })
    }

    /// Accepts exactly the strings whose UTF-8 form is 4 letter bytes:
    /// 4 ASCII letters, nothing more and nothing less.
    pub fn from_str(s: &str) -> (r: Result<ChunkType, Error>)
        ensures
            r is Ok <==> wf_type_bytes(encode_utf8(s@)),
            r matches Ok(t) ==> name_matches(t@, s@),
            r matches Err(e) ==> e == Error::InvalidChunkType,
    {
        let sb = s.as_bytes();
        if sb.len() != 4 {
            return Err(Error::InvalidChunkType);
        }
        let arr = [sb[0], sb[1], sb[2], sb[3]];
        proof {
            assert(arr@ =~= sb@);
        }
        Self::try_from(arr)
    }

    /// The four raw bytes.
    pub fn bytes(&self) -> (r: [u8; 4])
        ensures
            r@ == self@,
    {
        self.bytes
    }

    /// The string form of the type: the four bytes read as ASCII.
    pub fn to_string(&self) -> (r: String)
        requires
            self.wf(),
        ensures
            name_matches(self@, r@),
    {
        broadcast use vstd::utf8::group_utf8_lib;

        let mut v: Vec<u8> = Vec::new();
        v.push(self.bytes[0]);
        v.push(self.bytes[1]);
        v.push(self.bytes[2]);
        v.push(self.bytes[3]);
        proof {
            assert(v@ =~= self@);
            assert forall|i: int| 0 <= i < 4 implies vstd::utf8::is_leading_byte_width_1(
                #[trigger] v@[i],
            ) by {
                assert(is_letter_byte(self@[i]));
            }
            assert(vstd::utf8::valid_utf8(v@.subrange(0, 0)));
            assert(vstd::utf8::partial_valid_utf8(v@, 0));
            vstd::utf8::partial_valid_utf8_extend_ascii_block(v@, 0, 4);
            assert(v@.subrange(0, 4) =~= v@);
            assert(vstd::utf8::valid_utf8(v@));
        }
        match utf8_to_string(v.as_slice()) {
            Some(s) => s,
            None => vstd::pervasive::unreached(),
        }
    }

    /// True exactly when `name`'s UTF-8 form is this type's four bytes.
    pub fn matches_name(&self, name: &str) -> (r: bool)
        requires
            self.wf(),
        ensures
            r == name_matches(self@, name@),
    {
        let sb = name.as_bytes();
        if sb.len() != 4 {
            return false;
        }
        let b = self.bytes();
        let r = sb[0] == b[0] && sb[1] == b[1] && sb[2] == b[2] && sb[3] == b[3];
        proof {
            if r {
                assert(encode_utf8(name@) =~= self@);
            } else {
                if encode_utf8(name@) == self@ {
                    assert(sb@[0] == b@[0] && sb@[1] == b@[1] && sb@[2] == b@[2] && sb@[3]
                        == b@[3]);
                    assert(false);
                }
            }
        }
        r
    }

    /// Overall validity for this format: the reserved bit must be clear.
    pub fn is_valid(&self) -> (r: bool)
        ensures
            r <==> self@[2] & FLAG_BIT == 0,
    {
        self.is_reserved_bit_valid()
    }

    /// Critical chunk: bit 5 of the first byte clear (upper-case letter).
    pub fn is_critical(&self) -> (r: bool)
        ensures
            r <==> self@[0] & FLAG_BIT == 0,
    {
        self.bytes[0] & FLAG_BIT == 0
    }

    /// Public chunk: bit 5 of the second byte clear.
    pub fn is_public(&self) -> (r: bool)
        ensures
            r <==> self@[1] & FLAG_BIT == 0,
    {
        self.bytes[1] & FLAG_BIT == 0
    }

    /// Reserved bit: bit 5 of the third byte must be clear for a
    /// well-formed chunk type of this format.
    pub fn is_reserved_bit_valid(&self) -> (r: bool)
        ensures
            r <==> self@[2] & FLAG_BIT == 0,
    {
        self.bytes[2] & FLAG_BIT == 0
    }

    /// Safe to copy: bit 5 of the fourth byte set.
    pub fn is_safe_to_copy(&self) -> (r: bool)
        ensures
            r <==> self@[3] & FLAG_BIT != 0,
    {
        self.bytes[3] & FLAG_BIT != 0
    }
}

} // verus!
