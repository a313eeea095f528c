use vstd::prelude::*;
use vstd::string::StringSliceAdditionalSpecFns;
use crate::error::PngError;
use crate::text::{ascii_text, lemma_ascii_valid_utf8, utf8_to_string};

verus! {

pub open spec fn is_upper(b: u8) -> bool {
    65 <= b <= 90
}

pub open spec fn is_lower(b: u8) -> bool {
    97 <= b <= 122
}

pub open spec fn is_alpha(b: u8) -> bool {
    is_upper(b) || is_lower(b)
}

/// Four bytes, each an ASCII letter.
pub open spec fn valid_type_code(s: Seq<u8>) -> bool {
    s.len() == 4 && forall|i: int| 0 <= i < 4 ==> is_alpha(#[trigger] s[i])
}

/// The bits of a byte, most significant first.
pub fn byte_to_bits(byte: u8) -> (bits: [u8; 8])
    ensures
        forall|j: int| 0 <= j < 8 ==> #[trigger] bits@[j] == (byte >> ((7 - j) as u8)) & 1u8,
{
    let mut bits = [0u8; 8];
    let mut i: usize = 0;
    while i < 8
        invariant
            i <= 8,
            bits@.len() == 8,
            forall|j: int| 8 - i <= j < 8 ==> #[trigger] bits@[j] == (byte >> ((7 - j) as u8)) & 1u8,
        decreases 8 - i,
    {
        let cur_bit = (byte >> (i as u8)) & 1;
        bits[7 - i] = cur_bit;
        i = i + 1;
    }
    bits
}

fn byte_is_alpha(b: u8) -> (r: bool)
    ensures
        r == is_alpha(b),
{
    (65 <= b && b <= 90) || (97 <= b && b <= 122)
}

/// A chunk type code: four ASCII letters whose case carries the chunk's
/// property bits (ancillary, private, reserved, safe-to-copy).
#[derive(Debug, Clone, Copy, PartialEq, Eq, Structural)]
pub struct ChunkType {
    ancillary_byte: u8,
    private_byte: u8,
    reserved_byte: u8,
    safe_to_copy_byte: u8,
}

impl View for ChunkType {
    type V = Seq<u8>;

    closed spec fn view(&self) -> Seq<u8> {
        seq![self.ancillary_byte, self.private_byte, self.reserved_byte, self.safe_to_copy_byte]
    }
}

impl ChunkType {
    #[verifier::type_invariant]
    pub(crate) open spec fn inv(self) -> bool {
        valid_type_code(self@)
    }

    /// Builds a type code from four bytes, each of which must be a letter.
    pub fn construct(value: [u8; 4]) -> (r: Result<ChunkType, PngError>)
        ensures
            valid_type_code(value@) <==> r is Ok,
            r matches Ok(t) ==> t@ == value@,
            r matches Err(e) ==> e == PngError::InvalidTypeCode,
    {
        let mut x: usize = 0;
        while x < 4
            invariant
                x <= 4,
                value@.len() == 4,
                forall|j: int| 0 <= j < x ==> is_alpha(#[trigger] value@[j]),
            decreases 4 - x,
        {
            if !byte_is_alpha(value[x]) {
                return Err(PngError::InvalidTypeCode);
            }
            x = x + 1;
        }
        let t = ChunkType {
            ancillary_byte: value[0],
            private_byte: value[1],
            reserved_byte: value[2],
            safe_to_copy_byte: value[3],
        };
        assert(t@ =~= value@);
        Ok(t)
    }

    /// Reads a type code from the bytes of a four-byte string.
    pub fn parse(s: &str) -> (r: Result<ChunkType, PngError>)
        ensures
            valid_type_code(s.spec_bytes()) <==> r is Ok,
            r matches Ok(t) ==> t@ == s.spec_bytes(),
            r matches Err(e) ==> e == PngError::InvalidTypeCode,
    {
        let bytes = s.as_bytes();
        if bytes.len() != 4 {
            return Err(PngError::InvalidTypeCode);
        }
        let value: [u8; 4] = [bytes[0], bytes[1], bytes[2], bytes[3]];
        assert(value@ =~= bytes@);
        ChunkType::construct(value)
    }

    /// The four bytes of the code, in order.
    pub fn bytes(&self) -> (r: [u8; 4])
        ensures
            r@ == self@,
    {
        let r = [self.ancillary_byte, self.private_byte, self.reserved_byte, self.safe_to_copy_byte];
        assert(r@ =~= self@);
        r
    }

    /// Whether two codes hold the same four bytes.
    pub fn same_code(&self, other: &ChunkType) -> (r: bool)
        ensures
            r == (self@ == other@),
    {
        let r = self.ancillary_byte == other.ancillary_byte && self.private_byte
            == other.private_byte && self.reserved_byte == other.reserved_byte
            && self.safe_to_copy_byte == other.safe_to_copy_byte;
        proof {
            if self@ == other@ {
                assert(self@[0] == other@[0] && self@[1] == other@[1]);
                assert(self@[2] == other@[2] && self@[3] == other@[3]);
            }
        }
        r
    }

    /// All four bytes are letters and the reserved byte is upper case.
    pub fn is_valid(&self) -> (r: bool)
        ensures
            r == (valid_type_code(self@) && is_upper(self@[2])),
    {
        proof {
            use_type_invariant(self);
        }
        let bytes = self.bytes();
        let mut x: usize = 4;
        loop
            invariant
                0 < x <= 4,
                bytes@ == self@,
                forall|j: int| x <= j < 4 && j != 2 ==> is_alpha(#[trigger] bytes@[j]),
                x <= 2 ==> is_upper(bytes@[2]),
            decreases x,
        {
            x = x - 1;
            if x == 2 {
                if !(65 <= bytes[x] && bytes[x] <= 90) {
                    return false;
                }
            } else if !byte_is_alpha(bytes[x]) {
                return false;
            } else if x == 0 {
                return true;
            }
        }
    }

    /// Upper case first byte: a decoder must understand the chunk.
    pub fn is_critical(&self) -> (r: bool)
        ensures
            r == is_upper(self@[0]),
    {
        65 <= self.ancillary_byte && self.ancillary_byte <= 90
    }

    /// Upper case second byte: the code belongs to the public namespace.
    pub fn is_public(&self) -> (r: bool)
        ensures
            r == is_upper(self@[1]),
    {
        65 <= self.private_byte && self.private_byte <= 90
    }

    /// Upper case third byte: the code conforms to the reserved bit.
    pub fn is_reserved_bit_valid(&self) -> (r: bool)
        ensures
            r == is_upper(self@[2]),
    {
        65 <= self.reserved_byte && self.reserved_byte <= 90
    }

    /// Lower case fourth byte: an editor that does not know the chunk may copy it.
    pub fn is_safe_to_copy(&self) -> (r: bool)
        ensures
            r == is_lower(self@[3]),
    {
        97 <= self.safe_to_copy_byte && self.safe_to_copy_byte <= 122
    }

    /// The code as text: its four letters.
    pub fn to_string(&self) -> (r: String)
        ensures
            r@ == ascii_text(self@),
    {
        proof {
            use_type_invariant(self);
            lemma_ascii_valid_utf8(self@);
        }
        let bytes = self.bytes();
        let v: Vec<u8> = vec![bytes[0], bytes[1], bytes[2], bytes[3]];
        assert(v@ =~= self@);
        match utf8_to_string(v) {
            Some(s) => s,
            None => String::new(),
        }
    }
}

impl TryFrom<[u8; 4]> for ChunkType {
    type Error = PngError;

    fn try_from(value: [u8; 4]) -> Result<ChunkType, PngError> {
        let r = ChunkType::construct(value);
        proof {
            if let Ok(t) = r {
                assert(t@[0] == value@[0] && t@[1] == value@[1]);
                assert(t@[2] == value@[2] && t@[3] == value@[3]);
            }
        }
        r
    }
}

impl vstd::std_specs::convert::TryFromSpecImpl<[u8; 4]> for ChunkType {
    open spec fn obeys_try_from_spec() -> bool {
        true
    }

    closed spec fn try_from_spec(value: [u8; 4]) -> Result<ChunkType, PngError> {
        if valid_type_code(value@) {
            Ok(
                ChunkType {
                    ancillary_byte: value@[0],
                    private_byte: value@[1],
                    reserved_byte: value@[2],
                    safe_to_copy_byte: value@[3],
                },
            )
        } else {
            Err(PngError::InvalidTypeCode)
        }
    }
}

impl std::str::FromStr for ChunkType {
    type Err = PngError;

    fn from_str(s: &str) -> Result<ChunkType, PngError> {
        ChunkType::parse(s)
    }
}

} // verus!
