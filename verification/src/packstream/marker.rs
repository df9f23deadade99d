//! Marker bytes: the first byte of every PackStream value.
use vstd::prelude::*;
use vstd::string::StringExecFns;

use crate::text::{dec, hex, push_dec, push_hex, push_signed_dec, signed_dec};

verus! {

/// PackStream marker: parsed representation of a marker byte.
#[derive(Debug, Clone, Copy, PartialEq, Eq, Structural)]
pub enum Marker {
    Null,
    True,
    False,
    Float64,
    /// -16..=127, the value is the byte.
    TinyInt(i8),
    Int8,
    Int16,
    Int32,
    Int64,
    /// Size 0..=15.
    TinyString(u8),
    String8,
    String16,
    String32,
    /// Size 0..=15.
    TinyList(u8),
    List8,
    List16,
    List32,
    /// Size 0..=15.
    TinyMap(u8),
    Map8,
    Map16,
    Map32,
    Bytes8,
    Bytes16,
    Bytes32,
    /// Size 0..=15.
    TinyStruct(u8),
    Struct8,
    Struct16,
}

/// Errors related to marker construction, encoding, or decoding.
#[derive(Debug, Clone, Copy, PartialEq, Eq, Structural)]
pub enum MarkerError {
    /// The byte does not correspond to any valid PackStream marker.
    InvalidByte(u8),
    /// TinyInt value is outside the valid range (-16..=127).
    TinyIntOutOfRange(i8),
    /// Tiny container/string size exceeds 0x0F.
    TinySizeOutOfRange(u8),
}

impl MarkerError {
    /// The text that describes the error.
    pub open spec fn text(self) -> Seq<char> {
        match self {
            MarkerError::InvalidByte(b) => "invalid PackStream marker: 0x"@ + hex(b),
            MarkerError::TinyIntOutOfRange(v) => "TinyInt value "@ + signed_dec(v as int)
                + " out of range (-16..=127)"@,
            MarkerError::TinySizeOutOfRange(n) => "tiny size "@ + dec(n as nat)
                + " out of range (0..=15)"@,
        }
    }

    /// Describe the error to a person.
    pub fn message(&self) -> (s: String)
        ensures
            s@ == self.text(),
    {
        let mut s = String::new();
        match self {
            MarkerError::InvalidByte(b) => {
                s.append("invalid PackStream marker: 0x");
                push_hex(&mut s, *b);
            },
            MarkerError::TinyIntOutOfRange(v) => {
                s.append("TinyInt value ");
                push_signed_dec(&mut s, *v);
                s.append(" out of range (-16..=127)");
            },
            MarkerError::TinySizeOutOfRange(n) => {
                s.append("tiny size ");
                push_dec(&mut s, *n as usize);
                s.append(" out of range (0..=15)");
            },
        }
        s
    }
}

impl Marker {
    /// Why the marker has no byte, if it has none: the value of a `Tiny*`
    /// marker does not fit in the marker byte.
    pub open spec fn fault(self) -> Option<MarkerError> {
        match self {
            Marker::TinyInt(v) => if v < -16 {
                Some(MarkerError::TinyIntOutOfRange(v))
            } else {
                None
            },
            Marker::TinyString(n)
            | Marker::TinyList(n)
            | Marker::TinyMap(n)
            | Marker::TinyStruct(n) => if n > 15 {
                Some(MarkerError::TinySizeOutOfRange(n))
            } else {
                None
            },
            _ => None,
        }
    }

    /// The marker has a byte.
    pub open spec fn valid(self) -> bool {
        self.fault() is None
    }

    /// The byte of a valid marker.
    pub open spec fn code(self) -> u8 {
        match self {
            Marker::Null => 0xC0,
            Marker::True => 0xC3,
            Marker::False => 0xC2,
            Marker::Float64 => 0xC1,
            Marker::TinyInt(v) => (v as int % 256) as u8,
            Marker::Int8 => 0xC8,
            Marker::Int16 => 0xC9,
            Marker::Int32 => 0xCA,
            Marker::Int64 => 0xCB,
            Marker::TinyString(n) => (0x80 + n) as u8,
            Marker::String8 => 0xD0,
            Marker::String16 => 0xD1,
            Marker::String32 => 0xD2,
            Marker::TinyList(n) => (0x90 + n) as u8,
            Marker::List8 => 0xD4,
            Marker::List16 => 0xD5,
            Marker::List32 => 0xD6,
            Marker::TinyMap(n) => (0xA0 + n) as u8,
            Marker::Map8 => 0xD8,
            Marker::Map16 => 0xD9,
            Marker::Map32 => 0xDA,
            Marker::Bytes8 => 0xCC,
            Marker::Bytes16 => 0xCD,
            Marker::Bytes32 => 0xCE,
            Marker::TinyStruct(n) => (0xB0 + n) as u8,
            Marker::Struct8 => 0xDC,
            Marker::Struct16 => 0xDD,
        }
    }

    /// The marker that a byte stands for, if it stands for one.
    pub open spec fn of_code(b: u8) -> Option<Marker> {
        if b <= 0x7F {
            Some(Marker::TinyInt(b as i8))
        } else if b <= 0x8F {
            Some(Marker::TinyString((b - 0x80) as u8))
        } else if b <= 0x9F {
            Some(Marker::TinyList((b - 0x90) as u8))
        } else if b <= 0xAF {
            Some(Marker::TinyMap((b - 0xA0) as u8))
        } else if b <= 0xBF {
            Some(Marker::TinyStruct((b - 0xB0) as u8))
        } else if b >= 0xF0 {
            Some(Marker::TinyInt((b - 0x100) as i8))
        } else {
            match b {
                0xC0 => Some(Marker::Null),
                0xC1 => Some(Marker::Float64),
                0xC2 => Some(Marker::False),
                0xC3 => Some(Marker::True),
                0xC8 => Some(Marker::Int8),
                0xC9 => Some(Marker::Int16),
                0xCA => Some(Marker::Int32),
                0xCB => Some(Marker::Int64),
                0xCC => Some(Marker::Bytes8),
                0xCD => Some(Marker::Bytes16),
                0xCE => Some(Marker::Bytes32),
                0xD0 => Some(Marker::String8),
                0xD1 => Some(Marker::String16),
                0xD2 => Some(Marker::String32),
                0xD4 => Some(Marker::List8),
                0xD5 => Some(Marker::List16),
                0xD6 => Some(Marker::List32),
                0xD8 => Some(Marker::Map8),
                0xD9 => Some(Marker::Map16),
                0xDA => Some(Marker::Map32),
                0xDC => Some(Marker::Struct8),
                0xDD => Some(Marker::Struct16),
                _ => None,
            }
        }
    }

    /// Parse a raw byte into a `Marker`.
    pub fn from_byte(b: u8) -> (r: Result<Marker, MarkerError>)
        ensures
            r == (match Marker::of_code(b) {
                Some(m) => Ok::<Marker, MarkerError>(m),
                None => Err(MarkerError::InvalidByte(b)),
            }),
    {
        assert(b >= 0x80 ==> (b as i8) as int == b - 0x100) by (bit_vector);
        assert(b & 0x0F == b % 16) by (bit_vector);
        match b {
            0x00..=0x7F => Ok(Marker::TinyInt(b as i8)),
            0x80..=0x8F => Ok(Marker::TinyString(b & 0x0F)),
            0x90..=0x9F => Ok(Marker::TinyList(b & 0x0F)),
            0xA0..=0xAF => Ok(Marker::TinyMap(b & 0x0F)),
            0xB0..=0xBF => Ok(Marker::TinyStruct(b & 0x0F)),
            0xC0 => Ok(Marker::Null),
            0xC1 => Ok(Marker::Float64),
            0xC2 => Ok(Marker::False),
            0xC3 => Ok(Marker::True),
            0xC8 => Ok(Marker::Int8),
            0xC9 => Ok(Marker::Int16),
            0xCA => Ok(Marker::Int32),
            0xCB => Ok(Marker::Int64),
            0xCC => Ok(Marker::Bytes8),
            0xCD => Ok(Marker::Bytes16),
            0xCE => Ok(Marker::Bytes32),
            0xD0 => Ok(Marker::String8),
            0xD1 => Ok(Marker::String16),
            0xD2 => Ok(Marker::String32),
            0xD4 => Ok(Marker::List8),
            0xD5 => Ok(Marker::List16),
            0xD6 => Ok(Marker::List32),
            0xD8 => Ok(Marker::Map8),
            0xD9 => Ok(Marker::Map16),
            0xDA => Ok(Marker::Map32),
            0xDC => Ok(Marker::Struct8),
            0xDD => Ok(Marker::Struct16),
            0xF0..=0xFF => Ok(Marker::TinyInt(b as i8)),
            _ => Err(MarkerError::InvalidByte(b)),
        }
    }

    /// Encode this marker back to its byte representation.
    ///
    /// Returns an error if a `Tiny*` variant holds a value outside its valid range.
    pub fn to_byte(&self) -> (r: Result<u8, MarkerError>)
        ensures
            r == (match self.fault() {
                None => Ok::<u8, MarkerError>(self.code()),
                Some(e) => Err(e),
            }),
    {
        match self {
            Marker::Null => Ok(0xC0),
            Marker::True => Ok(0xC3),
            Marker::False => Ok(0xC2),
            Marker::Float64 => Ok(0xC1),
            Marker::TinyInt(v) => {
                let v: i8 = *v;
                if v < -16 {
                    return Err(MarkerError::TinyIntOutOfRange(v));
                }
                assert((v as u8) as int == if v < 0 { v + 0x100 } else { v as int })
                    by (bit_vector);
                Ok(v as u8)
            },
            Marker::Int8 => Ok(0xC8),
            Marker::Int16 => Ok(0xC9),
            Marker::Int32 => Ok(0xCA),
            Marker::Int64 => Ok(0xCB),
            Marker::TinyString(size) => {
                let n: u8 = *size;
                if n > 0x0F {
                    return Err(MarkerError::TinySizeOutOfRange(n));
                }
                assert(n <= 0x0F ==> 0x80 | n == 0x80 + n) by (bit_vector);
                Ok(0x80 | n)
            },
            Marker::String8 => Ok(0xD0),
            Marker::String16 => Ok(0xD1),
            Marker::String32 => Ok(0xD2),
            Marker::TinyList(size) => {
                let n: u8 = *size;
                if n > 0x0F {
                    return Err(MarkerError::TinySizeOutOfRange(n));
                }
                assert(n <= 0x0F ==> 0x90 | n == 0x90 + n) by (bit_vector);
                Ok(0x90 | n)
            },
            Marker::List8 => Ok(0xD4),
            Marker::List16 => Ok(0xD5),
            Marker::List32 => Ok(0xD6),
            Marker::TinyMap(size) => {
                let n: u8 = *size;
                if n > 0x0F {
                    return Err(MarkerError::TinySizeOutOfRange(n));
                }
                assert(n <= 0x0F ==> 0xA0 | n == 0xA0 + n) by (bit_vector);
                Ok(0xA0 | n)
            },
            Marker::Map8 => Ok(0xD8),
            Marker::Map16 => Ok(0xD9),
            Marker::Map32 => Ok(0xDA),
            Marker::Bytes8 => Ok(0xCC),
            Marker::Bytes16 => Ok(0xCD),
            Marker::Bytes32 => Ok(0xCE),
            Marker::TinyStruct(size) => {
                let n: u8 = *size;
                if n > 0x0F {
                    return Err(MarkerError::TinySizeOutOfRange(n));
                }
                assert(n <= 0x0F ==> 0xB0 | n == 0xB0 + n) by (bit_vector);
                Ok(0xB0 | n)
            },
            Marker::Struct8 => Ok(0xDC),
            Marker::Struct16 => Ok(0xDD),
        }
    }

    /// Encode a marker that is known to be valid, such as a singleton marker or
    /// a `Tiny*` variant that was made from a validated value.
    pub fn byte(self) -> (b: u8)
        requires
            self.valid(),
        ensures
            b == self.code(),
    {
        self.to_byte().unwrap()
    }
}

/// Every valid marker is the one that its byte stands for.
pub proof fn law_marker_of_code(m: Marker)
    requires
        m.valid(),
    ensures
        Marker::of_code(m.code()) == Some(m),
{
}

/// A byte that stands for a marker is the byte of that marker, which is valid.
pub proof fn law_code_of_marker(b: u8)
    ensures
        Marker::of_code(b) matches Some(m) ==> m.valid() && m.code() == b,
{
}

/// A byte is refused only where no valid marker has it.
pub proof fn law_refused_byte(b: u8)
    ensures
        Marker::of_code(b) is None <==> forall|m: Marker| #[trigger] m.valid() ==> m.code() != b,
{
    assert forall|m: Marker| Marker::of_code(b) is None && #[trigger] m.valid() implies m.code()
        != b by {
        law_marker_of_code(m);
    }
    if let Some(m) = Marker::of_code(b) {
        law_code_of_marker(b);
        assert(m.valid());
    }
}

/// The byte of each marker. A tiny integer is its own byte, in two's complement;
/// the other tiny markers have their size in the low half of the byte.
pub proof fn law_marker_bytes(m: Marker)
    ensures
        m is Null ==> m.code() == 0xC0,
        m is Float64 ==> m.code() == 0xC1,
        m is False ==> m.code() == 0xC2,
        m is True ==> m.code() == 0xC3,
        m is Int8 ==> m.code() == 0xC8,
        m is Int16 ==> m.code() == 0xC9,
        m is Int32 ==> m.code() == 0xCA,
        m is Int64 ==> m.code() == 0xCB,
        m is Bytes8 ==> m.code() == 0xCC,
        m is Bytes16 ==> m.code() == 0xCD,
        m is Bytes32 ==> m.code() == 0xCE,
        m is String8 ==> m.code() == 0xD0,
        m is String16 ==> m.code() == 0xD1,
        m is String32 ==> m.code() == 0xD2,
        m is List8 ==> m.code() == 0xD4,
        m is List16 ==> m.code() == 0xD5,
        m is List32 ==> m.code() == 0xD6,
        m is Map8 ==> m.code() == 0xD8,
        m is Map16 ==> m.code() == 0xD9,
        m is Map32 ==> m.code() == 0xDA,
        m is Struct8 ==> m.code() == 0xDC,
        m is Struct16 ==> m.code() == 0xDD,
        m matches Marker::TinyInt(v) ==> (0 <= v ==> m.code() == v) && (-16 <= v < 0 ==> m.code()
            == 0x100 + v),
        m matches Marker::TinyString(n) ==> (n < 16 ==> m.code() == 0x80 + n),
        m matches Marker::TinyList(n) ==> (n < 16 ==> m.code() == 0x90 + n),
        m matches Marker::TinyMap(n) ==> (n < 16 ==> m.code() == 0xA0 + n),
        m matches Marker::TinyStruct(n) ==> (n < 16 ==> m.code() == 0xB0 + n),
{
}

/// A marker is refused where its value does not fit in the byte, and nowhere else:
/// a tiny integer below -16, and any other tiny size above 15. The error tells the
/// value.
pub proof fn law_marker_faults(m: Marker)
    ensures
        m matches Marker::TinyInt(v) ==> m.fault() == if v < -16 {
            Some(MarkerError::TinyIntOutOfRange(v))
        } else {
            None
        },
        m matches Marker::TinyString(n) ==> m.fault() == if n > 15 {
            Some(MarkerError::TinySizeOutOfRange(n))
        } else {
            None
        },
        m matches Marker::TinyList(n) ==> m.fault() == if n > 15 {
            Some(MarkerError::TinySizeOutOfRange(n))
        } else {
            None
        },
        m matches Marker::TinyMap(n) ==> m.fault() == if n > 15 {
            Some(MarkerError::TinySizeOutOfRange(n))
        } else {
            None
        },
        m matches Marker::TinyStruct(n) ==> m.fault() == if n > 15 {
            Some(MarkerError::TinySizeOutOfRange(n))
        } else {
            None
        },
        !(m is TinyInt || m is TinyString || m is TinyList || m is TinyMap || m is TinyStruct)
            ==> m.fault() is None,
{
}

/// What the errors say.
pub proof fn law_marker_error_text(b: u8, v: i8)
    ensures
        MarkerError::InvalidByte(b).text() == "invalid PackStream marker: 0x"@ + hex(b),
        MarkerError::TinyIntOutOfRange(v).text() == "TinyInt value "@ + signed_dec(v as int)
            + " out of range (-16..=127)"@,
        MarkerError::TinySizeOutOfRange(b).text() == "tiny size "@ + dec(b as nat)
            + " out of range (0..=15)"@,
{
}

} // verus!
