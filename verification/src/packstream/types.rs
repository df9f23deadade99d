//! Type tags of PackStream values and tags of Bolt structures.
use vstd::prelude::*;
use vstd::std_specs::convert::TryFromSpecImpl;
use vstd::string::StringExecFns;

use crate::text::{hex, push_hex};

verus! {

/// PackStream value type tags (for type inspection).
#[derive(Debug, Clone, Copy, PartialEq, Eq, Structural)]
pub enum PackStreamType {
    Null,
    Boolean,
    Integer,
    Float,
    String,
    Bytes,
    List,
    /// A PackStream map. (`Map` is the name of a mathematical type here.)
    Dictionary,
    Struct,
}

/// Bolt structure tags for graph entities and temporal/spatial types.
///
/// The byte of a tag on the wire is what [`as_byte`](Self::as_byte) returns. A
/// cast with `as` is not: it gives the place of the variant in this list.
#[derive(Debug, Clone, Copy, PartialEq, Eq, Structural)]
pub enum StructTag {
    Node,
    Relationship,
    UnboundRelationship,
    Path,
    Point2D,
    Point3D,
    Date,
    Time,
    LocalTime,
    DateTime,
    DateTimeZoneId,
    LocalDateTime,
    Duration,
}

/// Error returned when a byte does not correspond to a known struct tag.
#[derive(Debug, Clone, Copy, PartialEq, Eq, Structural)]
pub struct InvalidStructTag(pub u8);

impl InvalidStructTag {
    /// The text that describes the error.
    pub open spec fn text(self) -> Seq<char> {
        "unknown struct tag: 0x"@ + hex(self.0)
    }

    /// Describe the error to a person.
    pub fn message(&self) -> (s: String)
        ensures
            s@ == self.text(),
    {
        let mut s = String::new();
        s.append("unknown struct tag: 0x");
        push_hex(&mut s, self.0);
        s
    }
}

impl StructTag {
    /// The byte of a tag, an ASCII letter.
    pub open spec fn code(self) -> u8 {
        match self {
            StructTag::Node => 0x4E,
            StructTag::Relationship => 0x52,
            StructTag::UnboundRelationship => 0x72,
            StructTag::Path => 0x50,
            StructTag::Point2D => 0x58,
            StructTag::Point3D => 0x59,
            StructTag::Date => 0x44,
            StructTag::Time => 0x54,
            StructTag::LocalTime => 0x74,
            StructTag::DateTime => 0x49,
            StructTag::DateTimeZoneId => 0x69,
            StructTag::LocalDateTime => 0x64,
            StructTag::Duration => 0x45,
        }
    }

    /// The tag that a byte stands for, if it stands for one.
    pub open spec fn of_code(b: u8) -> Option<StructTag> {
        match b {
            0x4E => Some(StructTag::Node),
            0x52 => Some(StructTag::Relationship),
            0x72 => Some(StructTag::UnboundRelationship),
            0x50 => Some(StructTag::Path),
            0x58 => Some(StructTag::Point2D),
            0x59 => Some(StructTag::Point3D),
            0x44 => Some(StructTag::Date),
            0x54 => Some(StructTag::Time),
            0x74 => Some(StructTag::LocalTime),
            0x49 => Some(StructTag::DateTime),
            0x69 => Some(StructTag::DateTimeZoneId),
            0x64 => Some(StructTag::LocalDateTime),
            0x45 => Some(StructTag::Duration),
            _ => None,
        }
    }

    /// The byte of the tag on the wire.
    pub fn as_byte(self) -> (b: u8)
        ensures
            b == self.code(),
    {
        match self {
            StructTag::Node => 0x4E,
            StructTag::Relationship => 0x52,
            StructTag::UnboundRelationship => 0x72,
            StructTag::Path => 0x50,
            StructTag::Point2D => 0x58,
            StructTag::Point3D => 0x59,
            StructTag::Date => 0x44,
            StructTag::Time => 0x54,
            StructTag::LocalTime => 0x74,
            StructTag::DateTime => 0x49,
            StructTag::DateTimeZoneId => 0x69,
            StructTag::LocalDateTime => 0x64,
            StructTag::Duration => 0x45,
        }
    }
}

impl TryFromSpecImpl<u8> for StructTag {
    open spec fn obeys_try_from_spec() -> bool {
        true
    }

    open spec fn try_from_spec(value: u8) -> Result<StructTag, InvalidStructTag> {
        match StructTag::of_code(value) {
            Some(t) => Ok(t),
            None => Err(InvalidStructTag(value)),
        }
    }
}

impl TryFrom<u8> for StructTag {
    type Error = InvalidStructTag;

    fn try_from(value: u8) -> (r: Result<Self, Self::Error>) {
        match value {
            0x4E => Ok(StructTag::Node),
            0x52 => Ok(StructTag::Relationship),
            0x72 => Ok(StructTag::UnboundRelationship),
            0x50 => Ok(StructTag::Path),
            0x58 => Ok(StructTag::Point2D),
            0x59 => Ok(StructTag::Point3D),
            0x44 => Ok(StructTag::Date),
            0x54 => Ok(StructTag::Time),
            0x74 => Ok(StructTag::LocalTime),
            0x49 => Ok(StructTag::DateTime),
            0x69 => Ok(StructTag::DateTimeZoneId),
            0x64 => Ok(StructTag::LocalDateTime),
            0x45 => Ok(StructTag::Duration),
            _ => Err(InvalidStructTag(value)),
        }
    }
}

/// Every tag is the one that its byte stands for.
pub proof fn law_tag_of_code(t: StructTag)
    ensures
        StructTag::of_code(t.code()) == Some(t),
{
}

/// A byte that stands for a tag is the byte of that tag.
pub proof fn law_code_of_tag(b: u8)
    ensures
        StructTag::of_code(b) matches Some(t) ==> t.code() == b,
{
}

/// The byte of each tag.
pub proof fn law_tag_bytes(t: StructTag)
    ensures
        t is Node ==> t.code() == 0x4E,
        t is Relationship ==> t.code() == 0x52,
        t is UnboundRelationship ==> t.code() == 0x72,
        t is Path ==> t.code() == 0x50,
        t is Point2D ==> t.code() == 0x58,
        t is Point3D ==> t.code() == 0x59,
        t is Date ==> t.code() == 0x44,
        t is Time ==> t.code() == 0x54,
        t is LocalTime ==> t.code() == 0x74,
        t is DateTime ==> t.code() == 0x49,
        t is DateTimeZoneId ==> t.code() == 0x69,
        t is LocalDateTime ==> t.code() == 0x64,
        t is Duration ==> t.code() == 0x45,
{
}

/// What the error says.
pub proof fn law_tag_error_text(b: u8)
    ensures
        InvalidStructTag(b).text() == "unknown struct tag: 0x"@ + hex(b),
{
}

} // verus!
