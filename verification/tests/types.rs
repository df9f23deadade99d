use bolt::packstream::types::{InvalidStructTag, StructTag};

#[test]
fn struct_tag_round_trip() {
    let variants = [
        StructTag::Node,
        StructTag::Relationship,
        StructTag::UnboundRelationship,
        StructTag::Path,
        StructTag::Point2D,
        StructTag::Point3D,
        StructTag::Date,
        StructTag::Time,
        StructTag::LocalTime,
        StructTag::DateTime,
        StructTag::DateTimeZoneId,
        StructTag::LocalDateTime,
        StructTag::Duration,
    ];
    for tag in variants {
        let byte = tag.as_byte();
        let recovered = StructTag::try_from(byte).unwrap();
        assert_eq!(
            tag, recovered,
            "round-trip failed for {tag:?} (0x{byte:02X})"
        );
    }
}

#[test]
fn struct_tag_specific_byte_values() {
    assert_eq!(StructTag::Node.as_byte(), 0x4E);
    assert_eq!(StructTag::Relationship.as_byte(), 0x52);
    assert_eq!(StructTag::UnboundRelationship.as_byte(), 0x72);
    assert_eq!(StructTag::Path.as_byte(), 0x50);
    assert_eq!(StructTag::Point2D.as_byte(), 0x58);
    assert_eq!(StructTag::Point3D.as_byte(), 0x59);
    assert_eq!(StructTag::Date.as_byte(), 0x44);
    assert_eq!(StructTag::Time.as_byte(), 0x54);
    assert_eq!(StructTag::LocalTime.as_byte(), 0x74);
    assert_eq!(StructTag::DateTime.as_byte(), 0x49);
    assert_eq!(StructTag::DateTimeZoneId.as_byte(), 0x69);
    assert_eq!(StructTag::LocalDateTime.as_byte(), 0x64);
    assert_eq!(StructTag::Duration.as_byte(), 0x45);
}

#[test]
fn struct_tag_invalid_byte() {
    assert_eq!(StructTag::try_from(0x00), Err(InvalidStructTag(0x00)));
    assert_eq!(StructTag::try_from(0xFF), Err(InvalidStructTag(0xFF)));
    assert_eq!(StructTag::try_from(0x66), Err(InvalidStructTag(0x66)));
}

#[test]
fn struct_tag_as_byte() {
    assert_eq!(StructTag::Node.as_byte(), 0x4E);
    assert_eq!(StructTag::Duration.as_byte(), 0x45);
}

#[test]
fn invalid_struct_tag_display() {
    let err = InvalidStructTag(0xAB);
    assert_eq!(err.message(), "unknown struct tag: 0xAB");
}
