use bolt::packstream::marker::{Marker, MarkerError};

#[test]
fn singleton_markers_round_trip() {
    let singletons = [
        (Marker::Null, 0xC0),
        (Marker::Float64, 0xC1),
        (Marker::False, 0xC2),
        (Marker::True, 0xC3),
        (Marker::Int8, 0xC8),
        (Marker::Int16, 0xC9),
        (Marker::Int32, 0xCA),
        (Marker::Int64, 0xCB),
        (Marker::Bytes8, 0xCC),
        (Marker::Bytes16, 0xCD),
        (Marker::Bytes32, 0xCE),
        (Marker::String8, 0xD0),
        (Marker::String16, 0xD1),
        (Marker::String32, 0xD2),
        (Marker::List8, 0xD4),
        (Marker::List16, 0xD5),
        (Marker::List32, 0xD6),
        (Marker::Map8, 0xD8),
        (Marker::Map16, 0xD9),
        (Marker::Map32, 0xDA),
        (Marker::Struct8, 0xDC),
        (Marker::Struct16, 0xDD),
    ];
    for (marker, byte) in singletons {
        assert_eq!(
            marker.to_byte().unwrap(),
            byte,
            "{marker:?} should encode to 0x{byte:02X}"
        );
        assert_eq!(
            Marker::from_byte(byte).unwrap(),
            marker,
            "0x{byte:02X} should decode to {marker:?}"
        );
    }
}

#[test]
fn tiny_int_positive_boundary() {
    assert_eq!(Marker::from_byte(0x00).unwrap(), Marker::TinyInt(0));
    assert_eq!(Marker::from_byte(0x7F).unwrap(), Marker::TinyInt(127));
    assert_eq!(Marker::TinyInt(0).to_byte().unwrap(), 0x00);
    assert_eq!(Marker::TinyInt(127).to_byte().unwrap(), 0x7F);
}

#[test]
fn tiny_int_negative_boundary() {
    assert_eq!(Marker::from_byte(0xF0).unwrap(), Marker::TinyInt(-16));
    assert_eq!(Marker::from_byte(0xFF).unwrap(), Marker::TinyInt(-1));
    assert_eq!(Marker::TinyInt(-16).to_byte().unwrap(), 0xF0);
    assert_eq!(Marker::TinyInt(-1).to_byte().unwrap(), 0xFF);
}

#[test]
fn tiny_string_boundaries() {
    assert_eq!(Marker::from_byte(0x80).unwrap(), Marker::TinyString(0));
    assert_eq!(Marker::from_byte(0x8F).unwrap(), Marker::TinyString(15));
    assert_eq!(Marker::TinyString(0).to_byte().unwrap(), 0x80);
    assert_eq!(Marker::TinyString(15).to_byte().unwrap(), 0x8F);
}

#[test]
fn tiny_list_boundaries() {
    assert_eq!(Marker::from_byte(0x90).unwrap(), Marker::TinyList(0));
    assert_eq!(Marker::from_byte(0x9F).unwrap(), Marker::TinyList(15));
    assert_eq!(Marker::TinyList(0).to_byte().unwrap(), 0x90);
    assert_eq!(Marker::TinyList(15).to_byte().unwrap(), 0x9F);
}

#[test]
fn tiny_map_boundaries() {
    assert_eq!(Marker::from_byte(0xA0).unwrap(), Marker::TinyMap(0));
    assert_eq!(Marker::from_byte(0xAF).unwrap(), Marker::TinyMap(15));
    assert_eq!(Marker::TinyMap(0).to_byte().unwrap(), 0xA0);
    assert_eq!(Marker::TinyMap(15).to_byte().unwrap(), 0xAF);
}

#[test]
fn tiny_struct_boundaries() {
    assert_eq!(Marker::from_byte(0xB0).unwrap(), Marker::TinyStruct(0));
    assert_eq!(Marker::from_byte(0xBF).unwrap(), Marker::TinyStruct(15));
    assert_eq!(Marker::TinyStruct(0).to_byte().unwrap(), 0xB0);
    assert_eq!(Marker::TinyStruct(15).to_byte().unwrap(), 0xBF);
}

#[test]
fn invalid_reserved_bytes() {
    for byte in [0xC4, 0xC5, 0xC6, 0xC7] {
        assert_eq!(
            Marker::from_byte(byte),
            Err(MarkerError::InvalidByte(byte)),
            "0x{byte:02X} should be invalid"
        );
    }
}

#[test]
fn all_valid_bytes_round_trip() {
    for byte in 0x00u8..=0xFF {
        if let Ok(marker) = Marker::from_byte(byte) {
            assert_eq!(
                marker.to_byte().unwrap(),
                byte,
                "round-trip failed for 0x{byte:02X}"
            );
        }
    }
}

#[test]
fn invalid_marker_display() {
    let err = MarkerError::InvalidByte(0xC4);
    assert_eq!(err.message(), "invalid PackStream marker: 0xC4");
}

// --- out-of-range tests ---

#[test]
fn tiny_int_out_of_range() {
    assert_eq!(
        Marker::TinyInt(-17).to_byte(),
        Err(MarkerError::TinyIntOutOfRange(-17))
    );
    assert_eq!(
        Marker::TinyInt(i8::MIN).to_byte(),
        Err(MarkerError::TinyIntOutOfRange(i8::MIN))
    );
}

#[test]
fn tiny_string_out_of_range() {
    assert_eq!(
        Marker::TinyString(16).to_byte(),
        Err(MarkerError::TinySizeOutOfRange(16))
    );
}

#[test]
fn tiny_list_out_of_range() {
    assert_eq!(
        Marker::TinyList(16).to_byte(),
        Err(MarkerError::TinySizeOutOfRange(16))
    );
}

#[test]
fn tiny_map_out_of_range() {
    assert_eq!(
        Marker::TinyMap(16).to_byte(),
        Err(MarkerError::TinySizeOutOfRange(16))
    );
}

#[test]
fn tiny_struct_out_of_range() {
    assert_eq!(
        Marker::TinyStruct(16).to_byte(),
        Err(MarkerError::TinySizeOutOfRange(16))
    );
}
