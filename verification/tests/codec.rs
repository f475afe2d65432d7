use rosmsg::message_parsing::{
    decode_primitive, is_primitive_type, parse_message, parse_primivate_data, primitive_kind,
    PrimitiveKind,
};
use rosmsg::message_size::size;
use rosmsg::value::{DecodeError, DecodeErrorKind, DecodedValue};

fn failure(kind: DecodeErrorKind, offset: usize) -> DecodeError {
    DecodeError { kind, field_path: String::new(), offset }
}

#[test]
fn widths() {
    assert_eq!(size("bool"), Some(1));
    assert_eq!(size("int8"), Some(1));
    assert_eq!(size("uint8"), Some(1));
    assert_eq!(size("int16"), Some(2));
    assert_eq!(size("uint16"), Some(2));
    assert_eq!(size("int32"), Some(4));
    assert_eq!(size("uint32"), Some(4));
    assert_eq!(size("float32"), Some(4));
    assert_eq!(size("time"), Some(4));
    assert_eq!(size("duration"), Some(4));
    assert_eq!(size("int64"), Some(8));
    assert_eq!(size("uint64"), Some(8));
    assert_eq!(size("float64"), Some(8));
    assert_eq!(size("string"), None);
    assert_eq!(size("geometry_msgs/Vector3"), None);
    assert_eq!(size(""), None);
    assert_eq!(size("Bool"), None);
}

#[test]
fn built_in_names() {
    for name in [
        "bool", "int8", "uint8", "int16", "uint16", "int32", "uint32", "int64", "uint64",
        "float32", "float64", "time", "duration", "string",
    ] {
        assert!(is_primitive_type(name), "{}", name);
    }
    assert!(!is_primitive_type("float"));
    assert!(!is_primitive_type("int8 "));
    assert!(!is_primitive_type("std_msgs/Header"));
    assert_eq!(primitive_kind("string"), Some(PrimitiveKind::Text));
    assert_eq!(primitive_kind("duration"), Some(PrimitiveKind::Duration));
    assert_eq!(primitive_kind("byte"), None);
}

#[test]
fn the_one_field_message() {
    assert_eq!(parse_message("float32 data"), Some("float32"));
    assert_eq!(parse_message("float64 data"), None);
    assert_eq!(parse_message(""), None);
}

#[test]
fn bool_is_false_only_for_zero() {
    assert_eq!(parse_primivate_data("bool", &[0]), Ok(DecodedValue::Bool(false)));
    assert_eq!(parse_primivate_data("bool", &[1]), Ok(DecodedValue::Bool(true)));
    assert_eq!(parse_primivate_data("bool", &[0x80]), Ok(DecodedValue::Bool(true)));
}

#[test]
fn little_endian_integers() {
    assert_eq!(parse_primivate_data("uint16", &[0x34, 0x12]), Ok(DecodedValue::UInt16(0x1234)));
    assert_eq!(parse_primivate_data("int16", &[0x00, 0x80]), Ok(DecodedValue::Int16(i16::MIN)));
    assert_eq!(parse_primivate_data("int16", &[0xFF, 0x7F]), Ok(DecodedValue::Int16(i16::MAX)));
    assert_eq!(
        parse_primivate_data("uint32", &[0x78, 0x56, 0x34, 0x12]),
        Ok(DecodedValue::UInt32(0x1234_5678))
    );
    assert_eq!(
        parse_primivate_data("int32", &[0xFE, 0xFF, 0xFF, 0xFF]),
        Ok(DecodedValue::Int32(-2))
    );
    assert_eq!(
        parse_primivate_data("uint64", &[8, 7, 6, 5, 4, 3, 2, 1]),
        Ok(DecodedValue::UInt64(0x0102_0304_0506_0708))
    );
    assert_eq!(
        parse_primivate_data("int64", &[0xFF; 8]),
        Ok(DecodedValue::Int64(-1))
    );
    assert_eq!(parse_primivate_data("int8", &[0x7F]), Ok(DecodedValue::Int8(127)));
    assert_eq!(parse_primivate_data("int8", &[0x80]), Ok(DecodedValue::Int8(-128)));
    assert_eq!(parse_primivate_data("uint8", &[0x80]), Ok(DecodedValue::UInt8(128)));
    assert_eq!(
        parse_primivate_data("time", &[0x01, 0x00, 0x00, 0x80]),
        Ok(DecodedValue::Time(0x8000_0001))
    );
    assert_eq!(
        parse_primivate_data("duration", &[0x01, 0x00, 0x00, 0x80]),
        Ok(DecodedValue::Duration(i32::MIN + 1))
    );
}

#[test]
fn floats_keep_their_bits() {
    let r = parse_primivate_data("float32", &[0x00, 0x00, 0x80, 0x3F]).unwrap();
    match r {
        DecodedValue::Float32(bits) => assert_eq!(f32::from_bits(bits), 1.0),
        other => panic!("{:?}", other),
    }
    let r = parse_primivate_data("float64", &(-2.5f64).to_le_bytes()).unwrap();
    match r {
        DecodedValue::Float64(bits) => assert_eq!(f64::from_bits(bits), -2.5),
        other => panic!("{:?}", other),
    }
}

#[test]
fn text_with_its_length() {
    assert_eq!(
        parse_primivate_data("string", &[2, 0, 0, 0, b'o', b'k']),
        Ok(DecodedValue::Text("ok".to_string()))
    );
    assert_eq!(
        parse_primivate_data("string", &[3, 0, 0, 0, b'o', b'k']),
        Err(failure(DecodeErrorKind::InvalidLengthPrefix { declared_count: 3 }, 0))
    );
    assert_eq!(
        parse_primivate_data("string", &[2, 0, 0]),
        Err(failure(DecodeErrorKind::BufferUnderrun { needed: 4, available: 3 }, 0))
    );
    assert_eq!(
        parse_primivate_data("string", &[2, 0, 0, 0, 0xFF, 0xFE]),
        Err(failure(DecodeErrorKind::InvalidUtf8, 4))
    );
}

#[test]
fn too_few_and_too_many_bytes() {
    assert_eq!(
        parse_primivate_data("uint32", &[1, 2, 3]),
        Err(failure(DecodeErrorKind::BufferUnderrun { needed: 4, available: 3 }, 0))
    );
    assert_eq!(
        parse_primivate_data("bool", &[]),
        Err(failure(DecodeErrorKind::BufferUnderrun { needed: 1, available: 0 }, 0))
    );
    assert_eq!(
        parse_primivate_data("uint16", &[1, 2, 3]),
        Err(failure(DecodeErrorKind::TrailingBytes { remaining: 1 }, 2))
    );
    assert_eq!(
        parse_primivate_data("p/Q", &[1]),
        Err(failure(DecodeErrorKind::UnresolvedType { missing: "p/Q".to_string() }, 0))
    );
}

#[test]
fn primitive_in_the_middle_of_a_buffer() {
    let data = [0xAA, 0x34, 0x12, 0xBB];
    assert_eq!(
        decode_primitive(PrimitiveKind::UInt16, &data, 1),
        Ok((DecodedValue::UInt16(0x1234), 2))
    );
    assert_eq!(
        decode_primitive(PrimitiveKind::UInt16, &data, 3),
        Err(failure(DecodeErrorKind::BufferUnderrun { needed: 2, available: 1 }, 3))
    );
    assert_eq!(
        decode_primitive(PrimitiveKind::UInt16, &data, 9),
        Err(failure(DecodeErrorKind::BufferUnderrun { needed: 2, available: 0 }, 9))
    );
}

#[test]
fn failure_paths_are_joined_by_dots() {
    let e = DecodeError::new(DecodeErrorKind::InvalidUtf8, 3);
    assert_eq!(e.field_path, "");
    let e = e.within("inner");
    assert_eq!(e.field_path, "inner");
    let e = e.within("outer");
    assert_eq!(e.field_path, "outer.inner");
    assert_eq!(e.offset, 3);
    assert_eq!(e.kind, DecodeErrorKind::InvalidUtf8);
}
