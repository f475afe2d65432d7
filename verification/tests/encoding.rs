use rosmsg::encoding::encode_primitive;
use rosmsg::message_parsing::{decode_primitive, PrimitiveKind};
use rosmsg::value::DecodedValue;

fn round_trip(kind: PrimitiveKind, value: DecodedValue) {
    let bytes = encode_primitive(&value).unwrap();
    let len = bytes.len();
    assert_eq!(decode_primitive(kind, &bytes, 0), Ok((value, len)));
}

#[test]
fn encoded_bytes() {
    assert_eq!(encode_primitive(&DecodedValue::Bool(true)), Some(vec![1]));
    assert_eq!(encode_primitive(&DecodedValue::Bool(false)), Some(vec![0]));
    assert_eq!(encode_primitive(&DecodedValue::Int8(-1)), Some(vec![0xFF]));
    assert_eq!(encode_primitive(&DecodedValue::Int8(-128)), Some(vec![0x80]));
    assert_eq!(encode_primitive(&DecodedValue::UInt8(200)), Some(vec![200]));
    assert_eq!(encode_primitive(&DecodedValue::Int16(-2)), Some(vec![0xFE, 0xFF]));
    assert_eq!(encode_primitive(&DecodedValue::UInt16(0x1234)), Some(vec![0x34, 0x12]));
    assert_eq!(encode_primitive(&DecodedValue::Int32(-2)), Some(vec![0xFE, 0xFF, 0xFF, 0xFF]));
    assert_eq!(
        encode_primitive(&DecodedValue::UInt32(0x1234_5678)),
        Some(vec![0x78, 0x56, 0x34, 0x12])
    );
    assert_eq!(encode_primitive(&DecodedValue::Int64(i64::MIN)), Some(vec![0, 0, 0, 0, 0, 0, 0, 0x80]));
    assert_eq!(
        encode_primitive(&DecodedValue::UInt64(0x0102_0304_0506_0708)),
        Some(vec![8, 7, 6, 5, 4, 3, 2, 1])
    );
    assert_eq!(
        encode_primitive(&DecodedValue::Float32(1.0f32.to_bits())),
        Some(vec![0x00, 0x00, 0x80, 0x3F])
    );
    assert_eq!(
        encode_primitive(&DecodedValue::Float64(1.0f64.to_bits())),
        Some(1.0f64.to_le_bytes().to_vec())
    );
    assert_eq!(encode_primitive(&DecodedValue::Time(1)), Some(vec![1, 0, 0, 0]));
    assert_eq!(encode_primitive(&DecodedValue::Duration(-1)), Some(vec![0xFF; 4]));
    assert_eq!(
        encode_primitive(&DecodedValue::Text("hello".to_string())),
        Some(vec![5, 0, 0, 0, b'h', b'e', b'l', b'l', b'o'])
    );
    assert_eq!(encode_primitive(&DecodedValue::Text(String::new())), Some(vec![0, 0, 0, 0]));
}

#[test]
fn composites_and_sequences_have_no_primitive_encoding() {
    assert_eq!(encode_primitive(&DecodedValue::Composite(vec![])), None);
    assert_eq!(encode_primitive(&DecodedValue::Sequence(vec![DecodedValue::Bool(true)])), None);
}

#[test]
fn encode_then_decode() {
    round_trip(PrimitiveKind::Bool, DecodedValue::Bool(true));
    round_trip(PrimitiveKind::Bool, DecodedValue::Bool(false));
    for x in [i8::MIN, -1, 0, 1, i8::MAX] {
        round_trip(PrimitiveKind::Int8, DecodedValue::Int8(x));
    }
    for x in [0, 1, 127, 128, u8::MAX] {
        round_trip(PrimitiveKind::UInt8, DecodedValue::UInt8(x));
    }
    for x in [i16::MIN, -300, -1, 0, 1, 300, i16::MAX] {
        round_trip(PrimitiveKind::Int16, DecodedValue::Int16(x));
    }
    for x in [0, 255, 256, u16::MAX] {
        round_trip(PrimitiveKind::UInt16, DecodedValue::UInt16(x));
    }
    for x in [i32::MIN, -70_000, -1, 0, 70_000, i32::MAX] {
        round_trip(PrimitiveKind::Int32, DecodedValue::Int32(x));
        round_trip(PrimitiveKind::Duration, DecodedValue::Duration(x));
    }
    for x in [0, 65_536, 0x8000_0000, u32::MAX] {
        round_trip(PrimitiveKind::UInt32, DecodedValue::UInt32(x));
        round_trip(PrimitiveKind::Time, DecodedValue::Time(x));
        round_trip(PrimitiveKind::Float32, DecodedValue::Float32(x));
    }
    for x in [i64::MIN, -1, 0, 1 << 40, i64::MAX] {
        round_trip(PrimitiveKind::Int64, DecodedValue::Int64(x));
    }
    for x in [0, 1 << 63, u64::MAX] {
        round_trip(PrimitiveKind::UInt64, DecodedValue::UInt64(x));
        round_trip(PrimitiveKind::Float64, DecodedValue::Float64(x));
    }
    round_trip(PrimitiveKind::Float64, DecodedValue::Float64((-2.5f64).to_bits()));
    for text in ["", "a", "gr\u{f6}\u{df}e", "\u{1f600} and more"] {
        round_trip(PrimitiveKind::Text, DecodedValue::Text(text.to_string()));
    }
}
