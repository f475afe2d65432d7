use rosmsg::decoder::{decode, decode_prefix};
use rosmsg::message_parser::{parse_message_definition, Field, Repeated};
use rosmsg::registry::TypeRegistry;
use rosmsg::schema::{MessageSchema, NestedType, SchemaError, UnresolvedReference};
use rosmsg::value::{DecodeError, DecodeErrorKind, DecodedValue};

const SEPARATOR: &str =
    "================================================================================";

fn registry(definition: &str) -> TypeRegistry {
    TypeRegistry::new(parse_message_definition(definition).unwrap()).unwrap()
}

fn named(name: &str, value: DecodedValue) -> (String, DecodedValue) {
    (name.to_string(), value)
}

fn float32(value: &DecodedValue) -> f32 {
    match value {
        DecodedValue::Float32(bits) => f32::from_bits(*bits),
        other => panic!("no float32: {:?}", other),
    }
}

fn float64(value: &DecodedValue) -> f64 {
    match value {
        DecodedValue::Float64(bits) => f64::from_bits(*bits),
        other => panic!("no float64: {:?}", other),
    }
}

fn entries(value: &DecodedValue) -> &Vec<(String, DecodedValue)> {
    match value {
        DecodedValue::Composite(entries) => entries,
        other => panic!("no composite: {:?}", other),
    }
}

fn failure(kind: DecodeErrorKind, path: &str, offset: usize) -> DecodeError {
    DecodeError { kind, field_path: path.to_string(), offset }
}

#[test]
fn one_float32() {
    let reg = registry("float32 data");
    let value = decode(&reg, &[0x00, 0x00, 0x80, 0x3F]).unwrap();
    let fields = entries(&value);
    assert_eq!(fields.len(), 1);
    assert_eq!(fields[0].0, "data");
    assert_eq!(float32(&fields[0].1), 1.0);
    assert_eq!(value, DecodedValue::Composite(vec![named("data", DecodedValue::Float32(0x3F80_0000))]));
}

#[test]
fn nested_vector() {
    let text = format!(
        "geometry_msgs/Vector3 linear\n{}\nMSG: geometry_msgs/Vector3\nfloat64 x\nfloat64 y\nfloat64 z\n",
        SEPARATOR
    );
    let reg = registry(&text);
    let mut payload = Vec::new();
    payload.extend_from_slice(&1.0f64.to_le_bytes());
    payload.extend_from_slice(&2.0f64.to_le_bytes());
    payload.extend_from_slice(&3.0f64.to_le_bytes());
    assert_eq!(payload.len(), 24);
    let value = decode(&reg, &payload).unwrap();
    let root = entries(&value);
    assert_eq!(root.len(), 1);
    assert_eq!(root[0].0, "linear");
    let linear = entries(&root[0].1);
    assert_eq!(linear.len(), 3);
    assert_eq!((linear[0].0.as_str(), float64(&linear[0].1)), ("x", 1.0));
    assert_eq!((linear[1].0.as_str(), float64(&linear[1].1)), ("y", 2.0));
    assert_eq!((linear[2].0.as_str(), float64(&linear[2].1)), ("z", 3.0));
}

#[test]
fn variable_array() {
    let reg = registry("int32[] values");
    let payload = [3, 0, 0, 0, 10, 0, 0, 0, 20, 0, 0, 0, 30, 0, 0, 0];
    assert_eq!(
        decode(&reg, &payload),
        Ok(DecodedValue::Composite(vec![named(
            "values",
            DecodedValue::Sequence(vec![
                DecodedValue::Int32(10),
                DecodedValue::Int32(20),
                DecodedValue::Int32(30),
            ])
        )]))
    );
}

#[test]
fn variable_array_count_beyond_payload() {
    let reg = registry("int32[] values");
    let payload = [5, 0, 0, 0, 10, 0, 0, 0, 20, 0, 0, 0, 30, 0, 0, 0];
    assert_eq!(
        decode(&reg, &payload),
        Err(failure(DecodeErrorKind::BufferUnderrun { needed: 4, available: 0 }, "values", 16))
    );
}

#[test]
fn variable_array_without_count() {
    let reg = registry("int32[] values");
    assert_eq!(
        decode(&reg, &[1, 0]),
        Err(failure(DecodeErrorKind::BufferUnderrun { needed: 4, available: 2 }, "values", 0))
    );
}

#[test]
fn text_field() {
    let reg = registry("string name");
    let payload = [5, 0, 0, 0, b'h', b'e', b'l', b'l', b'o'];
    assert_eq!(
        decode(&reg, &payload),
        Ok(DecodedValue::Composite(vec![named("name", DecodedValue::Text("hello".to_string()))]))
    );
}

#[test]
fn text_length_beyond_payload() {
    let reg = registry("string name");
    let payload = [6, 0, 0, 0, b'h', b'e', b'l', b'l', b'o'];
    assert_eq!(
        decode(&reg, &payload),
        Err(failure(DecodeErrorKind::InvalidLengthPrefix { declared_count: 6 }, "name", 0))
    );
    let payload = [0xFF, 0xFF, 0xFF, 0xFF];
    assert_eq!(
        decode(&reg, &payload),
        Err(failure(DecodeErrorKind::InvalidLengthPrefix { declared_count: u32::MAX }, "name", 0))
    );
}

#[test]
fn text_that_is_no_utf8() {
    let reg = registry("uint8 tag\nstring name");
    let payload = [7, 2, 0, 0, 0, 0xC3, 0x28];
    assert_eq!(decode(&reg, &payload), Err(failure(DecodeErrorKind::InvalidUtf8, "name", 5)));
}

#[test]
fn text_beyond_ascii() {
    let reg = registry("string name");
    let text = "gr\u{f6}\u{df}e \u{1f600}";
    let mut payload = (text.len() as u32).to_le_bytes().to_vec();
    payload.extend_from_slice(text.as_bytes());
    assert_eq!(
        decode(&reg, &payload),
        Ok(DecodedValue::Composite(vec![named("name", DecodedValue::Text(text.to_string()))]))
    );
}

#[test]
fn empty_text() {
    let reg = registry("string name");
    assert_eq!(
        decode(&reg, &[0, 0, 0, 0]),
        Ok(DecodedValue::Composite(vec![named("name", DecodedValue::Text(String::new()))]))
    );
}

#[test]
fn trailing_bytes_are_an_error() {
    let reg = registry("uint16 a");
    assert_eq!(
        decode(&reg, &[1, 2, 3, 4, 5]),
        Err(failure(DecodeErrorKind::TrailingBytes { remaining: 3 }, "", 2))
    );
    assert_eq!(
        decode_prefix(&reg, &[1, 2, 3, 4, 5]),
        Ok((DecodedValue::Composite(vec![named("a", DecodedValue::UInt16(0x0201))]), 2))
    );
}

#[test]
fn underrun_names_the_field_and_the_place() {
    let text = format!(
        "uint8 tag\np/Pair[2] pairs\n{}\nMSG: p/Pair\nuint16 left\nuint32 right\n",
        SEPARATOR
    );
    let reg = registry(&text);
    let payload = [9, 1, 0, 2, 0, 0, 0, 3, 0, 4, 0];
    assert_eq!(
        decode(&reg, &payload),
        Err(failure(DecodeErrorKind::BufferUnderrun { needed: 4, available: 2 }, "pairs.right", 9))
    );
    let payload = [9, 1, 0, 2, 0, 0, 0, 3, 0, 4, 0, 0, 0];
    assert_eq!(
        decode(&reg, &payload),
        Ok(DecodedValue::Composite(vec![
            named("tag", DecodedValue::UInt8(9)),
            named(
                "pairs",
                DecodedValue::Sequence(vec![
                    DecodedValue::Composite(vec![
                        named("left", DecodedValue::UInt16(1)),
                        named("right", DecodedValue::UInt32(2)),
                    ]),
                    DecodedValue::Composite(vec![
                        named("left", DecodedValue::UInt16(3)),
                        named("right", DecodedValue::UInt32(4)),
                    ]),
                ])
            ),
        ]))
    );
}

#[test]
fn fixed_array_of_none() {
    let reg = registry("int32[0] nothing\nuint8 tag");
    assert_eq!(
        decode(&reg, &[7]),
        Ok(DecodedValue::Composite(vec![
            named("nothing", DecodedValue::Sequence(vec![])),
            named("tag", DecodedValue::UInt8(7)),
        ]))
    );
}

#[test]
fn fixed_array_of_one_is_a_sequence() {
    let reg = registry("int8[1] one");
    assert_eq!(
        decode(&reg, &[0xFF]),
        Ok(DecodedValue::Composite(vec![named(
            "one",
            DecodedValue::Sequence(vec![DecodedValue::Int8(-1)])
        )]))
    );
}

#[test]
fn array_of_texts() {
    let reg = registry("string[] names");
    let payload = [2, 0, 0, 0, 1, 0, 0, 0, b'a', 2, 0, 0, 0, b'b', b'c'];
    assert_eq!(
        decode(&reg, &payload),
        Ok(DecodedValue::Composite(vec![named(
            "names",
            DecodedValue::Sequence(vec![
                DecodedValue::Text("a".to_string()),
                DecodedValue::Text("bc".to_string()),
            ])
        )]))
    );
}

#[test]
fn every_fixed_width_kind() {
    let reg = registry(
        "bool b\nint8 i8\nuint8 u8\nint16 i16\nuint16 u16\nint32 i32\nuint32 u32\nint64 i64\nuint64 u64\nfloat32 f32\nfloat64 f64\ntime t\nduration d",
    );
    let mut payload = vec![2u8, 0x80, 0xFE];
    payload.extend_from_slice(&(-2i16).to_le_bytes());
    payload.extend_from_slice(&0xBEEFu16.to_le_bytes());
    payload.extend_from_slice(&(-70_000i32).to_le_bytes());
    payload.extend_from_slice(&0xDEAD_BEEFu32.to_le_bytes());
    payload.extend_from_slice(&i64::MIN.to_le_bytes());
    payload.extend_from_slice(&0x0102_0304_0506_0708u64.to_le_bytes());
    payload.extend_from_slice(&(-0.5f32).to_le_bytes());
    payload.extend_from_slice(&6.25f64.to_le_bytes());
    payload.extend_from_slice(&1_700_000_000u32.to_le_bytes());
    payload.extend_from_slice(&(-5i32).to_le_bytes());
    assert_eq!(payload.len(), 51);
    assert_eq!(
        decode(&reg, &payload),
        Ok(DecodedValue::Composite(vec![
            named("b", DecodedValue::Bool(true)),
            named("i8", DecodedValue::Int8(-128)),
            named("u8", DecodedValue::UInt8(254)),
            named("i16", DecodedValue::Int16(-2)),
            named("u16", DecodedValue::UInt16(0xBEEF)),
            named("i32", DecodedValue::Int32(-70_000)),
            named("u32", DecodedValue::UInt32(0xDEAD_BEEF)),
            named("i64", DecodedValue::Int64(i64::MIN)),
            named("u64", DecodedValue::UInt64(0x0102_0304_0506_0708)),
            named("f32", DecodedValue::Float32((-0.5f32).to_bits())),
            named("f64", DecodedValue::Float64(6.25f64.to_bits())),
            named("t", DecodedValue::Time(1_700_000_000)),
            named("d", DecodedValue::Duration(-5)),
        ]))
    );
}

#[test]
fn decoding_twice_gives_equal_trees() {
    let text = format!("string name\np/Q[] items\n{}\nMSG: p/Q\nint16 v\nuint8[2] w\n", SEPARATOR);
    let reg = registry(&text);
    let payload = [1, 0, 0, 0, b'x', 2, 0, 0, 0, 1, 0, 2, 3, 4, 0, 5, 6];
    let first = decode(&reg, &payload);
    let second = decode(&reg, &payload);
    assert!(first.is_ok());
    assert_eq!(first, second);
    let bad = [1, 0, 0, 0, b'x', 2, 0, 0, 0, 1, 0, 2, 3, 4, 0, 5];
    let first = decode(&reg, &bad);
    assert!(first.is_err());
    assert_eq!(first, decode(&reg, &bad));
}

#[test]
fn payload_of_the_fixed_width_decodes() {
    let text = format!(
        "uint8 tag\np/Q[3] items\nfloat64 f\n{}\nMSG: p/Q\nint16 v\nuint8[2] w\n",
        SEPARATOR
    );
    let reg = registry(&text);
    assert_eq!(reg.fixed_width(), Some(21));
    let payload = [0u8; 21];
    let (_, used) = decode_prefix(&reg, &payload).unwrap();
    assert_eq!(used, 21);
    assert!(decode(&reg, &payload).is_ok());
    assert!(decode(&reg, &payload[..20]).is_err());
    assert!(decode(&reg, &[0u8; 22]).is_err());
}

#[test]
fn width_is_not_fixed_with_text_or_variable_arrays() {
    assert_eq!(registry("string s").fixed_width(), None);
    assert_eq!(registry("int8[] s").fixed_width(), None);
    assert_eq!(registry("int8[4] s\nint64 t").fixed_width(), Some(12));
    let text = format!("p/Q[2] q\n{}\nMSG: p/Q\nint16 v\nstring w\n", SEPARATOR);
    assert_eq!(registry(&text).fixed_width(), None);
}

#[test]
fn unknown_types_are_listed() {
    let text = format!(
        "Header header\nint8 a\nq/R[] rs\n{0}\nMSG: p/Q\nstd_msgs/Missing m\nint8 b\n{0}\nMSG: q/R\np/Q q\nOther[2] o\n",
        SEPARATOR
    );
    let schema = parse_message_definition(&text).unwrap();
    let reference = |missing: &str, from: &str| UnresolvedReference {
        missing: missing.to_string(),
        referenced_from: from.to_string(),
    };
    assert_eq!(
        TypeRegistry::new(schema),
        Err(SchemaError::UnresolvedType(vec![
            reference("Header", "header"),
            reference("std_msgs/Missing", "p/Q.m"),
            reference("Other", "q/R.o"),
        ]))
    );
}

#[test]
fn registry_resolves_declared_types() {
    let text = format!("p/Q q\n{}\nMSG: p/Q\nint16 v\n", SEPARATOR);
    let reg = registry(&text);
    let fields = reg.resolve("p/Q").unwrap();
    assert_eq!(fields.len(), 1);
    assert_eq!(fields[0].field_name, "v");
    assert!(reg.resolve("p/R").is_none());
    assert!(reg.resolve("int16").is_none());
    assert_eq!(reg.schema().root_fields.len(), 1);
}

#[test]
fn built_in_name_wins_over_declared_type() {
    let text = format!("time t\n{}\nMSG: time\nuint8 x\n", SEPARATOR);
    let reg = registry(&text);
    assert_eq!(
        decode(&reg, &[1, 0, 0, 0]),
        Ok(DecodedValue::Composite(vec![named("t", DecodedValue::Time(1))]))
    );
}

#[test]
fn type_that_holds_itself_without_a_byte() {
    let text = format!("p/A a\n{0}\nMSG: p/A\np/B b\n{0}\nMSG: p/B\np/A a\n", SEPARATOR);
    let reg = registry(&text);
    let r = decode(&reg, &[1, 2, 3]);
    assert_eq!(
        r,
        Err(failure(
            DecodeErrorKind::UnboundedNesting { nested: "p/A".to_string() },
            "a.b.a",
            0
        ))
    );
}

#[test]
fn type_that_holds_itself_in_an_array() {
    let text = format!("p/Tree root\n{}\nMSG: p/Tree\nuint8 v\np/Tree[] kids\n", SEPARATOR);
    let reg = registry(&text);
    let leaf = |v: u8| {
        DecodedValue::Composite(vec![
            named("v", DecodedValue::UInt8(v)),
            named("kids", DecodedValue::Sequence(vec![])),
        ])
    };
    let payload = [1, 2, 0, 0, 0, 2, 1, 0, 0, 0, 3, 0, 0, 0, 0, 4, 0, 0, 0, 0];
    assert_eq!(
        decode(&reg, &payload),
        Ok(DecodedValue::Composite(vec![named(
            "root",
            DecodedValue::Composite(vec![
                named("v", DecodedValue::UInt8(1)),
                named(
                    "kids",
                    DecodedValue::Sequence(vec![
                        DecodedValue::Composite(vec![
                            named("v", DecodedValue::UInt8(2)),
                            named("kids", DecodedValue::Sequence(vec![leaf(3)])),
                        ]),
                        leaf(4),
                    ])
                ),
            ])
        )]))
    );
}

#[test]
fn unknown_type_in_a_schema_built_by_hand() {
    let schema = MessageSchema {
        root_fields: vec![Field {
            field_name: "q".to_string(),
            field_type: "p/Q".to_string(),
            field_repeat: Repeated::Scalar,
        }],
        nested_types: vec![NestedType { name: "p/R".to_string(), fields: vec![] }],
    };
    assert!(TypeRegistry::new(schema).is_err());
}
