use rosmsg::schema::{SchemaError, UnresolvedReference};
use rosmsg::text::to_decimal;
use rosmsg::value::{DecodeError, DecodeErrorKind};

#[test]
fn decimal_digits() {
    assert_eq!(to_decimal(0), "0");
    assert_eq!(to_decimal(7), "7");
    assert_eq!(to_decimal(10), "10");
    assert_eq!(to_decimal(409), "409");
    assert_eq!(to_decimal(1_234_567_890), "1234567890");
    assert_eq!(to_decimal(u64::MAX), "18446744073709551615");
}

#[test]
fn decode_errors_in_words() {
    let e = DecodeError {
        kind: DecodeErrorKind::BufferUnderrun { needed: 4, available: 2 },
        field_path: "pairs.right".to_string(),
        offset: 9,
    };
    assert_eq!(e.message(), "buffer underrun: needed 4, available 2 at byte 9 in field pairs.right");
    let e = DecodeError::new(DecodeErrorKind::TrailingBytes { remaining: 3 }, 120);
    assert_eq!(e.message(), "trailing bytes: 3 at byte 120");
    assert_eq!(
        DecodeErrorKind::InvalidLengthPrefix { declared_count: u32::MAX }.message(),
        "invalid length prefix: 4294967295"
    );
    assert_eq!(DecodeErrorKind::InvalidUtf8.message(), "invalid UTF-8");
    assert_eq!(
        DecodeErrorKind::UnresolvedType { missing: "p/Q".to_string() }.message(),
        "unresolved type: p/Q"
    );
    assert_eq!(
        DecodeErrorKind::UnboundedNesting { nested: "p/A".to_string() }.message(),
        "unbounded nesting of p/A"
    );
}

#[test]
fn schema_errors_in_words() {
    assert_eq!(
        SchemaError::MalformedFieldLine("onlyonetoken".to_string()).message(),
        "malformed field line: onlyonetoken"
    );
    assert_eq!(SchemaError::MissingSectionHeader(12).message(), "missing header in section 12");
    assert_eq!(
        SchemaError::InvalidTypeToken("float[-1]".to_string()).message(),
        "invalid type token: float[-1]"
    );
    let reference = |missing: &str, from: &str| UnresolvedReference {
        missing: missing.to_string(),
        referenced_from: from.to_string(),
    };
    assert_eq!(
        SchemaError::UnresolvedType(vec![reference("Header", "header")]).message(),
        "unresolved types: Header in header"
    );
    assert_eq!(
        SchemaError::UnresolvedType(vec![
            reference("Header", "header"),
            reference("q/R", "p/Q.r"),
            reference("x", "y"),
        ])
        .message(),
        "unresolved types: Header in header, q/R in p/Q.r, x in y"
    );
    assert_eq!(SchemaError::UnresolvedType(vec![]).message(), "unresolved types: ");
}
