use rosmsg::message_parser::{match_repeat, parse_message_definition, Field, Repeated};
use rosmsg::schema::{MessageSchema, NestedType, SchemaError};

const SEPARATOR: &str =
    "================================================================================";

const FLOAT32: &str = "float32 data";

const SENSOR_IMU_MESSAGE: &str = "# This is a message to hold data from an IMU (Inertial Measurement Unit)
#
# Accelerations should be in m/s^2 (not in g's), and rotational velocity should be in rad/sec
#
# If the covariance of the measurement is known, it should be filled in (if all you know is the
# variance of each measurement, e.g. from the datasheet, just put those along the diagonal)
# A covariance matrix of all zeros will be interpreted as \"covariance unknown\", and to use the
# data a covariance will have to be assumed or gotten from some other source
#
# If you have no estimate for one of the data elements (e.g. your IMU doesn't produce an orientation
# estimate), please set element 0 of the associated covariance matrix to -1
# If you are interpreting this message, please check for a value of -1 in the first element of each
# covariance matrix, and disregard the associated estimate.

Header header

geometry_msgs/Quaternion orientation
float64[9] orientation_covariance # Row major about x, y, z axes

geometry_msgs/Vector3 angular_velocity
float64[9] angular_velocity_covariance # Row major about x, y, z axes

geometry_msgs/Vector3 linear_acceleration
float64[9] linear_acceleration_covariance # Row major x, y z

================================================================================
MSG: std_msgs/Header
# Standard metadata for higher-level stamped data types.
# This is generally used to communicate timestamped data
# in a particular coordinate frame.
#
# sequence ID: consecutively increasing ID
uint32 seq
#Two-integer timestamp that is expressed as:
# * stamp.sec: seconds (stamp_secs) since epoch (in Python the variable is called 'secs')
# * stamp.nsec: nanoseconds since stamp_secs (in Python the variable is called 'nsecs')
# time-handling sugar is provided by the client library
time stamp
#Frame this data is associated with
string frame_id

================================================================================
MSG: geometry_msgs/Quaternion
# This represents an orientation in free space in quaternion form.

float64 x
float64 y
float64 z
float64 w

================================================================================
MSG: geometry_msgs/Vector3
# This represents a vector in free-space.
# It is only meant to represent a direction.

float64 x
float64 y
float64 z
";

fn field(name: &str, base: &str, repeat: Repeated) -> Field {
    Field { field_name: name.to_string(), field_type: base.to_string(), field_repeat: repeat }
}

fn xyz() -> Vec<Field> {
    vec![
        field("x", "float64", Repeated::Scalar),
        field("y", "float64", Repeated::Scalar),
        field("z", "float64", Repeated::Scalar),
    ]
}

#[test]
fn test_parse_std_message() {
    let msg = FLOAT32;
    assert!(parse_message_definition(msg).is_ok());
    let parsed = parse_message_definition(SENSOR_IMU_MESSAGE);
    assert!(true);
    let schema = parsed.unwrap();
    assert_eq!(
        schema.root_fields,
        vec![
            field("header", "Header", Repeated::Scalar),
            field("orientation", "geometry_msgs/Quaternion", Repeated::Scalar),
            field("orientation_covariance", "float64", Repeated::Fixed(9)),
            field("angular_velocity", "geometry_msgs/Vector3", Repeated::Scalar),
            field("angular_velocity_covariance", "float64", Repeated::Fixed(9)),
            field("linear_acceleration", "geometry_msgs/Vector3", Repeated::Scalar),
            field("linear_acceleration_covariance", "float64", Repeated::Fixed(9)),
        ]
    );
    let mut quaternion = xyz();
    quaternion.push(field("w", "float64", Repeated::Scalar));
    assert_eq!(
        schema.nested_types,
        vec![
            NestedType {
                name: "std_msgs/Header".to_string(),
                fields: vec![
                    field("seq", "uint32", Repeated::Scalar),
                    field("stamp", "time", Repeated::Scalar),
                    field("frame_id", "string", Repeated::Scalar),
                ],
            },
            NestedType { name: "geometry_msgs/Quaternion".to_string(), fields: quaternion },
            NestedType { name: "geometry_msgs/Vector3".to_string(), fields: xyz() },
        ]
    );
}

#[test]
fn test_match_repeat() {
    let fixtures = [
        ("float64", Some(("float64", Repeated::Scalar))),
        ("float[1]", Some(("float", Repeated::Fixed(1)))),
        ("float[]", Some(("float", Repeated::Variable))),
        ("float[999]", Some(("float", Repeated::Fixed(999)))),
        ("float[-1]", None),
        ("ns/SomeMessage", Some(("ns/SomeMessage", Repeated::Scalar))),
        ("ns_xyz/Some_Message", Some(("ns_xyz/Some_Message", Repeated::Scalar))),
        ("ns_xyz/SomeMessage", Some(("ns_xyz/SomeMessage", Repeated::Scalar))),
        ("ns/SomeMessage[1]", Some(("ns/SomeMessage", Repeated::Fixed(1)))),
        ("ns/SomeMessage[]", Some(("ns/SomeMessage", Repeated::Variable))),
        ("ns/Some/Message[]", None),
        ("", None),
        ("1", None),
        ("11[]", None),
        ("11[1]", None),
    ];
    for fixture in fixtures.iter() {
        assert_eq!(match_repeat(fixture.0), fixture.1);
    }
}

#[test]
fn type_token_table() {
    assert_eq!(match_repeat("float64"), Some(("float64", Repeated::Scalar)));
    assert_eq!(match_repeat("float32[1]"), Some(("float32", Repeated::Fixed(1))));
    assert_eq!(match_repeat("float32[]"), Some(("float32", Repeated::Variable)));
    assert_eq!(match_repeat("float32[999]"), Some(("float32", Repeated::Fixed(999))));
    assert_eq!(match_repeat("ns/SomeMessage"), Some(("ns/SomeMessage", Repeated::Scalar)));
    assert_eq!(match_repeat("ns/SomeMessage[]"), Some(("ns/SomeMessage", Repeated::Variable)));
    assert_eq!(match_repeat("ns/Some/Message[]"), None);
    assert_eq!(match_repeat(""), None);
    assert_eq!(match_repeat("11[]"), None);
}

#[test]
fn type_token_edges() {
    assert_eq!(match_repeat("a"), Some(("a", Repeated::Scalar)));
    assert_eq!(match_repeat("a/b"), Some(("a/b", Repeated::Scalar)));
    assert_eq!(match_repeat("a_1/B_2[0]"), Some(("a_1/B_2", Repeated::Fixed(0))));
    assert_eq!(match_repeat("x[007]"), Some(("x", Repeated::Fixed(7))));
    assert_eq!(match_repeat("x[4294967295]"), Some(("x", Repeated::Fixed(u32::MAX))));
    assert_eq!(match_repeat("x[4294967296]"), None);
    assert_eq!(match_repeat("x[00000000000000000000001]"), Some(("x", Repeated::Fixed(1))));
    assert_eq!(match_repeat("x[99999999999999999999999]"), None);
    assert_eq!(match_repeat("x[+1]"), None);
    assert_eq!(match_repeat("x[1"), None);
    assert_eq!(match_repeat("x[1]]"), None);
    assert_eq!(match_repeat("x[1][2]"), None);
    assert_eq!(match_repeat("x["), None);
    assert_eq!(match_repeat("x]"), None);
    assert_eq!(match_repeat("[1]"), None);
    assert_eq!(match_repeat("_x"), None);
    assert_eq!(match_repeat("x/"), None);
    assert_eq!(match_repeat("/x"), None);
    assert_eq!(match_repeat("x/1"), None);
    assert_eq!(match_repeat("x y"), None);
    assert_eq!(match_repeat("x-y"), None);
    assert_eq!(match_repeat("\u{e9}t\u{e9}"), None);
}

#[test]
fn single_field() {
    let schema = parse_message_definition("float32 data").unwrap();
    assert_eq!(
        schema,
        MessageSchema {
            root_fields: vec![field("data", "float32", Repeated::Scalar)],
            nested_types: vec![],
        }
    );
}

#[test]
fn line_without_space_is_malformed() {
    let r = parse_message_definition("float32 data\nonlyonetoken\n");
    assert_eq!(r, Err(SchemaError::MalformedFieldLine("onlyonetoken".to_string())));
    let r = parse_message_definition("  onlyonetoken   # with a comment\n");
    assert_eq!(r, Err(SchemaError::MalformedFieldLine("onlyonetoken".to_string())));
}

#[test]
fn definition_without_fields_is_rejected() {
    assert_eq!(parse_message_definition(""), Err(SchemaError::MalformedFieldLine(String::new())));
    assert_eq!(
        parse_message_definition("# only a comment\n\n   \n"),
        Err(SchemaError::MalformedFieldLine(String::new()))
    );
    let text = format!("{}\nMSG: a/B\nint8 x\n", SEPARATOR);
    assert_eq!(
        parse_message_definition(&text),
        Err(SchemaError::MalformedFieldLine(String::new()))
    );
}

#[test]
fn invalid_token_is_reported() {
    assert_eq!(
        parse_message_definition("float[-1] data"),
        Err(SchemaError::InvalidTypeToken("float[-1]".to_string()))
    );
    assert_eq!(
        parse_message_definition("int8 a\nns/Some/Message[] b"),
        Err(SchemaError::InvalidTypeToken("ns/Some/Message[]".to_string()))
    );
}

#[test]
fn section_needs_its_header() {
    let text = format!("int8 a\n{}\nint8 b\n", SEPARATOR);
    assert_eq!(parse_message_definition(&text), Err(SchemaError::MissingSectionHeader(1)));
    let text = format!("int8 a\n{}\n", SEPARATOR);
    assert_eq!(parse_message_definition(&text), Err(SchemaError::MissingSectionHeader(1)));
    let text = format!("int8 a\n{0}\nMSG: p/Q\nint8 b\n{0}\n# nothing\n{0}\nMSG: r/S\n", SEPARATOR);
    assert_eq!(parse_message_definition(&text), Err(SchemaError::MissingSectionHeader(2)));
    let text = format!("int8 a\n{}\nMSG:\nint8 b\n", SEPARATOR);
    assert_eq!(parse_message_definition(&text), Err(SchemaError::MissingSectionHeader(1)));
}

#[test]
fn header_inside_a_section_is_a_field_line() {
    let text = format!("int8 a\n{}\nMSG: p/Q\nMSG: r/S\n", SEPARATOR);
    assert_eq!(
        parse_message_definition(&text),
        Err(SchemaError::InvalidTypeToken("MSG:".to_string()))
    );
}

#[test]
fn comments_and_blank_lines_are_skipped() {
    let text = "\n  # leading comment\n\tint32[] values   # the values\n\n\r\nstring name#x\n";
    let schema = parse_message_definition(text).unwrap();
    assert_eq!(
        schema.root_fields,
        vec![
            field("values", "int32", Repeated::Variable),
            field("name", "string", Repeated::Scalar),
        ]
    );
    assert!(schema.nested_types.is_empty());
}

#[test]
fn name_is_the_rest_of_the_line() {
    let schema = parse_message_definition("uint8 KIND=3\nint8  spaced\nint8 two words").unwrap();
    assert_eq!(
        schema.root_fields,
        vec![
            field("KIND=3", "uint8", Repeated::Scalar),
            field(" spaced", "int8", Repeated::Scalar),
            field("two words", "int8", Repeated::Scalar),
        ]
    );
}

#[test]
fn separator_is_eighty_equal_signs() {
    let short = "=".repeat(79);
    let text = format!("int8 a\n{}\nMSG: p/Q\n", short);
    assert_eq!(parse_message_definition(&text), Err(SchemaError::MalformedFieldLine(short)));
    let long = "=".repeat(81);
    let text = format!("int8 a\n{}\nMSG: p/Q\n", long);
    assert_eq!(parse_message_definition(&text), Err(SchemaError::MalformedFieldLine(long)));
    let text = format!("int8 a\n  {}  # parts the sections\nMSG: p/Q\nint8 b", SEPARATOR);
    let schema = parse_message_definition(&text).unwrap();
    assert_eq!(
        schema.nested_types,
        vec![NestedType {
            name: "p/Q".to_string(),
            fields: vec![field("b", "int8", Repeated::Scalar)],
        }]
    );
}

#[test]
fn later_section_replaces_earlier_of_same_name() {
    let text = format!(
        "p/Q a\n{0}\nMSG: p/Q\nint8 b\n{0}\nMSG: r/S\nint8 c\n{0}\nMSG: p/Q   # again\nint16 d\n",
        SEPARATOR
    );
    let schema = parse_message_definition(&text).unwrap();
    assert_eq!(
        schema.nested_types,
        vec![
            NestedType {
                name: "p/Q".to_string(),
                fields: vec![field("d", "int16", Repeated::Scalar)],
            },
            NestedType {
                name: "r/S".to_string(),
                fields: vec![field("c", "int8", Repeated::Scalar)],
            },
        ]
    );
}

#[test]
fn section_without_fields_declares_an_empty_type() {
    let text = format!("p/Q a\n{}\nMSG: p/Q\n", SEPARATOR);
    let schema = parse_message_definition(&text).unwrap();
    assert_eq!(schema.nested_types, vec![NestedType { name: "p/Q".to_string(), fields: vec![] }]);
}

#[test]
fn parse_is_all_or_nothing() {
    let text = format!("int8 a\n{}\nMSG: p/Q\nint8 b\nbroken\n", SEPARATOR);
    assert_eq!(
        parse_message_definition(&text),
        Err(SchemaError::MalformedFieldLine("broken".to_string()))
    );
}

#[test]
fn definition_beyond_ascii() {
    let schema = parse_message_definition("\u{a0}int8 gr\u{f6}\u{df}e\u{2003}# \u{1f600}\n").unwrap();
    assert_eq!(schema.root_fields, vec![field("gr\u{f6}\u{df}e", "int8", Repeated::Scalar)]);
}
