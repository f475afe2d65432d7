//! The primitive codec: the built-in wire types, their widths, and the
//! decoding of one primitive value from little-endian bytes.

use byteorder::{ByteOrder, LE};
use crate::text::str_eq;
use crate::value::{DecodeError, DecodeErrorKind, DecodedValue, Failure, FailureKind, Value};
use vstd::prelude::*;
use vstd::slice::*;
use vstd::string::*;
use vstd::utf8::*;

verus! {

/// A built-in wire type.
#[derive(Debug, Clone, Copy, PartialEq, Eq, Structural)]
pub enum PrimitiveKind {
    Bool,
    Int8,
    UInt8,
    Int16,
    UInt16,
    Int32,
    UInt32,
    Int64,
    UInt64,
    Float32,
    Float64,
    Time,
    Duration,
    Text,
}

/// The built-in type that a definition calls `name`, if there is one.
pub open spec fn kind_of_name(name: Seq<char>) -> Option<PrimitiveKind> {
    if name == "bool"@ {
        Some(PrimitiveKind::Bool)
    } else if name == "int8"@ {
        Some(PrimitiveKind::Int8)
    } else if name == "uint8"@ {
        Some(PrimitiveKind::UInt8)
    } else if name == "int16"@ {
        Some(PrimitiveKind::Int16)
    } else if name == "uint16"@ {
        Some(PrimitiveKind::UInt16)
    } else if name == "int32"@ {
        Some(PrimitiveKind::Int32)
    } else if name == "uint32"@ {
        Some(PrimitiveKind::UInt32)
    } else if name == "int64"@ {
        Some(PrimitiveKind::Int64)
    } else if name == "uint64"@ {
        Some(PrimitiveKind::UInt64)
    } else if name == "float32"@ {
        Some(PrimitiveKind::Float32)
    } else if name == "float64"@ {
        Some(PrimitiveKind::Float64)
    } else if name == "time"@ {
        Some(PrimitiveKind::Time)
    } else if name == "duration"@ {
        Some(PrimitiveKind::Duration)
    } else if name == "string"@ {
        Some(PrimitiveKind::Text)
    } else {
        None
    }
}

/// The number of bytes that a value of `kind` takes on the wire. `None` for
/// text, whose length stands in front of it.
pub open spec fn width(kind: PrimitiveKind) -> Option<nat> {
    match kind {
        PrimitiveKind::Bool | PrimitiveKind::Int8 | PrimitiveKind::UInt8 => Some(1),
        PrimitiveKind::Int16 | PrimitiveKind::UInt16 => Some(2),
        PrimitiveKind::Int32 | PrimitiveKind::UInt32 | PrimitiveKind::Float32
        | PrimitiveKind::Time | PrimitiveKind::Duration => Some(4),
        PrimitiveKind::Int64 | PrimitiveKind::UInt64 | PrimitiveKind::Float64 => Some(8),
        PrimitiveKind::Text => None,
    }
}

/// The built-in type that a definition calls `name`, if there is one.
pub fn primitive_kind(name: &str) -> (kind: Option<PrimitiveKind>)
    ensures
        kind == kind_of_name(name@),
{
    if str_eq(name, "bool") {
        Some(PrimitiveKind::Bool)
    } else if str_eq(name, "int8") {
        Some(PrimitiveKind::Int8)
    } else if str_eq(name, "uint8") {
        Some(PrimitiveKind::UInt8)
    } else if str_eq(name, "int16") {
        Some(PrimitiveKind::Int16)
    } else if str_eq(name, "uint16") {
        Some(PrimitiveKind::UInt16)
    } else if str_eq(name, "int32") {
        Some(PrimitiveKind::Int32)
    } else if str_eq(name, "uint32") {
        Some(PrimitiveKind::UInt32)
    } else if str_eq(name, "int64") {
        Some(PrimitiveKind::Int64)
    } else if str_eq(name, "uint64") {
        Some(PrimitiveKind::UInt64)
    } else if str_eq(name, "float32") {
        Some(PrimitiveKind::Float32)
    } else if str_eq(name, "float64") {
        Some(PrimitiveKind::Float64)
    } else if str_eq(name, "time") {
        Some(PrimitiveKind::Time)
    } else if str_eq(name, "duration") {
        Some(PrimitiveKind::Duration)
    } else if str_eq(name, "string") {
        Some(PrimitiveKind::Text)
    } else {
        None
    }
}

/// The number of bytes that a value of `kind` takes on the wire.
pub fn width_of(kind: PrimitiveKind) -> (w: Option<usize>)
    ensures
        match width(kind) {
            Some(n) => w == Some(n as usize) && n <= 8,
            None => w is None,
        },
{
    match kind {
        PrimitiveKind::Bool | PrimitiveKind::Int8 | PrimitiveKind::UInt8 => Some(1),
        PrimitiveKind::Int16 | PrimitiveKind::UInt16 => Some(2),
        PrimitiveKind::Int32 | PrimitiveKind::UInt32 | PrimitiveKind::Float32
        | PrimitiveKind::Time | PrimitiveKind::Duration => Some(4),
        PrimitiveKind::Int64 | PrimitiveKind::UInt64 | PrimitiveKind::Float64 => Some(8),
        PrimitiveKind::Text => None,
    }
}

/// Whether `type_definition` names a built-in wire type.
pub fn is_primitive_type(type_definition: &str) -> (r: bool)
    ensures
        r == kind_of_name(type_definition@).is_some(),
{
    primitive_kind(type_definition).is_some()
}

/// The number that `bytes` write, least significant byte first.
pub open spec fn le_value(bytes: Seq<u8>) -> nat
    decreases bytes.len(),
{
    if bytes.len() == 0 {
        0
    } else {
        bytes[0] as nat + 256 * le_value(bytes.drop_first())
    }
}

/// The two's-complement reading of `value` among `modulus` values.
pub open spec fn signed(value: nat, modulus: nat) -> int {
    if 2 * value < modulus {
        value as int
    } else {
        value - modulus
    }
}

/// The value of fixed-width `kind` that the bytes `b` encode, `b` being as
/// long as the kind is wide.
pub open spec fn fixed_value(kind: PrimitiveKind, b: Seq<u8>) -> Value {
    match kind {
        PrimitiveKind::Bool => Value::Bool(b[0] != 0),
        PrimitiveKind::Int8 => Value::Int8(signed(b[0] as nat, 0x100) as i8),
        PrimitiveKind::UInt8 => Value::UInt8(b[0]),
        PrimitiveKind::Int16 => Value::Int16(signed(le_value(b), 0x1_0000) as i16),
        PrimitiveKind::UInt16 => Value::UInt16(le_value(b) as u16),
        PrimitiveKind::Int32 => Value::Int32(signed(le_value(b), 0x1_0000_0000) as i32),
        PrimitiveKind::UInt32 => Value::UInt32(le_value(b) as u32),
        PrimitiveKind::Int64 => Value::Int64(
            signed(le_value(b), 0x1_0000_0000_0000_0000) as i64,
        ),
        PrimitiveKind::UInt64 => Value::UInt64(le_value(b) as u64),
        PrimitiveKind::Float32 => Value::Float32(le_value(b) as u32),
        PrimitiveKind::Float64 => Value::Float64(le_value(b) as u64),
        PrimitiveKind::Time => Value::Time(le_value(b) as u32),
        PrimitiveKind::Duration => Value::Duration(signed(le_value(b), 0x1_0000_0000) as i32),
        PrimitiveKind::Text => Value::Text(Seq::empty()),
    }
}

/// The number of bytes from `at` to the end of a buffer of `len` bytes.
pub open spec fn available(len: nat, at: nat) -> nat {
    if at <= len {
        (len - at) as nat
    } else {
        0
    }
}

/// A failure of the kind `kind` at the byte `at`, outside any field.
pub open spec fn failure_at(kind: FailureKind, at: nat) -> Failure {
    Failure { kind, path: Seq::empty(), offset: at }
}

/// The number of four bytes at `at`, least significant byte first.
pub open spec fn count_at(data: Seq<u8>, at: nat) -> Result<nat, Failure> {
    let left = available(data.len(), at);
    if left < 4 {
        Err(failure_at(FailureKind::BufferUnderrun { needed: 4, available: left }, at))
    } else {
        Ok(le_value(data.subrange(at as int, at as int + 4)))
    }
}

/// The text at `at`: a length of four bytes, then as many bytes of UTF-8.
/// The result holds the text and the number of bytes taken.
pub open spec fn text_at(data: Seq<u8>, at: nat) -> Result<(Value, nat), Failure> {
    match count_at(data, at) {
        Err(e) => Err(e),
        Ok(n) => if n > available(data.len(), at) - 4 {
            Err(failure_at(FailureKind::InvalidLengthPrefix { declared_count: n }, at))
        } else {
            let bytes = data.subrange(at as int + 4, at as int + 4 + n);
            if valid_utf8(bytes) {
                Ok((Value::Text(decode_utf8(bytes)), 4 + n))
            } else {
                Err(failure_at(FailureKind::InvalidUtf8, at + 4))
            }
        },
    }
}

/// The value of `kind` at `at`, with the number of bytes it takes.
pub open spec fn primitive_at(kind: PrimitiveKind, data: Seq<u8>, at: nat) -> Result<
    (Value, nat),
    Failure,
> {
    match width(kind) {
        Some(w) => {
            let left = available(data.len(), at);
            if left < w {
                Err(failure_at(FailureKind::BufferUnderrun { needed: w, available: left }, at))
            } else {
                Ok((fixed_value(kind, data.subrange(at as int, at as int + w)), w))
            }
        },
        None => text_at(data, at),
    }
}

/// `byteorder::LittleEndian::read_u16`: the first two bytes of `data` read
/// as a number, least significant byte first.
#[verifier::external_body]
fn le_u16(data: &[u8]) -> (value: u16)
    requires
        data@.len() >= 2,
    ensures
        value as nat == le_value(data@.take(2)),
{
    LE::read_u16(data)
}

/// `byteorder::LittleEndian::read_i16`: the first two bytes of `data` read
/// least significant byte first, in two's complement.
#[verifier::external_body]
fn le_i16(data: &[u8]) -> (value: i16)
    requires
        data@.len() >= 2,
    ensures
        value as int == signed(le_value(data@.take(2)), 0x1_0000),
{
    LE::read_i16(data)
}

/// `byteorder::LittleEndian::read_u32`: the first four bytes of `data` read
/// as a number, least significant byte first.
#[verifier::external_body]
fn le_u32(data: &[u8]) -> (value: u32)
    requires
        data@.len() >= 4,
    ensures
        value as nat == le_value(data@.take(4)),
{
    LE::read_u32(data)
}

/// `byteorder::LittleEndian::read_i32`: the first four bytes of `data` read
/// least significant byte first, in two's complement.
#[verifier::external_body]
fn le_i32(data: &[u8]) -> (value: i32)
    requires
        data@.len() >= 4,
    ensures
        value as int == signed(le_value(data@.take(4)), 0x1_0000_0000),
{
    LE::read_i32(data)
}

/// `byteorder::LittleEndian::read_u64`: the first eight bytes of `data`
/// read as a number, least significant byte first.
#[verifier::external_body]
fn le_u64(data: &[u8]) -> (value: u64)
    requires
        data@.len() >= 8,
    ensures
        value as nat == le_value(data@.take(8)),
{
    LE::read_u64(data)
}

/// `byteorder::LittleEndian::read_i64`: the first eight bytes of `data`
/// read least significant byte first, in two's complement.
#[verifier::external_body]
fn le_i64(data: &[u8]) -> (value: i64)
    requires
        data@.len() >= 8,
    ensures
        value as int == signed(le_value(data@.take(8)), 0x1_0000_0000_0000_0000),
{
    LE::read_i64(data)
}

/// `String::from_utf8`: the text that `bytes` encode, where they are valid
/// UTF-8, and `None` where they are not.
#[verifier::external_body]
fn text_from_utf8(bytes: Vec<u8>) -> (text: Option<String>)
    ensures
        text is Some <==> valid_utf8(bytes@),
        text matches Some(s) ==> s@ == decode_utf8(bytes@),
{
    match String::from_utf8(bytes) {
        Ok(s) => Some(s),
        Err(_) => None,
    }
}

/// The byte `b` read in two's complement.
fn byte_as_i8(b: u8) -> (value: i8)
    ensures
        value as int == signed(b as nat, 0x100),
{
    if b < 128 {
        b as i8
    } else {
        (b as i16 - 256) as i8
    }
}

/// Decodes the value of fixed-width `kind` that starts at `at`.
fn decode_fixed(kind: PrimitiveKind, data: &[u8], at: usize, w: usize) -> (value: DecodedValue)
    requires
        width(kind) == Some(w as nat),
        at + w <= data@.len(),
    ensures
        value@ == fixed_value(kind, data@.subrange(at as int, at + w)),
{
    assert(data@.len() == data.len());
    let bytes = slice_subrange(data, at, at + w);
    assert(bytes@.take(w as int) =~= bytes@);
    match kind {
        PrimitiveKind::Bool => DecodedValue::Bool(bytes[0] != 0),
        PrimitiveKind::Int8 => DecodedValue::Int8(byte_as_i8(bytes[0])),
        PrimitiveKind::UInt8 => DecodedValue::UInt8(bytes[0]),
        PrimitiveKind::Int16 => DecodedValue::Int16(le_i16(bytes)),
        PrimitiveKind::UInt16 => DecodedValue::UInt16(le_u16(bytes)),
        PrimitiveKind::Int32 => DecodedValue::Int32(le_i32(bytes)),
        PrimitiveKind::UInt32 => DecodedValue::UInt32(le_u32(bytes)),
        PrimitiveKind::Int64 => DecodedValue::Int64(le_i64(bytes)),
        PrimitiveKind::UInt64 => DecodedValue::UInt64(le_u64(bytes)),
        PrimitiveKind::Float32 => DecodedValue::Float32(le_u32(bytes)),
        PrimitiveKind::Float64 => DecodedValue::Float64(le_u64(bytes)),
        PrimitiveKind::Time => DecodedValue::Time(le_u32(bytes)),
        PrimitiveKind::Duration => DecodedValue::Duration(le_i32(bytes)),
        PrimitiveKind::Text => DecodedValue::Text(String::new()),
    }
}

/// The number of bytes from `at` to the end of `data`.
pub fn bytes_left(data: &[u8], at: usize) -> (left: usize)
    ensures
        left == available(data@.len(), at as nat),
        data@.len() <= usize::MAX,
{
    if at <= data.len() {
        data.len() - at
    } else {
        0
    }
}

/// Reads the number of four bytes that starts at `at`.
pub fn read_count(data: &[u8], at: usize) -> (r: Result<u32, DecodeError>)
    ensures
        match count_at(data@, at as nat) {
            Ok(count) => r matches Ok(n) && n as nat == count && at + 4 <= data@.len(),
            Err(e) => r matches Err(err) && err@ == e,
        },
{
    let left = bytes_left(data, at);
    if left < 4 {
        return Err(
            DecodeError::new(DecodeErrorKind::BufferUnderrun { needed: 4, available: left }, at),
        );
    }
    let bytes = slice_subrange(data, at, at + 4);
    assert(bytes@.take(4) =~= bytes@);
    Ok(le_u32(bytes))
}

/// Decodes the text that starts at `at`.
fn decode_text(data: &[u8], at: usize) -> (r: Result<(DecodedValue, usize), DecodeError>)
    ensures
        match text_at(data@, at as nat) {
            Ok((v, used)) => r matches Ok((value, n)) && value@ == v && n == used && at + used
                <= data@.len(),
            Err(e) => r matches Err(err) && err@ == e,
        },
{
    let left = bytes_left(data, at);
    let n = match read_count(data, at) {
        Ok(n) => n,
        Err(e) => {
            return Err(e);
        },
    };
    if n as usize > left - 4 {
        return Err(
            DecodeError::new(DecodeErrorKind::InvalidLengthPrefix { declared_count: n }, at),
        );
    }
    let bytes = slice_to_vec(slice_subrange(data, at + 4, at + 4 + n as usize));
    match text_from_utf8(bytes) {
        Some(s) => Ok((DecodedValue::Text(s), 4 + n as usize)),
        None => Err(DecodeError::new(DecodeErrorKind::InvalidUtf8, at + 4)),
    }
}

/// Decodes the value of `kind` that starts at the byte `at` of `data`, and
/// says how many bytes it takes.
pub fn decode_primitive(kind: PrimitiveKind, data: &[u8], at: usize) -> (r: Result<
    (DecodedValue, usize),
    DecodeError,
>)
    ensures
        match primitive_at(kind, data@, at as nat) {
            Ok((v, used)) => r matches Ok((value, n)) && value@ == v && n == used && at + used
                <= data@.len(),
            Err(e) => r matches Err(err) && err@ == e,
        },
{
    match width_of(kind) {
        Some(w) => {
            let left = bytes_left(data, at);
            if left < w {
                Err(
                    DecodeError::new(
                        DecodeErrorKind::BufferUnderrun { needed: w, available: left },
                        at,
                    ),
                )
            } else {
                Ok((decode_fixed(kind, data, at, w), w))
            }
        },
        None => decode_text(data, at),
    }
}

/// The value of the built-in type `name` that `data` holds from its first
/// byte to its last.
pub open spec fn primitive_value(name: Seq<char>, data: Seq<u8>) -> Result<Value, Failure> {
    match kind_of_name(name) {
        None => Err(failure_at(FailureKind::UnresolvedType { missing: name }, 0)),
        Some(kind) => match primitive_at(kind, data, 0) {
            Err(e) => Err(e),
            Ok((v, used)) => if used < data.len() {
                Err(
                    failure_at(
                        FailureKind::TrailingBytes { remaining: (data.len() - used) as nat },
                        used,
                    ),
                )
            } else {
                Ok(v)
            },
        },
    }
}

/// Decodes `data` as one value of the built-in type `type_definition`. The
/// value has to take all of `data`.
pub fn parse_primivate_data(type_definition: &str, data: &[u8]) -> (r: Result<
    DecodedValue,
    DecodeError,
>)
    ensures
        match primitive_value(type_definition@, data@) {
            Ok(v) => r matches Ok(value) && value@ == v,
            Err(e) => r matches Err(err) && err@ == e,
        },
{
    match primitive_kind(type_definition) {
        None => Err(
            DecodeError::new(
                DecodeErrorKind::UnresolvedType { missing: String::from_str(type_definition) },
                0,
            ),
        ),
        Some(kind) => match decode_primitive(kind, data, 0) {
            Err(e) => Err(e),
            Ok((value, used)) => {
                if used < data.len() {
                    Err(
                        DecodeError::new(
                            DecodeErrorKind::TrailingBytes { remaining: data.len() - used },
                            used,
                        ),
                    )
                } else {
                    Ok(value)
                }
            },
        },
    }
}

/// The type of the value that a message with the definition `float32 data`
/// holds. `None` for every other definition.
pub fn parse_message(definition: &str) -> (r: Option<&'static str>)
    ensures
        r is Some <==> definition@ == "float32 data"@,
        r matches Some(name) ==> name@ == "float32"@,
{
    if str_eq(definition, "float32 data") {
        Some("float32")
    } else {
        None
    }
}

} // verus!
