//! The primitive codec, the other way: the bytes that a primitive value
//! takes on the wire.

use byteorder::{ByteOrder, LE};
use crate::message_parsing::{le_value, primitive_at, PrimitiveKind};
use crate::value::{DecodedValue, Failure, Value};
use vstd::prelude::*;
use vstd::string::*;
use vstd::utf8::*;

verus! {

/// The `width` bytes that write `value`, least significant byte first.
pub open spec fn le_bytes(value: nat, width: nat) -> Seq<u8>
    decreases width,
{
    if width == 0 {
        Seq::empty()
    } else {
        seq![(value % 256) as u8] + le_bytes(value / 256, (width - 1) as nat)
    }
}

/// The number that stands for `value` in two's complement among `modulus`
/// values.
pub open spec fn unsigned(value: int, modulus: nat) -> nat {
    if value < 0 {
        (value + modulus) as nat
    } else {
        value as nat
    }
}

/// The number of values that `width` bytes tell apart.
pub open spec fn values_of(width: nat) -> nat
    decreases width,
{
    if width == 0 {
        1
    } else {
        256 * values_of((width - 1) as nat)
    }
}

/// The built-in type of the value `v`; none for a composite or a sequence.
pub open spec fn kind_of(v: Value) -> Option<PrimitiveKind> {
    match v {
        Value::Bool(_) => Some(PrimitiveKind::Bool),
        Value::Int8(_) => Some(PrimitiveKind::Int8),
        Value::UInt8(_) => Some(PrimitiveKind::UInt8),
        Value::Int16(_) => Some(PrimitiveKind::Int16),
        Value::UInt16(_) => Some(PrimitiveKind::UInt16),
        Value::Int32(_) => Some(PrimitiveKind::Int32),
        Value::UInt32(_) => Some(PrimitiveKind::UInt32),
        Value::Int64(_) => Some(PrimitiveKind::Int64),
        Value::UInt64(_) => Some(PrimitiveKind::UInt64),
        Value::Float32(_) => Some(PrimitiveKind::Float32),
        Value::Float64(_) => Some(PrimitiveKind::Float64),
        Value::Time(_) => Some(PrimitiveKind::Time),
        Value::Duration(_) => Some(PrimitiveKind::Duration),
        Value::Text(_) => Some(PrimitiveKind::Text),
        Value::Composite(_) | Value::Sequence(_) => None,
    }
}

/// The bytes that the primitive value `v` takes on the wire. `None` for a
/// composite, for a sequence, and for a text whose UTF-8 is longer than four
/// bytes can say.
pub open spec fn encoded(v: Value) -> Option<Seq<u8>> {
    match v {
        Value::Bool(b) => Some(
            seq![if b {
                1u8
            } else {
                0u8
            }],
        ),
        Value::Int8(x) => Some(le_bytes(unsigned(x as int, 0x100), 1)),
        Value::UInt8(x) => Some(le_bytes(x as nat, 1)),
        Value::Int16(x) => Some(le_bytes(unsigned(x as int, 0x1_0000), 2)),
        Value::UInt16(x) => Some(le_bytes(x as nat, 2)),
        Value::Int32(x) => Some(le_bytes(unsigned(x as int, 0x1_0000_0000), 4)),
        Value::UInt32(x) => Some(le_bytes(x as nat, 4)),
        Value::Int64(x) => Some(le_bytes(unsigned(x as int, 0x1_0000_0000_0000_0000), 8)),
        Value::UInt64(x) => Some(le_bytes(x as nat, 8)),
        Value::Float32(bits) => Some(le_bytes(bits as nat, 4)),
        Value::Float64(bits) => Some(le_bytes(bits as nat, 8)),
        Value::Time(x) => Some(le_bytes(x as nat, 4)),
        Value::Duration(x) => Some(le_bytes(unsigned(x as int, 0x1_0000_0000), 4)),
        Value::Text(t) => {
            let utf8 = encode_utf8(t);
            if utf8.len() <= u32::MAX {
                Some(le_bytes(utf8.len(), 4) + utf8)
            } else {
                None
            }
        },
        Value::Composite(_) | Value::Sequence(_) => None,
    }
}

/// Bytes written least significant first read back as the number written.
pub proof fn lemma_le_bytes(value: nat, width: nat)
    requires
        value < values_of(width),
    ensures
        le_bytes(value, width).len() == width,
        le_value(le_bytes(value, width)) == value,
    decreases width,
{
    if width > 0 {
        let rest = le_bytes(value / 256, (width - 1) as nat);
        lemma_le_bytes(value / 256, (width - 1) as nat);
        assert(le_bytes(value, width).drop_first() =~= rest);
    }
}

/// A primitive value that is encoded and decoded again is the same value,
/// and decoding takes all the bytes.
pub proof fn lemma_encode_decode(v: Value)
    requires
        encoded(v) is Some,
    ensures
        kind_of(v) is Some,
        primitive_at(kind_of(v)->0, encoded(v)->0, 0) == Ok::<(Value, nat), Failure>(
            (v, encoded(v)->0.len()),
        ),
{
    reveal_with_fuel(values_of, 9);
    let bytes = encoded(v)->0;
    assert(bytes.subrange(0, bytes.len() as int) =~= bytes);
    match v {
        Value::Bool(b) => {},
        Value::Int8(x) => {
            lemma_le_bytes(unsigned(x as int, 0x100), 1);
            reveal_with_fuel(le_value, 2);
        },
        Value::UInt8(x) => {
            lemma_le_bytes(x as nat, 1);
            reveal_with_fuel(le_value, 2);
        },
        Value::Int16(x) => {
            lemma_le_bytes(unsigned(x as int, 0x1_0000), 2);
        },
        Value::UInt16(x) => {
            lemma_le_bytes(x as nat, 2);
        },
        Value::Int32(x) => {
            lemma_le_bytes(unsigned(x as int, 0x1_0000_0000), 4);
        },
        Value::UInt32(x) => {
            lemma_le_bytes(x as nat, 4);
        },
        Value::Int64(x) => {
            lemma_le_bytes(unsigned(x as int, 0x1_0000_0000_0000_0000), 8);
        },
        Value::UInt64(x) => {
            lemma_le_bytes(x as nat, 8);
        },
        Value::Float32(x) => {
            lemma_le_bytes(x as nat, 4);
        },
        Value::Float64(x) => {
            lemma_le_bytes(x as nat, 8);
        },
        Value::Time(x) => {
            lemma_le_bytes(x as nat, 4);
        },
        Value::Duration(x) => {
            lemma_le_bytes(unsigned(x as int, 0x1_0000_0000), 4);
        },
        Value::Text(t) => {
            let utf8 = encode_utf8(t);
            lemma_le_bytes(utf8.len(), 4);
            assert(bytes.subrange(0, 4) =~= le_bytes(utf8.len(), 4));
            assert(bytes.subrange(4, 4 + utf8.len() as int) =~= utf8);
            encode_utf8_valid_utf8(t);
            encode_utf8_decode_utf8(t);
        },
        Value::Composite(_) | Value::Sequence(_) => {},
    }
}

/// `byteorder::LittleEndian::write_u16`: the two bytes of `value`, least
/// significant first.
#[verifier::external_body]
fn bytes_of_u16(value: u16) -> (bytes: Vec<u8>)
    ensures
        bytes@ == le_bytes(value as nat, 2),
{
    let mut bytes = vec![0u8; 2];
    LE::write_u16(&mut bytes, value);
    bytes
}

/// `byteorder::LittleEndian::write_i16`: the two bytes of `value` in two's
/// complement, least significant first.
#[verifier::external_body]
fn bytes_of_i16(value: i16) -> (bytes: Vec<u8>)
    ensures
        bytes@ == le_bytes(unsigned(value as int, 0x1_0000), 2),
{
    let mut bytes = vec![0u8; 2];
    LE::write_i16(&mut bytes, value);
    bytes
}

/// `byteorder::LittleEndian::write_u32`: the four bytes of `value`, least
/// significant first.
#[verifier::external_body]
fn bytes_of_u32(value: u32) -> (bytes: Vec<u8>)
    ensures
        bytes@ == le_bytes(value as nat, 4),
{
    let mut bytes = vec![0u8; 4];
    LE::write_u32(&mut bytes, value);
    bytes
}

/// `byteorder::LittleEndian::write_i32`: the four bytes of `value` in two's
/// complement, least significant first.
#[verifier::external_body]
fn bytes_of_i32(value: i32) -> (bytes: Vec<u8>)
    ensures
        bytes@ == le_bytes(unsigned(value as int, 0x1_0000_0000), 4),
{
    let mut bytes = vec![0u8; 4];
    LE::write_i32(&mut bytes, value);
    bytes
}

/// `byteorder::LittleEndian::write_u64`: the eight bytes of `value`, least
/// significant first.
#[verifier::external_body]
fn bytes_of_u64(value: u64) -> (bytes: Vec<u8>)
    ensures
        bytes@ == le_bytes(value as nat, 8),
{
    let mut bytes = vec![0u8; 8];
    LE::write_u64(&mut bytes, value);
    bytes
}

/// `byteorder::LittleEndian::write_i64`: the eight bytes of `value` in two's
/// complement, least significant first.
#[verifier::external_body]
fn bytes_of_i64(value: i64) -> (bytes: Vec<u8>)
    ensures
        bytes@ == le_bytes(unsigned(value as int, 0x1_0000_0000_0000_0000), 8),
{
    let mut bytes = vec![0u8; 8];
    LE::write_i64(&mut bytes, value);
    bytes
}

/// The one byte `b`.
fn one_byte(b: u8) -> (bytes: Vec<u8>)
    ensures
        bytes@ == le_bytes(b as nat, 1),
{
    let mut bytes: Vec<u8> = Vec::new();
    bytes.push(b);
    proof {
        reveal_with_fuel(le_bytes, 2);
        assert(bytes@ =~= le_bytes(b as nat, 1));
    }
    bytes
}

/// The byte that stands for `value` in two's complement.
fn byte_of_i8(value: i8) -> (b: u8)
    ensures
        b as nat == unsigned(value as int, 0x100),
{
    if value < 0 {
        (value as i16 + 256) as u8
    } else {
        value as u8
    }
}

/// Encodes a primitive value as it stands on the wire. `None` for a
/// composite, for a sequence, and for a text whose UTF-8 is longer than four
/// bytes can say.
pub fn encode_primitive(value: &DecodedValue) -> (r: Option<Vec<u8>>)
    ensures
        match encoded(value@) {
            Some(bytes) => r matches Some(out) && out@ == bytes,
            None => r is None,
        },
{
    match value {
        DecodedValue::Bool(b) => {
            let mut bytes: Vec<u8> = Vec::new();
            bytes.push(if *b {
                1
            } else {
                0
            });
            assert(bytes@ =~= encoded(value@)->0);
            Some(bytes)
        },
        DecodedValue::Int8(x) => Some(one_byte(byte_of_i8(*x))),
        DecodedValue::UInt8(x) => Some(one_byte(*x)),
        DecodedValue::Int16(x) => Some(bytes_of_i16(*x)),
        DecodedValue::UInt16(x) => Some(bytes_of_u16(*x)),
        DecodedValue::Int32(x) => Some(bytes_of_i32(*x)),
        DecodedValue::UInt32(x) => Some(bytes_of_u32(*x)),
        DecodedValue::Int64(x) => Some(bytes_of_i64(*x)),
        DecodedValue::UInt64(x) => Some(bytes_of_u64(*x)),
        DecodedValue::Float32(bits) => Some(bytes_of_u32(*bits)),
        DecodedValue::Float64(bits) => Some(bytes_of_u64(*bits)),
        DecodedValue::Time(x) => Some(bytes_of_u32(*x)),
        DecodedValue::Duration(x) => Some(bytes_of_i32(*x)),
        DecodedValue::Text(text) => {
            let utf8 = text.as_str().as_bytes();
            if utf8.len() > u32::MAX as usize {
                return None;
            }
            let mut bytes = bytes_of_u32(utf8.len() as u32);
            let ghost head = bytes@;
            let mut i: usize = 0;
            while i < utf8.len()
                invariant
                    i <= utf8@.len(),
                    bytes@ == head + utf8@.take(i as int),
                decreases utf8@.len() - i,
            {
                bytes.push(utf8[i]);
                assert(utf8@.take(i + 1) =~= utf8@.take(i as int).push(utf8@[i as int]));
                assert(bytes@ =~= head + utf8@.take(i + 1));
                i += 1;
            }
            assert(utf8@.take(utf8@.len() as int) =~= utf8@);
            Some(bytes)
        },
        DecodedValue::Composite(_) => None,
        DecodedValue::Sequence(_) => None,
    }
}

} // verus!
