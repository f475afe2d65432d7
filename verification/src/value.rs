//! What decoding produces: the tree of decoded values, and the error that
//! says where and why a payload could not be decoded.

use crate::text::{decimal_text, to_decimal};
use vstd::prelude::*;
use vstd::string::*;

verus! {

/// A decoded value. The two floating-point kinds hold the IEEE 754 bit
/// pattern of the number.
#[derive(Debug, PartialEq, Eq)]
pub enum DecodedValue {
    Bool(bool),
    Int8(i8),
    UInt8(u8),
    Int16(i16),
    UInt16(u16),
    Int32(i32),
    UInt32(u32),
    Int64(i64),
    UInt64(u64),
    Float32(u32),
    Float64(u64),
    Time(u32),
    Duration(i32),
    Text(String),
    /// The fields of a message or of a nested type, in the order of the
    /// definition, each with its name.
    Composite(Vec<(String, DecodedValue)>),
    /// The elements of an array.
    Sequence(Vec<DecodedValue>),
}

/// The mathematical content of a `DecodedValue`.
pub enum Value {
    Bool(bool),
    Int8(i8),
    UInt8(u8),
    Int16(i16),
    UInt16(u16),
    Int32(i32),
    UInt32(u32),
    Int64(i64),
    UInt64(u64),
    Float32(u32),
    Float64(u64),
    Time(u32),
    Duration(i32),
    Text(Seq<char>),
    Composite(Seq<(Seq<char>, Value)>),
    Sequence(Seq<Value>),
}

impl DecodedValue {
    /// The value that this tree stands for.
    pub open spec fn model(&self) -> Value
        decreases self,
    {
        match self {
            DecodedValue::Bool(v) => Value::Bool(*v),
            DecodedValue::Int8(v) => Value::Int8(*v),
            DecodedValue::UInt8(v) => Value::UInt8(*v),
            DecodedValue::Int16(v) => Value::Int16(*v),
            DecodedValue::UInt16(v) => Value::UInt16(*v),
            DecodedValue::Int32(v) => Value::Int32(*v),
            DecodedValue::UInt32(v) => Value::UInt32(*v),
            DecodedValue::Int64(v) => Value::Int64(*v),
            DecodedValue::UInt64(v) => Value::UInt64(*v),
            DecodedValue::Float32(v) => Value::Float32(*v),
            DecodedValue::Float64(v) => Value::Float64(*v),
            DecodedValue::Time(v) => Value::Time(*v),
            DecodedValue::Duration(v) => Value::Duration(*v),
            DecodedValue::Text(v) => Value::Text(v@),
            DecodedValue::Composite(entries) => Value::Composite(
                Seq::new(
                    entries@.len(),
                    |i: int|
                        if 0 <= i < entries@.len() {
                            (entries@[i].0@, entries@[i].1.model())
                        } else {
                            arbitrary()
                        },
                ),
            ),
            DecodedValue::Sequence(items) => Value::Sequence(
                Seq::new(
                    items@.len(),
                    |i: int|
                        if 0 <= i < items@.len() {
                            items@[i].model()
                        } else {
                            arbitrary()
                        },
                ),
            ),
        }
    }
}

impl View for DecodedValue {
    type V = Value;

    open spec fn view(&self) -> Value {
        self.model()
    }
}

/// The named values of `entries`, each by its view.
pub open spec fn entries_view(entries: Seq<(String, DecodedValue)>) -> Seq<(Seq<char>, Value)> {
    Seq::new(entries.len(), |i: int| (entries[i].0@, entries[i].1@))
}

/// The values of `items`, each by its view.
pub open spec fn items_view(items: Seq<DecodedValue>) -> Seq<Value> {
    Seq::new(items.len(), |i: int| items[i]@)
}

/// A composite's view holds its entries' views.
pub proof fn lemma_composite_view(entries: Vec<(String, DecodedValue)>)
    ensures
        DecodedValue::Composite(entries)@ == Value::Composite(entries_view(entries@)),
{
    let v = DecodedValue::Composite(entries);
    assert(v@->Composite_0 =~= entries_view(entries@));
}

/// A sequence's view holds its items' views.
pub proof fn lemma_sequence_view(items: Vec<DecodedValue>)
    ensures
        DecodedValue::Sequence(items)@ == Value::Sequence(items_view(items@)),
{
    let v = DecodedValue::Sequence(items);
    assert(v@->Sequence_0 =~= items_view(items@));
}

/// Why a payload could not be decoded.
#[derive(Debug, Clone, PartialEq, Eq)]
pub enum DecodeErrorKind {
    /// A value of fixed width, or the count in front of an array or a text,
    /// needs more bytes than are left.
    BufferUnderrun { needed: usize, available: usize },
    /// The length in front of a text is larger than what is left after it.
    InvalidLengthPrefix { declared_count: u32 },
    /// The bytes of a text are not UTF-8.
    InvalidUtf8,
    /// The field's type is neither built in nor declared.
    UnresolvedType { missing: String },
    /// Nested types contain one another without a byte in between.
    UnboundedNesting { nested: String },
    /// All fields are decoded and bytes are left over.
    TrailingBytes { remaining: usize },
}

/// The mathematical content of a `DecodeErrorKind`.
pub enum FailureKind {
    BufferUnderrun { needed: nat, available: nat },
    InvalidLengthPrefix { declared_count: nat },
    InvalidUtf8,
    UnresolvedType { missing: Seq<char> },
    UnboundedNesting { nested: Seq<char> },
    TrailingBytes { remaining: nat },
}

impl View for DecodeErrorKind {
    type V = FailureKind;

    open spec fn view(&self) -> FailureKind {
        match self {
            DecodeErrorKind::BufferUnderrun { needed, available } => FailureKind::BufferUnderrun {
                needed: *needed as nat,
                available: *available as nat,
            },
            DecodeErrorKind::InvalidLengthPrefix {
                declared_count,
            } => FailureKind::InvalidLengthPrefix { declared_count: *declared_count as nat },
            DecodeErrorKind::InvalidUtf8 => FailureKind::InvalidUtf8,
            DecodeErrorKind::UnresolvedType { missing } => FailureKind::UnresolvedType {
                missing: missing@,
            },
            DecodeErrorKind::UnboundedNesting { nested } => FailureKind::UnboundedNesting {
                nested: nested@,
            },
            DecodeErrorKind::TrailingBytes { remaining } => FailureKind::TrailingBytes {
                remaining: *remaining as nat,
            },
        }
    }
}

/// A failed decode: what went wrong, in which field, and at which byte of
/// the payload.
#[derive(Debug, Clone, PartialEq, Eq)]
pub struct DecodeError {
    pub kind: DecodeErrorKind,
    /// The names of the fields that lead to the failure, outermost first,
    /// joined by dots. Empty where no field is involved.
    pub field_path: String,
    pub offset: usize,
}

/// The mathematical content of a `DecodeError`.
pub struct Failure {
    pub kind: FailureKind,
    pub path: Seq<char>,
    pub offset: nat,
}

impl View for DecodeError {
    type V = Failure;

    open spec fn view(&self) -> Failure {
        Failure { kind: self.kind@, path: self.field_path@, offset: self.offset as nat }
    }
}

/// The path of a failure inside the field `field`.
pub open spec fn join_path(field: Seq<char>, inner: Seq<char>) -> Seq<char> {
    if inner.len() == 0 {
        field
    } else {
        field + seq!['.'] + inner
    }
}

/// The failure `e`, met while decoding the field `field`.
pub open spec fn within(e: Failure, field: Seq<char>) -> Failure {
    Failure { kind: e.kind, path: join_path(field, e.path), offset: e.offset }
}

impl DecodeError {
    /// A failure that no field is involved in.
    pub fn new(kind: DecodeErrorKind, offset: usize) -> (e: DecodeError)
        ensures
            e@ == (Failure { kind: kind@, path: Seq::empty(), offset: offset as nat }),
    {
        DecodeError { kind, field_path: String::new(), offset }
    }

    /// The same failure, met while decoding the field `field`.
    pub fn within(self, field: &str) -> (e: DecodeError)
        ensures
            e@ == within(self@, field@),
    {
        let DecodeError { kind, field_path, offset } = self;
        let mut path = String::from_str(field);
        if !field_path.as_str().is_empty() {
            proof {
                reveal_strlit(".");
            }
            path.append(".");
            path.append(field_path.as_str());
            assert("."@ =~= seq!['.']);
        }
        DecodeError { kind, field_path: path, offset }
    }
}

/// What went wrong, in words.
pub open spec fn kind_text(kind: FailureKind) -> Seq<char> {
    match kind {
        FailureKind::BufferUnderrun { needed, available } => "buffer underrun: needed "@
            + decimal_text(needed) + ", available "@ + decimal_text(available),
        FailureKind::InvalidLengthPrefix { declared_count } => "invalid length prefix: "@
            + decimal_text(declared_count),
        FailureKind::InvalidUtf8 => "invalid UTF-8"@,
        FailureKind::UnresolvedType { missing } => "unresolved type: "@ + missing,
        FailureKind::UnboundedNesting { nested } => "unbounded nesting of "@ + nested,
        FailureKind::TrailingBytes { remaining } => "trailing bytes: "@ + decimal_text(remaining),
    }
}

/// A failure in words: what went wrong, at which byte, and in which field
/// if a field is involved.
pub open spec fn failure_text(e: Failure) -> Seq<char> {
    let place = kind_text(e.kind) + " at byte "@ + decimal_text(e.offset);
    if e.path.len() == 0 {
        place
    } else {
        place + " in field "@ + e.path
    }
}

impl DecodeErrorKind {
    /// What went wrong, in words.
    pub fn message(&self) -> (r: String)
        ensures
            r@ == kind_text(self@),
    {
        match self {
            DecodeErrorKind::BufferUnderrun { needed, available } => {
                let mut r = String::from_str("buffer underrun: needed ");
                r.append(to_decimal(*needed as u64).as_str());
                r.append(", available ");
                r.append(to_decimal(*available as u64).as_str());
                r
            },
            DecodeErrorKind::InvalidLengthPrefix { declared_count } => {
                let mut r = String::from_str("invalid length prefix: ");
                r.append(to_decimal(*declared_count as u64).as_str());
                r
            },
            DecodeErrorKind::InvalidUtf8 => String::from_str("invalid UTF-8"),
            DecodeErrorKind::UnresolvedType { missing } => {
                let mut r = String::from_str("unresolved type: ");
                r.append(missing.as_str());
                r
            },
            DecodeErrorKind::UnboundedNesting { nested } => {
                let mut r = String::from_str("unbounded nesting of ");
                r.append(nested.as_str());
                r
            },
            DecodeErrorKind::TrailingBytes { remaining } => {
                let mut r = String::from_str("trailing bytes: ");
                r.append(to_decimal(*remaining as u64).as_str());
                r
            },
        }
    }
}

impl DecodeError {
    /// The failure in words.
    pub fn message(&self) -> (r: String)
        ensures
            r@ == failure_text(self@),
    {
        let mut r = self.kind.message();
        r.append(" at byte ");
        r.append(to_decimal(self.offset as u64).as_str());
        if !self.field_path.as_str().is_empty() {
            r.append(" in field ");
            r.append(self.field_path.as_str());
        }
        r
    }
}

} // verus!
