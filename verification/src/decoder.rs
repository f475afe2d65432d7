//! The binary decoder: a payload read field by field, as the schema says,
//! into a tree of values.

use crate::guarantees::lemma_registry_resolves;
use crate::message_parser::{Field, FieldView, Repeated};
use crate::message_parsing::{
    available, count_at, decode_primitive, failure_at, primitive_at, read_count,
};
use crate::registry::{classify, target_of, Target, TargetView, TypeRegistry};
use crate::schema::{fields_view, SchemaView};
use crate::value::{
    entries_view, items_view, lemma_composite_view, lemma_sequence_view, within, DecodeError,
    DecodeErrorKind, DecodedValue, Failure, FailureKind, Value,
};
use vstd::prelude::*;
use vstd::string::*;

verus! {

/// How many composites may be entered one inside another without a byte
/// read in between. A deeper nesting enters some type twice at one place,
/// and so would never end.
pub open spec fn nesting_budget(s: SchemaView) -> nat {
    s.nested.len()
}

/// A composite made of what decoding its fields gave.
pub open spec fn composite(r: Result<(Seq<(Seq<char>, Value)>, nat), Failure>) -> Result<
    (Value, nat),
    Failure,
> {
    match r {
        Ok((entries, used)) => Ok((Value::Composite(entries), used)),
        Err(e) => Err(e),
    }
}

/// A sequence made of what decoding its elements gave, with the `extra`
/// bytes that its count took.
pub open spec fn sequence(r: Result<(Seq<Value>, nat), Failure>, extra: nat) -> Result<
    (Value, nat),
    Failure,
> {
    match r {
        Ok((items, used)) => Ok((Value::Sequence(items), used + extra)),
        Err(e) => Err(e),
    }
}

/// One value of the type `name`, read `off` bytes into the composite that
/// starts at `entry`, and the number of bytes it takes. `budget` says how
/// many more composites may be entered without a byte read.
pub open spec fn value_at(
    s: SchemaView,
    name: Seq<char>,
    data: Seq<u8>,
    entry: nat,
    off: nat,
    budget: nat,
) -> Result<(Value, nat), Failure>
    decreases available(data.len(), entry), budget, 0nat, 0nat,
{
    let at = entry + off;
    match target_of(s, name) {
        TargetView::Primitive(kind) => primitive_at(kind, data, at),
        TargetView::Unknown => Err(failure_at(FailureKind::UnresolvedType { missing: name }, at)),
        TargetView::Composite(fields) => {
            if available(data.len(), at) < available(data.len(), entry) {
                composite(fields_at(s, fields, fields.len(), data, at, nesting_budget(s)))
            } else if budget > 0 {
                composite(fields_at(s, fields, fields.len(), data, at, (budget - 1) as nat))
            } else {
                Err(failure_at(FailureKind::UnboundedNesting { nested: name }, at))
            }
        },
    }
}

/// The first `count` elements of an array of the type `name` that starts
/// `off` bytes into the composite, and the number of bytes they take.
pub open spec fn elements_at(
    s: SchemaView,
    name: Seq<char>,
    count: nat,
    data: Seq<u8>,
    entry: nat,
    off: nat,
    budget: nat,
) -> Result<(Seq<Value>, nat), Failure>
    decreases available(data.len(), entry), budget, 1nat, count,
{
    if count == 0 {
        Ok((Seq::empty(), 0))
    } else {
        match elements_at(s, name, (count - 1) as nat, data, entry, off, budget) {
            Err(e) => Err(e),
            Ok((items, used)) => match value_at(s, name, data, entry, off + used, budget) {
                Err(e) => Err(e),
                Ok((v, n)) => Ok((items.push(v), used + n)),
            },
        }
    }
}

/// The value of the field `field`, read `off` bytes into the composite: one
/// value, or as many as the definition fixes, or as many as the four bytes
/// in front of them say.
pub open spec fn field_at(
    s: SchemaView,
    field: FieldView,
    data: Seq<u8>,
    entry: nat,
    off: nat,
    budget: nat,
) -> Result<(Value, nat), Failure>
    decreases available(data.len(), entry), budget, 2nat, 0nat,
{
    let r = match field.repeat {
        Repeated::Scalar => value_at(s, field.base, data, entry, off, budget),
        Repeated::Fixed(n) => sequence(
            elements_at(s, field.base, n as nat, data, entry, off, budget),
            0,
        ),
        Repeated::Variable => match count_at(data, entry + off) {
            Err(e) => Err(e),
            Ok(count) => sequence(
                elements_at(s, field.base, count, data, entry, off + 4, budget),
                4,
            ),
        },
    };
    match r {
        Ok(x) => Ok(x),
        Err(e) => Err(within(e, field.name)),
    }
}

/// The first `n` of `fields`, read one after the other from `entry` on,
/// each with its name, and the number of bytes they take.
pub open spec fn fields_at(
    s: SchemaView,
    fields: Seq<FieldView>,
    n: nat,
    data: Seq<u8>,
    entry: nat,
    budget: nat,
) -> Result<(Seq<(Seq<char>, Value)>, nat), Failure>
    decreases available(data.len(), entry), budget, 3nat, n,
{
    if n == 0 || n > fields.len() {
        Ok((Seq::empty(), 0))
    } else {
        match fields_at(s, fields, (n - 1) as nat, data, entry, budget) {
            Err(e) => Err(e),
            Ok((entries, used)) => match field_at(s, fields[n - 1], data, entry, used, budget) {
                Err(e) => Err(e),
                Ok((v, k)) => Ok((entries.push((fields[n - 1].name, v)), used + k)),
            },
        }
    }
}

/// The message that `data` begins with, and the number of bytes it takes.
pub open spec fn message_at_front(s: SchemaView, data: Seq<u8>) -> Result<(Value, nat), Failure> {
    composite(fields_at(s, s.root, s.root.len(), data, 0, nesting_budget(s)))
}

/// The message that `data` holds from its first byte to its last.
pub open spec fn message(s: SchemaView, data: Seq<u8>) -> Result<Value, Failure> {
    match message_at_front(s, data) {
        Err(e) => Err(e),
        Ok((v, used)) => if used < data.len() {
            Err(
                failure_at(
                    FailureKind::TrailingBytes { remaining: (data.len() - used) as nat },
                    used,
                ),
            )
        } else {
            Ok(v)
        },
    }
}

/// Once a field fails, the fields after it change nothing.
pub proof fn lemma_fields_failure(
    s: SchemaView,
    fields: Seq<FieldView>,
    n: nat,
    m: nat,
    data: Seq<u8>,
    entry: nat,
    budget: nat,
)
    requires
        n <= m <= fields.len(),
        fields_at(s, fields, n, data, entry, budget) is Err,
    ensures
        fields_at(s, fields, m, data, entry, budget) == fields_at(
            s,
            fields,
            n,
            data,
            entry,
            budget,
        ),
    decreases m,
{
    if n < m {
        lemma_fields_failure(s, fields, n, (m - 1) as nat, data, entry, budget);
    }
}

/// Once an element fails, the elements after it change nothing.
pub proof fn lemma_elements_failure(
    s: SchemaView,
    name: Seq<char>,
    n: nat,
    m: nat,
    data: Seq<u8>,
    entry: nat,
    off: nat,
    budget: nat,
)
    requires
        n <= m,
        elements_at(s, name, n, data, entry, off, budget) is Err,
    ensures
        elements_at(s, name, m, data, entry, off, budget) == elements_at(
            s,
            name,
            n,
            data,
            entry,
            off,
            budget,
        ),
    decreases m,
{
    if n < m {
        lemma_elements_failure(s, name, n, (m - 1) as nat, data, entry, off, budget);
    }
}

/// Whether `r` is the outcome `expected`, value by value.
pub open spec fn decoded_as(
    r: Result<(DecodedValue, usize), DecodeError>,
    expected: Result<(Value, nat), Failure>,
) -> bool {
    match expected {
        Ok((v, used)) => r matches Ok((value, n)) && value@ == v && n == used,
        Err(e) => r matches Err(err) && err@ == e,
    }
}

/// Whether `r` is the outcome `expected` of decoding a whole payload.
pub open spec fn is_outcome(
    r: Result<DecodedValue, DecodeError>,
    expected: Result<Value, Failure>,
) -> bool {
    match expected {
        Ok(v) => r matches Ok(value) && value@ == v,
        Err(e) => r matches Err(err) && err@ == e,
    }
}

/// Decodes one value of the type `name`, which `target` stands for.
fn decode_value(
    registry: &TypeRegistry,
    name: &str,
    target: &Target,
    data: &[u8],
    entry: usize,
    off: usize,
    budget: usize,
) -> (r: Result<(DecodedValue, usize), DecodeError>)
    requires
        entry + off <= data@.len() <= usize::MAX,
        target@ == target_of(registry@, name@),
    ensures
        decoded_as(r, value_at(registry@, name@, data@, entry as nat, off as nat, budget as nat)),
        r matches Ok((_, n)) ==> entry + off + n <= data@.len(),
    decreases available(data@.len(), entry as nat), budget, 0nat, 0nat,
{
    let at = entry + off;
    match target {
        Target::Primitive(kind) => decode_primitive(*kind, data, at),
        Target::Unknown => Err(
            DecodeError::new(
                DecodeErrorKind::UnresolvedType { missing: String::from_str(name) },
                at,
            ),
        ),
        Target::Composite(fields) => {
            let inner = if off > 0 {
                decode_fields(registry, fields, data, at, registry.schema().nested_types.len())
            } else if budget > 0 {
                decode_fields(registry, fields, data, at, budget - 1)
            } else {
                return Err(
                    DecodeError::new(
                        DecodeErrorKind::UnboundedNesting { nested: String::from_str(name) },
                        at,
                    ),
                );
            };
            match inner {
                Ok((entries, used)) => {
                    proof {
                        lemma_composite_view(entries);
                    }
                    Ok((DecodedValue::Composite(entries), used))
                },
                Err(e) => Err(e),
            }
        },
    }
}

/// Decodes `count` values of the type `name`, one after the other.
fn decode_elements(
    registry: &TypeRegistry,
    name: &str,
    target: &Target,
    count: u32,
    data: &[u8],
    entry: usize,
    off: usize,
    budget: usize,
) -> (r: Result<(Vec<DecodedValue>, usize), DecodeError>)
    requires
        entry + off <= data@.len() <= usize::MAX,
        target@ == target_of(registry@, name@),
    ensures
        match elements_at(
            registry@,
            name@,
            count as nat,
            data@,
            entry as nat,
            off as nat,
            budget as nat,
        ) {
            Ok((values, used)) => r matches Ok((items, n)) && items_view(items@) == values && n
                == used && entry + off + n <= data@.len(),
            Err(e) => r matches Err(err) && err@ == e,
        },
    decreases available(data@.len(), entry as nat), budget, 1nat, count,
{
    let mut items: Vec<DecodedValue> = Vec::new();
    let mut used: usize = 0;
    let mut j: u32 = 0;
    assert(items_view(items@) =~= Seq::<Value>::empty());
    while j < count
        invariant
            j <= count,
            entry + off + used <= data@.len() <= usize::MAX,
            target@ == target_of(registry@, name@),
            elements_at(registry@, name@, j as nat, data@, entry as nat, off as nat, budget as nat)
                == Ok::<(Seq<Value>, nat), Failure>((items_view(items@), used as nat)),
        decreases count - j,
    {
        let ghost before = items@;
        match decode_value(registry, name, target, data, entry, off + used, budget) {
            Err(e) => {
                proof {
                    lemma_elements_failure(
                        registry@,
                        name@,
                        (j + 1) as nat,
                        count as nat,
                        data@,
                        entry as nat,
                        off as nat,
                        budget as nat,
                    );
                }
                return Err(e);
            },
            Ok((value, n)) => {
                items.push(value);
                used = used + n;
                assert(items_view(items@) =~= items_view(before).push(value@));
            },
        }
        j += 1;
    }
    Ok((items, used))
}

/// Decodes the value of `field`.
fn decode_field(
    registry: &TypeRegistry,
    field: &Field,
    data: &[u8],
    entry: usize,
    off: usize,
    budget: usize,
) -> (r: Result<(DecodedValue, usize), DecodeError>)
    requires
        entry + off <= data@.len() <= usize::MAX,
    ensures
        decoded_as(r, field_at(registry@, field@, data@, entry as nat, off as nat, budget as nat)),
        r matches Ok((_, n)) ==> entry + off + n <= data@.len(),
    decreases available(data@.len(), entry as nat), budget, 2nat, 0nat,
{
    let name = field.field_type.as_str();
    let target = classify(registry.schema(), name);
    let r = match field.field_repeat {
        Repeated::Scalar => decode_value(registry, name, &target, data, entry, off, budget),
        Repeated::Fixed(n) => match decode_elements(
            registry,
            name,
            &target,
            n,
            data,
            entry,
            off,
            budget,
        ) {
            Ok((items, used)) => {
                proof {
                    lemma_sequence_view(items);
                }
                Ok((DecodedValue::Sequence(items), used))
            },
            Err(e) => Err(e),
        },
        Repeated::Variable => match read_count(data, entry + off) {
            Err(e) => Err(e),
            Ok(count) => match decode_elements(
                registry,
                name,
                &target,
                count,
                data,
                entry,
                off + 4,
                budget,
            ) {
                Ok((items, used)) => {
                    proof {
                        lemma_sequence_view(items);
                    }
                    Ok((DecodedValue::Sequence(items), used + 4))
                },
                Err(e) => Err(e),
            },
        },
    };
    match r {
        Ok(x) => Ok(x),
        Err(e) => Err(e.within(field.field_name.as_str())),
    }
}

/// Decodes `fields`, one after the other, from the byte `entry` on.
fn decode_fields(
    registry: &TypeRegistry,
    fields: &Vec<Field>,
    data: &[u8],
    entry: usize,
    budget: usize,
) -> (r: Result<(Vec<(String, DecodedValue)>, usize), DecodeError>)
    requires
        entry <= data@.len() <= usize::MAX,
    ensures
        match fields_at(
            registry@,
            fields_view(fields@),
            fields@.len(),
            data@,
            entry as nat,
            budget as nat,
        ) {
            Ok((values, used)) => r matches Ok((entries, n)) && entries_view(entries@) == values
                && n == used && entry + n <= data@.len(),
            Err(e) => r matches Err(err) && err@ == e,
        },
    decreases available(data@.len(), entry as nat), budget, 3nat, fields@.len(),
{
    let mut entries: Vec<(String, DecodedValue)> = Vec::new();
    let mut used: usize = 0;
    let mut i: usize = 0;
    assert(entries_view(entries@) =~= Seq::<(Seq<char>, Value)>::empty());
    while i < fields.len()
        invariant
            i <= fields@.len(),
            entry + used <= data@.len() <= usize::MAX,
            fields_at(registry@, fields_view(fields@), i as nat, data@, entry as nat, budget as nat)
                == Ok::<(Seq<(Seq<char>, Value)>, nat), Failure>(
                (entries_view(entries@), used as nat),
            ),
        decreases fields@.len() - i,
    {
        let field = &fields[i];
        let ghost before = entries@;
        assert(fields_view(fields@)[i as int] == field@);
        match decode_field(registry, field, data, entry, used, budget) {
            Err(e) => {
                proof {
                    lemma_fields_failure(
                        registry@,
                        fields_view(fields@),
                        (i + 1) as nat,
                        fields@.len(),
                        data@,
                        entry as nat,
                        budget as nat,
                    );
                }
                return Err(e);
            },
            Ok((value, n)) => {
                let entry_name = field.field_name.clone();
                entries.push((entry_name, value));
                used = used + n;
                assert(entries_view(entries@) =~= entries_view(before).push((field@.name, value@)));
            },
        }
        i += 1;
    }
    Ok((entries, used))
}

/// Decodes the message that `payload` begins with, and says how many bytes
/// it takes; what follows the message is left unread.
pub fn decode_prefix(registry: &TypeRegistry, payload: &[u8]) -> (r: Result<
    (DecodedValue, usize),
    DecodeError,
>)
    ensures
        decoded_as(r, message_at_front(registry@, payload@)),
        r matches Ok((_, n)) ==> n <= payload@.len(),
        r matches Err(e) ==> !(e@.kind is UnresolvedType),
{
    let schema = registry.schema();
    proof {
        assert(payload@.len() == payload.len());
        lemma_registry_resolves(*registry, payload@);
    }
    match decode_fields(registry, &schema.root_fields, payload, 0, schema.nested_types.len()) {
        Ok((entries, used)) => {
            proof {
                lemma_composite_view(entries);
            }
            Ok((DecodedValue::Composite(entries), used))
        },
        Err(e) => Err(e),
    }
}

/// Decodes `payload` as one message of the registry's schema. The message
/// has to take all of the payload; nothing partial is returned.
pub fn decode(registry: &TypeRegistry, payload: &[u8]) -> (r: Result<DecodedValue, DecodeError>)
    ensures
        is_outcome(r, message(registry@, payload@)),
        r matches Err(e) ==> !(e@.kind is UnresolvedType),
{
    match decode_prefix(registry, payload) {
        Err(e) => Err(e),
        Ok((value, used)) => {
            if used < payload.len() {
                Err(
                    DecodeError::new(
                        DecodeErrorKind::TrailingBytes { remaining: payload.len() - used },
                        used,
                    ),
                )
            } else {
                Ok(value)
            }
        },
    }
}

} // verus!
