//! What holds of every decoding: it has one outcome, it never reads past
//! the end of the payload, and against a registry it never meets a type that
//! it cannot resolve.

use crate::decoder::{
    elements_at, field_at, fields_at, is_outcome, message, message_at_front, value_at,
};
use crate::message_parser::{FieldView, Repeated};
use crate::message_parsing::{available, count_at};
use crate::registry::{
    target_of, unresolved, unresolved_fields, unresolved_types, TargetView, TypeRegistry,
};
use crate::schema::{index_of_type, lemma_index_of_type_found, SchemaView};
use crate::value::{DecodeError, DecodedValue, Failure};
use vstd::prelude::*;

verus! {

/// Whether every one of `fields` has a type that `s` knows.
pub open spec fn fields_resolved(s: SchemaView, fields: Seq<FieldView>) -> bool {
    forall|i: int| 0 <= i < fields.len() ==> !(target_of(s, (#[trigger] fields[i]).base) is Unknown)
}

/// Whether every field of `s`, of the message and of each declared type,
/// has a type that `s` knows.
pub open spec fn all_resolved(s: SchemaView) -> bool {
    &&& fields_resolved(s, s.root)
    &&& forall|k: int|
        0 <= k < s.nested.len() ==> fields_resolved(s, (#[trigger] s.nested[k]).fields)
}

/// Whether decoding failed for want of a type.
pub open spec fn failed_unresolved<T>(r: Result<T, Failure>) -> bool {
    r matches Err(e) && e.kind is UnresolvedType
}

/// The first `n` fields give no reference to an unknown type exactly where
/// each of them has a type that the schema knows.
proof fn lemma_unresolved_fields(s: SchemaView, owner: Seq<char>, fields: Seq<FieldView>, n: nat)
    requires
        n <= fields.len(),
    ensures
        unresolved_fields(s, owner, fields, n).len() == 0 <==> forall|i: int|
            0 <= i < n ==> !(target_of(s, (#[trigger] fields[i]).base) is Unknown),
    decreases n,
{
    if n > 0 {
        lemma_unresolved_fields(s, owner, fields, (n - 1) as nat);
        if unresolved_fields(s, owner, fields, n).len() == 0 {
            assert forall|i: int| 0 <= i < n implies !(target_of(s, (#[trigger] fields[i]).base)
                is Unknown) by {}
        } else {
            if unresolved_fields(s, owner, fields, (n - 1) as nat).len() == 0 {
                assert(target_of(s, fields[n - 1].base) is Unknown);
            }
        }
    }
}

/// The first `k` declared types give no reference to an unknown type
/// exactly where each of their fields has a type that the schema knows.
proof fn lemma_unresolved_types(s: SchemaView, k: nat)
    requires
        k <= s.nested.len(),
    ensures
        unresolved_types(s, k).len() == 0 <==> forall|j: int|
            0 <= j < k ==> fields_resolved(s, (#[trigger] s.nested[j]).fields),
    decreases k,
{
    if k > 0 {
        lemma_unresolved_types(s, (k - 1) as nat);
        let t = s.nested[k - 1];
        lemma_unresolved_fields(s, t.name, t.fields, t.fields.len());
        if unresolved_types(s, k).len() == 0 {
            assert forall|j: int| 0 <= j < k implies fields_resolved(
                s,
                (#[trigger] s.nested[j]).fields,
            ) by {}
        } else {
            if unresolved_types(s, (k - 1) as nat).len() == 0 {
                assert(!fields_resolved(s, s.nested[k - 1].fields));
            }
        }
    }
}

/// A schema is free of references to unknown types exactly where each of
/// its fields has a type that it knows.
pub proof fn lemma_validated_is_resolved(s: SchemaView)
    ensures
        unresolved(s).len() == 0 <==> all_resolved(s),
{
    lemma_unresolved_fields(s, Seq::empty(), s.root, s.root.len());
    lemma_unresolved_types(s, s.nested.len());
}

/// A value of a known type never fails for want of a type.
proof fn lemma_value_resolved(
    s: SchemaView,
    name: Seq<char>,
    data: Seq<u8>,
    entry: nat,
    off: nat,
    budget: nat,
)
    requires
        all_resolved(s),
        !(target_of(s, name) is Unknown),
    ensures
        !failed_unresolved(value_at(s, name, data, entry, off, budget)),
    decreases available(data.len(), entry), budget, 0nat, 0nat,
{
    match target_of(s, name) {
        TargetView::Composite(fields) => {
            lemma_index_of_type_found(s.nested, name);
            let i = index_of_type(s.nested, name)->0;
            assert(fields == s.nested[i].fields);
            let at = entry + off;
            if available(data.len(), at) < available(data.len(), entry) {
                lemma_fields_resolved(s, fields, fields.len(), data, at, s.nested.len());
            } else if budget > 0 {
                lemma_fields_resolved(s, fields, fields.len(), data, at, (budget - 1) as nat);
            }
        },
        _ => {},
    }
}

/// Elements of a known type never fail for want of a type.
proof fn lemma_elements_resolved(
    s: SchemaView,
    name: Seq<char>,
    count: nat,
    data: Seq<u8>,
    entry: nat,
    off: nat,
    budget: nat,
)
    requires
        all_resolved(s),
        !(target_of(s, name) is Unknown),
    ensures
        !failed_unresolved(elements_at(s, name, count, data, entry, off, budget)),
    decreases available(data.len(), entry), budget, 1nat, count,
{
    if count > 0 {
        lemma_elements_resolved(s, name, (count - 1) as nat, data, entry, off, budget);
        match elements_at(s, name, (count - 1) as nat, data, entry, off, budget) {
            Ok((_, used)) => {
                lemma_value_resolved(s, name, data, entry, off + used, budget);
            },
            Err(_) => {},
        }
    }
}

/// A field of a known type never fails for want of a type.
proof fn lemma_field_resolved(
    s: SchemaView,
    field: FieldView,
    data: Seq<u8>,
    entry: nat,
    off: nat,
    budget: nat,
)
    requires
        all_resolved(s),
        !(target_of(s, field.base) is Unknown),
    ensures
        !failed_unresolved(field_at(s, field, data, entry, off, budget)),
    decreases available(data.len(), entry), budget, 2nat, 0nat,
{
    match field.repeat {
        Repeated::Scalar => {
            lemma_value_resolved(s, field.base, data, entry, off, budget);
        },
        Repeated::Fixed(n) => {
            lemma_elements_resolved(s, field.base, n as nat, data, entry, off, budget);
        },
        Repeated::Variable => {
            match count_at(data, entry + off) {
                Ok(count) => {
                    lemma_elements_resolved(s, field.base, count, data, entry, off + 4, budget);
                },
                Err(_) => {},
            }
        },
    }
}

/// Fields of known types never fail for want of a type.
proof fn lemma_fields_resolved(
    s: SchemaView,
    fields: Seq<FieldView>,
    n: nat,
    data: Seq<u8>,
    entry: nat,
    budget: nat,
)
    requires
        all_resolved(s),
        fields_resolved(s, fields),
    ensures
        !failed_unresolved(fields_at(s, fields, n, data, entry, budget)),
    decreases available(data.len(), entry), budget, 3nat, n,
{
    if n > 0 && n <= fields.len() {
        lemma_fields_resolved(s, fields, (n - 1) as nat, data, entry, budget);
        match fields_at(s, fields, (n - 1) as nat, data, entry, budget) {
            Ok((_, used)) => {
                assert(!(target_of(s, fields[n - 1].base) is Unknown));
                lemma_field_resolved(s, fields[n - 1], data, entry, used, budget);
            },
            Err(_) => {},
        }
    }
}

/// Against a registry, decoding never fails for want of a type: whatever
/// the payload, the failure is of another kind.
pub proof fn lemma_registry_resolves(registry: TypeRegistry, payload: Seq<u8>)
    requires
        registry.wf(),
    ensures
        !failed_unresolved(message_at_front(registry@, payload)),
        !failed_unresolved(message(registry@, payload)),
{
    let s = registry@;
    lemma_validated_is_resolved(s);
    lemma_fields_resolved(s, s.root, s.root.len(), payload, 0, s.nested.len());
}

/// Whether a decoding that started within `len` bytes ended within them.
pub open spec fn ends_within<T>(r: Result<(T, nat), Failure>, start: nat, len: nat) -> bool {
    r matches Ok((_, used)) ==> start + used <= len
}

/// A value that decodes ends within the payload.
proof fn lemma_value_within(
    s: SchemaView,
    name: Seq<char>,
    data: Seq<u8>,
    entry: nat,
    off: nat,
    budget: nat,
)
    requires
        entry + off <= data.len(),
    ensures
        ends_within(value_at(s, name, data, entry, off, budget), entry + off, data.len()),
    decreases available(data.len(), entry), budget, 0nat, 0nat,
{
    match target_of(s, name) {
        TargetView::Composite(fields) => {
            let at = entry + off;
            if available(data.len(), at) < available(data.len(), entry) {
                lemma_fields_within(s, fields, fields.len(), data, at, s.nested.len());
            } else if budget > 0 {
                lemma_fields_within(s, fields, fields.len(), data, at, (budget - 1) as nat);
            }
        },
        _ => {},
    }
}

/// Elements that decode end within the payload.
proof fn lemma_elements_within(
    s: SchemaView,
    name: Seq<char>,
    count: nat,
    data: Seq<u8>,
    entry: nat,
    off: nat,
    budget: nat,
)
    requires
        entry + off <= data.len(),
    ensures
        ends_within(elements_at(s, name, count, data, entry, off, budget), entry + off, data.len()),
    decreases available(data.len(), entry), budget, 1nat, count,
{
    if count > 0 {
        lemma_elements_within(s, name, (count - 1) as nat, data, entry, off, budget);
        match elements_at(s, name, (count - 1) as nat, data, entry, off, budget) {
            Ok((_, used)) => {
                lemma_value_within(s, name, data, entry, off + used, budget);
            },
            Err(_) => {},
        }
    }
}

/// A field that decodes ends within the payload.
proof fn lemma_field_within(
    s: SchemaView,
    field: FieldView,
    data: Seq<u8>,
    entry: nat,
    off: nat,
    budget: nat,
)
    requires
        entry + off <= data.len(),
    ensures
        ends_within(field_at(s, field, data, entry, off, budget), entry + off, data.len()),
    decreases available(data.len(), entry), budget, 2nat, 0nat,
{
    match field.repeat {
        Repeated::Scalar => {
            lemma_value_within(s, field.base, data, entry, off, budget);
        },
        Repeated::Fixed(n) => {
            lemma_elements_within(s, field.base, n as nat, data, entry, off, budget);
        },
        Repeated::Variable => {
            match count_at(data, entry + off) {
                Ok(count) => {
                    lemma_elements_within(s, field.base, count, data, entry, off + 4, budget);
                },
                Err(_) => {},
            }
        },
    }
}

/// Fields that decode end within the payload.
proof fn lemma_fields_within(
    s: SchemaView,
    fields: Seq<FieldView>,
    n: nat,
    data: Seq<u8>,
    entry: nat,
    budget: nat,
)
    requires
        entry <= data.len(),
    ensures
        ends_within(fields_at(s, fields, n, data, entry, budget), entry, data.len()),
    decreases available(data.len(), entry), budget, 3nat, n,
{
    if n > 0 && n <= fields.len() {
        lemma_fields_within(s, fields, (n - 1) as nat, data, entry, budget);
        match fields_at(s, fields, (n - 1) as nat, data, entry, budget) {
            Ok((_, used)) => {
                lemma_field_within(s, fields[n - 1], data, entry, used, budget);
            },
            Err(_) => {},
        }
    }
}

/// Decoding never reads past the end of the payload: a message that
/// decodes takes no more bytes than there are, and a payload that decodes as
/// a whole is taken to its last byte.
pub proof fn lemma_decoding_stays_within(s: SchemaView, payload: Seq<u8>)
    ensures
        message_at_front(s, payload) matches Ok((_, used)) ==> used <= payload.len(),
        message(s, payload) is Ok ==> (message_at_front(s, payload) matches Ok((_, used)) && used
            == payload.len()),
{
    lemma_fields_within(s, s.root, s.root.len(), payload, 0, s.nested.len());
}

/// Decoding one payload twice gives equal outcomes: two results that meet
/// what `decode` ensures for one registry and one payload hold equal values,
/// or equal failures.
pub proof fn lemma_decode_twice(
    registry: TypeRegistry,
    payload: Seq<u8>,
    first: Result<DecodedValue, DecodeError>,
    second: Result<DecodedValue, DecodeError>,
)
    requires
        is_outcome(first, message(registry@, payload)),
        is_outcome(second, message(registry@, payload)),
    ensures
        match (first, second) {
            (Ok(a), Ok(b)) => a@ == b@,
            (Err(a), Err(b)) => a@ == b@,
            _ => false,
        },
{
}

} // verus!
