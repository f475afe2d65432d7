//! The width of a message whose layout the schema fixes, and what that
//! width says of decoding.

use crate::decoder::{
    elements_at, field_at, fields_at, message, message_at_front, nesting_budget, value_at,
};
use crate::message_parser::{Field, FieldView, Repeated};
use crate::message_parsing::{available, width, width_of};
use crate::registry::{classify, target_of, Target, TargetView, TypeRegistry};
use crate::schema::{fields_view, MessageSchema, SchemaView};
use vstd::prelude::*;

verus! {

/// The number of bytes that every value of the type `name` takes, where
/// there is such a number: the type is built in and of fixed width, or it is
/// declared, its fields are of fixed width, and it holds declared types at
/// most `depth` deep.
pub open spec fn value_width(s: SchemaView, name: Seq<char>, depth: nat) -> Option<nat>
    decreases depth, 0nat, 0nat,
{
    match target_of(s, name) {
        TargetView::Primitive(kind) => width(kind),
        TargetView::Unknown => None,
        TargetView::Composite(fields) => if depth == 0 {
            None
        } else {
            fields_width(s, fields, fields.len(), (depth - 1) as nat)
        },
    }
}

/// The number of bytes that the field `field` always takes, where there is
/// such a number. An array of no elements takes none; an array whose length
/// is on the wire has no such number.
pub open spec fn field_width(s: SchemaView, field: FieldView, depth: nat) -> Option<nat>
    decreases depth, 1nat, 0nat,
{
    match field.repeat {
        Repeated::Scalar => value_width(s, field.base, depth),
        Repeated::Fixed(n) => if n == 0 {
            Some(0)
        } else {
            match value_width(s, field.base, depth) {
                Some(w) => Some(n as nat * w),
                None => None,
            }
        },
        Repeated::Variable => None,
    }
}

/// The number of bytes that the first `n` of `fields` always take together,
/// where each of them has such a number.
pub open spec fn fields_width(s: SchemaView, fields: Seq<FieldView>, n: nat, depth: nat) -> Option<
    nat,
>
    decreases depth, 2nat, n,
{
    if n == 0 || n > fields.len() {
        Some(0)
    } else {
        match fields_width(s, fields, (n - 1) as nat, depth) {
            None => None,
            Some(before) => match field_width(s, fields[n - 1], depth) {
                None => None,
                Some(w) => Some(before + w),
            },
        }
    }
}

/// The number of bytes that every message of the schema takes, where the
/// schema fixes it.
pub open spec fn schema_width(s: SchemaView) -> Option<nat> {
    fields_width(s, s.root, s.root.len(), nesting_budget(s))
}

/// A value of fixed width decodes wherever that many bytes are left, and
/// takes exactly that many.
pub proof fn lemma_value_decodes(
    s: SchemaView,
    name: Seq<char>,
    data: Seq<u8>,
    entry: nat,
    off: nat,
    budget: nat,
    depth: nat,
)
    requires
        value_width(s, name, depth) is Some,
        entry + off + value_width(s, name, depth)->0 <= data.len(),
        depth <= budget,
        depth <= nesting_budget(s),
    ensures
        value_at(s, name, data, entry, off, budget) matches Ok((_, used)) && used == value_width(
            s,
            name,
            depth,
        )->0,
    decreases depth, 0nat, 0nat,
{
    match target_of(s, name) {
        TargetView::Primitive(kind) => {},
        TargetView::Unknown => {},
        TargetView::Composite(fields) => {
            let at = entry + off;
            if available(data.len(), at) < available(data.len(), entry) {
                lemma_fields_decode(
                    s,
                    fields,
                    fields.len(),
                    data,
                    at,
                    nesting_budget(s),
                    (depth - 1) as nat,
                );
            } else {
                lemma_fields_decode(
                    s,
                    fields,
                    fields.len(),
                    data,
                    at,
                    (budget - 1) as nat,
                    (depth - 1) as nat,
                );
            }
        },
    }
}

/// `count` values of fixed width decode one after the other and take
/// `count` times that width.
pub proof fn lemma_elements_decode(
    s: SchemaView,
    name: Seq<char>,
    count: nat,
    data: Seq<u8>,
    entry: nat,
    off: nat,
    budget: nat,
    depth: nat,
)
    requires
        value_width(s, name, depth) is Some,
        entry + off + count * value_width(s, name, depth)->0 <= data.len(),
        depth <= budget,
        depth <= nesting_budget(s),
    ensures
        elements_at(s, name, count, data, entry, off, budget) matches Ok((_, used)) && used
            == count * value_width(s, name, depth)->0,
    decreases depth, 1nat, count,
{
    let w = value_width(s, name, depth)->0;
    if count > 0 {
        assert(count * w == (count - 1) * w + w) by (nonlinear_arith);
        lemma_elements_decode(s, name, (count - 1) as nat, data, entry, off, budget, depth);
        lemma_value_decodes(s, name, data, entry, (off + (count - 1) * w) as nat, budget, depth);
    } else {
        assert(count * w == 0) by (nonlinear_arith)
            requires
                count == 0,
        ;
    }
}

/// A field of fixed width decodes wherever that many bytes are left, and
/// takes exactly that many.
pub proof fn lemma_field_decodes(
    s: SchemaView,
    field: FieldView,
    data: Seq<u8>,
    entry: nat,
    off: nat,
    budget: nat,
    depth: nat,
)
    requires
        field_width(s, field, depth) is Some,
        entry + off + field_width(s, field, depth)->0 <= data.len(),
        depth <= budget,
        depth <= nesting_budget(s),
    ensures
        field_at(s, field, data, entry, off, budget) matches Ok((_, used)) && used == field_width(
            s,
            field,
            depth,
        )->0,
    decreases depth, 2nat, 0nat,
{
    match field.repeat {
        Repeated::Scalar => {
            lemma_value_decodes(s, field.base, data, entry, off, budget, depth);
        },
        Repeated::Fixed(n) => {
            if n > 0 {
                lemma_elements_decode(s, field.base, n as nat, data, entry, off, budget, depth);
            }
        },
        Repeated::Variable => {},
    }
}

/// Fields of fixed width decode wherever as many bytes are left as they
/// take together, and take exactly that many.
pub proof fn lemma_fields_decode(
    s: SchemaView,
    fields: Seq<FieldView>,
    n: nat,
    data: Seq<u8>,
    entry: nat,
    budget: nat,
    depth: nat,
)
    requires
        fields_width(s, fields, n, depth) is Some,
        entry + fields_width(s, fields, n, depth)->0 <= data.len(),
        depth <= budget,
        depth <= nesting_budget(s),
    ensures
        fields_at(s, fields, n, data, entry, budget) matches Ok((_, used)) && used == fields_width(
            s,
            fields,
            n,
            depth,
        )->0,
    decreases depth, 3nat, n,
{
    if n > 0 && n <= fields.len() {
        let before = fields_width(s, fields, (n - 1) as nat, depth)->0;
        lemma_fields_decode(s, fields, (n - 1) as nat, data, entry, budget, depth);
        lemma_field_decodes(s, fields[n - 1], data, entry, before, budget, depth);
    }
}

/// Where the schema fixes the width of its messages, every payload of that
/// width decodes, and the message takes all of it.
pub proof fn lemma_fixed_width_decodes(s: SchemaView, data: Seq<u8>)
    requires
        schema_width(s) == Some(data.len()),
    ensures
        message(s, data) is Ok,
        message_at_front(s, data) matches Ok((_, used)) && used == data.len(),
{
    lemma_fields_decode(s, s.root, s.root.len(), data, 0, nesting_budget(s), nesting_budget(s));
}

/// Fewer fields never take more bytes.
pub proof fn lemma_fields_width_grows(
    s: SchemaView,
    fields: Seq<FieldView>,
    n: nat,
    m: nat,
    depth: nat,
)
    requires
        n <= m <= fields.len(),
        fields_width(s, fields, m, depth) is Some,
    ensures
        fields_width(s, fields, n, depth) is Some,
        fields_width(s, fields, n, depth)->0 <= fields_width(s, fields, m, depth)->0,
    decreases m,
{
    if n < m {
        lemma_fields_width_grows(s, fields, n, (m - 1) as nat, depth);
    }
}

/// Whether `r` is the width `w` as far as a `usize` can hold it: the same
/// number, or nothing where there is no width or one that does not fit.
pub open spec fn fits(r: Option<usize>, w: Option<nat>) -> bool {
    match r {
        Some(x) => w == Some(x as nat),
        None => w matches Some(big) ==> big > usize::MAX,
    }
}

/// The width of a value of the type `name`.
fn value_extent(schema: &MessageSchema, name: &str, depth: usize) -> (r: Option<usize>)
    ensures
        fits(r, value_width(schema@, name@, depth as nat)),
    decreases depth, 0nat, 0nat,
{
    match classify(schema, name) {
        Target::Primitive(kind) => width_of(kind),
        Target::Unknown => None,
        Target::Composite(fields) => {
            if depth == 0 {
                None
            } else {
                fields_extent(schema, fields, depth - 1)
            }
        },
    }
}

/// The width of the field `field`.
fn field_extent(schema: &MessageSchema, field: &Field, depth: usize) -> (r: Option<usize>)
    ensures
        fits(r, field_width(schema@, field@, depth as nat)),
    decreases depth, 1nat, 0nat,
{
    match field.field_repeat {
        Repeated::Scalar => value_extent(schema, field.field_type.as_str(), depth),
        Repeated::Fixed(n) => {
            if n == 0 {
                Some(0)
            } else {
                match value_extent(schema, field.field_type.as_str(), depth) {
                    None => {
                        proof {
                            let w = value_width(schema@, field@.base, depth as nat);
                            if w is Some {
                                assert(n as nat * w->0 >= w->0) by (nonlinear_arith)
                                    requires
                                        n >= 1,
                                ;
                            }
                        }
                        None
                    },
                    Some(w) => (n as usize).checked_mul(w),
                }
            }
        },
        Repeated::Variable => None,
    }
}

/// The width of `fields` together.
fn fields_extent(schema: &MessageSchema, fields: &Vec<Field>, depth: usize) -> (r: Option<usize>)
    ensures
        fits(r, fields_width(schema@, fields_view(fields@), fields@.len(), depth as nat)),
    decreases depth, 2nat, fields@.len(),
{
    let mut total: usize = 0;
    let mut i: usize = 0;
    while i < fields.len()
        invariant
            i <= fields@.len(),
            fields_width(schema@, fields_view(fields@), i as nat, depth as nat) == Some(
                total as nat,
            ),
        decreases fields@.len() - i,
    {
        let field = &fields[i];
        assert(fields_view(fields@)[i as int] == field@);
        let next = match field_extent(schema, field, depth) {
            Some(w) => total.checked_add(w),
            None => None,
        };
        match next {
            Some(sum) => {
                total = sum;
            },
            None => {
                proof {
                    let all = fields_width(
                        schema@,
                        fields_view(fields@),
                        fields@.len(),
                        depth as nat,
                    );
                    if all is Some {
                        lemma_fields_width_grows(
                            schema@,
                            fields_view(fields@),
                            (i + 1) as nat,
                            fields@.len(),
                            depth as nat,
                        );
                    }
                }
                return None;
            },
        }
        i += 1;
    }
    Some(total)
}

impl TypeRegistry {
    /// The number of bytes that every message of the schema takes, where
    /// the schema fixes that number: no field, at any depth, is a text or an
    /// array whose length is on the wire. `None` also where the number is
    /// beyond `usize`.
    pub fn fixed_width(&self) -> (bytes: Option<usize>)
        ensures
            fits(bytes, schema_width(self@)),
    {
        let schema = self.schema();
        fields_extent(schema, &schema.root_fields, schema.nested_types.len())
    }
}

} // verus!
