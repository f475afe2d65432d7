//! The type registry: a schema in which every field's type is known, and
//! the resolution of a type name to what it stands for.

use crate::message_parser::{Field, FieldView};
use crate::message_parsing::{kind_of_name, primitive_kind, PrimitiveKind};
use crate::schema::{
    fields_view, find_type, index_of_type, MessageSchema, SchemaError, SchemaErrorView, SchemaView,
    UnresolvedReference, UnresolvedReferenceView,
};
use vstd::prelude::*;
use vstd::string::*;

verus! {

/// What a type name stands for in a schema.
pub enum TargetView {
    /// A built-in wire type.
    Primitive(PrimitiveKind),
    /// A declared type, with its fields.
    Composite(Seq<FieldView>),
    /// Nothing: the name is neither built in nor declared.
    Unknown,
}

/// What the name `name` stands for in `s`. A built-in name stands for the
/// built-in type even where a type of that name is declared.
pub open spec fn target_of(s: SchemaView, name: Seq<char>) -> TargetView {
    match kind_of_name(name) {
        Some(kind) => TargetView::Primitive(kind),
        None => match index_of_type(s.nested, name) {
            Some(i) => TargetView::Composite(s.nested[i].fields),
            None => TargetView::Unknown,
        },
    }
}

/// The name by which an error refers to the field `field` of the type
/// `owner`; the message itself has the empty name.
pub open spec fn reference_name(owner: Seq<char>, field: Seq<char>) -> Seq<char> {
    if owner.len() == 0 {
        field
    } else {
        owner + seq!['.'] + field
    }
}

/// The references to unknown types among the first `n` of `fields`, which
/// are the fields of the type `owner`.
pub open spec fn unresolved_fields(
    s: SchemaView,
    owner: Seq<char>,
    fields: Seq<FieldView>,
    n: nat,
) -> Seq<UnresolvedReferenceView>
    decreases n,
{
    if n == 0 || n > fields.len() {
        Seq::empty()
    } else {
        let before = unresolved_fields(s, owner, fields, (n - 1) as nat);
        let f = fields[n - 1];
        if target_of(s, f.base) is Unknown {
            before.push(
                UnresolvedReferenceView {
                    missing: f.base,
                    referenced_from: reference_name(owner, f.name),
                },
            )
        } else {
            before
        }
    }
}

/// The references to unknown types in the first `k` declared types.
pub open spec fn unresolved_types(s: SchemaView, k: nat) -> Seq<UnresolvedReferenceView>
    decreases k,
{
    if k == 0 || k > s.nested.len() {
        Seq::empty()
    } else {
        let t = s.nested[k - 1];
        unresolved_types(s, (k - 1) as nat) + unresolved_fields(s, t.name, t.fields, t.fields.len())
    }
}

/// Every reference to an unknown type in `s`: those of the message itself,
/// then those of the declared types, in the order of the schema.
pub open spec fn unresolved(s: SchemaView) -> Seq<UnresolvedReferenceView> {
    unresolved_fields(s, Seq::empty(), s.root, s.root.len()) + unresolved_types(s, s.nested.len())
}

/// The schema `s` where no field of it refers to an unknown type, and else
/// the error that lists every such reference.
pub open spec fn validated(s: SchemaView) -> Result<SchemaView, SchemaErrorView> {
    if unresolved(s).len() == 0 {
        Ok(s)
    } else {
        Err(SchemaErrorView::UnresolvedType(unresolved(s)))
    }
}

/// The references of `refs`, each by its view.
pub open spec fn references_view(refs: Seq<UnresolvedReference>) -> Seq<UnresolvedReferenceView> {
    refs.map_values(|r: UnresolvedReference| r@)
}

/// What a type name stands for, as the decoder uses it.
pub enum Target<'a> {
    Primitive(PrimitiveKind),
    Composite(&'a Vec<Field>),
    Unknown,
}

impl<'a> View for Target<'a> {
    type V = TargetView;

    open spec fn view(&self) -> TargetView {
        match self {
            Target::Primitive(kind) => TargetView::Primitive(*kind),
            Target::Composite(fields) => TargetView::Composite(fields_view(fields@)),
            Target::Unknown => TargetView::Unknown,
        }
    }
}

/// What the name `name` stands for in `schema`.
pub fn classify<'a>(schema: &'a MessageSchema, name: &str) -> (target: Target<'a>)
    ensures
        target@ == target_of(schema@, name@),
{
    match primitive_kind(name) {
        Some(kind) => Target::Primitive(kind),
        None => match find_type(&schema.nested_types, name) {
            Some(i) => {
                let t = &schema.nested_types[i];
                assert(schema@.nested[i as int] == t@);
                Target::Composite(&t.fields)
            },
            None => Target::Unknown,
        },
    }
}

/// The name by which an error refers to the field `field` of `owner`.
fn reference_to(owner: &str, field: &str) -> (name: String)
    ensures
        name@ == reference_name(owner@, field@),
{
    if owner.is_empty() {
        String::from_str(field)
    } else {
        proof {
            reveal_strlit(".");
        }
        let mut name = String::from_str(owner);
        name.append(".");
        name.append(field);
        assert("."@ =~= seq!['.']);
        name
    }
}

/// Appends to `found` the references to unknown types among `fields`.
fn collect_unresolved(
    schema: &MessageSchema,
    owner: &str,
    fields: &Vec<Field>,
    found: &mut Vec<UnresolvedReference>,
)
    ensures
        references_view(final(found)@) == references_view(old(found)@) + unresolved_fields(
            schema@,
            owner@,
            fields_view(fields@),
            fields@.len(),
        ),
{
    let ghost start = references_view(found@);
    let mut i: usize = 0;
    assert(start + Seq::<UnresolvedReferenceView>::empty() =~= start);
    while i < fields.len()
        invariant
            i <= fields@.len(),
            references_view(found@) == start + unresolved_fields(
                schema@,
                owner@,
                fields_view(fields@),
                i as nat,
            ),
        decreases fields@.len() - i,
    {
        let field = &fields[i];
        let ghost before = found@;
        let ghost so_far = unresolved_fields(schema@, owner@, fields_view(fields@), i as nat);
        assert(fields_view(fields@)[i as int] == field@);
        match classify(schema, field.field_type.as_str()) {
            Target::Unknown => {
                let r = UnresolvedReference {
                    missing: field.field_type.clone(),
                    referenced_from: reference_to(owner, field.field_name.as_str()),
                };
                found.push(r);
                assert(references_view(found@) =~= references_view(before).push(r@));
                assert(start + so_far.push(r@) =~= (start + so_far).push(r@));
            },
            _ => {},
        }
        i += 1;
    }
}

/// A schema in which every field's type is built in or declared.
#[derive(Debug, PartialEq, Eq)]
pub struct TypeRegistry {
    schema: MessageSchema,
}

impl View for TypeRegistry {
    type V = SchemaView;

    closed spec fn view(&self) -> SchemaView {
        self.schema@
    }
}

impl TypeRegistry {
    /// Whether no field of the schema refers to an unknown type.
    pub open spec fn wf(&self) -> bool {
        unresolved(self@).len() == 0
    }

    #[verifier::type_invariant]
    spec fn inv(self) -> bool {
        unresolved(self.schema@).len() == 0
    }

    /// Validates `schema`: it becomes a registry where every field's type
    /// is known, and else the error lists every field whose type is not.
    pub fn new(schema: MessageSchema) -> (r: Result<TypeRegistry, SchemaError>)
        ensures
            match validated(schema@) {
                Ok(s) => r matches Ok(registry) && registry@ == s && registry.wf(),
                Err(e) => r matches Err(err) && err@ == e,
            },
    {
        let mut found: Vec<UnresolvedReference> = Vec::new();
        assert(references_view(found@) =~= Seq::<UnresolvedReferenceView>::empty());
        let no_owner = String::new();
        collect_unresolved(&schema, no_owner.as_str(), &schema.root_fields, &mut found);
        let ghost in_root = unresolved_fields(
            schema@,
            Seq::empty(),
            schema@.root,
            schema@.root.len(),
        );
        assert(references_view(found@) =~= in_root);
        assert(in_root + Seq::<UnresolvedReferenceView>::empty() =~= in_root);
        let mut k: usize = 0;
        while k < schema.nested_types.len()
            invariant
                k <= schema.nested_types@.len(),
                schema@.nested.len() == schema.nested_types@.len(),
                references_view(found@) == in_root + unresolved_types(schema@, k as nat),
            decreases schema.nested_types@.len() - k,
        {
            let t = &schema.nested_types[k];
            let ghost before = references_view(found@);
            assert(schema@.nested[k as int] == t@);
            collect_unresolved(&schema, t.name.as_str(), &t.fields, &mut found);
            assert(references_view(found@) =~= in_root + unresolved_types(
                schema@,
                (k + 1) as nat,
            ));
            k += 1;
        }
        if found.len() == 0 {
            Ok(TypeRegistry { schema })
        } else {
            Err(SchemaError::UnresolvedType(found))
        }
    }

    /// The schema that this registry holds. It is free of references to
    /// unknown types, as every registry's schema is.
    pub fn schema(&self) -> (schema: &MessageSchema)
        ensures
            schema@ == self@,
            self.wf(),
    {
        proof {
            use_type_invariant(self);
        }
        &self.schema
    }

    /// The fields of the declared type `name`, in order. `None` where no
    /// type of that name is declared.
    pub fn resolve(&self, name: &str) -> (fields: Option<&Vec<Field>>)
        ensures
            match index_of_type(self@.nested, name@) {
                Some(i) => fields matches Some(found) && fields_view(found@)
                    == self@.nested[i].fields,
                None => fields is None,
            },
    {
        match find_type(&self.schema.nested_types, name) {
            Some(i) => {
                assert(self@.nested[i as int] == self.schema.nested_types@[i as int]@);
                Some(&self.schema.nested_types[i].fields)
            },
            None => None,
        }
    }
}

} // verus!
