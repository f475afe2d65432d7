//! What a message definition denotes: the schema of a message, with the
//! types that it declares, and the errors that reject a definition.

use crate::message_parser::{is_base_name, Field, FieldView};
use crate::text::{decimal_text, str_eq, to_decimal};
use vstd::prelude::*;
use vstd::string::*;

verus! {

/// The fields of `fields`, each by its view.
pub open spec fn fields_view(fields: Seq<Field>) -> Seq<FieldView> {
    fields.map_values(|f: Field| f@)
}

/// A message type that a definition declares in a section of its own.
#[derive(Debug, Clone, PartialEq, Eq)]
pub struct NestedType {
    pub name: String,
    pub fields: Vec<Field>,
}

/// The mathematical content of a `NestedType`.
pub struct NestedTypeView {
    pub name: Seq<char>,
    pub fields: Seq<FieldView>,
}

impl View for NestedType {
    type V = NestedTypeView;

    open spec fn view(&self) -> NestedTypeView {
        NestedTypeView { name: self.name@, fields: fields_view(self.fields@) }
    }
}

/// The types of `types`, each by its view.
pub open spec fn nested_view(types: Seq<NestedType>) -> Seq<NestedTypeView> {
    types.map_values(|t: NestedType| t@)
}

/// What a message definition denotes: the fields of the message itself and
/// the types that its fields may refer to.
#[derive(Debug, Clone, PartialEq, Eq)]
pub struct MessageSchema {
    pub root_fields: Vec<Field>,
    pub nested_types: Vec<NestedType>,
}

/// The mathematical content of a `MessageSchema`.
pub struct SchemaView {
    pub root: Seq<FieldView>,
    pub nested: Seq<NestedTypeView>,
}

impl View for MessageSchema {
    type V = SchemaView;

    open spec fn view(&self) -> SchemaView {
        SchemaView {
            root: fields_view(self.root_fields@),
            nested: nested_view(self.nested_types@),
        }
    }
}

/// A field whose type is neither built in nor declared.
#[derive(Debug, Clone, PartialEq, Eq)]
pub struct UnresolvedReference {
    /// The name of the missing type.
    pub missing: String,
    /// The field that refers to it: `field` for a field of the message
    /// itself, `Type.field` for a field of a declared type.
    pub referenced_from: String,
}

/// The mathematical content of an `UnresolvedReference`.
pub struct UnresolvedReferenceView {
    pub missing: Seq<char>,
    pub referenced_from: Seq<char>,
}

impl View for UnresolvedReference {
    type V = UnresolvedReferenceView;

    open spec fn view(&self) -> UnresolvedReferenceView {
        UnresolvedReferenceView {
            missing: self.missing@,
            referenced_from: self.referenced_from@,
        }
    }
}

/// Why a definition was rejected.
#[derive(Debug, Clone, PartialEq, Eq)]
pub enum SchemaError {
    /// A line that is not `<type> <name>`; it holds the line, without its
    /// comment and the whitespace around it. The empty line stands for a
    /// definition without any field.
    MalformedFieldLine(String),
    /// The section of this index (the message itself is section 0) does not
    /// begin with `MSG: <name>`.
    MissingSectionHeader(usize),
    /// A type token that the grammar does not admit.
    InvalidTypeToken(String),
    /// Fields whose type is neither built in nor declared, in the order of
    /// the definition.
    UnresolvedType(Vec<UnresolvedReference>),
}

/// The mathematical content of a `SchemaError`.
pub enum SchemaErrorView {
    MalformedFieldLine(Seq<char>),
    MissingSectionHeader(nat),
    InvalidTypeToken(Seq<char>),
    UnresolvedType(Seq<UnresolvedReferenceView>),
}

impl View for SchemaError {
    type V = SchemaErrorView;

    open spec fn view(&self) -> SchemaErrorView {
        match self {
            SchemaError::MalformedFieldLine(line) => SchemaErrorView::MalformedFieldLine(line@),
            SchemaError::MissingSectionHeader(section) => SchemaErrorView::MissingSectionHeader(
                *section as nat,
            ),
            SchemaError::InvalidTypeToken(token) => SchemaErrorView::InvalidTypeToken(token@),
            SchemaError::UnresolvedType(references) => SchemaErrorView::UnresolvedType(
                references@.map_values(|r: UnresolvedReference| r@),
            ),
        }
    }
}

/// The position of the type named `name` among `types`, if there is one.
pub open spec fn index_of_type(types: Seq<NestedTypeView>, name: Seq<char>) -> Option<int>
    decreases types.len(),
{
    if types.len() == 0 {
        None
    } else if types[0].name == name {
        Some(0)
    } else {
        match index_of_type(types.drop_first(), name) {
            Some(i) => Some(i + 1),
            None => None,
        }
    }
}

/// `types` with `t` declared: in the place of the type of that name, or at
/// the end where the name is new.
pub open spec fn declare_type(types: Seq<NestedTypeView>, t: NestedTypeView) -> Seq<
    NestedTypeView,
> {
    match index_of_type(types, t.name) {
        Some(i) => types.update(i, t),
        None => types.push(t),
    }
}

/// Whether no two of `types` have one name.
pub open spec fn distinct_names(types: Seq<NestedTypeView>) -> bool {
    forall|i: int, j: int|
        0 <= i < j < types.len() ==> (#[trigger] types[i]).name != (#[trigger] types[j]).name
}

/// Whether each of `fields` has a name and a type that the grammar admits.
pub open spec fn fields_well_formed(fields: Seq<FieldView>) -> bool {
    forall|i: int|
        0 <= i < fields.len() ==> (#[trigger] fields[i]).name.len() > 0 && is_base_name(
            fields[i].base,
        )
}

/// Whether `t` has a name and well-formed fields.
pub open spec fn type_well_formed(t: NestedTypeView) -> bool {
    t.name.len() > 0 && fields_well_formed(t.fields)
}

/// What holds of every schema that a definition denotes: the message has a
/// field, no two declared types have one name, and every field has a name
/// and a type that the grammar admits.
pub open spec fn well_formed(s: SchemaView) -> bool {
    &&& s.root.len() > 0
    &&& fields_well_formed(s.root)
    &&& distinct_names(s.nested)
    &&& forall|k: int| 0 <= k < s.nested.len() ==> type_well_formed(#[trigger] s.nested[k])
}

/// `index_of_type` is the first position that holds the name.
pub proof fn lemma_index_of_type(types: Seq<NestedTypeView>, name: Seq<char>, k: int)
    requires
        0 <= k <= types.len(),
        forall|j: int| 0 <= j < k ==> (#[trigger] types[j]).name != name,
        k < types.len() ==> types[k].name == name,
    ensures
        index_of_type(types, name) == if k < types.len() {
            Some(k)
        } else {
            None::<int>
        },
    decreases types.len(),
{
    if types.len() > 0 && k > 0 {
        let rest = types.drop_first();
        assert forall|j: int| 0 <= j < k - 1 implies (#[trigger] rest[j]).name != name by {
            assert(rest[j] == types[j + 1]);
        }
        lemma_index_of_type(rest, name, k - 1);
    }
}

/// What `index_of_type` finds holds the name, nothing before it does, and
/// where it finds nothing no type holds the name.
pub proof fn lemma_index_of_type_found(types: Seq<NestedTypeView>, name: Seq<char>)
    ensures
        match index_of_type(types, name) {
            Some(i) => 0 <= i < types.len() && types[i].name == name && forall|j: int|
                0 <= j < i ==> (#[trigger] types[j]).name != name,
            None => forall|j: int| 0 <= j < types.len() ==> (#[trigger] types[j]).name != name,
        },
    decreases types.len(),
{
    if types.len() > 0 && types[0].name != name {
        let rest = types.drop_first();
        lemma_index_of_type_found(rest, name);
        match index_of_type(rest, name) {
            Some(i) => {
                assert forall|j: int| 0 <= j < i + 1 implies (#[trigger] types[j]).name
                    != name by {
                    if j > 0 {
                        assert(rest[j - 1] == types[j]);
                    }
                }
            },
            None => {
                assert forall|j: int| 0 <= j < types.len() implies (#[trigger] types[j]).name
                    != name by {
                    if j > 0 {
                        assert(rest[j - 1] == types[j]);
                    }
                }
            },
        }
    }
}

/// Declaring a type keeps the names distinct and the types well formed.
pub proof fn lemma_declare_type(types: Seq<NestedTypeView>, t: NestedTypeView)
    requires
        distinct_names(types),
        forall|k: int| 0 <= k < types.len() ==> type_well_formed(#[trigger] types[k]),
        type_well_formed(t),
    ensures
        distinct_names(declare_type(types, t)),
        forall|k: int|
            0 <= k < declare_type(types, t).len() ==> type_well_formed(
                #[trigger] declare_type(types, t)[k],
            ),
{
    lemma_index_of_type_found(types, t.name);
    let after = declare_type(types, t);
    match index_of_type(types, t.name) {
        Some(at) => {
            assert forall|i: int, j: int| 0 <= i < j < after.len() implies (#[trigger] after[i])
                .name != (#[trigger] after[j]).name by {
                assert(after[i].name == types[i].name);
                assert(after[j].name == types[j].name);
            }
        },
        None => {
            assert forall|i: int, j: int| 0 <= i < j < after.len() implies (#[trigger] after[i])
                .name != (#[trigger] after[j]).name by {
                if j < types.len() {
                    assert(after[i] == types[i] && after[j] == types[j]);
                } else {
                    assert(after[i] == types[i]);
                }
            }
        },
    }
}

/// The position of the type named `name` among `types`, if there is one.
pub fn find_type(types: &Vec<NestedType>, name: &str) -> (r: Option<usize>)
    ensures
        match r {
            Some(i) => i < types@.len() && index_of_type(nested_view(types@), name@) == Some(
                i as int,
            ),
            None => index_of_type(nested_view(types@), name@) is None,
        },
{
    let mut i: usize = 0;
    while i < types.len()
        invariant
            i <= types@.len(),
            forall|j: int| 0 <= j < i ==> (#[trigger] nested_view(types@)[j]).name != name@,
        decreases types@.len() - i,
    {
        if str_eq(types[i].name.as_str(), name) {
            proof {
                lemma_index_of_type(nested_view(types@), name@, i as int);
            }
            return Some(i);
        }
        i += 1;
    }
    proof {
        lemma_index_of_type(nested_view(types@), name@, i as int);
    }
    None
}

/// `types` with `t` declared, as `declare_type` says.
pub(crate) fn declare(types: Vec<NestedType>, t: NestedType) -> (r: Vec<NestedType>)
    ensures
        nested_view(r@) == declare_type(nested_view(types@), t@),
{
    let mut types = types;
    let ghost before = types@;
    match find_type(&types, t.name.as_str()) {
        Some(i) => {
            types.set(i, t);
            assert(nested_view(types@) =~= nested_view(before).update(i as int, t@));
        },
        None => {
            types.push(t);
            assert(nested_view(types@) =~= nested_view(before).push(t@));
        },
    }
    types
}

/// A reference to an unknown type, in words.
pub open spec fn reference_text(r: UnresolvedReferenceView) -> Seq<char> {
    r.missing + " in "@ + r.referenced_from
}

/// The first `n` of `refs` in words, parted by commas.
pub open spec fn references_text(refs: Seq<UnresolvedReferenceView>, n: nat) -> Seq<char>
    decreases n,
{
    if n == 0 || n > refs.len() {
        Seq::empty()
    } else if n == 1 {
        reference_text(refs[0])
    } else {
        references_text(refs, (n - 1) as nat) + ", "@ + reference_text(refs[n - 1])
    }
}

/// Why a definition was rejected, in words.
pub open spec fn schema_error_text(e: SchemaErrorView) -> Seq<char> {
    match e {
        SchemaErrorView::MalformedFieldLine(line) => "malformed field line: "@ + line,
        SchemaErrorView::MissingSectionHeader(section) => "missing header in section "@
            + decimal_text(section),
        SchemaErrorView::InvalidTypeToken(token) => "invalid type token: "@ + token,
        SchemaErrorView::UnresolvedType(refs) => "unresolved types: "@ + references_text(
            refs,
            refs.len(),
        ),
    }
}

impl SchemaError {
    /// Why the definition was rejected, in words.
    pub fn message(&self) -> (r: String)
        ensures
            r@ == schema_error_text(self@),
    {
        match self {
            SchemaError::MalformedFieldLine(line) => {
                let mut r = String::from_str("malformed field line: ");
                r.append(line.as_str());
                r
            },
            SchemaError::MissingSectionHeader(section) => {
                let mut r = String::from_str("missing header in section ");
                r.append(to_decimal(*section as u64).as_str());
                r
            },
            SchemaError::InvalidTypeToken(token) => {
                let mut r = String::from_str("invalid type token: ");
                r.append(token.as_str());
                r
            },
            SchemaError::UnresolvedType(references) => {
                let ghost refs = references@.map_values(|r: UnresolvedReference| r@);
                let mut r = String::from_str("unresolved types: ");
                let ghost head = r@;
                let mut i: usize = 0;
                assert(head + Seq::<char>::empty() =~= head);
                while i < references.len()
                    invariant
                        i <= references@.len(),
                        refs == references@.map_values(|r: UnresolvedReference| r@),
                        r@ == head + references_text(refs, i as nat),
                    decreases references@.len() - i,
                {
                    let reference = &references[i];
                    assert(refs[i as int] == reference@);
                    let ghost before = references_text(refs, i as nat);
                    if i > 0 {
                        r.append(", ");
                    }
                    r.append(reference.missing.as_str());
                    r.append(" in ");
                    r.append(reference.referenced_from.as_str());
                    assert(r@ =~= head + references_text(refs, (i + 1) as nat));
                    i += 1;
                }
                r
            },
        }
    }
}

} // verus!
