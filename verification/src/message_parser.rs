//! The message-definition language: type tokens, field lines and sections,
//! and the parser that reads a definition into its schema.

use crate::schema::{
    declare, declare_type, distinct_names, fields_view, fields_well_formed, lemma_declare_type,
    nested_view, type_well_formed, well_formed, MessageSchema, NestedType, NestedTypeView,
    SchemaError, SchemaErrorView, SchemaView,
};
use crate::text::{
    char_is_digit, char_is_ident, char_is_letter, chars_of, decimal_text, find_in, first_index,
    is_digit, is_ident_char, is_letter, is_whitespace, lemma_first_index_found, lemma_trim_ends,
    trim, trim_range,
};
use vstd::prelude::*;
use vstd::string::*;

verus! {

/// How often a field's value is repeated on the wire.
#[derive(Debug, Clone, Copy, PartialEq, Eq, Structural)]
pub enum Repeated {
    /// A single value.
    Scalar,
    /// An array whose length the definition fixes.
    Fixed(u32),
    /// An array whose length precedes its elements on the wire.
    Variable,
}

/// One field of a message type.
#[derive(Debug, Clone, PartialEq, Eq)]
pub struct Field {
    pub field_name: String,
    pub field_type: String,
    pub field_repeat: Repeated,
}

/// The mathematical content of a `Field`.
pub struct FieldView {
    pub name: Seq<char>,
    pub base: Seq<char>,
    pub repeat: Repeated,
}

impl View for Field {
    type V = FieldView;

    open spec fn view(&self) -> FieldView {
        FieldView {
            name: self.field_name@,
            base: self.field_type@,
            repeat: self.field_repeat,
        }
    }
}

/// A letter followed by letters, digits and underscores.
pub open spec fn is_identifier(s: Seq<char>) -> bool {
    &&& s.len() > 0
    &&& is_letter(s[0])
    &&& forall|i: int| 0 < i < s.len() ==> is_ident_char(#[trigger] s[i])
}

/// One identifier, or two joined by a single `/`.
pub open spec fn is_base_name(s: Seq<char>) -> bool {
    let slash = first_index(s, '/');
    if slash == s.len() {
        is_identifier(s)
    } else {
        is_identifier(s.take(slash)) && is_identifier(s.skip(slash + 1))
    }
}

/// Whether every character of `s` is a decimal digit.
pub open spec fn is_digits(s: Seq<char>) -> bool {
    forall|i: int| 0 <= i < s.len() ==> is_digit(#[trigger] s[i])
}

/// The number that the decimal digits `s` write.
pub open spec fn decimal_value(s: Seq<char>) -> nat
    decreases s.len(),
{
    if s.len() == 0 {
        0
    } else {
        (decimal_value(s.drop_last()) * 10 + (s.last() as u32 - '0' as u32)) as nat
    }
}

/// The base type and repetition that a type token denotes, or `None` where
/// the token is not of the form `name`, `name[]` or `name[digits]` with a
/// count that fits 32 bits.
pub open spec fn type_token(t: Seq<char>) -> Option<(Seq<char>, Repeated)> {
    let open = first_index(t, '[');
    let base = t.take(open);
    if !is_base_name(base) {
        None
    } else if open == t.len() {
        Some((base, Repeated::Scalar))
    } else if t.last() != ']' {
        None
    } else {
        let inner = t.subrange(open + 1, t.len() - 1);
        if inner.len() == 0 {
            Some((base, Repeated::Variable))
        } else if is_digits(inner) && decimal_value(inner) <= u32::MAX {
            Some((base, Repeated::Fixed(decimal_value(inner) as u32)))
        } else {
            None
        }
    }
}

/// Digits written before others never make the number smaller.
pub proof fn lemma_decimal_prefix(s: Seq<char>, n: int)
    requires
        is_digits(s),
        0 <= n <= s.len(),
    ensures
        decimal_value(s.take(n)) <= decimal_value(s),
    decreases s.len() - n,
{
    if n < s.len() {
        lemma_decimal_prefix(s, n + 1);
        let longer = s.take(n + 1);
        assert(longer.drop_last() =~= s.take(n));
        assert(is_digit(s[n]));
        assert(longer.last() == s[n]);
    } else {
        assert(s.take(n) =~= s);
    }
}

/// A number written in decimal digits reads back as itself.
pub proof fn lemma_decimal_round_trip(n: nat)
    ensures
        is_digits(decimal_text(n)),
        decimal_value(decimal_text(n)) == n,
    decreases n,
{
    let text = decimal_text(n);
    if n < 10 {
        assert(text.drop_last() =~= Seq::<char>::empty());
        assert(decimal_value(text.drop_last()) == 0);
    } else {
        lemma_decimal_round_trip(n / 10);
        assert(text.drop_last() =~= decimal_text(n / 10));
        assert forall|i: int| 0 <= i < text.len() implies is_digit(#[trigger] text[i]) by {
            if i < text.len() - 1 {
                assert(text[i] == decimal_text(n / 10)[i]);
            }
        }
    }
}

/// Whether `chars[lo..hi]` is an identifier.
fn check_identifier(chars: &Vec<char>, lo: usize, hi: usize) -> (r: bool)
    requires
        lo <= hi <= chars@.len(),
    ensures
        r == is_identifier(chars@.subrange(lo as int, hi as int)),
{
    let ghost s = chars@.subrange(lo as int, hi as int);
    if lo == hi || !char_is_letter(chars[lo]) {
        return false;
    }
    let mut i: usize = lo + 1;
    while i < hi
        invariant
            lo < i <= hi <= chars@.len(),
            s == chars@.subrange(lo as int, hi as int),
            forall|j: int| 0 < j < i - lo ==> is_ident_char(#[trigger] s[j]),
        decreases hi - i,
    {
        if !char_is_ident(chars[i]) {
            assert(s[i - lo] == chars@[i as int]);
            return false;
        }
        assert(s[i - lo] == chars@[i as int]);
        i += 1;
    }
    true
}

/// Whether `chars[lo..hi]` is the name of a type.
fn check_base_name(chars: &Vec<char>, lo: usize, hi: usize) -> (r: bool)
    requires
        lo <= hi <= chars@.len(),
    ensures
        r == is_base_name(chars@.subrange(lo as int, hi as int)),
{
    let ghost s = chars@.subrange(lo as int, hi as int);
    let slash = find_in(chars, lo, hi, '/');
    if slash == hi {
        check_identifier(chars, lo, hi)
    } else {
        proof {
            assert(s.take(slash - lo) =~= chars@.subrange(lo as int, slash as int));
            assert(s.skip(slash - lo + 1) =~= chars@.subrange(slash + 1, hi as int));
        }
        check_identifier(chars, lo, slash) && check_identifier(chars, slash + 1, hi)
    }
}

/// Reads the type token `chars[lo..hi]`: where it is well formed, the end of
/// its base type name and its repetition.
#[verifier::loop_isolation(false)]
pub(crate) fn scan_type_token(chars: &Vec<char>, lo: usize, hi: usize) -> (r: Option<
    (usize, Repeated),
>)
    requires
        lo <= hi <= chars@.len(),
    ensures
        match type_token(chars@.subrange(lo as int, hi as int)) {
            Some((base, repeat)) => r matches Some((end, rep)) && rep == repeat && lo <= end <= hi
                && chars@.subrange(lo as int, end as int) == base,
            None => r is None,
        },
{
    let ghost t = chars@.subrange(lo as int, hi as int);
    let open = find_in(chars, lo, hi, '[');
    proof {
        assert(t.take(open - lo) =~= chars@.subrange(lo as int, open as int));
    }
    if !check_base_name(chars, lo, open) {
        return None;
    }
    if open == hi {
        return Some((open, Repeated::Scalar));
    }
    assert(t.last() == chars@[hi - 1]);
    if chars[hi - 1] != ']' {
        return None;
    }
    let ghost inner = t.subrange(open - lo + 1, t.len() - 1);
    assert(inner =~= chars@.subrange(open + 1, hi - 1));
    if open + 1 == hi - 1 {
        return Some((open, Repeated::Variable));
    }
    let mut value: u64 = 0;
    let mut i: usize = open + 1;
    while i < hi - 1
        invariant
            open + 1 <= i <= hi - 1,
            hi <= chars@.len(),
            inner == chars@.subrange(open + 1, hi - 1),
            forall|j: int| 0 <= j < i - (open + 1) ==> is_digit(#[trigger] inner[j]),
            value == decimal_value(inner.take(i - (open + 1))),
            value <= u32::MAX,
        decreases hi - i,
    {
        let c = chars[i];
        assert(inner[i - (open + 1)] == c);
        if !char_is_digit(c) {
            return None;
        }
        let ghost shorter = inner.take(i - (open + 1));
        let ghost longer = inner.take(i - (open + 1) + 1);
        assert(longer.drop_last() =~= shorter);
        assert(longer.last() == c);
        value = value * 10 + (c as u32 - '0' as u32) as u64;
        if value > u32::MAX as u64 {
            proof {
                if is_digits(inner) {
                    lemma_decimal_prefix(inner, i - (open + 1) + 1);
                }
            }
            return None;
        }
        i += 1;
    }
    assert(inner.take(inner.len() as int) =~= inner);
    Some((open, Repeated::Fixed(value as u32)))
}

/// Splits a type token into its base type and its repetition. `None` where
/// the token is malformed.
pub fn match_repeat(field_def: &str) -> (r: Option<(&str, Repeated)>)
    ensures
        match type_token(field_def@) {
            Some((base, repeat)) => r matches Some((name, rep)) && name@ == base && rep == repeat,
            None => r is None,
        },
{
    let chars = chars_of(field_def);
    assert(chars@.subrange(0, chars@.len() as int) =~= chars@);
    match scan_type_token(&chars, 0, chars.len()) {
        Some((end, repeat)) => Some((field_def.substring_char(0, end), repeat)),
        None => None,
    }
}

/// A line without its comment and without the whitespace around what is
/// left.
pub open spec fn content(line: Seq<char>) -> Seq<char> {
    trim(line.take(first_index(line, '#')))
}

/// Whether `c` is the line that parts two sections: eighty `=`.
pub open spec fn is_separator(c: Seq<char>) -> bool {
    c.len() == 80 && forall|i: int| 0 <= i < c.len() ==> #[trigger] c[i] == '='
}

/// The type name of the section header `MSG: <name>`, or `None` where `c` is
/// no such header.
pub open spec fn header_name(c: Seq<char>) -> Option<Seq<char>> {
    if c.len() >= 5 && c[0] == 'M' && c[1] == 'S' && c[2] == 'G' && c[3] == ':' && c[4] == ' '
        && trim(c.skip(5)).len() > 0 {
        Some(trim(c.skip(5)))
    } else {
        None
    }
}

/// The field that the line content `c` declares: a type token, one space,
/// and the field's name, which is the rest of the line.
pub open spec fn field_line(c: Seq<char>) -> Result<FieldView, SchemaErrorView> {
    let space = first_index(c, ' ');
    if space == c.len() {
        Err(SchemaErrorView::MalformedFieldLine(c))
    } else {
        match type_token(c.take(space)) {
            Some((base, repeat)) => Ok(FieldView { name: c.skip(space + 1), base, repeat }),
            None => Err(SchemaErrorView::InvalidTypeToken(c.take(space))),
        }
    }
}

/// Where the parser stands between two lines.
pub struct ParseState {
    /// The fields of the message itself.
    pub root: Seq<FieldView>,
    /// The types of the sections that are closed.
    pub nested: Seq<NestedTypeView>,
    /// The index of the section that the next line belongs to.
    pub section: nat,
    /// The type of the open section, once its header was read.
    pub current: Option<NestedTypeView>,
}

/// The state before the first line.
pub open spec fn initial_state() -> ParseState {
    ParseState { root: Seq::empty(), nested: Seq::empty(), section: 0, current: None }
}

/// What keeps the open section from being closed: the message itself
/// without a field, or a later section without its header.
pub open spec fn section_error(st: ParseState) -> Option<SchemaErrorView> {
    if st.section == 0 {
        if st.root.len() == 0 {
            Some(SchemaErrorView::MalformedFieldLine(Seq::empty()))
        } else {
            None
        }
    } else if st.current is None {
        Some(SchemaErrorView::MissingSectionHeader(st.section))
    } else {
        None
    }
}

/// The types declared once the open section is closed.
pub open spec fn closed_types(st: ParseState) -> Seq<NestedTypeView> {
    match st.current {
        Some(t) => declare_type(st.nested, t),
        None => st.nested,
    }
}

/// The state after one more line.
pub open spec fn step(st: ParseState, line: Seq<char>) -> Result<ParseState, SchemaErrorView> {
    let c = content(line);
    if c.len() == 0 {
        Ok(st)
    } else if is_separator(c) {
        match section_error(st) {
            Some(e) => Err(e),
            None => Ok(
                ParseState {
                    root: st.root,
                    nested: closed_types(st),
                    section: st.section + 1,
                    current: None,
                },
            ),
        }
    } else if st.section == 0 {
        match field_line(c) {
            Ok(f) => Ok(ParseState { root: st.root.push(f), ..st }),
            Err(e) => Err(e),
        }
    } else {
        match st.current {
            None => match header_name(c) {
                Some(name) => Ok(
                    ParseState {
                        current: Some(NestedTypeView { name, fields: Seq::empty() }),
                        ..st
                    },
                ),
                None => Err(SchemaErrorView::MissingSectionHeader(st.section)),
            },
            Some(t) => match field_line(c) {
                Ok(f) => Ok(
                    ParseState {
                        current: Some(NestedTypeView { name: t.name, fields: t.fields.push(f) }),
                        ..st
                    },
                ),
                Err(e) => Err(e),
            },
        }
    }
}

/// The state after the lines of `text`, which are parted by `\n`.
pub open spec fn run(st: ParseState, text: Seq<char>) -> Result<ParseState, SchemaErrorView>
    decreases text.len(),
{
    let end = first_index(text, '\n');
    match step(st, text.take(end)) {
        Err(e) => Err(e),
        Ok(next) => if end >= text.len() {
            Ok(next)
        } else {
            proof {
                lemma_first_index_found(text, '\n');
            }
            run(next, text.skip(end + 1))
        },
    }
}

/// The schema that the definition `text` denotes, or the first error in it.
pub open spec fn parse_definition(text: Seq<char>) -> Result<SchemaView, SchemaErrorView> {
    match run(initial_state(), text) {
        Err(e) => Err(e),
        Ok(st) => match section_error(st) {
            Some(e) => Err(e),
            None => Ok(SchemaView { root: st.root, nested: closed_types(st) }),
        },
    }
}

/// What holds of the parser's state between any two lines.
pub open spec fn state_well_formed(st: ParseState) -> bool {
    &&& st.section > 0 ==> st.root.len() > 0
    &&& fields_well_formed(st.root)
    &&& distinct_names(st.nested)
    &&& forall|k: int| 0 <= k < st.nested.len() ==> type_well_formed(#[trigger] st.nested[k])
    &&& st.current matches Some(t) ==> type_well_formed(t)
}

/// The field of a line that is trimmed has a name and a well-formed type.
pub proof fn lemma_field_line(line: Seq<char>)
    requires
        field_line(content(line)) is Ok,
    ensures
        field_line(content(line))->Ok_0.name.len() > 0,
        is_base_name(field_line(content(line))->Ok_0.base),
{
    let c = content(line);
    lemma_trim_ends(line.take(first_index(line, '#')));
    lemma_first_index_found(c, ' ');
    let space = first_index(c, ' ');
    if space == c.len() - 1 {
        assert(c.last() == ' ');
        assert(is_whitespace(' '));
    }
}

/// A line keeps the parser's state well formed.
pub proof fn lemma_step(st: ParseState, line: Seq<char>)
    requires
        state_well_formed(st),
        step(st, line) is Ok,
    ensures
        state_well_formed(step(st, line)->Ok_0),
{
    let c = content(line);
    let next = step(st, line)->Ok_0;
    if c.len() == 0 {
    } else if is_separator(c) {
        if st.current is Some {
            lemma_declare_type(st.nested, st.current->0);
        }
    } else if st.section == 0 {
        lemma_field_line(line);
        let f = field_line(c)->Ok_0;
        assert forall|i: int| 0 <= i < next.root.len() implies (#[trigger] next.root[i]).name.len()
            > 0 && is_base_name(next.root[i].base) by {
            if i < st.root.len() {
                assert(next.root[i] == st.root[i]);
            }
        }
    } else {
        match st.current {
            None => {},
            Some(t) => {
                lemma_field_line(line);
                let fields = next.current->0.fields;
                assert forall|i: int| 0 <= i < fields.len() implies (#[trigger] fields[i]).name
                    .len() > 0 && is_base_name(fields[i].base) by {
                    if i < t.fields.len() {
                        assert(fields[i] == t.fields[i]);
                    }
                }
            },
        }
    }
}

/// The lines of a text keep the parser's state well formed.
pub proof fn lemma_run(st: ParseState, text: Seq<char>)
    requires
        state_well_formed(st),
        run(st, text) is Ok,
    ensures
        state_well_formed(run(st, text)->Ok_0),
    decreases text.len(),
{
    let end = first_index(text, '\n');
    lemma_step(st, text.take(end));
    if end < text.len() {
        lemma_first_index_found(text, '\n');
        lemma_run(step(st, text.take(end))->Ok_0, text.skip(end + 1));
    }
}

/// Every schema that a definition denotes is well formed.
pub proof fn lemma_parsed_is_well_formed(text: Seq<char>)
    requires
        parse_definition(text) is Ok,
    ensures
        well_formed(parse_definition(text)->Ok_0),
{
    lemma_run(initial_state(), text);
    let st = run(initial_state(), text)->Ok_0;
    if st.current is Some {
        lemma_declare_type(st.nested, st.current->0);
    }
}

/// The text `definition[from..to]`, counted in characters.
fn owned(definition: &str, from: usize, to: usize) -> (r: String)
    requires
        from <= to <= definition@.len(),
    ensures
        r@ == definition@.subrange(from as int, to as int),
{
    String::from_str(definition.substring_char(from, to))
}

/// The bounds of the content of the line `chars[lo..hi]`.
fn content_range(chars: &Vec<char>, lo: usize, hi: usize) -> (r: (usize, usize))
    requires
        lo <= hi <= chars@.len(),
    ensures
        lo <= r.0 <= r.1 <= hi,
        chars@.subrange(r.0 as int, r.1 as int) == content(chars@.subrange(lo as int, hi as int)),
{
    let hash = find_in(chars, lo, hi, '#');
    assert(chars@.subrange(lo as int, hi as int).take(hash - lo) =~= chars@.subrange(
        lo as int,
        hash as int,
    ));
    trim_range(chars, lo, hash)
}

/// Whether `chars[a..b]` is the line that parts two sections.
fn check_separator(chars: &Vec<char>, a: usize, b: usize) -> (r: bool)
    requires
        a <= b <= chars@.len(),
    ensures
        r == is_separator(chars@.subrange(a as int, b as int)),
{
    let ghost c = chars@.subrange(a as int, b as int);
    if b - a != 80 {
        return false;
    }
    let mut i: usize = a;
    while i < b
        invariant
            a <= i <= b <= chars@.len(),
            c == chars@.subrange(a as int, b as int),
            forall|j: int| 0 <= j < i - a ==> #[trigger] c[j] == '=',
        decreases b - i,
    {
        if chars[i] != '=' {
            assert(c[i - a] == chars@[i as int]);
            return false;
        }
        assert(c[i - a] == chars@[i as int]);
        i += 1;
    }
    true
}

/// The bounds of the type name in the section header `chars[a..b]`.
fn read_header(chars: &Vec<char>, a: usize, b: usize) -> (r: Option<(usize, usize)>)
    requires
        a <= b <= chars@.len(),
    ensures
        match header_name(chars@.subrange(a as int, b as int)) {
            Some(name) => r matches Some((from, to)) && a <= from <= to <= b && chars@.subrange(
                from as int,
                to as int,
            ) == name,
            None => r is None,
        },
{
    let ghost c = chars@.subrange(a as int, b as int);
    if b - a < 5 {
        return None;
    }
    assert(c[0] == chars@[a + 0] && c[1] == chars@[a + 1] && c[2] == chars@[a + 2] && c[3]
        == chars@[a + 3] && c[4] == chars@[a + 4]);
    if chars[a] != 'M' || chars[a + 1] != 'S' || chars[a + 2] != 'G' || chars[a + 3] != ':'
        || chars[a + 4] != ' ' {
        return None;
    }
    assert(c.skip(5) =~= chars@.subrange(a + 5, b as int));
    let (from, to) = trim_range(chars, a + 5, b);
    if from == to {
        None
    } else {
        Some((from, to))
    }
}

/// Reads the field that the line content `chars[a..b]` declares.
fn read_field_line(definition: &str, chars: &Vec<char>, a: usize, b: usize) -> (r: Result<
    Field,
    SchemaError,
>)
    requires
        a <= b <= chars@.len(),
        chars@ == definition@,
    ensures
        match field_line(chars@.subrange(a as int, b as int)) {
            Ok(f) => r matches Ok(field) && field@ == f,
            Err(e) => r matches Err(err) && err@ == e,
        },
{
    let ghost c = chars@.subrange(a as int, b as int);
    let space = find_in(chars, a, b, ' ');
    if space == b {
        assert(c =~= definition@.subrange(a as int, b as int));
        return Err(SchemaError::MalformedFieldLine(owned(definition, a, b)));
    }
    assert(c.take(space - a) =~= chars@.subrange(a as int, space as int));
    assert(c.skip(space - a + 1) =~= chars@.subrange(space + 1, b as int));
    match scan_type_token(chars, a, space) {
        None => Err(SchemaError::InvalidTypeToken(owned(definition, a, space))),
        Some((end, repeat)) => Ok(
            Field {
                field_name: owned(definition, space + 1, b),
                field_type: owned(definition, a, end),
                field_repeat: repeat,
            },
        ),
    }
}

/// The parser between two lines.
struct Parser {
    root: Vec<Field>,
    nested: Vec<NestedType>,
    section: usize,
    current: Option<NestedType>,
}

impl View for Parser {
    type V = ParseState;

    closed spec fn view(&self) -> ParseState {
        ParseState {
            root: fields_view(self.root@),
            nested: nested_view(self.nested@),
            section: self.section as nat,
            current: match self.current {
                Some(t) => Some(t@),
                None => None,
            },
        }
    }
}

/// Closes the open section: its type, if it has one, is declared.
fn close_section(st: Parser) -> (r: Result<Parser, SchemaError>)
    ensures
        match section_error(st@) {
            Some(e) => r matches Err(err) && err@ == e,
            None => r matches Ok(next) && next@ == (ParseState {
                root: st@.root,
                nested: closed_types(st@),
                section: st@.section,
                current: None,
            }) && next.section == st.section,
        },
{
    if st.section == 0 && st.root.len() == 0 {
        let line = String::new();
        return Err(SchemaError::MalformedFieldLine(line));
    }
    let Parser { root, nested, section, current } = st;
    match current {
        Some(t) => Ok(Parser { root, nested: declare(nested, t), section, current: None }),
        None => {
            if section == 0 {
                Ok(Parser { root, nested, section, current: None })
            } else {
                Err(SchemaError::MissingSectionHeader(section))
            }
        },
    }
}

/// Takes the line `chars[lo..hi]` into the state.
fn step_line(definition: &str, chars: &Vec<char>, lo: usize, hi: usize, st: Parser) -> (r: Result<
    Parser,
    SchemaError,
>)
    requires
        lo <= hi <= chars@.len(),
        chars@ == definition@,
        st.section <= lo,
    ensures
        match step(st@, chars@.subrange(lo as int, hi as int)) {
            Ok(next) => r matches Ok(p) && p@ == next && p.section <= hi,
            Err(e) => r matches Err(err) && err@ == e,
        },
{
    let (a, b) = content_range(chars, lo, hi);
    if a == b {
        return Ok(st);
    }
    if check_separator(chars, a, b) {
        return match close_section(st) {
            Ok(closed) => {
                let Parser { root, nested, section, current } = closed;
                Ok(Parser { root, nested, section: section + 1, current: None })
            },
            Err(e) => Err(e),
        };
    }
    let Parser { root, nested, section, current } = st;
    if section == 0 {
        match read_field_line(definition, chars, a, b) {
            Ok(field) => {
                let mut root = root;
                let ghost before = root@;
                root.push(field);
                assert(fields_view(root@) =~= fields_view(before).push(field@));
                Ok(Parser { root, nested, section, current })
            },
            Err(e) => Err(e),
        }
    } else {
        match current {
            None => match read_header(chars, a, b) {
                Some((from, to)) => {
                    let fields: Vec<Field> = Vec::new();
                    assert(fields_view(fields@) =~= Seq::<FieldView>::empty());
                    let t = NestedType { name: owned(definition, from, to), fields };
                    Ok(Parser { root, nested, section, current: Some(t) })
                },
                None => Err(SchemaError::MissingSectionHeader(section)),
            },
            Some(t) => match read_field_line(definition, chars, a, b) {
                Ok(field) => {
                    let NestedType { name, fields } = t;
                    let mut fields = fields;
                    let ghost before = fields@;
                    fields.push(field);
                    assert(fields_view(fields@) =~= fields_view(before).push(field@));
                    Ok(Parser { root, nested, section, current: Some(NestedType { name, fields }) })
                },
                Err(e) => Err(e),
            },
        }
    }
}

/// Parses a message definition: the fields of the message itself, then,
/// after each line of eighty `=`, a section `MSG: <name>` with the fields of
/// that type. The first error ends the parse; nothing partial is returned.
pub fn parse_message_definition(definition: &str) -> (r: Result<MessageSchema, SchemaError>)
    ensures
        match parse_definition(definition@) {
            Ok(schema) => r matches Ok(parsed) && parsed@ == schema && well_formed(parsed@),
            Err(e) => r matches Err(err) && err@ == e,
        },
{
    proof {
        if parse_definition(definition@) is Ok {
            lemma_parsed_is_well_formed(definition@);
        }
    }
    let chars = chars_of(definition);
    let n = chars.len();
    let root: Vec<Field> = Vec::new();
    let nested: Vec<NestedType> = Vec::new();
    let mut st = Parser { root, nested, section: 0, current: None };
    assert(st@ =~= initial_state()) by {
        assert(fields_view(st.root@) =~= Seq::<FieldView>::empty());
        assert(nested_view(st.nested@) =~= Seq::<NestedTypeView>::empty());
    }
    assert(chars@.subrange(0, n as int) =~= chars@);
    let mut pos: usize = 0;
    loop
        invariant_except_break
            pos <= n,
            st.section <= pos,
            run(initial_state(), definition@) == run(st@, chars@.subrange(pos as int, n as int)),
        invariant
            n == chars@.len(),
            chars@ == definition@,
        ensures
            run(initial_state(), definition@) == Ok::<ParseState, SchemaErrorView>(st@),
        decreases n - pos,
    {
        let ghost rest = chars@.subrange(pos as int, n as int);
        let end = find_in(&chars, pos, n, '\n');
        assert(rest.take(end - pos) =~= chars@.subrange(pos as int, end as int));
        match step_line(definition, &chars, pos, end, st) {
            Err(e) => {
                return Err(e);
            },
            Ok(next) => {
                st = next;
            },
        }
        if end == n {
            break ;
        }
        assert(rest.skip(end - pos + 1) =~= chars@.subrange(end + 1, n as int));
        pos = end + 1;
    }
    match close_section(st) {
        Ok(closed) => Ok(MessageSchema { root_fields: closed.root, nested_types: closed.nested }),
        Err(e) => Err(e),
    }
}

} // verus!
