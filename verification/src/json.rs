//! JSON at the edges: reading members of an object and writing flat objects. The
//! text format itself is `serde_json`'s.

use vstd::prelude::*;
use vstd::string::*;

use crate::text;

verus! {

// ---------------------------------------------------------------- reading

/// What a JSON text holds at its top.
#[derive(Debug, Clone, Copy, PartialEq, Eq, Structural)]
pub enum JsonKind {
    Null,
    Bool,
    Number,
    Text,
    Array,
    Object,
}

/// A member of an object, one level deep.
#[derive(Debug, Clone)]
pub enum Member {
    Null,
    Bool(bool),
    /// A number: its value as a signed and as an unsigned integer, where it is one.
    Number { signed: Option<i64>, unsigned: Option<u64> },
    Text(String),
    /// An array: for each element its text where it is a string.
    List(Vec<Option<String>>),
    /// An object, as JSON text.
    Nested(String),
}

/// A member, over texts and integers.
pub enum MemberView {
    Null,
    Bool(bool),
    Number { signed: Option<int>, unsigned: Option<int> },
    Text(Seq<char>),
    List(Seq<Option<Seq<char>>>),
    Nested(Seq<char>),
}

pub open spec fn text_view(t: Option<String>) -> Option<Seq<char>> {
    match t {
        Some(s) => Some(s@),
        None => None,
    }
}

/// An optional member.
pub open spec fn member_view(m: Option<Member>) -> Option<MemberView> {
    match m {
        Some(x) => Some(x@),
        None => None,
    }
}

impl View for Member {
    type V = MemberView;

    open spec fn view(&self) -> MemberView {
        match *self {
            Member::Null => MemberView::Null,
            Member::Bool(b) => MemberView::Bool(b),
            Member::Number { signed, unsigned } => MemberView::Number {
                signed: match signed {
                    Some(n) => Some(n as int),
                    None => None,
                },
                unsigned: match unsigned {
                    Some(n) => Some(n as int),
                    None => None,
                },
            },
            Member::Text(s) => MemberView::Text(s@),
            Member::List(v) => MemberView::List(Seq::new(v@.len(), |i: int| text_view(v@[i]))),
            Member::Nested(s) => MemberView::Nested(s@),
        }
    }
}

/// What a JSON text holds at its top, or the parser's message where it is no JSON.
pub uninterp spec fn json_kind(text: Seq<char>) -> Result<JsonKind, Seq<char>>;

/// `serde_json::from_str` to a `Value`: which of the six kinds of value the text is,
/// or the text of the error. Both depend on the text alone.
#[verifier::external_body]
pub(crate) fn kind_of_json(text: &str) -> (r: Result<JsonKind, String>)
    ensures
        json_kind(text@) == match r {
            Ok(k) => Ok::<JsonKind, Seq<char>>(k),
            Err(e) => Err(e@),
        },
{
    match serde_json::from_str::<serde_json::Value>(text) {
        Ok(serde_json::Value::Null) => Ok(JsonKind::Null),
        Ok(serde_json::Value::Bool(_)) => Ok(JsonKind::Bool),
        Ok(serde_json::Value::Number(_)) => Ok(JsonKind::Number),
        Ok(serde_json::Value::String(_)) => Ok(JsonKind::Text),
        Ok(serde_json::Value::Array(_)) => Ok(JsonKind::Array),
        Ok(serde_json::Value::Object(_)) => Ok(JsonKind::Object),
        Err(e) => Err(e.to_string()),
    }
}

/// Whether a text is JSON.
pub uninterp spec fn json_syntax(text: Seq<char>) -> bool;

/// `serde_json::from_str` to `serde::de::IgnoredAny`: whether the text is one JSON value,
/// whatever its numbers and strings denote. It depends on the text alone.
#[verifier::external_body]
pub(crate) fn is_json(text: &str) -> (r: bool)
    ensures
        r == json_syntax(text@),
{
    serde_json::from_str::<serde::de::IgnoredAny>(text).is_ok()
}

/// What a JSON string spells: nothing where the text is no JSON string.
pub uninterp spec fn json_string(text: Seq<char>) -> Option<Seq<char>>;

/// `serde_json::from_str` to a `String`: what the one JSON string in the text spells. It
/// depends on the text alone.
#[verifier::external_body]
pub(crate) fn string_of_json(text: &str) -> (r: Option<String>)
    ensures
        text_view(r) == json_string(text@),
{
    serde_json::from_str(text).ok()
}

/// The member of a JSON object under a key: none where the text is no JSON object
/// or has no such key.
pub uninterp spec fn json_member(text: Seq<char>, key: Seq<char>) -> Option<MemberView>;

/// `serde_json::Value::get` on the parsed text: the member under `key`, one level
/// deep, with a nested object as compact JSON text. It depends on the text and the
/// key alone.
#[verifier::external_body]
pub(crate) fn member_of_json(text: &str, key: &str) -> (r: Option<Member>)
    ensures
        json_member(text@, key@) == member_view(r),
{
    let v: serde_json::Value = serde_json::from_str(text).unwrap_or_default();
    Some(match v.get(key)? {
        serde_json::Value::Null => Member::Null,
        serde_json::Value::Bool(b) => Member::Bool(*b),
        serde_json::Value::Number(n) => Member::Number { signed: n.as_i64(), unsigned: n.as_u64() },
        serde_json::Value::String(s) => Member::Text(s.clone()),
        serde_json::Value::Array(a) => Member::List(
            a.iter().map(|x| x.as_str().map(|s| s.to_string())).collect(),
        ),
        nested => Member::Nested(nested.to_string()),
    })
}

/// The `{:?}` form of an optional member of a JSON object.
pub uninterp spec fn json_debug(text: Seq<char>, key: Seq<char>) -> Seq<char>;

/// The `Debug` form of what `serde_json::Value::get` gives on the parsed text; it
/// depends on the text and the key alone.
#[verifier::external_body]
pub(crate) fn debug_of_member(text: &str, key: &str) -> (r: String)
    ensures
        r@ == json_debug(text@, key@),
{
    let v: serde_json::Value = serde_json::from_str(text).unwrap_or_default();
    format!("{:?}", v.get(key))
}

/// A number under a key, to one decimal place.
pub uninterp spec fn json_tenths(text: Seq<char>, key: Seq<char>) -> Option<Seq<char>>;

/// `serde_json::Value::as_f64` on what `Value::get` gives on the parsed text, written
/// with one decimal place: none where no number stands there. It depends on the text
/// and the key alone.
#[verifier::external_body]
pub(crate) fn tenths_of_member(text: &str, key: &str) -> (r: Option<String>)
    ensures
        text_view(r) == json_tenths(text@, key@),
{
    let v: serde_json::Value = serde_json::from_str(text).unwrap_or_default();
    v.get(key).and_then(serde_json::Value::as_f64).map(|n| format!("{n:.1}"))
}

/// The text of a member that is a string.
pub open spec fn member_text(m: Option<MemberView>) -> Option<Seq<char>> {
    match m {
        Some(MemberView::Text(s)) => Some(s),
        _ => None,
    }
}

/// The value of a member that is a truth value.
pub open spec fn member_bool(m: Option<MemberView>) -> Option<bool> {
    match m {
        Some(MemberView::Bool(b)) => Some(b),
        _ => None,
    }
}

/// The value of a member that is a signed integer.
pub open spec fn member_int(m: Option<MemberView>) -> Option<int> {
    match m {
        Some(MemberView::Number { signed, .. }) => signed,
        _ => None,
    }
}

/// The value of a member that is an unsigned integer.
pub open spec fn member_unsigned(m: Option<MemberView>) -> Option<int> {
    match m {
        Some(MemberView::Number { unsigned, .. }) => unsigned,
        _ => None,
    }
}

// ---------------------------------------------------------------- writing

/// A member of a flat object to be written.
#[derive(Debug, Clone)]
pub enum Field {
    Bool(bool),
    Int(i64),
    Unsigned(u64),
    Text(String),
    Texts(Vec<String>),
}

/// A member to be written, over texts and integers.
pub enum FieldView {
    Bool(bool),
    Int(int),
    Unsigned(int),
    Text(Seq<char>),
    Texts(Seq<Seq<char>>),
}

impl View for Field {
    type V = FieldView;

    open spec fn view(&self) -> FieldView {
        match *self {
            Field::Bool(b) => FieldView::Bool(b),
            Field::Int(n) => FieldView::Int(n as int),
            Field::Unsigned(n) => FieldView::Unsigned(n as int),
            Field::Text(s) => FieldView::Text(s@),
            Field::Texts(v) => FieldView::Texts(text::views(v@)),
        }
    }
}

/// The names and values of a sequence of fields.
pub open spec fn fields_view(fs: Seq<(String, Field)>) -> Seq<(Seq<char>, FieldView)> {
    Seq::new(fs.len(), |i: int| (fs[i].0@, fs[i].1@))
}

/// What is read where a field was written.
pub open spec fn read_back(f: FieldView) -> MemberView {
    match f {
        FieldView::Bool(b) => MemberView::Bool(b),
        FieldView::Int(n) => MemberView::Number {
            signed: Some(n),
            unsigned: if n >= 0 {
                Some(n)
            } else {
                None
            },
        },
        FieldView::Unsigned(n) => MemberView::Number {
            signed: if n <= i64::MAX {
                Some(n)
            } else {
                None
            },
            unsigned: Some(n),
        },
        FieldView::Text(s) => MemberView::Text(s),
        FieldView::Texts(v) => MemberView::List(Seq::new(v.len(), |i: int| Some(v[i]))),
    }
}

/// The last field with the name `key`.
pub open spec fn field_named(fs: Seq<(Seq<char>, FieldView)>, key: Seq<char>) -> Option<FieldView>
    decreases fs.len(),
{
    if fs.len() == 0 {
        None
    } else if fs.last().0 == key {
        Some(fs.last().1)
    } else {
        field_named(fs.drop_last(), key)
    }
}

/// What is read under `key` from an object that was written with `fs`.
pub open spec fn member_read_back(
    fs: Seq<(Seq<char>, FieldView)>,
    key: Seq<char>,
) -> Option<MemberView> {
    match field_named(fs, key) {
        Some(f) => Some(read_back(f)),
        None => None,
    }
}

/// Whether a text starts and ends with a brace and holds no line break.
pub open spec fn one_braced_line(s: Seq<char>) -> bool {
    s.len() >= 2 && s[0] == '{' && s.last() == '}' && !s.contains('\n') && !s.contains('\r')
}

/// Whether a text is a JSON object.
pub open spec fn holds_object(s: Seq<char>) -> bool {
    json_kind(s) matches Ok(k) && k == JsonKind::Object
}

/// Whether each member of the object that `s` holds is what `fs` say.
pub open spec fn reads_back(s: Seq<char>, fs: Seq<(Seq<char>, FieldView)>) -> bool {
    forall|key: Seq<char>| #[trigger] json_member(s, key) == member_read_back(fs, key)
}

/// The key by which `serde_json` tells a raw value from an object.
pub open spec fn raw_key() -> Seq<char> {
    "$serde_json::private::RawValue"@
}

/// Whether no field has the name by which `serde_json` tells a raw value.
pub open spec fn plain_names(fs: Seq<(Seq<char>, FieldView)>) -> bool {
    forall|i: int| 0 <= i < fs.len() ==> (#[trigger] fs[i]).0 != raw_key()
}

/// Names that do not start with a dollar sign are plain.
pub proof fn lemma_plain_names(fs: Seq<(Seq<char>, FieldView)>)
    requires
        forall|i: int| 0 <= i < fs.len() ==> (#[trigger] fs[i]).0.len() > 0 && fs[i].0[0] != '$',
    ensures
        plain_names(fs),
{
    reveal_strlit("$serde_json::private::RawValue");
}

/// Whether names stand in their order, none twice.
pub open spec fn names_ascend(fs: Seq<(Seq<char>, FieldView)>) -> bool {
    forall|i: int, j: int|
        #![trigger fs[i], fs[j]]
        0 <= i < j < fs.len() ==> text::text_lt(fs[i].0, fs[j].0)
}

/// A text without its first and its last character.
pub open spec fn inside(s: Seq<char>) -> Seq<char> {
    s.subrange(1, s.len() - 1)
}

/// An object with its members in order, each as it stands in an object of its own.
pub open spec fn in_order(fs: Seq<(Seq<char>, FieldView)>) -> Seq<char> {
    "{"@ + text::join(Seq::new(fs.len(), |i: int| inside(object_written(seq![fs[i]]))), ","@)
        + "}"@
}

/// The compact JSON text of a flat object.
pub uninterp spec fn object_written(fs: Seq<(Seq<char>, FieldView)>) -> Seq<char>;

/// The compact text of a `serde_json` object with the given members; of two fields
/// with one name the later counts. It depends on the fields alone, stands between
/// braces, holds no line break, and reads back as the members that were written. Fields
/// that are handed over in the order of their names stand in that order, with commas
/// between them. The name that `serde_json` keeps for raw values is left out: what is
/// written under it reads back as another value.
#[verifier::external_body]
pub(crate) fn object_text(fields: &Vec<(String, Field)>) -> (r: String)
    requires
        plain_names(fields_view(fields@)),
    ensures
        r@ == object_written(fields_view(fields@)),
        names_ascend(fields_view(fields@)) ==> r@ == in_order(fields_view(fields@)),
        one_braced_line(r@),
        holds_object(r@),
        reads_back(r@, fields_view(fields@)),
{
    let mut m = serde_json::Map::new();
    for (k, f) in fields {
        let v: serde_json::Value = match f {
            Field::Bool(b) => (*b).into(),
            Field::Int(n) => (*n).into(),
            Field::Unsigned(n) => (*n).into(),
            Field::Text(s) => s.clone().into(),
            Field::Texts(v) => v.clone().into(),
        };
        m.insert(k.clone(), v);
    }
    serde_json::Value::Object(m).to_string()
}

} // verus!
