//! JSON documents, read and written with `serde_json`, as far as dumps and
//! their sidecar files need them.
//!
//! `serde_json` is built with its default features only. With `raw_value` or
//! `arbitrary_precision` it would read some objects as something else.

use vstd::prelude::*;
use vstd::utf8::encode_utf8;
use crate::text::{text_view, views};

verus! {

/// A member of a JSON object as it was read.
#[derive(Debug)]
pub enum Field {
    /// A string.
    Text(String),
    /// A number: its value as a signed and as an unsigned 64-bit integer, where
    /// it has one.
    Number(Option<i64>, Option<u64>),
    /// An array: for each item, its text if it is a string.
    List(Vec<Option<String>>),
    /// Anything else.
    Other,
}

/// The value of a [`Field`].
pub enum FieldView {
    Text(Seq<char>),
    Number(Option<i64>, Option<u64>),
    List(Seq<Option<Seq<char>>>),
    Other,
}

/// A member of a JSON object to be written.
#[derive(Debug)]
pub enum NewField {
    Text(String),
    Int(i64),
    Texts(Vec<String>),
}

impl View for Field {
    type V = FieldView;

    open spec fn view(&self) -> FieldView {
        match self {
            Field::Text(s) => FieldView::Text(s@),
            Field::Number(i, u) => FieldView::Number(*i, *u),
            Field::List(items) => FieldView::List(
                items@.map_values(|s: Option<String>| text_view(s)),
            ),
            Field::Other => FieldView::Other,
        }
    }
}

impl View for NewField {
    type V = FieldView;

    /// What the member is when it is read back.
    open spec fn view(&self) -> FieldView {
        match self {
            NewField::Text(s) => FieldView::Text(s@),
            NewField::Int(n) => FieldView::Number(
                Some(*n),
                if *n >= 0 {
                    Some(*n as u64)
                } else {
                    None
                },
            ),
            NewField::Texts(list) => FieldView::List(
                views(list@).map_values(|s: Seq<char>| Some(s)),
            ),
        }
    }
}

pub open spec fn field_view(field: Option<Field>) -> Option<FieldView> {
    match field {
        Some(f) => Some(f@),
        None => None,
    }
}

/// The members to be written, by their views.
pub open spec fn members_view(members: Seq<(String, NewField)>) -> Seq<(Seq<char>, FieldView)> {
    members.map_values(|m: (String, NewField)| (m.0@, m.1@))
}

/// The member `key` of the JSON object that `text` holds; `None` where `text`
/// is not valid JSON, not an object, or has no such member.
pub uninterp spec fn json_member(text: Seq<char>, key: Seq<char>) -> Option<FieldView>;

/// The pretty-printed JSON object with the given members.
pub uninterp spec fn object_text(members: Seq<(Seq<char>, FieldView)>) -> Seq<char>;

/// The JSON document in `bytes`, pretty-printed; `None` where `bytes` is not a
/// valid JSON document.
pub uninterp spec fn pretty_text(bytes: Seq<u8>) -> Option<Seq<char>>;

/// The point at `i` is that of the number `-0.0`.
pub open spec fn in_minus_zero(s: Seq<char>, i: int) -> bool {
    &&& 2 <= i && i + 1 < s.len()
    &&& s[i - 2] == '-' && s[i - 1] == '0' && s[i + 1] == '0'
    &&& i + 2 < s.len() ==> !('0' <= s[i + 2] <= '9') && s[i + 2] != 'e' && s[i + 2] != 'E'
}

/// From `i` on, the JSON document `s` has no number with a fraction or an
/// exponent outside its strings, but for `-0.0`. `quoted` says whether `i` lies
/// in a string.
pub open spec fn whole_numbers_from(s: Seq<char>, i: int, quoted: bool) -> bool
    decreases s.len() + 1 - i,
{
    if i < 0 || i >= s.len() {
        true
    } else if quoted {
        if s[i] == '\\' {
            whole_numbers_from(s, i + 2, true)
        } else {
            whole_numbers_from(s, i + 1, s[i] != '"')
        }
    } else {
        &&& s[i] == '.' ==> in_minus_zero(s, i)
        &&& s[i] == 'e' || s[i] == 'E' ==> i == 0 || !('0' <= s[i - 1] <= '9')
        &&& whole_numbers_from(s, i + 1, s[i] == '"')
    }
}

/// The numbers of the JSON document `s` are whole.
pub open spec fn whole_numbers(s: Seq<char>) -> bool {
    whole_numbers_from(s, 0, false)
}

/// Looks up a member of a JSON object with `serde_json::from_str` and
/// `serde_json::Value::get`. Which member that is, is a function of the text
/// and the key alone; nothing else is claimed here.
#[verifier::external_body]
pub(crate) fn json_field(text: &str, key: &str) -> (field: Option<Field>)
    ensures
        field_view(field) == json_member(text@, key@),
{
    let value = serde_json::from_str::<serde_json::Value>(text).ok()?;
    match value.get(key)? {
        serde_json::Value::String(s) => Some(Field::Text(s.clone())),
        serde_json::Value::Number(n) => Some(Field::Number(n.as_i64(), n.as_u64())),
        serde_json::Value::Array(items) => Some(
            Field::List(items.iter().map(|x| x.as_str().map(|s| s.to_string())).collect()),
        ),
        serde_json::Value::Null => Some(Field::Other),
        serde_json::Value::Bool(_) => Some(Field::Other),
        serde_json::Value::Object(_) => Some(Field::Other),
    }
}

/// Writes a JSON object with `serde_json::to_string_pretty`. The text is a
/// function of the members alone, and each member reads back from it as it was
/// written: strings are escaped so that the parser restores them, and 64-bit
/// integers are written in full.
#[verifier::external_body]
pub(crate) fn json_object(members: Vec<(String, NewField)>) -> (text: String)
    requires
        forall|i: int, j: int|
            0 <= i < j < members@.len() ==> (#[trigger] members@[i]).0@ != (
            #[trigger] members@[j]).0@,
    ensures
        text@ == object_text(members_view(members@)),
        forall|i: int|
            0 <= i < members@.len() ==> json_member(text@, (#[trigger] members@[i]).0@) == Some(
                members@[i].1@,
            ),
{
    let object: serde_json::Map<String, serde_json::Value> = members.into_iter().map(
        |m| match m.1 {
            NewField::Text(s) => (m.0, serde_json::Value::from(s)),
            NewField::Int(n) => (m.0, serde_json::Value::from(n)),
            NewField::Texts(list) => (m.0, serde_json::Value::from(list)),
        },
    ).collect();
    serde_json::to_string_pretty(&object).unwrap()
}

/// Parses a document with `serde_json::from_slice` and prints it with
/// `serde_json::to_string_pretty`; `None` where either fails. The outcome is a
/// function of the bytes alone. A printed document with whole numbers only, and
/// a line feed behind it, is parsed to the same value and printed as before:
/// strings and 64-bit integers are restored by the parser, and the members of an
/// object are printed in the order of their names. Nothing is claimed of other
/// numbers, which the parser may round.
#[verifier::external_body]
pub(crate) fn json_pretty(bytes: &[u8]) -> (text: Option<String>)
    ensures
        text_view(text) == pretty_text(bytes@),
        text matches Some(t) ==> whole_numbers(t@) ==> pretty_text(
            encode_utf8(t@.push('\n')),
        ) == Some(t@),
{
    let value = serde_json::from_slice::<serde_json::Value>(bytes).ok()?;
    serde_json::to_string_pretty(&value).ok()
}

} // verus!
