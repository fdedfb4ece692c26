//! Members of JSON objects.

use vstd::prelude::*;

use crate::number::digit_char;
use crate::text::text;

verus! {

/// What a JSON value is, as far as texts and numbers go: its text where it is a
/// string, and its value where it is a number that 64 bits hold without a sign.
pub struct Member {
    pub text: Option<String>,
    pub number: Option<u64>,
}

/// A member with its text as characters.
pub open spec fn member_view(member: Member) -> (Option<Seq<char>>, Option<u64>) {
    (text(member.text), member.number)
}

/// What `serde_json` finds under `key` in the JSON text `body`: nothing at all
/// where the text is not JSON; no member where it is not an object or has no
/// such member; else the text and the number that the member holds.
pub uninterp spec fn member_in(body: Seq<char>, key: Seq<char>) -> Option<
    Option<(Option<Seq<char>>, Option<u64>)>,
>;

/// `serde_json::from_str` into a `serde_json::Value`, then `Value::get` with
/// `Value::as_str` and `Value::as_u64` on what it finds. The result depends on
/// the text and the key alone. An empty text is not JSON, and no member is both
/// a string and a number. Which other texts are JSON is left unsaid.
#[verifier::external_body]
pub(crate) fn json_member(body: &str, key: &str) -> (r: Option<Option<Member>>)
    ensures
        match r {
            None => member_in(body@, key@) is None,
            Some(None) => member_in(body@, key@) == Some(
                None::<(Option<Seq<char>>, Option<u64>)>,
            ),
            Some(Some(m)) => member_in(body@, key@) == Some(Some(member_view(m))),
        },
        body@.len() == 0 ==> r is None,
        r matches Some(Some(m)) ==> !(m.text is Some && m.number is Some),
{
    match serde_json::from_str::<serde_json::Value>(body) {
        Ok(value) => match value.get(key) {
            Some(m) => Some(Some(Member { text: m.as_str().map(str::to_string), number: m.as_u64() })),
            None => Some(None),
        },
        Err(_) => None,
    }
}

/// A character as it stands in a JSON string.
pub open spec fn escaped_char(c: char) -> Seq<char> {
    if c == '"' {
        seq!['\\', '"']
    } else if c == '\\' {
        seq!['\\', '\\']
    } else if c == '\u{8}' {
        seq!['\\', 'b']
    } else if c == '\t' {
        seq!['\\', 't']
    } else if c == '\n' {
        seq!['\\', 'n']
    } else if c == '\u{c}' {
        seq!['\\', 'f']
    } else if c == '\r' {
        seq!['\\', 'r']
    } else if (c as u32) < 32 {
        seq!['\\', 'u', '0', '0', digit_char(c as nat / 16), digit_char(c as nat % 16)]
    } else {
        seq![c]
    }
}

/// The characters of a text as they stand in a JSON string.
pub open spec fn escaped(s: Seq<char>) -> Seq<char>
    decreases s.len(),
{
    if s.len() == 0 {
        Seq::empty()
    } else {
        escaped(s.drop_last()) + escaped_char(s.last())
    }
}

/// A text as a JSON string.
pub open spec fn json_string(s: Seq<char>) -> Seq<char> {
    seq!['"'] + escaped(s) + seq!['"']
}

/// `serde_json::Value::String` with its `Display`: the text between quotation
/// marks, with quotation marks, backslashes and control characters escaped.
#[verifier::external_body]
pub(crate) fn json_text(s: &str) -> (r: String)
    ensures
        r@ == json_string(s@),
{
    serde_json::Value::String(s.to_string()).to_string()
}

} // verus!
