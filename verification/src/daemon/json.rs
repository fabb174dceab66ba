//! JSON text: the text fields of an object, and quoted strings.

use crate::text;
use vstd::prelude::*;

verus! {

/// What `serde_json::from_str` says of a text that is no JSON; `None` where it is.
pub uninterp spec fn json_fault(text: Seq<char>) -> Option<Seq<char>>;

/// What `serde_json::Value::get` and `as_str` find under a name in the value that a JSON
/// text stands for: the string there; `None` where there is none.
pub uninterp spec fn json_string(text: Seq<char>, name: Seq<char>) -> Option<Seq<char>>;

/// What a text has under a name, over character sequences.
pub open spec fn field_view(r: Result<Option<String>, String>) -> Result<
    Option<Seq<char>>,
    Seq<char>,
> {
    match r {
        Ok(s) => Ok(text::text_view(s)),
        Err(e) => Err(e@),
    }
}

/// `serde_json::from_str` into a `serde_json::Value`, of which `get` and `as_str` pick the
/// string under a name. Whether the text is JSON does not depend on the name.
#[verifier::external_body]
pub(crate) fn read_field(text: &str, name: &str) -> (r: Result<Option<String>, String>)
    ensures
        field_view(r) == (match json_fault(text@) {
            Some(e) => Err(e),
            None => Ok(json_string(text@, name@)),
        }),
{
    let value: serde_json::Value = serde_json::from_str(text).map_err(|e| e.to_string())?;
    Ok(value.get(name).and_then(|f| f.as_str()).map(String::from))
}

/// How a character is written inside quotes: a quote, a backslash and the control
/// characters are escaped.
pub open spec fn escaped(c: char) -> Seq<char> {
    if c == '"' {
        seq!['\\', '"']
    } else if c == '\\' {
        seq!['\\', '\\']
    } else if c == '\u{8}' {
        seq!['\\', 'b']
    } else if c == '\u{9}' {
        seq!['\\', 't']
    } else if c == '\u{a}' {
        seq!['\\', 'n']
    } else if c == '\u{c}' {
        seq!['\\', 'f']
    } else if c == '\u{d}' {
        seq!['\\', 'r']
    } else if (c as int) < 0x20 {
        seq!['\\', 'u', '0', '0', text::hex_digit(c as int / 16), text::hex_digit(c as int % 16)]
    } else {
        seq![c]
    }
}

/// The characters of a string as they are written inside quotes.
pub open spec fn escaped_all(s: Seq<char>) -> Seq<char>
    decreases s.len(),
{
    if s.len() == 0 {
        Seq::empty()
    } else {
        escaped_all(s.drop_last()) + escaped(s.last())
    }
}

/// A string as JSON.
pub open spec fn quoted(s: Seq<char>) -> Seq<char> {
    seq!['"'] + escaped_all(s) + seq!['"']
}

/// `serde_json::to_string` of a string: the string between quotes, with the characters
/// escaped that have to be. It fails on no string.
#[verifier::external_body]
pub(crate) fn quote(s: &str) -> (q: String)
    ensures
        q@ == quoted(s@),
{
    serde_json::to_string(s).unwrap_or_default()
}

proof fn lemma_escape_one_line(c: char)
    ensures
        !escaped(c).contains('\n'),
{
    assert forall|i: int| 0 <= i < escaped(c).len() implies escaped(c)[i] != '\n' by {
        if (c as int) < 0x20 {
            assert(text::hex_digit(c as int / 16) != '\n');
            assert(text::hex_digit(c as int % 16) != '\n');
        }
    }
}

pub(crate) proof fn lemma_escaped_one_line(s: Seq<char>)
    ensures
        !escaped_all(s).contains('\n'),
    decreases s.len(),
{
    if s.len() > 0 {
        lemma_escaped_one_line(s.drop_last());
        let a = escaped_all(s.drop_last());
        let b = escaped(s.last());
        lemma_escape_one_line(s.last());
        assert forall|i: int| 0 <= i < (a + b).len() implies (a + b)[i] != '\n' by {
            if i < a.len() {
                assert((a + b)[i] == a[i]);
            } else {
                assert((a + b)[i] == b[i - a.len()]);
            }
        }
    }
}

/// In a quoted text a quote and a backslash stand behind a backslash, control characters in
/// their short or their numbered form, and all others as they are, between two quotes.
pub proof fn law_quoting(s: Seq<char>, c: char)
    ensures
        quoted(s) == seq!['"'] + escaped_all(s) + seq!['"'],
        escaped_all(Seq::empty()) == Seq::<char>::empty(),
        escaped_all(s.push(c)) == escaped_all(s) + escaped(c),
        escaped('"') == seq!['\\', '"'],
        escaped('\\') == seq!['\\', '\\'],
        escaped('\n') == seq!['\\', 'n'],
        escaped('\r') == seq!['\\', 'r'],
        escaped('\t') == seq!['\\', 't'],
        (c as int) >= 0x20 && c != '"' && c != '\\' ==> escaped(c) == seq![c],
        (c as int) < 0x20 ==> escaped(c).len() >= 2 && escaped(c)[0] == '\\',
{
    assert(s.push(c).drop_last() =~= s);
}

} // verus!
