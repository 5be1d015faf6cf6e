//! JSON text.
use vstd::prelude::*;
use vstd::string::*;
use vstd::utf8::encode_utf8;

verus! {

/// The hexadecimal digit `d`, in lower case.
pub open spec fn hex_digit(d: int) -> char {
    if d < 10 {
        (48 + d) as char
    } else {
        (87 + d) as char
    }
}

/// A character as it stands inside a JSON string: quotation marks, backslashes and
/// control characters are escaped, everything else stands for itself.
pub open spec fn escaped(c: char) -> Seq<char> {
    let code = c as int;
    if c == '"' {
        seq!['\\', '"']
    } else if c == '\\' {
        seq!['\\', '\\']
    } else if code == 8 {
        seq!['\\', 'b']
    } else if code == 9 {
        seq!['\\', 't']
    } else if code == 10 {
        seq!['\\', 'n']
    } else if code == 12 {
        seq!['\\', 'f']
    } else if code == 13 {
        seq!['\\', 'r']
    } else if code < 32 {
        seq!['\\', 'u', '0', '0', hex_digit(code / 16), hex_digit(code % 16)]
    } else {
        seq![c]
    }
}

/// The characters of a JSON string, without the quotation marks.
pub open spec fn escaped_text(text: Seq<char>) -> Seq<char>
    decreases text.len(),
{
    if text.len() == 0 {
        Seq::empty()
    } else {
        escaped_text(text.drop_last()) + escaped(text.last())
    }
}

/// A text as a JSON string.
pub open spec fn quoted(text: Seq<char>) -> Seq<char> {
    seq!['"'] + escaped_text(text) + seq!['"']
}

/// The JSON string that holds `text`.
///
/// Calls `serde_json::to_string` on a string slice. It puts the text between
/// quotation marks and escapes the quotation mark, the backslash and the control
/// characters below 32: five of them by a letter, the others by four hexadecimal
/// digits in lower case. Writing a string slice to memory does not fail.
#[verifier::external_body]
pub(crate) fn quote(text: &str) -> (json: String)
    ensures
        json@ == quoted(text@),
{
    serde_json::to_string(text).unwrap()
}

/// What `serde_json` makes of bytes when it reads them as one JSON document and
/// writes the document out again without spaces. None if they are no document.
pub uninterp spec fn compacted(bytes: Seq<u8>) -> Option<Seq<char>>;

/// The JSON document in `bytes`, written without spaces; none if there is no
/// document in them.
///
/// Calls `serde_json::from_slice` for a `serde_json::Value` and writes the value
/// with its `to_string`. Both are functions of the bytes alone, and what they give
/// together is named `compacted`.
#[verifier::external_body]
pub(crate) fn compact(bytes: &[u8]) -> (json: Option<String>)
    ensures
        match json {
            Some(text) => compacted(bytes@) == Some(text@),
            None => compacted(bytes@) is None,
        },
{
    match serde_json::from_slice::<serde_json::Value>(bytes) {
        Ok(value) => Some(value.to_string()),
        Err(_) => None,
    }
}

/// The stored form of a workflow's error: an object with its message.
pub open spec fn failure_text(message: Seq<char>) -> Seq<char> {
    "{\"message\":"@ + quoted(message) + "}"@
}

/// The stored form of a workflow's error, in bytes.
pub open spec fn failure_bytes(message: Seq<char>) -> Seq<u8> {
    encode_utf8(failure_text(message))
}

/// The stored form of a workflow's error.
pub fn encode_failure(message: &str) -> (bytes: Vec<u8>)
    ensures
        bytes@ == failure_bytes(message@),
{
    let mut text = String::from_str("{\"message\":");
    text.append(quote(message).as_str());
    text.append("}");
    text.as_str().as_bytes_vec()
}

/// A text is escaped character by character and in its order: visible characters other
/// than the quotation mark and the backslash stand for themselves, and those two stand
/// behind a backslash.
pub proof fn texts_are_escaped_by_character(a: Seq<char>, b: Seq<char>, c: char)
    ensures
        escaped_text(Seq::empty()) == Seq::<char>::empty(),
        escaped_text(a + b) == escaped_text(a) + escaped_text(b),
        c as int >= 32 && c != '"' && c != '\\' ==> escaped_text(seq![c]) == seq![c],
        c == '"' || c == '\\' ==> escaped_text(seq![c]) == seq!['\\', c],
        (c as int) < 32 ==> escaped_text(seq![c]).len() >= 2 && escaped_text(seq![c])[0] == '\\',
    decreases b.len(),
{
    assert(seq![c].drop_last() =~= Seq::<char>::empty());
    assert(escaped_text(seq![c].drop_last()) =~= Seq::<char>::empty());
    assert(escaped_text(seq![c]) =~= escaped(c));
    if b.len() == 0 {
        assert(a + b =~= a);
        assert(escaped_text(a) + escaped_text(b) =~= escaped_text(a));
    } else {
        texts_are_escaped_by_character(a, b.drop_last(), c);
        assert((a + b).drop_last() =~= a + b.drop_last());
        assert(escaped_text(a + b) =~= escaped_text(a) + escaped_text(b));
    }
}

/// The stored form of an error is an object whose message is the message.
pub proof fn failures_hold_their_message(message: Seq<char>)
    ensures
        failure_text(message) == "{\"message\":\""@ + escaped_text(message) + "\"}"@,
        failure_bytes(message) == encode_utf8(
            "{\"message\":\""@ + escaped_text(message) + "\"}"@,
        ),
{
    reveal_strlit("{\"message\":");
    reveal_strlit("{\"message\":\"");
    reveal_strlit("}");
    reveal_strlit("\"}");
    assert("{\"message\":\""@ =~= "{\"message\":"@ + seq!['"']);
    assert("\"}"@ =~= seq!['"'] + "}"@);
    assert(failure_text(message) =~= "{\"message\":\""@ + escaped_text(message) + "\"}"@);
}

} // verus!
