//! The computing parts of the message relay: what is done to a decoded point
//! and how an outcome becomes the text of a reply.

use vstd::prelude::*;
use vstd::string::StringExecFns;

verus! {

/// A pair of grid coordinates.
#[derive(Clone, Copy, Debug, PartialEq, Eq)]
pub struct Point {
    pub x: i32,
    pub y: i32,
}

/// `serde_json::Error`, the error type of the JSON encoder. Nothing is known
/// of what a value of it holds.
#[verifier::external_type_specification]
#[verifier::external_body]
pub struct ExJsonError(serde_json::Error);

/// What `serde_json::to_string` gives for the string `text`: its JSON string
/// literal, that is the text between double quotes, with the characters that
/// JSON does not take as they are escaped.
pub uninterp spec fn json_text(text: Seq<char>) -> Seq<char>;

/// The reply that reports a failure: a JSON object whose only member,
/// `error`, is the encoded message.
pub open spec fn error_payload(encoded: Seq<char>) -> Seq<char> {
    "{\"error\":"@ + encoded + "}"@
}

/// `serde_json::to_string` on a string slice. The encoder succeeds on every
/// string: it writes into a byte vector, which takes every write, and a
/// string has neither a serialiser of its own that could fail nor a map with
/// keys that are no strings. Its result is the JSON string literal for the
/// text, which depends on the text alone.
#[verifier::external_body]
fn encode_text(text: &str) -> (r: Result<String, serde_json::Error>)
    ensures
        r is Ok,
        r matches Ok(encoded) ==> encoded@ == json_text(text@),
{
    serde_json::to_string(text)
}

/// Swaps the two coordinates of a point. Never fails.
pub fn flip_pt<E>(p: Point) -> (r: Result<Point, E>)
    ensures
        r matches Ok(q) && q.x == p.y && q.y == p.x,
{
    Ok(Point { x: p.y, y: p.x })
}

/// Wraps an encoded message into the reply that reports a failure.
pub fn frame_error(encoded: &str) -> (r: String)
    ensures
        r@ == error_payload(encoded@),
{
    let mut out = String::from_str("{\"error\":");
    out.append(encoded);
    out.append("}");
    out
}

/// The text of a reply: the payload of a success as it is, and for a failure
/// the object that reports its message.
pub fn result_to_string(res: Result<String, String>) -> (r: String)
    ensures
        res matches Ok(payload) ==> r@ == payload@,
        res matches Err(message) ==> r@ == error_payload(json_text(message@)),
{
    match res {
        Ok(payload) => payload,
        Err(message) => match encode_text(message.as_str()) {
            Ok(encoded) => frame_error(encoded.as_str()),
            Err(_) => unreached(),
        },
    }
}

} // verus!
