//! Error handling around the handlers of the onboarding HTTP server: a
//! failed handler becomes a JSON error response while one can still be
//! sent.
use vstd::prelude::*;

verus! {

/// The compact JSON text of a string value: quoted, with JSON escapes.
pub uninterp spec fn json_string_of(s: Seq<char>) -> Seq<u8>;

/// Relies on `serde_json::Value::String` and its `Display`: the compact
/// JSON text of a string, as UTF-8.
#[verifier::external_body]
fn json_string(s: &str) -> (r: Vec<u8>)
    ensures
        r@ == json_string_of(s@),
{
    serde_json::Value::String(s.to_string()).to_string().into_bytes()
}

/// The status of the error response.
pub const INTERNAL_ERROR_STATUS: u16 = 500;

/// `{"error":` then the message as a JSON string, then `}`.
pub open spec fn error_body_of(message: Seq<char>) -> Seq<u8> {
    seq![123u8, 34u8, 101u8, 114u8, 114u8, 111u8, 114u8, 34u8, 58u8] + json_string_of(message) + seq![125u8]
}

/// The JSON object `{"error": message}` in compact form, from the JSON
/// text of the message.
pub fn error_body_from_json(message_json: &Vec<u8>) -> (r: Vec<u8>)
    ensures
        r@ == seq![123u8, 34u8, 101u8, 114u8, 114u8, 111u8, 114u8, 34u8, 58u8] + message_json@ + seq![125u8],
{
    let mut out: Vec<u8> = vec![123u8, 34u8, 101u8, 114u8, 114u8, 111u8, 114u8, 34u8, 58u8];
    let ghost start = out@;
    let mut i: usize = 0;
    while i < message_json.len()
        invariant
            i <= message_json@.len(),
            out@ == start + message_json@.subrange(0, i as int),
        decreases message_json@.len() - i,
    {
        out.push(message_json[i]);
        assert(out@ =~= start + message_json@.subrange(0, i + 1));
        i = i + 1;
    }
    assert(message_json@.subrange(0, message_json@.len() as int) =~= message_json@);
    out.push(125u8);
    assert(out@ =~= start + message_json@ + seq![125u8]);
    out
}

/// The body of the error response for a message.
pub fn error_body(message: &str) -> (r: Vec<u8>)
    ensures
        r@ == error_body_of(message@),
{
    let j = json_string(message);
    error_body_from_json(&j)
}

/// What becomes of a handler's outcome.
#[derive(Debug, PartialEq, Eq)]
pub enum MiddlewareOutcome {
    /// The handler succeeded.
    Passed,
    /// Send this response, with content type `application/json`.
    Respond { status: u16, body: Vec<u8> },
    /// The response had already begun: the error goes to the caller.
    Propagate,
}

/// Turns handler failures into error responses.
#[derive(Debug, Default)]
pub struct ErrorMiddleware {}

impl ErrorMiddleware {
    pub fn new() -> (r: ErrorMiddleware) {
        ErrorMiddleware {  }
    }

    /// Decides what to do after a handler ran, given its error message, if
    /// it failed, and whether it had begun its response.
    pub fn handle(&self, handler_error: Option<&str>, response_initiated: bool) -> (r: MiddlewareOutcome)
        ensures
            match handler_error {
                None => r is Passed,
                Some(m) => if response_initiated {
                    r is Propagate
                } else {
                    r matches MiddlewareOutcome::Respond { status, body } && status == INTERNAL_ERROR_STATUS
                        && body@ == error_body_of(m@)
                },
            },
    {
        match handler_error {
            None => MiddlewareOutcome::Passed,
            Some(m) => if response_initiated {
                MiddlewareOutcome::Propagate
            } else {
                MiddlewareOutcome::Respond { status: INTERNAL_ERROR_STATUS, body: error_body(m) }
            },
        }
    }
}

} // verus!
