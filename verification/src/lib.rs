//! A streaming, non-validating JSON transformer.
//!
//! The crate re-emits JSON-encoded bytes either pretty-printed (indented,
//! one element per line) or minimized (all insignificant whitespace
//! stripped).  It never parses the input into a tree: a single pass tracks
//! string boundaries, backslash escapes and bracket nesting depth, and
//! decides per byte what to emit.  Malformed input is not rejected; the
//! output is whatever the byte-local rules produce.

use vstd::prelude::*;
use vstd::utf8::{decode_utf8, encode_utf8, valid_utf8};

pub mod encoding;
pub mod laws;
pub mod minimize;
pub mod pretty;
pub mod scan;

pub use crate::minimize::minimize_bytes;
pub use crate::minimize::min_out;
pub use crate::pretty::pretty_print_bytes;
pub use crate::pretty::pp_out;

verus! {

/// Relies on `String::from_utf8`: returns `Ok` with the string decoded
/// from the bytes exactly when they are valid UTF-8, and `Err` otherwise;
/// the error is rendered as a message.
#[verifier::external_body]
fn utf8_to_string(bytes: Vec<u8>) -> (r: Result<String, String>)
    ensures
        valid_utf8(bytes@) ==> r is Ok && r->Ok_0@ == decode_utf8(bytes@),
        !valid_utf8(bytes@) ==> r is Err,
{
    String::from_utf8(bytes).map_err(|e| e.to_string())
}

/// Returns a minimized version of the given string containing
/// JSON-encoded data.
///
/// This function does *not* perform JSON validation; it re-emits malformed
/// input on a best-effort basis.  The result is the string whose UTF-8
/// encoding is the minimize transform of the input's UTF-8 encoding; the
/// transform preserves UTF-8 validity, so the call always succeeds.
pub fn minimize(json_string: &str) -> (r: Result<String, String>)
    ensures
        r is Ok,
        r->Ok_0@ == decode_utf8(min_out(encode_utf8(json_string@))),
{
    proof {
        vstd::utf8::encode_utf8_valid_utf8(json_string@);
        crate::encoding::lemma_minimize_preserves_utf8(encode_utf8(json_string@));
    }
    let out = minimize_bytes(json_string.as_bytes());
    utf8_to_string(out)
}

/// Returns a pretty-printed version of the given string containing
/// JSON-encoded data, using `indent` as one indentation level.
///
/// This function does *not* perform JSON validation; it re-emits malformed
/// input on a best-effort basis.  The result is the string whose UTF-8
/// encoding is the pretty-print transform of the input's UTF-8 encoding;
/// the transform preserves UTF-8 validity, so the call always succeeds.
pub fn pretty_print(json_string: &str, indent: &str) -> (r: Result<String, String>)
    ensures
        r is Ok,
        r->Ok_0@ == decode_utf8(pp_out(encode_utf8(json_string@), encode_utf8(indent@))),
{
    proof {
        vstd::utf8::encode_utf8_valid_utf8(json_string@);
        vstd::utf8::encode_utf8_valid_utf8(indent@);
        crate::encoding::lemma_pretty_preserves_utf8(
            encode_utf8(json_string@),
            encode_utf8(indent@),
        );
    }
    let out = pretty_print_bytes(json_string.as_bytes(), indent.as_bytes());
    utf8_to_string(out)
}

} // verus!
