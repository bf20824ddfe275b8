//! Which strings may stand as HTTP header values.
use vstd::prelude::*;

verus! {

/// A character whose UTF-8 bytes may all stand in a header value: a tab, or
/// anything from the space upwards but DEL (the bytes of a non-ASCII
/// character are all at least 128).
pub open spec fn valid_header_char(c: char) -> bool {
    c == '\t' || (c as u32 >= 32 && c as u32 != 127)
}

/// A string that may stand as a header value.
pub open spec fn valid_header_value(s: Seq<char>) -> bool {
    forall|i: int| 0 <= i < s.len() ==> valid_header_char(#[trigger] s[i])
}

/// Relies on reqwest::header::HeaderValue::from_str (the `http` crate's
/// `HeaderValue`): it accepts a string exactly when each of its bytes is a
/// tab, or at least 32 and not 127.
#[verifier::external_body]
pub(crate) fn header_value_ok(s: &str) -> (r: bool)
    ensures
        r == valid_header_value(s@),
{
    reqwest::header::HeaderValue::from_str(s).is_ok()
}

} // verus!
