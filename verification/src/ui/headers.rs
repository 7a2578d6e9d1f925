//! The headers of a request.

use vstd::prelude::*;

use axum::http::{HeaderMap, HeaderValue};

use crate::text::opt_text;

verus! {

/// `http::HeaderValue`, as an opaque type.
#[verifier::external_type_specification]
#[verifier::external_body]
pub struct ExHeaderValue(HeaderValue);

/// `http::HeaderMap`, as an opaque type; `header_values` tells what one holds.
#[verifier::external_type_specification]
#[verifier::external_body]
#[verifier::reject_recursive_types(T)]
pub struct ExHeaderMap<T>(HeaderMap<T>);

/// The values that a header map holds: the bytes of each, by the header's name
/// in lower case, in the order in which they were added.
pub uninterp spec fn header_values(headers: HeaderMap) -> Map<Seq<char>, Seq<Seq<u8>>>;

/// The name of a header: lower-case letters, digits and hyphens.
pub open spec fn is_header_name(s: Seq<char>) -> bool {
    &&& s.len() > 0
    &&& forall|i: int|
        0 <= i < s.len() ==> 'a' <= #[trigger] s[i] <= 'z' || '0' <= s[i] <= '9' || s[i] == '-'
}

/// Bytes that can be read as text: ASCII without control characters other than
/// the tabulator.
pub open spec fn is_visible(bytes: Seq<u8>) -> bool {
    forall|i: int| 0 <= i < bytes.len() ==> 32 <= #[trigger] bytes[i] < 127 || bytes[i] == 9
}

/// The first value of a header, where it can be read as text.
pub open spec fn first_text(values: Map<Seq<char>, Seq<Seq<u8>>>, name: Seq<char>) -> Option<
    Seq<char>,
> {
    if values.contains_key(name) && values[name].len() > 0 && is_visible(values[name][0]) {
        Some(values[name][0].map_values(|b: u8| b as char))
    } else {
        None
    }
}

/// The text of a header of a request.
pub open spec fn header(headers: HeaderMap, name: Seq<char>) -> Option<Seq<char>> {
    first_text(header_values(headers), name)
}

/// Reads a header: `HeaderMap::get`, which gives the first of its values, and
/// `HeaderValue::to_str`, which refuses bytes other than visible ASCII and the
/// tabulator.
#[verifier::external_body]
pub(crate) fn header_text(headers: &HeaderMap, name: &str) -> (r: Option<String>)
    requires
        is_header_name(name@),
    ensures
        opt_text(r) == first_text(header_values(*headers), name@),
{
    headers.get(name).and_then(|v| v.to_str().ok()).map(|s| s.to_string())
}

} // verus!
