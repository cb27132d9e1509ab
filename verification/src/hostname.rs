//! Host names as keys.

use crate::text::{
    ascii_lower, ascii_lower_char, law_ascii_lower_idempotent, lowercase, lowercase_text,
};
use vstd::prelude::*;
use vstd::utf8::is_ascii_chars;

verus! {

/// A host name in the shape in which the proxy looks it up: in lower
/// case. An ASCII name in that shape is not changed again.
pub fn normalize_hostname(host: &str) -> (r: String)
    ensures
        r@ == lowercase(host@),
        is_ascii_chars(host@) ==> r@ == ascii_lower(host@) && lowercase(r@) == r@,
{
    lowercase_text(host)
}

/// ASCII names that differ only in the case of their letters are looked up
/// alike: under lower case, letter by letter.
pub proof fn law_case_does_not_matter(a: Seq<char>, b: Seq<char>)
    requires
        a.len() == b.len(),
        forall|i: int| 0 <= i < a.len() ==> ascii_lower_char(#[trigger] a[i]) == ascii_lower_char(b[i]),
    ensures
        ascii_lower(a) == ascii_lower(b),
        ascii_lower(ascii_lower(a)) == ascii_lower(a),
{
    assert(ascii_lower(a) =~= ascii_lower(b));
    law_ascii_lower_idempotent(a);
}

} // verus!
