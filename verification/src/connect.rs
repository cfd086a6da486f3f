//! The greeting that answers a front end's connection test.

use vstd::prelude::*;

verus! {

/// `Hello <text>!`.
pub fn connect_test(text: &str) -> (r: String)
    ensures
        r@ == "Hello "@ + text@ + "!"@,
{
    let mut out: Vec<char> = Vec::new();
    crate::text::push_str(&mut out, "Hello ");
    crate::text::push_str(&mut out, text);
    crate::text::push_str(&mut out, "!");
    let r = crate::text::string_of(out.as_slice());
    assert(r@ =~= "Hello "@ + text@ + "!"@);
    r
}

} // verus!
