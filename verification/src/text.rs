//! Character-level helpers on `String`.

use vstd::prelude::*;

verus! {

/// `String::push` from std: appends `c` at the end of `s`.
#[verifier::external_body]
pub(crate) fn push_char(s: &mut String, c: char)
    ensures
        final(s)@ == old(s)@.push(c),
{
    s.push(c);
}

} // verus!
