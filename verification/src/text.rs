//! Building strings character by character.

use vstd::prelude::*;

verus! {

/// Appends `c` to `s` with `String::push`, which the standard library
/// documents as appending the given char to the end of the string.
#[verifier::external_body]
pub(crate) fn push_char(s: &mut String, c: char)
    ensures
        final(s)@ == old(s)@.push(c),
{
    s.push(c);
}

} // verus!
