//! Small string facilities shared by the modules.

use vstd::prelude::*;

verus! {

/// Appends one character with `String::push` of std; the contract states
/// that the character is added at the end and nothing else changes.
#[verifier::external_body]
pub(crate) fn push_char(s: &mut String, c: char)
    ensures
        final(s)@ == old(s)@.push(c),
{
    s.push(c);
}

} // verus!
