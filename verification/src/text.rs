use vstd::prelude::*;

verus! {

/// Appends one character to the end of `s` (`String::push`).
/// Trusted: the standard library documents that `c` is added at the end.
#[verifier::external_body]
pub(crate) fn string_push(s: &mut String, c: char)
    ensures
        final(s)@ == old(s)@.push(c),
{
    s.push(c);
}

/// Removes the last character of `s`, if any (`String::pop`).
/// Trusted: the standard library documents that the last character is removed and
/// returned, and that `None` comes back, with `s` unchanged, when `s` is empty.
#[verifier::external_body]
pub(crate) fn string_pop(s: &mut String) -> (r: Option<char>)
    ensures
        old(s)@.len() == 0 ==> r is None && final(s)@ == old(s)@,
        old(s)@.len() > 0 ==> r == Some(old(s)@.last()) && final(s)@ == old(s)@.drop_last(),
{
    s.pop()
}

} // verus!
