//! Session tokens: the relay pairs peers that present the same token.

use vstd::prelude::*;

verus! {

/// An ASCII letter or digit.
pub open spec fn is_ascii_alphanumeric(c: char) -> bool {
    ('0' <= c && c <= '9') || ('a' <= c && c <= 'z') || ('A' <= c && c <= 'Z')
}

/// A well-formed token: exactly 32 characters, each an ASCII letter or
/// digit. The relay rejects any other.
pub open spec fn is_valid_token(t: Seq<char>) -> bool {
    t.len() == 32 && forall|i: int| 0 <= i < t.len() ==> is_ascii_alphanumeric(#[trigger] t[i])
}

/// Whether `token` is well formed.
pub fn check_token(token: &str) -> (r: bool)
    ensures
        r == is_valid_token(token@),
{
    let v = crate::text::chars_of(token);
    if v.len() != 32 {
        return false;
    }
    let mut i: usize = 0;
    while i < v.len()
        invariant
            i <= v@.len(),
            v@ == token@,
            v@.len() == 32,
            forall|j: int| 0 <= j < i ==> is_ascii_alphanumeric(#[trigger] v@[j]),
        decreases v@.len() - i,
    {
        let c = v[i];
        if !(('0' <= c && c <= '9') || ('a' <= c && c <= 'z') || ('A' <= c && c <= 'Z')) {
            return false;
        }
        i += 1;
    }
    true
}

} // verus!
