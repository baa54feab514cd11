//! Small string helpers: exact equality, ASCII case-insensitive equality,
//! and membership of a string in a list of paths.

use vstd::prelude::*;

verus! {

/// ASCII lowercase mapping on one character: 'A' through 'Z' map to their
/// lowercase counterparts, every other character is unchanged.
pub open spec fn lower_char(c: char) -> char {
    if ('A' as u32) <= (c as u32) && (c as u32) <= ('Z' as u32) {
        ((c as u32) + 32) as char
    } else {
        c
    }
}

/// ASCII lowercase mapping applied to every character of a sequence.
pub open spec fn lower_chars(s: Seq<char>) -> Seq<char> {
    s.map_values(|c: char| lower_char(c))
}

/// Relies on `<str as PartialEq>::eq`: two string slices compare equal
/// exactly when their character sequences are equal.
#[verifier::external_body]
pub fn str_eq(a: &str, b: &str) -> (r: bool)
    ensures
        r == (a@ == b@),
{
    a == b
}

/// Relies on `str::eq_ignore_ascii_case`: an ASCII case-insensitive match,
/// equivalent to comparing the two strings after mapping ASCII uppercase
/// letters to lowercase on each side.
#[verifier::external_body]
pub fn eq_ignore_ascii_case(a: &str, b: &str) -> (r: bool)
    ensures
        r == (lower_chars(a@) == lower_chars(b@)),
{
    a.eq_ignore_ascii_case(b)
}

/// Whether some string in `ps` has exactly the characters `p`.
pub open spec fn seq_has_str(ps: Seq<String>, p: Seq<char>) -> bool {
    exists|i: int| 0 <= i < ps.len() && ps[i]@ == p
}

/// Linear search for a string with the characters of `s` in `v`.
pub fn vec_contains_str(v: &Vec<String>, s: &str) -> (r: bool)
    ensures
        r == seq_has_str(v@, s@),
{
    let mut i: usize = 0;
    while i < v.len()
        invariant
            0 <= i <= v@.len(),
            forall|k: int| 0 <= k < i ==> v@[k]@ != s@,
        decreases v@.len() - i,
    {
        if str_eq(v[i].as_str(), s) {
            return true;
        }
        i += 1;
    }
    false
}

} // verus!
