//! Which directory entries are in scope: those whose extension equals a configured one,
//! ASCII letters compared without regard to case.

use vstd::prelude::*;
use crate::name::{extension_of, file_extension};
use crate::text::chars_of;

verus! {

/// An ASCII capital letter becomes its small letter; every other character stays.
pub open spec fn fold_ascii(c: char) -> char {
    if 'A' <= c && c <= 'Z' {
        ((c as u8) + 32) as char
    } else {
        c
    }
}

/// `s` with its ASCII capital letters made small.
pub open spec fn lowered(s: Seq<char>) -> Seq<char> {
    s.map_values(|c: char| fold_ascii(c))
}

/// `a` and `b` are equal but for the case of their ASCII letters.
pub open spec fn eq_ignoring_case(a: Seq<char>, b: Seq<char>) -> bool {
    lowered(a) == lowered(b)
}

/// The name has an extension, and some configured extension equals it but for case.
pub open spec fn in_scope(name: Seq<char>, extensions: Seq<Seq<char>>) -> bool {
    match extension_of(name) {
        Some(e) => exists|j: int| 0 <= j < extensions.len() && eq_ignoring_case(e, #[trigger] extensions[j]),
        None => false,
    }
}

fn fold(c: char) -> (r: char)
    ensures
        r == fold_ascii(c),
{
    if 'A' <= c && c <= 'Z' {
        ((c as u8) + 32) as char
    } else {
        c
    }
}

/// Compares two strings without regard to the case of their ASCII letters. Letters
/// outside ASCII are compared as they stand: `é` and `É` differ.
pub fn eq_ignore_ascii_case(a: &str, b: &str) -> (r: bool)
    ensures
        r == eq_ignoring_case(a@, b@),
{
    let x = chars_of(a);
    let y = chars_of(b);
    if x.len() != y.len() {
        assert(lowered(a@).len() != lowered(b@).len());
        return false;
    }
    let mut i: usize = 0;
    while i < x.len()
        invariant
            i <= x.len(),
            x.len() == y.len(),
            x@ == a@,
            y@ == b@,
            forall|k: int| 0 <= k < i ==> fold_ascii(x@[k]) == fold_ascii(y@[k]),
        decreases x.len() - i,
    {
        if fold(x[i]) != fold(y[i]) {
            assert(lowered(x@)[i as int] != lowered(y@)[i as int]);
            return false;
        }
        i += 1;
    }
    assert(lowered(x@) =~= lowered(y@));
    true
}

/// Tells whether the entry named `name` is in scope of the configured extensions.
pub fn match_extension(name: &str, extensions: &Vec<String>) -> (r: bool)
    ensures
        r == in_scope(name@, extensions.deep_view()),
{
    match file_extension(name) {
        None => false,
        Some(e) => {
            let mut j: usize = 0;
            while j < extensions.len()
                invariant
                    j <= extensions.len(),
                    extension_of(name@) == Some(e@),
                    forall|k: int| 0 <= k < j ==> !eq_ignoring_case(e@, #[trigger] extensions.deep_view()[k]),
                decreases extensions.len() - j,
            {
                if eq_ignore_ascii_case(e.as_str(), extensions[j].as_str()) {
                    assert(eq_ignoring_case(e@, extensions.deep_view()[j as int]));
                    return true;
                }
                j += 1;
            }
            false
        },
    }
}

} // verus!
