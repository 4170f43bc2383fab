//! The grammar of a file name: stem, final dot, extension.

use vstd::prelude::*;
use vstd::string::StrSliceExecFns;
use crate::text::chars_of;

verus! {

/// `i` is the position of the last `.` of `name`.
pub open spec fn is_final_dot(name: Seq<char>, i: int) -> bool {
    &&& 0 <= i < name.len()
    &&& name[i] == '.'
    &&& forall|j: int| i < j < name.len() ==> name[j] != '.'
}

/// `name` is `..`, the parent directory's name, which has no extension.
pub open spec fn is_parent(name: Seq<char>) -> bool {
    name.len() == 2 && name[0] == '.' && name[1] == '.'
}

/// The `.` at `i` parts `name` into a stem and an extension: it is the last `.`,
/// something stands before it, and `name` is not `..`.
pub open spec fn separates(name: Seq<char>, i: int) -> bool {
    0 < i && is_final_dot(name, i) && !is_parent(name)
}

/// The position of the `.` between stem and extension, where `name` has an extension.
pub open spec fn separator(name: Seq<char>) -> Option<int> {
    if exists|i: int| separates(name, i) {
        Some(choose|i: int| separates(name, i))
    } else {
        None
    }
}

/// What follows the separating `.`; `None` for a name without a `.`, for one whose only
/// `.` is its first character, and for `..`.
pub open spec fn extension_of(name: Seq<char>) -> Option<Seq<char>> {
    match separator(name) {
        Some(i) => Some(name.skip(i + 1)),
        None => None,
    }
}

/// What stands before the separating `.`; the whole name where it has no extension.
pub open spec fn stem_of(name: Seq<char>) -> Seq<char> {
    match separator(name) {
        Some(i) => name.take(i),
        None => name,
    }
}

/// At most one position separates stem and extension.
pub proof fn lemma_separator_unique(name: Seq<char>, i: int)
    requires
        separates(name, i),
    ensures
        separator(name) == Some(i),
{
    let k = choose|k: int| separates(name, k);
    if k < i {
        assert(name[i] == '.');
    } else if i < k {
        assert(name[k] == '.');
    }
}

/// `s` holds no `.`.
pub open spec fn dotless(s: Seq<char>) -> bool {
    forall|k: int| 0 <= k < s.len() ==> s[k] != '.'
}

/// The name of the file with this stem and this extension.
pub open spec fn candidate(stem: Seq<char>, extension: Seq<char>) -> Seq<char> {
    stem + seq!['.'] + extension
}

/// A name with an extension is its stem, a `.` and its extension; the stem is not empty,
/// and the extension holds no `.`.
pub proof fn lemma_parts(name: Seq<char>)
    requires
        extension_of(name) is Some,
    ensures
        name == candidate(stem_of(name), extension_of(name)->0),
        stem_of(name).len() > 0,
        dotless(extension_of(name)->0),
        !is_parent(name),
{
    let i = separator(name)->0;
    assert(separates(name, i));
    assert(name =~= candidate(name.take(i), name.skip(i + 1)));
    let extension = name.skip(i + 1);
    assert forall|k: int| 0 <= k < extension.len() implies extension[k] != '.' by {
        assert(extension[k] == name[i + 1 + k]);
    }
}

/// Stem and extension are the parts of the name made of them, where the stem is not
/// empty, the extension holds no `.`, and the name is not `..`.
pub proof fn lemma_candidate_parts(stem: Seq<char>, extension: Seq<char>)
    requires
        stem.len() > 0,
        dotless(extension),
        !is_parent(candidate(stem, extension)),
    ensures
        stem_of(candidate(stem, extension)) == stem,
        extension_of(candidate(stem, extension)) == Some(extension),
{
    let name = candidate(stem, extension);
    let i = stem.len() as int;
    assert(name[i] == '.');
    assert forall|j: int| i < j < name.len() implies name[j] != '.' by {
        assert(name[j] == extension[j - i - 1]);
    }
    lemma_separator_unique(name, i);
    assert(name.take(i) =~= stem);
    assert(name.skip(i + 1) =~= extension);
}

/// Finds the separating `.` of a name given by its characters.
pub fn find_separator(chars: &Vec<char>) -> (r: Option<usize>)
    ensures
        match r {
            Some(i) => separates(chars@, i as int) && separator(chars@) == Some(i as int),
            None => separator(chars@) is None,
        },
{
    let n = chars.len();
    let mut i: usize = n;
    while i > 0
        invariant
            i <= n,
            n == chars.len(),
            forall|j: int| i <= j < n ==> chars@[j] != '.',
        decreases i,
    {
        i -= 1;
        if chars[i] == '.' {
            if i == 0 || (n == 2 && chars[0] == '.') {
                assert forall|k: int| !separates(chars@, k) by {
                    if separates(chars@, k) {
                        if k < i {
                            assert(chars@[i as int] == '.');
                        }
                    }
                }
                return None;
            }
            proof {
                lemma_separator_unique(chars@, i as int);
            }
            return Some(i);
        }
    }
    None
}

/// The extension of a file name: what follows its last `.`. A name without a `.`, a name
/// whose only `.` is its first character, and `..` have none; a name that ends in a `.`
/// has the empty one.
pub fn file_extension(name: &str) -> (r: Option<String>)
    ensures
        match r {
            Some(e) => extension_of(name@) == Some(e@),
            None => extension_of(name@) is None,
        },
{
    let chars = chars_of(name);
    let n = chars.len();
    match find_separator(&chars) {
        Some(i) => Some(name.substring_char(i + 1, n).to_owned()),
        None => None,
    }
}

/// The stem of a file name: what stands before the `.` of its extension, and the whole
/// name where it has no extension.
pub fn file_stem(name: &str) -> (r: String)
    ensures
        r@ == stem_of(name@),
{
    let chars = chars_of(name);
    match find_separator(&chars) {
        Some(i) => name.substring_char(0, i).to_owned(),
        None => name.to_owned(),
    }
}

} // verus!
