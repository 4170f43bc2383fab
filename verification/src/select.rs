//! Stems of the entries in scope, and the stems among them that stand alone.

use vstd::prelude::*;
use crate::matcher::{in_scope, match_extension};
use crate::name::{file_stem, stem_of};

verus! {

broadcast use vstd::seq_lib::group_filter_ensures;

/// The names in scope of the configured extensions.
pub open spec fn scoped(extensions: Seq<Seq<char>>) -> spec_fn(Seq<char>) -> bool {
    |name: Seq<char>| in_scope(name, extensions)
}

/// The names in scope that have this stem.
pub open spec fn scoped_with(extensions: Seq<Seq<char>>, stem: Seq<char>) -> spec_fn(
    Seq<char>,
) -> bool {
    |name: Seq<char>| in_scope(name, extensions) && stem_of(name) == stem
}

/// The stems equal to `stem`.
pub open spec fn same_as(stem: Seq<char>) -> spec_fn(Seq<char>) -> bool {
    |s: Seq<char>| s == stem
}

/// The stems that occur fewer than two times in `stems`.
pub open spec fn alone_in(stems: Seq<Seq<char>>) -> spec_fn(Seq<char>) -> bool {
    |s: Seq<char>| occurrences(stems, s) < 2
}

/// The stems of the entries in scope, in the order of the entries; a stem is listed
/// once for each entry that has it.
pub open spec fn stems_of(entries: Seq<Seq<char>>, extensions: Seq<Seq<char>>) -> Seq<Seq<char>> {
    entries.filter(scoped(extensions)).map_values(|name: Seq<char>| stem_of(name))
}

/// How often `stem` occurs in `stems`.
pub open spec fn occurrences(stems: Seq<Seq<char>>, stem: Seq<char>) -> nat {
    stems.filter(same_as(stem)).len()
}

/// The stems that occur fewer than two times, in the order of `stems`.
pub open spec fn orphans(stems: Seq<Seq<char>>) -> Seq<Seq<char>> {
    stems.filter(alone_in(stems))
}

/// Of the items of `s`, at least one, and at least two, are kept by a filter exactly if
/// the predicate holds at one place, and at two places, of `s`.
pub proof fn lemma_filter_count<A>(s: Seq<A>, p: spec_fn(A) -> bool)
    ensures
        s.filter(p).len() >= 1 <==> exists|i: int| 0 <= i < s.len() && p(#[trigger] s[i]),
        s.filter(p).len() >= 2 <==> exists|i: int, j: int|
            #![trigger s[i], s[j]]
            0 <= i < j < s.len() && p(s[i]) && p(s[j]),
    decreases s.len(),
{
    if s.len() == 0 {
        assert(s.filter(p).len() == 0) by {
            reveal(Seq::filter);
        }
    } else {
        let front = s.drop_last();
        let last = s.last();
        let n = front.len() as int;
        assert(front.push(last) =~= s);
        front.lemma_filter_len_push(p, last);
        lemma_filter_count(front, p);
        assert forall|i: int| 0 <= i < n implies front[i] == s[i] by {}
        if exists|i: int| 0 <= i < n && p(#[trigger] front[i]) {
            let i = choose|i: int| 0 <= i < n && p(#[trigger] front[i]);
            assert(p(s[i]));
            if p(last) {
                assert(p(s[i]) && p(s[n]));
            }
        }
        if exists|i: int, j: int| #![trigger front[i], front[j]] 0 <= i < j < n && p(front[i]) && p(front[j]) {
            let (i, j) = choose|i: int, j: int|
                #![trigger front[i], front[j]]
                0 <= i < j < n && p(front[i]) && p(front[j]);
            assert(p(s[i]) && p(s[j]));
        }
        if p(last) {
            assert(p(s[n]));
        }
        if exists|i: int| 0 <= i < s.len() && p(#[trigger] s[i]) {
            let i = choose|i: int| 0 <= i < s.len() && p(#[trigger] s[i]);
            if i < n {
                assert(p(front[i]));
            }
        }
        if exists|i: int, j: int| #![trigger s[i], s[j]] 0 <= i < j < s.len() && p(s[i]) && p(s[j]) {
            let (i, j) = choose|i: int, j: int|
                #![trigger s[i], s[j]]
                0 <= i < j < s.len() && p(s[i]) && p(s[j]);
            assert(p(front[i]));
            if j < n {
                assert(p(front[i]) && p(front[j]));
            }
        }
    }
}

/// A stem occurs among the stems of a directory as often as the directory has entries
/// in scope with that stem.
pub proof fn lemma_occurrences(entries: Seq<Seq<char>>, extensions: Seq<Seq<char>>, stem: Seq<char>)
    ensures
        occurrences(stems_of(entries, extensions), stem) == entries.filter(
            scoped_with(extensions, stem),
        ).len(),
    decreases entries.len(),
{
    if entries.len() == 0 {
        reveal(Seq::filter);
        assert(stems_of(entries, extensions) =~= Seq::empty());
    } else {
        let front = entries.drop_last();
        let last = entries.last();
        assert(front.push(last) =~= entries);
        lemma_occurrences(front, extensions, stem);
        front.lemma_filter_push(last, scoped(extensions));
        front.lemma_filter_len_push(scoped_with(extensions, stem), last);
        if in_scope(last, extensions) {
            assert(stems_of(entries, extensions) =~= stems_of(front, extensions).push(stem_of(last)));
            stems_of(front, extensions).lemma_filter_len_push(same_as(stem), stem_of(last));
        }
    }
}

/// A stem is among the stems of a directory exactly if an entry in scope has it.
pub proof fn lemma_stem_once(entries: Seq<Seq<char>>, extensions: Seq<Seq<char>>, stem: Seq<char>)
    ensures
        stems_of(entries, extensions).contains(stem) <==> exists|i: int|
            0 <= i < entries.len() && in_scope(#[trigger] entries[i], extensions) && stem_of(
                entries[i],
            ) == stem,
        stems_of(entries, extensions).contains(stem) <==> occurrences(
            stems_of(entries, extensions),
            stem,
        ) >= 1,
{
    let stems = stems_of(entries, extensions);
    let same = same_as(stem);
    let both = scoped_with(extensions, stem);
    lemma_occurrences(entries, extensions, stem);
    lemma_filter_count(entries, both);
    lemma_filter_count(stems, same);
    if stems.contains(stem) {
        let k = choose|k: int| 0 <= k < stems.len() && stems[k] == stem;
        assert(same(stems[k]));
    }
    if exists|k: int| 0 <= k < stems.len() && same(#[trigger] stems[k]) {
        let k = choose|k: int| 0 <= k < stems.len() && same(#[trigger] stems[k]);
        assert(stems[k] == stem);
    }
    if exists|i: int| 0 <= i < entries.len() && both(#[trigger] entries[i]) {
        let i = choose|i: int| 0 <= i < entries.len() && both(#[trigger] entries[i]);
        assert(in_scope(entries[i], extensions) && stem_of(entries[i]) == stem);
    }
    if exists|i: int|
        0 <= i < entries.len() && in_scope(#[trigger] entries[i], extensions) && stem_of(entries[i])
            == stem {
        let i = choose|i: int|
            0 <= i < entries.len() && in_scope(#[trigger] entries[i], extensions) && stem_of(
                entries[i],
            ) == stem;
        assert(both(entries[i]));
    }
}

/// A stem occurs at least twice among the stems of a directory exactly if two entries in
/// scope have it.
pub proof fn lemma_stem_twice(entries: Seq<Seq<char>>, extensions: Seq<Seq<char>>, stem: Seq<char>)
    ensures
        occurrences(stems_of(entries, extensions), stem) >= 2 <==> exists|i: int, j: int|
            #![trigger entries[i], entries[j]]
            0 <= i < j < entries.len() && in_scope(entries[i], extensions) && stem_of(entries[i])
                == stem && in_scope(entries[j], extensions) && stem_of(entries[j]) == stem,
{
    let both = scoped_with(extensions, stem);
    lemma_occurrences(entries, extensions, stem);
    lemma_filter_count(entries, both);
    if exists|i: int, j: int|
        #![trigger entries[i], entries[j]]
        0 <= i < j < entries.len() && both(entries[i]) && both(entries[j]) {
        let (i, j) = choose|i: int, j: int|
            #![trigger entries[i], entries[j]]
            0 <= i < j < entries.len() && both(entries[i]) && both(entries[j]);
        assert(in_scope(entries[i], extensions) && stem_of(entries[i]) == stem && in_scope(
            entries[j],
            extensions,
        ) && stem_of(entries[j]) == stem);
    }
    if exists|i: int, j: int|
        #![trigger entries[i], entries[j]]
        0 <= i < j < entries.len() && in_scope(entries[i], extensions) && stem_of(entries[i])
            == stem && in_scope(entries[j], extensions) && stem_of(entries[j]) == stem {
        let (i, j) = choose|i: int, j: int|
            #![trigger entries[i], entries[j]]
            0 <= i < j < entries.len() && in_scope(entries[i], extensions) && stem_of(entries[i])
                == stem && in_scope(entries[j], extensions) && stem_of(entries[j]) == stem;
        assert(both(entries[i]) && both(entries[j]));
    }
}

/// The orphans are the stems that are there and occur fewer than two times.
pub proof fn lemma_orphan(stems: Seq<Seq<char>>, stem: Seq<char>)
    ensures
        orphans(stems).contains(stem) <==> stems.contains(stem) && occurrences(stems, stem) < 2,
{
    let alone = alone_in(stems);
    if orphans(stems).contains(stem) {
        stems.lemma_filter_contains_rev(alone, stem);
        let k = choose|k: int| 0 <= k < orphans(stems).len() && orphans(stems)[k] == stem;
        stems.lemma_filter_pred(alone, k);
    }
    if stems.contains(stem) && occurrences(stems, stem) < 2 {
        let k = choose|k: int| 0 <= k < stems.len() && stems[k] == stem;
        stems.lemma_filter_contains(alone, k);
    }
}

/// Collects the stem of every entry in scope.
pub fn collect_stems(entries: &Vec<String>, extensions: &Vec<String>) -> (stems: Vec<String>)
    ensures
        stems.deep_view() == stems_of(entries.deep_view(), extensions.deep_view()),
{
    let mut stems: Vec<String> = Vec::new();
    let mut i: usize = 0;
    proof {
        reveal(Seq::filter);
        assert(entries.deep_view().take(0) =~= Seq::empty());
        assert(stems_of(Seq::empty(), extensions.deep_view()) =~= Seq::empty());
    }
    while i < entries.len()
        invariant
            i <= entries.len(),
            stems.deep_view() == stems_of(entries.deep_view().take(i as int), extensions.deep_view()),
        decreases entries.len() - i,
    {
        let name = entries[i].as_str();
        proof {
            let before = entries.deep_view().take(i as int);
            assert(entries.deep_view().take(i + 1) =~= before.push(name@));
            before.lemma_filter_push(name@, scoped(extensions.deep_view()));
        }
        if match_extension(name, extensions) {
            let ghost old_stems = stems.deep_view();
            stems.push(file_stem(name));
            assert(stems.deep_view() =~= old_stems.push(stem_of(name@)));
            assert(stems_of(entries.deep_view().take(i + 1), extensions.deep_view()) =~= old_stems.push(
                stem_of(name@),
            ));
        }
        i += 1;
    }
    assert(entries.deep_view().take(i as int) =~= entries.deep_view());
    stems
}

/// Counts how often `stem` occurs in `stems`.
pub fn count_occurrences(stems: &Vec<String>, stem: &String) -> (n: usize)
    ensures
        n == occurrences(stems.deep_view(), stem@),
{
    let mut n: usize = 0;
    let mut i: usize = 0;
    proof {
        reveal(Seq::filter);
        assert(stems.deep_view().take(0) =~= Seq::empty());
    }
    while i < stems.len()
        invariant
            i <= stems.len(),
            n == occurrences(stems.deep_view().take(i as int), stem@),
            n <= i,
        decreases stems.len() - i,
    {
        proof {
            let before = stems.deep_view().take(i as int);
            assert(stems.deep_view().take(i + 1) =~= before.push(stems@[i as int]@));
            before.lemma_filter_len_push(same_as(stem@), stems@[i as int]@);
        }
        if stems[i] == *stem {
            n += 1;
        }
        i += 1;
    }
    assert(stems.deep_view().take(i as int) =~= stems.deep_view());
    n
}

/// Selects the stems that have no companion: those that occur fewer than two times.
pub fn select_orphans(stems: &Vec<String>) -> (selected: Vec<String>)
    ensures
        selected.deep_view() == orphans(stems.deep_view()),
{
    let ghost alone = alone_in(stems.deep_view());
    let mut selected: Vec<String> = Vec::new();
    let mut i: usize = 0;
    proof {
        reveal(Seq::filter);
        assert(stems.deep_view().take(0) =~= Seq::empty());
    }
    while i < stems.len()
        invariant
            i <= stems.len(),
            alone == alone_in(stems.deep_view()),
            selected.deep_view() == stems.deep_view().take(i as int).filter(alone),
        decreases stems.len() - i,
    {
        proof {
            let before = stems.deep_view().take(i as int);
            assert(stems.deep_view().take(i + 1) =~= before.push(stems@[i as int]@));
            before.lemma_filter_push(stems@[i as int]@, alone);
        }
        if count_occurrences(stems, &stems[i]) < 2 {
            let ghost old_selected = selected.deep_view();
            selected.push(stems[i].clone());
            assert(selected.deep_view() =~= old_selected.push(stems@[i as int]@));
        }
        i += 1;
    }
    assert(stems.deep_view().take(i as int) =~= stems.deep_view());
    selected
}

} // verus!
