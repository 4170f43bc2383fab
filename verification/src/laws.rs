//! What holds of every run.

use vstd::prelude::*;
use crate::cleanup::{ActionView, Ending, Phase, Run};
use crate::confirm::affirmative;
use crate::directory::{after_run, lemma_swept, taken};
use crate::matcher::{eq_ignoring_case, in_scope};
use crate::name::{
    candidate, dotless, extension_of, is_parent, lemma_candidate_parts, lemma_parts, stem_of,
};
use crate::plan::{lemma_plan_contains, plan_of};
use crate::select::{
    lemma_orphan, lemma_stem_once, lemma_stem_twice, occurrences, orphans, stems_of,
};

verus! {

/// No configured extension holds a `.`.
pub open spec fn all_dotless(extensions: Seq<Seq<char>>) -> bool {
    forall|j: int| 0 <= j < extensions.len() ==> dotless(#[trigger] extensions[j])
}

/// The names that a run on this directory tries to delete.
pub open spec fn planned(entries: Seq<Seq<char>>, extensions: Seq<Seq<char>>) -> Seq<Seq<char>> {
    plan_of(orphans(stems_of(entries, extensions)), extensions)
}

/// A name that a run tries to delete has the stem of an orphan.
proof fn lemma_planned_stem(entries: Seq<Seq<char>>, extensions: Seq<Seq<char>>, name: Seq<char>)
    requires
        all_dotless(extensions),
        !is_parent(name),
        planned(entries, extensions).contains(name),
    ensures
        orphans(stems_of(entries, extensions)).contains(stem_of(name)),
{
    let stems = stems_of(entries, extensions);
    let alone = orphans(stems);
    lemma_plan_contains(alone, extensions, name);
    let (i, j) = choose|i: int, j: int|
        0 <= i < alone.len() && 0 <= j < extensions.len() && name == candidate(
            #[trigger] alone[i],
            #[trigger] extensions[j],
        );
    assert(alone.contains(alone[i]));
    lemma_orphan(stems, alone[i]);
    lemma_stem_once(entries, extensions, alone[i]);
    let k = choose|k: int|
        0 <= k < entries.len() && in_scope(#[trigger] entries[k], extensions) && stem_of(entries[k])
            == alone[i];
    lemma_parts(entries[k]);
    lemma_candidate_parts(alone[i], extensions[j]);
}

/// What a whole run leaves of the directory: every name that it does not try, all of
/// it if the operator declines, and none of the names that it tries if it is confirmed
/// and no removal is refused.
proof fn lemma_after_run(
    entries: Seq<Seq<char>>,
    extensions: Seq<Seq<char>>,
    auto_confirm: bool,
    line: Seq<char>,
    refused: Set<int>,
    name: Seq<char>,
)
    ensures
        after_run(entries, extensions, auto_confirm, line, refused).contains(name)
            ==> entries.contains(name),
        !planned(entries, extensions).contains(name) ==> (after_run(
            entries,
            extensions,
            auto_confirm,
            line,
            refused,
        ).contains(name) <==> entries.contains(name)),
        !auto_confirm && !affirmative(line) ==> after_run(
            entries,
            extensions,
            auto_confirm,
            line,
            refused,
        ) == entries.to_set(),
        (auto_confirm || affirmative(line)) && refused == Set::<int>::empty() && planned(
            entries,
            extensions,
        ).contains(name) ==> !after_run(entries, extensions, auto_confirm, line, refused).contains(
            name,
        ),
{
    let plan = planned(entries, extensions);
    let run = Run::start(entries, extensions, auto_confirm).answered(line);
    let files = entries.to_set();
    assert(run.plan == plan);
    assert(run.wf());
    lemma_swept(run, files, refused);
    if orphans(stems_of(entries, extensions)).len() == 0 {
        lemma_plan_contains(orphans(stems_of(entries, extensions)), extensions, name);
    }
    if run.phase is Probing {
        assert(run.cursor == 0);
        if taken(plan, 0, refused, name) {
            let k = choose|k: int|
                0 <= k < plan.len() && #[trigger] plan[k] == name && !refused.contains(k);
            assert(plan.contains(name));
        }
        if plan.contains(name) && refused == Set::<int>::empty() {
            let k = choose|k: int| 0 <= k < plan.len() && plan[k] == name;
            assert(plan[k] == name && !refused.contains(k));
        }
    } else if auto_confirm || affirmative(line) {
        assert(plan.len() == 0 || orphans(stems_of(entries, extensions)).len() == 0);
    }
}

/// A file whose stem is not an orphan's is never touched: whatever the operator answers
/// and whatever the file system refuses, no run probes or removes it, and it is in the
/// directory afterwards if it was there before. This holds where no configured
/// extension holds a `.`; the name `..` is no entry of a directory.
pub proof fn law_other_stems_untouched(
    entries: Seq<Seq<char>>,
    extensions: Seq<Seq<char>>,
    auto_confirm: bool,
    line: Seq<char>,
    refused: Set<int>,
    name: Seq<char>,
)
    requires
        all_dotless(extensions),
        !is_parent(name),
        !orphans(stems_of(entries, extensions)).contains(stem_of(name)),
    ensures
        !planned(entries, extensions).contains(name),
        after_run(entries, extensions, auto_confirm, line, refused).contains(name)
            <==> entries.contains(name),
{
    if planned(entries, extensions).contains(name) {
        lemma_planned_stem(entries, extensions, name);
    }
    lemma_after_run(entries, extensions, auto_confirm, line, refused, name);
}

/// A stem that two or more entries in scope share keeps its files: whatever the operator
/// answers and whatever the file system refuses, no run probes or removes a file of
/// that stem. This holds where no configured extension holds a `.`.
pub proof fn law_companions_kept(
    entries: Seq<Seq<char>>,
    extensions: Seq<Seq<char>>,
    auto_confirm: bool,
    line: Seq<char>,
    refused: Set<int>,
    name: Seq<char>,
)
    requires
        all_dotless(extensions),
        !is_parent(name),
        occurrences(stems_of(entries, extensions), stem_of(name)) >= 2,
    ensures
        !planned(entries, extensions).contains(name),
        after_run(entries, extensions, auto_confirm, line, refused).contains(name)
            <==> entries.contains(name),
{
    lemma_orphan(stems_of(entries, extensions), stem_of(name));
    law_other_stems_untouched(entries, extensions, auto_confirm, line, refused, name);
}

/// After a run that was confirmed and in which no removal was refused, no file is left
/// that has the stem of an orphan and a configured extension.
pub proof fn law_orphans_removed(
    entries: Seq<Seq<char>>,
    extensions: Seq<Seq<char>>,
    auto_confirm: bool,
    line: Seq<char>,
    stem: Seq<char>,
    j: int,
)
    requires
        auto_confirm || affirmative(line),
        orphans(stems_of(entries, extensions)).contains(stem),
        0 <= j < extensions.len(),
    ensures
        planned(entries, extensions).contains(candidate(stem, extensions[j])),
        !after_run(entries, extensions, auto_confirm, line, Set::empty()).contains(
            candidate(stem, extensions[j]),
        ),
{
    let alone = orphans(stems_of(entries, extensions));
    let name = candidate(stem, extensions[j]);
    let i = choose|i: int| 0 <= i < alone.len() && alone[i] == stem;
    assert(name == candidate(alone[i], extensions[j]));
    lemma_plan_contains(alone, extensions, name);
    lemma_after_run(entries, extensions, auto_confirm, line, Set::empty(), name);
}

/// Declining leaves the directory as it is: after an answer that does not confirm, the
/// run has ended, no result handed to it starts it again, and the directory holds what
/// it held.
pub proof fn law_decline_changes_nothing(
    entries: Seq<Seq<char>>,
    extensions: Seq<Seq<char>>,
    line: Seq<char>,
    refused: Set<int>,
)
    requires
        !affirmative(line),
    ensures
        ({
            let run = Run::start(entries, extensions, false).answered(line);
            &&& run.phase == Phase::Stopped(Ending::Declined) || run.phase == Phase::Stopped(
                Ending::NothingToDo,
            )
            &&& forall|other: Seq<char>| run.answered(other) == run
            &&& forall|found: bool| run.probed(found) == run
            &&& run.removed() == run
        }),
        after_run(entries, extensions, false, line, refused) == entries.to_set(),
{
    lemma_after_run(entries, extensions, false, line, refused, Seq::empty());
}

/// Matching ignores the case of ASCII letters, in the file's extension and in the
/// configured ones: two names whose extensions differ in case only are in scope of the
/// same lists, and so is one name of two lists that differ in case only.
pub proof fn law_case_is_ignored(
    a: Seq<char>,
    b: Seq<char>,
    first: Seq<Seq<char>>,
    second: Seq<Seq<char>>,
)
    requires
        extension_of(a) is Some,
        extension_of(b) is Some,
        eq_ignoring_case(extension_of(a)->0, extension_of(b)->0),
        first.len() == second.len(),
        forall|j: int| 0 <= j < first.len() ==> eq_ignoring_case(#[trigger] first[j], second[j]),
    ensures
        in_scope(a, first) == in_scope(b, second),
{
    if in_scope(a, first) {
        let j = choose|j: int|
            0 <= j < first.len() && eq_ignoring_case(extension_of(a)->0, #[trigger] first[j]);
        assert(eq_ignoring_case(extension_of(b)->0, second[j]));
    }
    if in_scope(b, second) {
        let j = choose|j: int|
            0 <= j < second.len() && eq_ignoring_case(extension_of(b)->0, #[trigger] second[j]);
        assert(eq_ignoring_case(extension_of(a)->0, first[j]));
    }
}

/// A stem that two entries in scope share in one listing, which holds no name twice,
/// is shared by two entries in every listing that holds those entries.
proof fn lemma_pair_carries_over(
    entries: Seq<Seq<char>>,
    relisted: Seq<Seq<char>>,
    extensions: Seq<Seq<char>>,
    stem: Seq<char>,
)
    requires
        entries.no_duplicates(),
        occurrences(stems_of(entries, extensions), stem) >= 2,
        forall|name: Seq<char>|
            entries.contains(name) && in_scope(name, extensions) && stem_of(name) == stem
                ==> relisted.contains(name),
    ensures
        occurrences(stems_of(relisted, extensions), stem) >= 2,
{
    lemma_stem_twice(entries, extensions, stem);
    let (a, b) = choose|a: int, b: int|
        #![trigger entries[a], entries[b]]
        0 <= a < b < entries.len() && in_scope(entries[a], extensions) && stem_of(entries[a]) == stem
            && in_scope(entries[b], extensions) && stem_of(entries[b]) == stem;
    assert(entries.contains(entries[a]) && entries.contains(entries[b]));
    let x = choose|x: int| 0 <= x < relisted.len() && relisted[x] == entries[a];
    let y = choose|y: int| 0 <= y < relisted.len() && relisted[y] == entries[b];
    assert(entries[a] != entries[b]);
    assert(x != y);
    lemma_stem_twice(relisted, extensions, stem);
    if x < y {
        assert(in_scope(relisted[x], extensions) && stem_of(relisted[x]) == stem && in_scope(
            relisted[y],
            extensions,
        ) && stem_of(relisted[y]) == stem);
    } else {
        assert(in_scope(relisted[y], extensions) && stem_of(relisted[y]) == stem && in_scope(
            relisted[x],
            extensions,
        ) && stem_of(relisted[x]) == stem);
    }
}

/// A stem that is an orphan in one listing is an orphan in every other listing of the
/// same entries, where neither holds a name twice.
proof fn lemma_orphan_carries_over(
    first: Seq<Seq<char>>,
    second: Seq<Seq<char>>,
    extensions: Seq<Seq<char>>,
    stem: Seq<char>,
)
    requires
        second.no_duplicates(),
        first.to_set() == second.to_set(),
        orphans(stems_of(first, extensions)).contains(stem),
    ensures
        orphans(stems_of(second, extensions)).contains(stem),
{
    lemma_orphan(stems_of(first, extensions), stem);
    lemma_orphan(stems_of(second, extensions), stem);
    lemma_stem_once(first, extensions, stem);
    lemma_stem_once(second, extensions, stem);
    let i = choose|i: int|
        0 <= i < first.len() && in_scope(#[trigger] first[i], extensions) && stem_of(first[i])
            == stem;
    assert(first.contains(first[i]));
    assert(second.to_set().contains(first[i]));
    let k = choose|k: int| 0 <= k < second.len() && second[k] == first[i];
    assert(in_scope(second[k], extensions) && stem_of(second[k]) == stem);
    if occurrences(stems_of(second, extensions), stem) >= 2 {
        assert forall|name: Seq<char>|
            second.contains(name) && in_scope(name, extensions) && stem_of(name)
                == stem implies first.contains(name) by {
            assert(first.to_set().contains(name));
        }
        lemma_pair_carries_over(second, first, extensions, stem);
    }
}

/// The order of the listing does not matter: two listings of the same entries, neither
/// with a name twice, have the same orphans.
pub proof fn law_order_is_immaterial(
    first: Seq<Seq<char>>,
    second: Seq<Seq<char>>,
    extensions: Seq<Seq<char>>,
)
    requires
        first.no_duplicates(),
        second.no_duplicates(),
        first.to_set() == second.to_set(),
    ensures
        orphans(stems_of(first, extensions)).to_set() == orphans(stems_of(second, extensions)).to_set(),
{
    let one = orphans(stems_of(first, extensions));
    let other = orphans(stems_of(second, extensions));
    assert forall|stem: Seq<char>| one.contains(stem) <==> other.contains(stem) by {
        if one.contains(stem) {
            lemma_orphan_carries_over(first, second, extensions, stem);
        }
        if other.contains(stem) {
            lemma_orphan_carries_over(second, first, extensions, stem);
        }
    }
    assert(one.to_set() =~= other.to_set());
}

/// A directory without entries gives nothing to do: the run has ended when it starts.
pub proof fn law_empty_directory(extensions: Seq<Seq<char>>, auto_confirm: bool)
    ensures
        Run::start(Seq::empty(), extensions, auto_confirm).phase == Phase::Stopped(
            Ending::NothingToDo,
        ),
{
    reveal(Seq::filter);
    assert(stems_of(Seq::empty(), extensions) =~= Seq::empty());
}

/// Every orphan's file has an extension that is configured letter for letter.
pub open spec fn orphans_spelled_as_configured(
    entries: Seq<Seq<char>>,
    extensions: Seq<Seq<char>>,
) -> bool {
    forall|i: int|
        0 <= i < entries.len() && in_scope(#[trigger] entries[i], extensions) && occurrences(
            stems_of(entries, extensions),
            stem_of(entries[i]),
        ) < 2 ==> extensions.contains(extension_of(entries[i])->0)
}

/// A second run finds nothing to do. Where a run was confirmed and no removal was
/// refused, a run on the directory as it is afterwards, in whatever order it is listed
/// then, has no candidate and ends at once. This holds of a directory that lists no name
/// twice, where no configured extension holds a `.` and every orphan's file has its
/// extension in the case in which it is configured.
pub proof fn law_second_run_finds_nothing(
    entries: Seq<Seq<char>>,
    extensions: Seq<Seq<char>>,
    auto_confirm: bool,
    line: Seq<char>,
    relisted: Seq<Seq<char>>,
    again_auto_confirm: bool,
)
    requires
        entries.no_duplicates(),
        all_dotless(extensions),
        orphans_spelled_as_configured(entries, extensions),
        auto_confirm || affirmative(line),
        relisted.to_set() == after_run(entries, extensions, auto_confirm, line, Set::empty()),
    ensures
        orphans(stems_of(relisted, extensions)) == Seq::<Seq<char>>::empty(),
        Run::start(relisted, extensions, again_auto_confirm).phase == Phase::Stopped(
            Ending::NothingToDo,
        ),
        Run::start(relisted, extensions, again_auto_confirm).pending() == ActionView::Stop(
            Ending::NothingToDo,
        ),
{
    let stems = stems_of(entries, extensions);
    let alone = orphans(stems);
    let after = after_run(entries, extensions, auto_confirm, line, Set::empty());
    let left = orphans(stems_of(relisted, extensions));
    if left.len() > 0 {
        let stem = left[0];
        assert(left.contains(stem));
        lemma_orphan(stems_of(relisted, extensions), stem);
        lemma_stem_once(relisted, extensions, stem);
        let k = choose|k: int|
            0 <= k < relisted.len() && in_scope(#[trigger] relisted[k], extensions) && stem_of(
                relisted[k],
            ) == stem;
        let name = relisted[k];
        assert(relisted.contains(name));
        assert(relisted.to_set().contains(name));
        lemma_after_run(entries, extensions, auto_confirm, line, Set::empty(), name);
        let i = choose|i: int| 0 <= i < entries.len() && entries[i] == name;
        lemma_parts(name);
        if occurrences(stems, stem) < 2 {
            let extension = extension_of(name)->0;
            assert(in_scope(entries[i], extensions));
            assert(extensions.contains(extension));
            let j = choose|j: int| 0 <= j < extensions.len() && extensions[j] == extension;
            assert(stems.contains(stem)) by {
                lemma_stem_once(entries, extensions, stem);
            }
            lemma_orphan(stems, stem);
            law_orphans_removed(entries, extensions, auto_confirm, line, stem, j);
            assert(false);
        } else {
            assert forall|other: Seq<char>|
                entries.contains(other) && in_scope(other, extensions) && stem_of(other)
                    == stem implies relisted.contains(other) by {
                lemma_parts(other);
                law_companions_kept(entries, extensions, auto_confirm, line, Set::empty(), other);
                assert(relisted.to_set().contains(other));
            }
            lemma_pair_carries_over(entries, relisted, extensions, stem);
            assert(false);
        }
    }
    assert(left =~= Seq::<Seq<char>>::empty());
}

} // verus!
