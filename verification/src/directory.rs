//! A directory as the set of its entries' names, and what a run that is driven
//! faithfully makes of it.

use vstd::prelude::*;
use crate::cleanup::{Phase, Run};

verus! {

/// The directory after the run has been driven to its end from `run`. A probe is answered
/// by what the directory holds then; a removal takes the name out of it, unless the file
/// system refuses it: `refused` holds the positions in the plan at which it does.
pub open spec fn swept(run: Run, files: Set<Seq<char>>, refused: Set<int>) -> Set<Seq<char>>
    decreases run.plan.len() - run.cursor, (if run.phase is Probing { 1int } else { 0int }),
    when run.wf()
{
    match run.phase {
        Phase::Probing => swept(run.probed(files.contains(run.plan[run.cursor])), files, refused),
        Phase::Removing => if refused.contains(run.cursor) {
            swept(run.removed(), files, refused)
        } else {
            swept(run.removed(), files.remove(run.plan[run.cursor]), refused)
        },
        _ => files,
    }
}

/// The directory with these entries after a whole run on it: `line` is the operator's
/// answer, which is read only if it is asked for.
pub open spec fn after_run(
    entries: Seq<Seq<char>>,
    extensions: Seq<Seq<char>>,
    auto_confirm: bool,
    line: Seq<char>,
    refused: Set<int>,
) -> Set<Seq<char>> {
    swept(Run::start(entries, extensions, auto_confirm).answered(line), entries.to_set(), refused)
}

/// A removal of `name` is accepted at some position of the plan from `from` on.
pub open spec fn taken(plan: Seq<Seq<char>>, from: int, refused: Set<int>, name: Seq<char>) -> bool {
    exists|k: int| from <= k < plan.len() && #[trigger] plan[k] == name && !refused.contains(k)
}

/// A sweep takes out of the directory the names of the plan that lie ahead and whose
/// removal is accepted, and leaves every other name in it.
pub proof fn lemma_swept(run: Run, files: Set<Seq<char>>, refused: Set<int>)
    requires
        run.wf(),
    ensures
        run.phase is Probing ==> swept(run, files, refused) == files.filter(
            |f: Seq<char>| !taken(run.plan, run.cursor, refused, f),
        ),
        run.phase is Confirming || run.phase is Stopped ==> swept(run, files, refused) == files,
    decreases run.plan.len() - run.cursor,
{
    if run.phase is Probing {
        let name = run.plan[run.cursor];
        let ahead = run.cursor + 1;
        let next = run.at(ahead);
        let all = |f: Seq<char>| !taken(run.plan, run.cursor, refused, f);
        let rest = |f: Seq<char>| !taken(run.plan, ahead, refused, f);
        assert forall|f: Seq<char>| taken(run.plan, run.cursor, refused, f) <==> (f == name
            && !refused.contains(run.cursor)) || taken(run.plan, ahead, refused, f) by {
            if taken(run.plan, run.cursor, refused, f) {
                let k = choose|k: int|
                    run.cursor <= k < run.plan.len() && #[trigger] run.plan[k] == f
                        && !refused.contains(k);
                if k > run.cursor {
                    assert(taken(run.plan, ahead, refused, f));
                }
            }
            if f == name && !refused.contains(run.cursor) {
                assert(run.plan[run.cursor] == f);
            }
            if taken(run.plan, ahead, refused, f) {
                let k = choose|k: int|
                    ahead <= k < run.plan.len() && #[trigger] run.plan[k] == f && !refused.contains(k);
                assert(run.plan[k] == f);
            }
        }
        let left = if files.contains(name) && !refused.contains(run.cursor) {
            files.remove(name)
        } else {
            files
        };
        assert(swept(run, files, refused) == swept(next, left, refused)) by {
            if files.contains(name) {
                let held = run.probed(true);
                assert(held.wf() && held.phase is Removing && held.removed() == next);
                assert(swept(run, files, refused) == swept(held, files, refused));
                assert(swept(held, files, refused) == swept(next, left, refused));
            } else {
                assert(run.probed(false) == next);
            }
        }
        lemma_swept(next, left, refused);
        assert(swept(next, left, refused) == left.filter(rest)) by {
            if next.phase is Stopped {
                assert(left.filter(rest) =~= left);
            }
        }
        assert(left.filter(rest) =~= files.filter(all));
    }
}

} // verus!
