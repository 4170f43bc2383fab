//! The file names that a run tries to delete: one for each orphan and each configured
//! extension.

use vstd::prelude::*;
use vstd::string::StringExecFns;
use crate::name::candidate;

verus! {

broadcast use Seq::group_seq_flatten;

/// The candidates of one stem: one for each configured extension, in their order.
pub open spec fn row(stem: Seq<char>, extensions: Seq<Seq<char>>) -> Seq<Seq<char>> {
    extensions.map_values(|e: Seq<char>| candidate(stem, e))
}

/// All candidates: the rows of the stems, one after the other.
pub open spec fn plan_of(stems: Seq<Seq<char>>, extensions: Seq<Seq<char>>) -> Seq<Seq<char>> {
    stems.map_values(|s: Seq<char>| row(s, extensions)).flatten()
}

/// One more stem adds its row at the end of the plan.
pub proof fn lemma_plan_push(stems: Seq<Seq<char>>, stem: Seq<char>, extensions: Seq<Seq<char>>)
    ensures
        plan_of(stems.push(stem), extensions) == plan_of(stems, extensions) + row(stem, extensions),
{
    let rows = |s: Seq<char>| row(s, extensions);
    assert(stems.push(stem).map_values(rows) =~= stems.map_values(rows).push(row(stem, extensions)));
}

/// A name is in the plan exactly if it is the candidate of a stem and an extension.
pub proof fn lemma_plan_contains(stems: Seq<Seq<char>>, extensions: Seq<Seq<char>>, name: Seq<char>)
    ensures
        plan_of(stems, extensions).contains(name) <==> exists|i: int, j: int|
            0 <= i < stems.len() && 0 <= j < extensions.len() && name == candidate(
                #[trigger] stems[i],
                #[trigger] extensions[j],
            ),
    decreases stems.len(),
{
    if stems.len() == 0 {
        assert(plan_of(stems, extensions) =~= Seq::empty());
    } else {
        let front = stems.drop_last();
        let last = stems.last();
        assert(front.push(last) =~= stems);
        lemma_plan_push(front, last, extensions);
        lemma_plan_contains(front, extensions, name);
        let whole = plan_of(stems, extensions);
        let head = plan_of(front, extensions);
        let tail = row(last, extensions);
        assert(whole == head + tail);
        if whole.contains(name) {
            let k = choose|k: int| 0 <= k < whole.len() && whole[k] == name;
            if k < head.len() {
                assert(head[k] == name);
                assert(head.contains(name));
                let (i, j) = choose|i: int, j: int|
                    0 <= i < front.len() && 0 <= j < extensions.len() && name == candidate(
                        #[trigger] front[i],
                        #[trigger] extensions[j],
                    );
                assert(stems[i] == front[i]);
            } else {
                let j = k - head.len();
                assert(tail[j] == name);
                assert(name == candidate(stems[stems.len() - 1], extensions[j]));
            }
        }
        if exists|i: int, j: int|
            0 <= i < stems.len() && 0 <= j < extensions.len() && name == candidate(
                #[trigger] stems[i],
                #[trigger] extensions[j],
            ) {
            let (i, j) = choose|i: int, j: int|
                0 <= i < stems.len() && 0 <= j < extensions.len() && name == candidate(
                    #[trigger] stems[i],
                    #[trigger] extensions[j],
                );
            if i < front.len() {
                assert(front[i] == stems[i]);
                assert(head.contains(name));
                let k = choose|k: int| 0 <= k < head.len() && head[k] == name;
                assert(whole[k] == name);
            } else {
                assert(tail[j] == name);
                assert(whole[head.len() + j] == name);
            }
        }
    }
}

/// Builds the name of the file with this stem and this extension.
pub fn candidate_name(stem: &str, extension: &str) -> (name: String)
    ensures
        name@ == candidate(stem@, extension@),
{
    let mut name = String::from_str(stem);
    name.append(".");
    name.append(extension);
    proof {
        reveal_strlit(".");
        assert("."@ =~= seq!['.']);
    }
    name
}

/// Lists the names to try, stem by stem and, for each stem, extension by extension.
pub fn deletion_plan(stems: &Vec<String>, extensions: &Vec<String>) -> (plan: Vec<String>)
    ensures
        plan.deep_view() == plan_of(stems.deep_view(), extensions.deep_view()),
{
    let mut plan: Vec<String> = Vec::new();
    let mut i: usize = 0;
    assert(stems.deep_view().take(0) =~= Seq::empty());
    assert(plan_of(Seq::empty(), extensions.deep_view()) =~= Seq::empty());
    while i < stems.len()
        invariant
            i <= stems.len(),
            plan.deep_view() == plan_of(stems.deep_view().take(i as int), extensions.deep_view()),
        decreases stems.len() - i,
    {
        let stem = stems[i].as_str();
        let ghost done = plan.deep_view();
        let mut j: usize = 0;
        assert(plan.deep_view() =~= done + row(stem@, extensions.deep_view().take(0)));
        while j < extensions.len()
            invariant
                j <= extensions.len(),
                plan.deep_view() == done + row(stem@, extensions.deep_view().take(j as int)),
            decreases extensions.len() - j,
        {
            let ghost before = plan.deep_view();
            plan.push(candidate_name(stem, extensions[j].as_str()));
            assert(plan.deep_view() =~= before.push(candidate(stem@, extensions@[j as int]@)));
            assert(extensions.deep_view().take(j + 1) =~= extensions.deep_view().take(j as int).push(
                extensions@[j as int]@,
            ));
            assert(row(stem@, extensions.deep_view().take(j + 1)) =~= row(
                stem@,
                extensions.deep_view().take(j as int),
            ).push(candidate(stem@, extensions@[j as int]@)));
            j += 1;
        }
        proof {
            assert(extensions.deep_view().take(j as int) =~= extensions.deep_view());
            assert(stems.deep_view().take(i + 1) =~= stems.deep_view().take(i as int).push(stem@));
            lemma_plan_push(stems.deep_view().take(i as int), stem@, extensions.deep_view());
        }
        i += 1;
    }
    assert(stems.deep_view().take(i as int) =~= stems.deep_view());
    plan
}

} // verus!
