//! A whole sampling run against a caller's way of looking at paths.

use vstd::prelude::*;
use crate::file_tree::{
    answered_from, lemma_init_grounded, lemma_results_reachable, lemma_run_grounded, reachable,
    FileTree,
};
use crate::probe::{Node, Probe};
use crate::run_laws::{
    inv, lemma_init_inv, lemma_results_not_whitelisted, lemma_run_inv, lemma_step_inv,
    lemma_step_nears_end, retries_left, root_walk_pending, rounds_left, steps_left,
};
use crate::sampler::{init, request, results, run, step, Phase, Sampler, State};
use crate::text::texts;
use crate::whitelist::{whitelisted, Whitelist};

verus! {

/// What a run found.
#[derive(Debug)]
pub struct Sample {
    /// The files, in the order of their discovery.
    pub paths: Vec<String>,
    /// Whether the run ended because nothing was left to try.
    pub exhausted: bool,
}

/// Every answer is one that `look` may give for the path that the run
/// requested at that point.
pub open spec fn answered_by<F: Fn(&String) -> Probe>(
    look: F,
    start: State,
    answers: Seq<(Node, int)>,
) -> bool
    decreases answers.len(),
{
    if answers.len() == 0 {
        true
    } else {
        &&& answered_by(look, start, answers.drop_last())
        &&& exists|path: &String, found: Probe|
            {
                &&& request(run(start, answers.drop_last())) == Some(path@)
                &&& #[trigger] call_ensures(look, (path,), found)
                &&& found@ == answers.last().0
            }
    }
}

/// `look` tells what `tree` holds: whatever it answers for a path is what
/// stands there.
pub open spec fn tells<F: Fn(&String) -> Probe>(look: F, tree: FileTree) -> bool {
    forall|path: &String, found: Probe| #[trigger]
        call_ensures(look, (path,), found) ==> found@ == tree.at(path@)
}

proof fn lemma_one_more<F: Fn(&String) -> Probe>(
    look: F,
    start: State,
    answers: Seq<(Node, int)>,
    path: &String,
    answer: Probe,
    pick: int,
)
    requires
        answered_by(look, start, answers),
        request(run(start, answers)) == Some(path@),
        call_ensures(look, (path,), answer),
    ensures
        answered_by(look, start, answers.push((answer@, pick))),
        run(start, answers.push((answer@, pick))) == step(run(start, answers), answer@, pick),
{
    let longer = answers.push((answer@, pick));
    assert(longer.drop_last() =~= answers);
}

proof fn lemma_told_run<F: Fn(&String) -> Probe>(
    look: F,
    tree: FileTree,
    start: State,
    answers: Seq<(Node, int)>,
)
    requires
        tells(look, tree),
        answered_by(look, start, answers),
    ensures
        answered_from(tree, start, answers),
    decreases answers.len(),
{
    if answers.len() > 0 {
        lemma_told_run(look, tree, start, answers.drop_last());
    }
}

/// Samples up to `wanted` files from below `root`, looking at paths with
/// `look`, and entering nothing that `whitelist` rules out.
///
/// The result is that of a run which was fed the answers of `look` and has
/// come to its end. It holds no more files than were wanted, none that the
/// whitelist rules out unless it is the root itself, and, where `look` tells
/// what a tree holds, only regular files of that tree which can be reached
/// from the root by entering eligible entries.
pub fn sample<F: Fn(&String) -> Probe>(
    root: String,
    wanted: usize,
    whitelist: Whitelist,
    look: F,
) -> (found: Sample)
    requires
        forall|path: &String| call_requires(look, (path,)),
    ensures
        exists|answers: Seq<(Node, int)>|
            {
                let end = #[trigger] run(init(root@, wanted as nat, whitelist@), answers);
                &&& answered_by(look, init(root@, wanted as nat, whitelist@), answers)
                &&& end.phase == Phase::Done
                &&& texts(found.paths@) == results(end)
                &&& found.exhausted == end.exhausted
            },
        found.paths@.len() <= wanted,
        forall|i: int|
            0 <= i < found.paths@.len() ==> (#[trigger] found.paths@[i])@ == root@ || !whitelisted(
                found.paths@[i]@,
                whitelist@,
            ),
        forall|tree: FileTree, i: int|
            tells(look, tree) && 0 <= i < found.paths@.len() ==> #[trigger] tree.at(
                found.paths@[i]@,
            ) == Node::File && reachable(tree, whitelist@, root@, found.paths@[i]@),
{
    let ghost origin = root@;
    let ghost patterns = whitelist@;
    let ghost start = init(origin, wanted as nat, patterns);
    let ghost mut answers: Seq<(Node, int)> = Seq::empty();
    let mut sampler = Sampler::new(root, wanted, whitelist);
    proof {
        lemma_init_inv(origin, wanted as nat, patterns);
    }
    loop
        invariant
            forall|path: &String| call_requires(look, (path,)),
            inv(sampler@),
            sampler@ == run(start, answers),
            answered_by(look, start, answers),
        ensures
            sampler@.phase == Phase::Done,
        decreases
            rounds_left(sampler@),
            root_walk_pending(sampler@),
            retries_left(sampler@),
            steps_left(sampler@),
    {
        let path = match sampler.request() {
            Some(path) => path.clone(),
            None => {
                break ;
            },
        };
        let ghost before = sampler@;
        let answer = look(&path);
        sampler.step(&answer);
        proof {
            let pick = choose|pick: int| 0 <= pick && sampler@ == #[trigger] step(before, answer@, pick);
            lemma_one_more(look, start, answers, &path, answer, pick);
            lemma_step_inv(before, answer@, pick);
            lemma_step_nears_end(before, answer@, pick);
            answers = answers.push((answer@, pick));
        }
    }
    let exhausted = sampler.is_exhausted();
    let ghost end = sampler@;
    let paths = sampler.into_results();
    proof {
        lemma_run_inv(start, answers);
        assert forall|i: int| 0 <= i < paths@.len() implies (#[trigger] paths@[i])@ == origin
            || !whitelisted(paths@[i]@, patterns) by {
            assert(texts(paths@)[i] == paths@[i]@);
            lemma_results_not_whitelisted(end, i);
        }
        assert forall|tree: FileTree, i: int|
            tells(look, tree) && 0 <= i < paths@.len() implies #[trigger] tree.at(paths@[i]@)
            == Node::File && reachable(tree, patterns, origin, paths@[i]@) by {
            lemma_init_grounded(tree, origin, wanted as nat, patterns);
            lemma_told_run(look, tree, start, answers);
            lemma_run_grounded(start, tree, answers);
            assert(texts(paths@)[i] == paths@[i]@);
            lemma_results_reachable(end, tree, i);
        }
    }
    Sample { paths, exhausted }
}

} // verus!
