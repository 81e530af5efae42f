//! A file system as a mathematical value, and what a run that is fed from
//! it can find.

use vstd::prelude::*;
use crate::text::{inserted, lemma_inserted};
use crate::probe::{eligible, lemma_eligible, Node};
use crate::run_laws::{
    base, inv, lemma_collected, lemma_pooled, lemma_run_inv, lemma_walked, placed,
};
use crate::sampler::{
    collected, conclude, init, pooled, proceed, request, results, run, step, Phase, State,
};
use crate::walk::{walk_step, Progress};
use crate::whitelist::whitelisted;

verus! {

/// What stands at each path. A path that the map does not hold has nothing.
pub struct FileTree {
    pub nodes: Map<Seq<char>, Node>,
}

impl FileTree {
    /// What stands at `path`.
    pub open spec fn at(self, path: Seq<char>) -> Node {
        if self.nodes.dom().contains(path) {
            self.nodes[path]
        } else {
            Node::Other
        }
    }
}

/// `entry` is an entry of the directory `dir` that the patterns do not rule
/// out.
pub open spec fn enters(
    tree: FileTree,
    patterns: Set<Seq<char>>,
    dir: Seq<char>,
    entry: Seq<char>,
) -> bool {
    &&& tree.at(dir) matches Node::Directory(entries) && entries.contains(entry)
    &&& !whitelisted(entry, patterns)
}

/// A chain of paths, each an eligible entry of the directory before it.
pub open spec fn descent(tree: FileTree, patterns: Set<Seq<char>>, chain: Seq<Seq<char>>) -> bool {
    &&& chain.len() > 0
    &&& forall|i: int|
        0 <= i < chain.len() - 1 ==> enters(tree, patterns, #[trigger] chain[i], chain[i + 1])
}

/// `path` is `root`, or can be reached from it by entering eligible entries.
pub open spec fn reachable(
    tree: FileTree,
    patterns: Set<Seq<char>>,
    root: Seq<char>,
    path: Seq<char>,
) -> bool {
    exists|chain: Seq<Seq<char>>|
        #[trigger] descent(tree, patterns, chain) && chain.first() == root && chain.last() == path
}

/// The root is reachable.
pub proof fn lemma_reach_root(tree: FileTree, patterns: Set<Seq<char>>, root: Seq<char>)
    ensures
        reachable(tree, patterns, root, root),
{
    let chain = seq![root];
    assert(descent(tree, patterns, chain));
}

/// An eligible entry of a reachable directory is reachable.
pub proof fn lemma_reach_entry(
    tree: FileTree,
    patterns: Set<Seq<char>>,
    root: Seq<char>,
    dir: Seq<char>,
    entry: Seq<char>,
)
    requires
        reachable(tree, patterns, root, dir),
        enters(tree, patterns, dir, entry),
    ensures
        reachable(tree, patterns, root, entry),
{
    let chain = choose|chain: Seq<Seq<char>>|
        #[trigger] descent(tree, patterns, chain) && chain.first() == root && chain.last() == dir;
    let longer = chain.push(entry);
    assert forall|i: int| 0 <= i < longer.len() - 1 implies enters(
        tree,
        patterns,
        #[trigger] longer[i],
        longer[i + 1],
    ) by {
        if i < chain.len() - 1 {
            assert(enters(tree, patterns, chain[i], chain[i + 1]));
        }
    }
    assert(descent(tree, patterns, longer));
}

/// What a run holds is really there: whatever it visited can be reached
/// from the root, and what it found is a regular file that can be reached.
pub open spec fn held(s: State, tree: FileTree) -> bool {
    &&& forall|p: Seq<char>| s.visited.contains(p) ==> reachable(tree, s.patterns, s.root, p)
    &&& forall|p: Seq<char>| #[trigger]
        s.selected.contains(p) ==> tree.at(p) == Node::File && reachable(
            tree,
            s.patterns,
            s.root,
            p,
        )
}

/// A run is grounded in a tree when what it holds is really there and the
/// path at which its walk stands can be reached from the root.
pub open spec fn grounded(s: State, tree: FileTree) -> bool {
    &&& held(s, tree)
    &&& s.phase != Phase::Done ==> reachable(tree, s.patterns, s.root, s.walk.current)
}

proof fn lemma_proceed_grounded(s: State, tree: FileTree)
    requires
        base(s),
        held(s, tree),
    ensures
        grounded(proceed(s), tree),
{
    lemma_reach_root(tree, s.patterns, s.root);
    if s.selected.len() < s.wanted && s.retry < s.pool.len() {
        assert(s.pool.contains(s.pool[s.retry as int]));
    }
}

proof fn lemma_collected_held(s: State, tree: FileTree)
    requires
        grounded(s, tree),
        s.phase != Phase::Done,
        tree.at(s.walk.current) == Node::File,
    ensures
        held(collected(s), tree),
{
    let after = collected(s);
    assert forall|p: Seq<char>| #[trigger] after.selected.contains(p) implies tree.at(p)
        == Node::File && reachable(tree, s.patterns, s.root, p) by {
        let i = choose|i: int| 0 <= i < after.selected.len() && after.selected[i] == p;
        if i < s.selected.len() {
            assert(s.selected.contains(s.selected[i]));
        }
    }
}

proof fn lemma_conclude_grounded(s: State, tree: FileTree, found: bool)
    requires
        placed(s),
        grounded(s, tree),
        s.phase != Phase::Done,
        found ==> tree.at(s.walk.current) == Node::File,
    ensures
        grounded(conclude(s, found), tree),
{
    if found {
        lemma_collected_held(s, tree);
        lemma_collected(s);
        if s.phase == Phase::Root {
            lemma_pooled(collected(s));
            lemma_proceed_grounded(pooled(collected(s)), tree);
        } else {
            lemma_proceed_grounded(collected(s), tree);
        }
    } else if s.phase == Phase::Root {
        if s.terminal.len() != s.visited.len() {
            lemma_pooled(s);
            lemma_proceed_grounded(pooled(s), tree);
        }
    } else {
        lemma_inserted(s.terminal, s.walk.start);
        lemma_proceed_grounded(State { terminal: inserted(s.terminal, s.walk.start), ..s }, tree);
    }
}

proof fn lemma_walked_grounded(s: State, tree: FileTree, pick: int)
    requires
        inv(s),
        grounded(s, tree),
        s.phase != Phase::Done,
    ensures
        ({
            let node = tree.at(s.walk.current);
            let o = walk_step(s.walk, node, pick, s.terminal, s.visited, s.patterns);
            let walked = State { walk: o.walk, terminal: o.terminal, visited: o.visited, ..s };
            &&& grounded(walked, tree)
            &&& o.progress == Progress::Found ==> tree.at(o.walk.current) == Node::File
        }),
{
    let node = tree.at(s.walk.current);
    match node {
        Node::Directory(entries) => {
            let open = eligible(entries, s.patterns);
            if open.len() > 0 {
                let at = pick % (open.len() as int);
                lemma_eligible(entries, s.patterns, at);
                lemma_inserted(s.visited, open[at]);
                lemma_reach_entry(tree, s.patterns, s.root, s.walk.current, open[at]);
                assert forall|p: Seq<char>| inserted(s.visited, open[at]).contains(
                    p,
                ) implies reachable(tree, s.patterns, s.root, p) by {
                    if p != open[at] {
                        assert(s.visited.contains(p));
                    }
                }
            }
        },
        _ => {},
    }
}

/// A run starts with nothing in hand but the root.
pub proof fn lemma_init_grounded(
    tree: FileTree,
    root: Seq<char>,
    wanted: nat,
    patterns: Set<Seq<char>>,
)
    ensures
        grounded(init(root, wanted, patterns), tree),
{
    lemma_reach_root(tree, patterns, root);
}

/// A run stays grounded in a tree as long as every probe tells what the
/// tree holds at the requested path.
pub proof fn lemma_step_grounded(s: State, tree: FileTree, pick: int)
    requires
        inv(s),
        grounded(s, tree),
    ensures
        grounded(step(s, tree.at(s.walk.current), pick), tree),
{
    if s.phase != Phase::Done {
        let node = tree.at(s.walk.current);
        lemma_walked(s, node, pick);
        lemma_walked_grounded(s, tree, pick);
        let o = walk_step(s.walk, node, pick, s.terminal, s.visited, s.patterns);
        let walked = State { walk: o.walk, terminal: o.terminal, visited: o.visited, ..s };
        match o.progress {
            Progress::Continue => {},
            Progress::Found => lemma_conclude_grounded(walked, tree, true),
            Progress::Failed => lemma_conclude_grounded(walked, tree, false),
        }
    }
}

/// Every answer is what `tree` holds at the path that the run requested at
/// that point.
pub open spec fn answered_from(tree: FileTree, start: State, answers: Seq<(Node, int)>) -> bool
    decreases answers.len(),
{
    if answers.len() == 0 {
        true
    } else {
        &&& answered_from(tree, start, answers.drop_last())
        &&& request(run(start, answers.drop_last())) matches Some(path) ==> answers.last().0
            == tree.at(path)
    }
}

/// A run stays grounded in a tree through any number of probes that tell
/// what the tree holds at the requested path.
pub proof fn lemma_run_grounded(s: State, tree: FileTree, answers: Seq<(Node, int)>)
    requires
        inv(s),
        grounded(s, tree),
        answered_from(tree, s, answers),
    ensures
        grounded(run(s, answers), tree),
    decreases answers.len(),
{
    if answers.len() > 0 {
        let earlier = answers.drop_last();
        lemma_run_grounded(s, tree, earlier);
        lemma_run_inv(s, earlier);
        let before = run(s, earlier);
        if before.phase != Phase::Done {
            lemma_step_grounded(before, tree, answers.last().1);
        }
    }
}

/// Every file that a grounded run hands out is a regular file of the tree
/// that can be reached from the root by entering eligible entries only.
pub proof fn lemma_results_reachable(s: State, tree: FileTree, i: int)
    requires
        inv(s),
        grounded(s, tree),
        0 <= i < results(s).len(),
    ensures
        tree.at(results(s)[i]) == Node::File,
        reachable(tree, s.patterns, s.root, results(s)[i]),
{
    assert(s.selected.contains(s.selected[i]));
}

} // verus!
