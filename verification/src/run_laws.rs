//! What holds of a run from its first probe to its last.

use vstd::prelude::*;
use crate::path_set::without;
use crate::text::{inserted, lemma_inserted};
use crate::probe::{eligible, lemma_eligible, Node};
use crate::sampler::{
    collected, conclude, init, pooled, proceed, request, results, run, step, Phase, State,
    MAX_STEPS,
};
use crate::walk::{fresh, walk_step, Progress};
use crate::whitelist::whitelisted;

verus! {

/// What holds of the collections of a run whatever its phase: no more files
/// than wanted, no more rounds than wanted, the two sets without
/// repetitions, every terminal directory the root or a visited one, every
/// directory of the pool a visited one, nothing visited that the whitelist
/// rules out, and nothing found but the root or what was visited.
pub open spec fn base(s: State) -> bool {
    &&& s.selected.len() <= s.wanted
    &&& s.round <= s.wanted
    &&& s.retry <= s.pool.len()
    &&& s.visited.no_duplicates()
    &&& s.terminal.no_duplicates()
    &&& forall|p: Seq<char>| s.terminal.contains(p) ==> p == s.root || s.visited.contains(p)
    &&& forall|p: Seq<char>| s.pool.contains(p) ==> s.visited.contains(p)
    &&& forall|p: Seq<char>| s.visited.contains(p) ==> !whitelisted(p, s.patterns)
    &&& forall|p: Seq<char>| s.selected.contains(p) ==> p == s.root || s.visited.contains(p)
}

/// What holds besides while a walk is in progress or has just ended: files
/// are still missing, and the walk began and stands where its phase says.
pub open spec fn placed(s: State) -> bool {
    &&& base(s)
    &&& s.phase != Phase::Done ==> s.selected.len() < s.wanted && !s.exhausted
    &&& s.phase == Phase::Root ==> s.walk.start == s.root && (s.walk.current == s.root
        || s.visited.contains(s.walk.current))
    &&& s.phase == Phase::Retry ==> s.visited.contains(s.walk.start) && s.visited.contains(
        s.walk.current,
    )
    &&& s.exhausted ==> s.phase == Phase::Done && s.terminal.len() == s.visited.len()
}

/// The invariant of a run: the above, and a walk in progress has steps left.
pub open spec fn inv(s: State) -> bool {
    &&& placed(s)
    &&& s.phase != Phase::Done ==> s.walk.steps_left > 0
}

pub(crate) proof fn lemma_pooled(s: State)
    requires
        base(s),
    ensures
        base(pooled(s)),
{
    let keep = |p: Seq<char>| !s.terminal.contains(p);
    assert forall|p: Seq<char>| pooled(s).pool.contains(p) implies s.visited.contains(p) by {
        s.visited.lemma_filter_contains_rev(keep, p);
    }
}

proof fn lemma_proceed(s: State)
    requires
        base(s),
        !s.exhausted,
    ensures
        inv(proceed(s)),
{
    if s.selected.len() < s.wanted && s.retry < s.pool.len() {
        assert(s.pool.contains(s.pool[s.retry as int]));
    }
}

pub(crate) proof fn lemma_collected(s: State)
    requires
        placed(s),
        s.phase != Phase::Done,
    ensures
        base(collected(s)),
        !collected(s).exhausted,
{
    let after = collected(s);
    assert forall|p: Seq<char>| after.selected.contains(p) implies p == s.root
        || s.visited.contains(p) by {
        let i = choose|i: int| 0 <= i < after.selected.len() && after.selected[i] == p;
        if i < s.selected.len() {
            assert(s.selected.contains(s.selected[i]));
        }
    }
}

proof fn lemma_conclude(s: State, found: bool)
    requires
        placed(s),
        s.phase != Phase::Done,
    ensures
        inv(conclude(s, found)),
{
    if found {
        lemma_collected(s);
        if s.phase == Phase::Root {
            lemma_pooled(collected(s));
            lemma_proceed(pooled(collected(s)));
        } else {
            lemma_proceed(collected(s));
        }
    } else if s.phase == Phase::Root {
        if s.terminal.len() != s.visited.len() {
            lemma_pooled(s);
            lemma_proceed(pooled(s));
        }
    } else {
        lemma_inserted(s.terminal, s.walk.start);
        lemma_proceed(State { terminal: inserted(s.terminal, s.walk.start), ..s });
    }
}

pub(crate) proof fn lemma_walked(s: State, node: Node, pick: int)
    requires
        inv(s),
        s.phase != Phase::Done,
    ensures
        ({
            let o = walk_step(s.walk, node, pick, s.terminal, s.visited, s.patterns);
            let walked = State { walk: o.walk, terminal: o.terminal, visited: o.visited, ..s };
            &&& placed(walked)
            &&& o.progress == Progress::Continue ==> o.walk.steps_left > 0
        }),
{
    let o = walk_step(s.walk, node, pick, s.terminal, s.visited, s.patterns);
    match node {
        Node::Directory(entries) => {
            let open = eligible(entries, s.patterns);
            if open.len() == 0 {
                lemma_inserted(s.terminal, s.walk.current);
            } else {
                let at = pick % (open.len() as int);
                lemma_eligible(entries, s.patterns, at);
                lemma_inserted(s.visited, open[at]);
            }
        },
        _ => {},
    }
}

/// A run starts within the invariant.
pub proof fn lemma_init_inv(root: Seq<char>, wanted: nat, patterns: Set<Seq<char>>)
    ensures
        inv(init(root, wanted, patterns)),
{
}

/// Every probe keeps the run within the invariant, whatever was found and
/// whichever entry was picked.
pub proof fn lemma_step_inv(s: State, node: Node, pick: int)
    requires
        inv(s),
    ensures
        inv(step(s, node, pick)),
{
    if s.phase != Phase::Done {
        lemma_walked(s, node, pick);
        let o = walk_step(s.walk, node, pick, s.terminal, s.visited, s.patterns);
        let walked = State { walk: o.walk, terminal: o.terminal, visited: o.visited, ..s };
        match o.progress {
            Progress::Continue => {},
            Progress::Found => lemma_conclude(walked, true),
            Progress::Failed => lemma_conclude(walked, false),
        }
    }
}

/// Probes keep a run within its invariant, and leave its root, the number
/// of files wanted and its whitelist as they were.
pub proof fn lemma_run_inv(s: State, answers: Seq<(Node, int)>)
    requires
        inv(s),
    ensures
        inv(run(s, answers)),
        run(s, answers).root == s.root,
        run(s, answers).wanted == s.wanted,
        run(s, answers).patterns == s.patterns,
    decreases answers.len(),
{
    if answers.len() > 0 {
        lemma_run_inv(s, answers.drop_last());
        lemma_step_inv(run(s, answers.drop_last()), answers.last().0, answers.last().1);
    }
}

/// A probe takes nothing back. The files found stay in their places and at
/// most one is added at the end; what was visited stays visited, what was
/// terminal stays terminal; and the root, the number of files wanted and the
/// whitelist are what they were.
pub proof fn lemma_step_grows(s: State, node: Node, pick: int)
    ensures
        ({
            let after = step(s, node, pick);
            &&& s.selected.is_prefix_of(after.selected)
            &&& after.selected.len() <= s.selected.len() + 1
            &&& forall|p: Seq<char>| s.visited.contains(p) ==> after.visited.contains(p)
            &&& forall|p: Seq<char>| s.terminal.contains(p) ==> after.terminal.contains(p)
            &&& after.root == s.root
            &&& after.wanted == s.wanted
            &&& after.patterns == s.patterns
        }),
{
    let o = walk_step(s.walk, node, pick, s.terminal, s.visited, s.patterns);
    let after = step(s, node, pick);
    lemma_inserted(s.terminal, s.walk.current);
    lemma_inserted(o.terminal, o.walk.start);
    match node {
        Node::Directory(entries) => {
            let open = eligible(entries, s.patterns);
            if open.len() > 0 {
                lemma_inserted(s.visited, open[pick % (open.len() as int)]);
            }
        },
        _ => {},
    }
    assert(after.selected == s.selected || after.selected == s.selected.push(o.walk.current));
    assert(s.selected.is_prefix_of(after.selected));
}

/// A run never holds more files than were wanted, so that it hands out all
/// that it found.
pub proof fn lemma_never_too_many(s: State)
    requires
        inv(s),
    ensures
        results(s) == s.selected,
        results(s).len() <= s.wanted,
{
}

/// The whitelist rules out no file that a run found, unless that file is
/// the root itself, which is never matched against the whitelist.
pub proof fn lemma_results_not_whitelisted(s: State, i: int)
    requires
        inv(s),
        0 <= i < results(s).len(),
    ensures
        results(s)[i] == s.root || !whitelisted(results(s)[i], s.patterns),
{
    assert(s.selected.contains(s.selected[i]));
}

/// Every terminal directory is the root or a visited one. A run that ended
/// as exhausted has as many terminal directories as visited ones; if the
/// root is not among the terminal ones, or is itself visited, it has found
/// every visited directory terminal.
pub proof fn lemma_terminal_visited(s: State, p: Seq<char>)
    requires
        inv(s),
    ensures
        s.terminal.contains(p) ==> p == s.root || s.visited.contains(p),
        s.exhausted ==> s.terminal.len() == s.visited.len(),
        s.exhausted && (!s.terminal.contains(s.root) || s.visited.contains(s.root))
            && s.visited.contains(p) ==> s.terminal.contains(p),
{
    if s.exhausted && (!s.terminal.contains(s.root) || s.visited.contains(s.root)) {
        s.terminal.unique_seq_to_set();
        s.visited.unique_seq_to_set();
        vstd::seq_lib::seq_to_set_is_finite(s.visited);
        vstd::seq_lib::seq_to_set_is_finite(s.terminal);
        assert(s.terminal.to_set().subset_of(s.visited.to_set()));
        vstd::set_lib::lemma_subset_equality(s.terminal.to_set(), s.visited.to_set());
        assert(s.visited.to_set().contains(p) == s.terminal.to_set().contains(p));
    }
}

/// A run that has found the root `found` times and nothing else, and is
/// about to walk from the root again if files are still missing.
spec fn only_root(s: State, root: Seq<char>, wanted: nat, patterns: Set<Seq<char>>, found: nat) -> bool {
    &&& s.root == root
    &&& s.wanted == wanted
    &&& s.patterns == patterns
    &&& s.selected == Seq::new(found, |i: int| root)
    &&& s.visited.len() == 0
    &&& s.terminal.len() == 0
    &&& !s.exhausted
    &&& found < wanted ==> s.phase == Phase::Root && s.walk == fresh(root, MAX_STEPS as nat)
        && s.round == found + 1
    &&& found >= wanted ==> s.phase == Phase::Done
}

proof fn lemma_only_root(
    root: Seq<char>,
    wanted: nat,
    patterns: Set<Seq<char>>,
    answers: Seq<(Node, int)>,
)
    requires
        answers.len() <= wanted,
        forall|k: int| 0 <= k < answers.len() ==> (#[trigger] answers[k]).0 == Node::File,
    ensures
        only_root(run(init(root, wanted, patterns), answers), root, wanted, patterns, answers.len()),
    decreases answers.len(),
{
    if answers.len() == 0 {
        assert(init(root, wanted, patterns).selected =~= Seq::new(0, |i: int| root));
    } else {
        let before = run(init(root, wanted, patterns), answers.drop_last());
        lemma_only_root(root, wanted, patterns, answers.drop_last());
        assert(answers.last() == answers[answers.len() - 1]);
        let held = collected(before);
        assert(held.selected =~= Seq::new(answers.len(), |i: int| root));
        let keep = |p: Seq<char>| !held.terminal.contains(p);
        held.visited.lemma_filter_len(keep);
        assert(pooled(held).pool.len() == 0);
    }
}

/// Where the root is itself a regular file, every walk ends at it with its
/// first probe: as long as files are missing the run asks for the root, and
/// after as many probes as files were wanted it has come to its end, not
/// exhausted, and hands out the root that many times.
pub proof fn lemma_root_is_file(
    root: Seq<char>,
    wanted: nat,
    patterns: Set<Seq<char>>,
    answers: Seq<(Node, int)>,
)
    requires
        answers.len() <= wanted,
        forall|k: int| 0 <= k < answers.len() ==> (#[trigger] answers[k]).0 == Node::File,
    ensures
        ({
            let s = run(init(root, wanted, patterns), answers);
            &&& results(s) == Seq::new(answers.len(), |i: int| root)
            &&& answers.len() < wanted ==> request(s) == Some(root)
            &&& answers.len() == wanted ==> s.phase == Phase::Done && !s.exhausted
        }),
{
    lemma_only_root(root, wanted, patterns, answers);
}

/// What a probe shows of a directory that leads nowhere: a directory,
/// every entry of which the patterns rule out.
pub open spec fn dead_end(node: Node, patterns: Set<Seq<char>>) -> bool {
    node matches Node::Directory(entries) && forall|i: int|
        0 <= i < entries.len() ==> whitelisted(#[trigger] entries[i], patterns)
}

/// A run that has walked from the root `walks` times, found it a dead end
/// each time, and is about to walk from it again if rounds are left.
spec fn barren(s: State, root: Seq<char>, wanted: nat, patterns: Set<Seq<char>>, walks: nat) -> bool {
    &&& s.root == root
    &&& s.wanted == wanted
    &&& s.patterns == patterns
    &&& s.selected.len() == 0
    &&& s.visited.len() == 0
    &&& s.terminal == if walks == 0 { Seq::<Seq<char>>::empty() } else { seq![root] }
    &&& !s.exhausted
    &&& walks < wanted ==> s.phase == Phase::Root && s.walk == fresh(root, MAX_STEPS as nat)
        && s.round == walks + 1
    &&& walks >= wanted ==> s.phase == Phase::Done
}

proof fn lemma_barren(
    root: Seq<char>,
    wanted: nat,
    patterns: Set<Seq<char>>,
    answers: Seq<(Node, int)>,
)
    requires
        answers.len() <= wanted,
        forall|k: int| 0 <= k < answers.len() ==> dead_end((#[trigger] answers[k]).0, patterns),
    ensures
        barren(run(init(root, wanted, patterns), answers), root, wanted, patterns, answers.len()),
    decreases answers.len(),
{
    if answers.len() > 0 {
        let before = run(init(root, wanted, patterns), answers.drop_last());
        lemma_barren(root, wanted, patterns, answers.drop_last());
        assert(answers.last() == answers[answers.len() - 1]);
        let entries = answers.last().0->Directory_0;
        entries.lemma_all_neg_filter_empty(|e: Seq<char>| !whitelisted(e, patterns));
        let marked = inserted(before.terminal, root);
        assert(marked =~= seq![root]) by {
            if answers.len() > 1 {
                assert(before.terminal[0] == root);
            }
        }
        let failed = State { terminal: marked, ..before };
        let keep = |p: Seq<char>| !failed.terminal.contains(p);
        failed.visited.lemma_filter_len(keep);
        assert(pooled(failed).pool.len() == 0);
    }
}

/// Where every probe shows the root as a directory all of whose entries the
/// whitelist rules out, every walk fails at the root. The root is terminal
/// after the first of them and nothing is ever visited, so the two counts
/// differ and the run does not end as exhausted: it walks from the root
/// once for each file wanted and hands out no file.
pub proof fn lemma_root_all_whitelisted(
    root: Seq<char>,
    wanted: nat,
    patterns: Set<Seq<char>>,
    answers: Seq<(Node, int)>,
)
    requires
        answers.len() <= wanted,
        forall|k: int| 0 <= k < answers.len() ==> dead_end((#[trigger] answers[k]).0, patterns),
    ensures
        ({
            let s = run(init(root, wanted, patterns), answers);
            &&& results(s).len() == 0
            &&& !s.exhausted
            &&& s.visited.len() == 0
            &&& answers.len() >= 1 ==> s.terminal == seq![root]
            &&& answers.len() < wanted ==> request(s) == Some(root)
            &&& answers.len() == wanted ==> s.phase == Phase::Done
        }),
{
    lemma_barren(root, wanted, patterns, answers);
}

/// How far a run is from its end: the rounds that may still begin.
pub open spec fn rounds_left(s: State) -> int {
    if s.phase == Phase::Done {
        0
    } else {
        s.wanted - s.round
    }
}

/// Whether the walk from the root of this round is still in progress.
pub open spec fn root_walk_pending(s: State) -> int {
    if s.phase == Phase::Root {
        1
    } else {
        0
    }
}

/// The directories of the pool that have not been taken up.
pub open spec fn retries_left(s: State) -> int {
    if s.phase == Phase::Retry {
        s.pool.len() - s.retry
    } else {
        0
    }
}

/// The steps that the walk in progress may still spend.
pub open spec fn steps_left(s: State) -> int {
    if s.phase == Phase::Done {
        0
    } else {
        s.walk.steps_left as int
    }
}

/// Every probe brings a run nearer to its end: the rounds left, the
/// pending walk from the root, the directories left in the pool and the
/// steps left in the walk decrease in lexicographic order. So no run takes
/// probes without end, whatever they find.
pub proof fn lemma_step_nears_end(s: State, node: Node, pick: int)
    requires
        inv(s),
        s.phase != Phase::Done,
    ensures
        ({
            let after = step(s, node, pick);
            decreases_to!(
                rounds_left(s), root_walk_pending(s), retries_left(s), steps_left(s)
                => rounds_left(after), root_walk_pending(after), retries_left(after), steps_left(after)
            )
        }),
{
    lemma_walked(s, node, pick);
    lemma_step_inv(s, node, pick);
}

} // verus!
