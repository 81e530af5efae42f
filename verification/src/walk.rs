//! One random descent through the tree, a probe at a time.
//!
//! A walk stands at a path and has a budget of steps. Its caller looks at
//! the path and hands over what it found; the walk then ends at a file,
//! fails at a dead end, or moves to an entry of the directory and waits for
//! the next probe. Each probe that does not end the walk costs one step.

use vstd::prelude::*;
use crate::choice::draw;
use crate::path_set::PathSet;
use crate::probe::{eligible, eligible_entries, Node, Probe};
use crate::text::{inserted, texts};
use crate::whitelist::Whitelist;

verus! {

/// How a walk stands after a probe.
#[derive(Clone, Copy, PartialEq, Eq, Debug, Structural)]
pub enum Progress {
    /// The walk goes on: its current path is to be probed next.
    Continue,
    /// The walk has ended at a regular file, its current path.
    Found,
    /// The walk has ended without a file.
    Failed,
}

/// A walk as a mathematical value.
pub struct WalkState {
    /// Where the walk began.
    pub start: Seq<char>,
    /// Where it stands.
    pub current: Seq<char>,
    /// How many more probes it may spend.
    pub steps_left: nat,
}

/// What one probe does to a walk and to the two sets that it keeps.
pub struct Outcome {
    pub walk: WalkState,
    pub terminal: Seq<Seq<char>>,
    pub visited: Seq<Seq<char>>,
    pub progress: Progress,
}

/// A walk that begins at `start` with `max_steps` steps.
pub open spec fn fresh(start: Seq<char>, max_steps: nat) -> WalkState {
    WalkState { start, current: start, steps_left: max_steps }
}

/// The walk with one step less.
pub open spec fn spent(walk: WalkState) -> WalkState {
    WalkState { steps_left: (walk.steps_left - 1) as nat, ..walk }
}

/// A walk that has not ended goes on while it has steps left.
pub open spec fn progress_of(walk: WalkState) -> Progress {
    if walk.steps_left == 0 {
        Progress::Failed
    } else {
        Progress::Continue
    }
}

/// The probe found a directory whose eligible entries are `open`.
///
/// With none, the walk fails, and the directory at which it stands is
/// recorded as terminal. Otherwise the walk moves to the entry at place
/// `pick` (counted round the list), records it as visited and spends a step.
pub open spec fn enter_step(
    walk: WalkState,
    open: Seq<Seq<char>>,
    pick: int,
    terminal: Seq<Seq<char>>,
    visited: Seq<Seq<char>>,
) -> Outcome {
    if open.len() == 0 {
        Outcome {
            walk,
            terminal: inserted(terminal, walk.current),
            visited,
            progress: Progress::Failed,
        }
    } else {
        let chosen = open[pick % (open.len() as int)];
        let next = WalkState { current: chosen, ..spent(walk) };
        Outcome { walk: next, terminal, visited: inserted(visited, chosen), progress: progress_of(next) }
    }
}

/// One probe of a walk: `node` is what stands at the walk's current path,
/// and `pick` decides which eligible entry of a directory is entered.
///
/// A walk without steps fails. A file ends the walk with success. What is
/// neither file nor directory costs a step and leaves the walk in place.
pub open spec fn walk_step(
    walk: WalkState,
    node: Node,
    pick: int,
    terminal: Seq<Seq<char>>,
    visited: Seq<Seq<char>>,
    patterns: Set<Seq<char>>,
) -> Outcome {
    if walk.steps_left == 0 {
        Outcome { walk, terminal, visited, progress: Progress::Failed }
    } else {
        match node {
            Node::File => Outcome { walk, terminal, visited, progress: Progress::Found },
            Node::Other => Outcome {
                walk: spent(walk),
                terminal,
                visited,
                progress: progress_of(spent(walk)),
            },
            Node::Directory(entries) => enter_step(
                walk,
                eligible(entries, patterns),
                pick,
                terminal,
                visited,
            ),
        }
    }
}

/// A walk in progress.
#[derive(Debug)]
pub struct Walk {
    start: String,
    current: String,
    steps_left: usize,
}

impl View for Walk {
    type V = WalkState;

    closed spec fn view(&self) -> WalkState {
        WalkState {
            start: self.start@,
            current: self.current@,
            steps_left: self.steps_left as nat,
        }
    }
}

impl Walk {
    /// A walk that begins at `start` and may spend `max_steps` probes.
    pub fn new(start: String, max_steps: usize) -> (walk: Walk)
        ensures
            walk@ == fresh(start@, max_steps as nat),
    {
        let current = start.clone();
        Walk { start, current, steps_left: max_steps }
    }

    /// Where the walk began.
    pub fn start(&self) -> (path: &String)
        ensures
            path@ == self@.start,
    {
        &self.start
    }

    /// Where the walk stands: the path to probe next, or the file found.
    pub fn current(&self) -> (path: &String)
        ensures
            path@ == self@.current,
    {
        &self.current
    }

    /// How many more probes the walk may spend.
    pub fn steps_left(&self) -> (n: usize)
        ensures
            n == self@.steps_left,
    {
        self.steps_left
    }
}

fn spend(walk: &mut Walk) -> (progress: Progress)
    requires
        old(walk)@.steps_left > 0,
    ensures
        final(walk)@ == spent(old(walk)@),
        progress == progress_of(final(walk)@),
{
    walk.steps_left = walk.steps_left - 1;
    if walk.steps_left == 0 {
        Progress::Failed
    } else {
        Progress::Continue
    }
}

fn enter(
    walk: &mut Walk,
    open: &Vec<String>,
    pick: usize,
    terminal: &mut PathSet,
    visited: &mut PathSet,
) -> (progress: Progress)
    requires
        old(walk)@.steps_left > 0,
    ensures
        ({
            let o = enter_step(
                old(walk)@,
                texts(open@),
                pick as int,
                old(terminal)@,
                old(visited)@,
            );
            &&& final(walk)@ == o.walk
            &&& final(terminal)@ == o.terminal
            &&& final(visited)@ == o.visited
            &&& progress == o.progress
        }),
{
    if open.len() == 0 {
        terminal.insert(walk.current.clone());
        Progress::Failed
    } else {
        let chosen = open[pick % open.len()].clone();
        visited.insert(chosen.clone());
        walk.current = chosen;
        spend(walk)
    }
}

/// Takes one probe of the walk with the entry to enter given by `pick`:
/// of the eligible entries of a directory, the one at place `pick` counted
/// round the list, so that `0` is the first.
pub fn guided_walk(
    walk: &mut Walk,
    probe: &Probe,
    pick: usize,
    terminal: &mut PathSet,
    visited: &mut PathSet,
    whitelist: &Whitelist,
) -> (progress: Progress)
    ensures
        ({
            let o = walk_step(
                old(walk)@,
                probe@,
                pick as int,
                old(terminal)@,
                old(visited)@,
                whitelist@,
            );
            &&& final(walk)@ == o.walk
            &&& final(terminal)@ == o.terminal
            &&& final(visited)@ == o.visited
            &&& progress == o.progress
        }),
{
    if walk.steps_left == 0 {
        return Progress::Failed;
    }
    match probe {
        Probe::File => Progress::Found,
        Probe::Other => spend(walk),
        Probe::Directory(entries) => {
            let open = eligible_entries(entries, whitelist);
            enter(walk, &open, pick, terminal, visited)
        },
    }
}

/// Takes one probe of the walk and, in a directory with eligible entries,
/// enters one of them chosen at random.
///
/// The walk ends with `Found` at a regular file, which is then its current
/// path. It ends with `Failed` in a directory without eligible entries,
/// which is recorded in `terminal`, and when its steps are spent. An entry
/// that is entered is recorded in `visited`.
pub fn random_walk(
    walk: &mut Walk,
    probe: &Probe,
    terminal: &mut PathSet,
    visited: &mut PathSet,
    whitelist: &Whitelist,
) -> (progress: Progress)
    ensures
        exists|pick: int|
            0 <= pick && {
                let o = #[trigger] walk_step(
                    old(walk)@,
                    probe@,
                    pick,
                    old(terminal)@,
                    old(visited)@,
                    whitelist@,
                );
                &&& final(walk)@ == o.walk
                &&& final(terminal)@ == o.terminal
                &&& final(visited)@ == o.visited
                &&& progress == o.progress
            },
{
    if walk.steps_left == 0 {
        assert(walk_step(walk@, probe@, 0, terminal@, visited@, whitelist@).progress
            == Progress::Failed);
        return Progress::Failed;
    }
    match probe {
        Probe::File => {
            assert(walk_step(walk@, probe@, 0, terminal@, visited@, whitelist@).progress
                == Progress::Found);
            Progress::Found
        },
        Probe::Other => {
            assert(walk_step(walk@, probe@, 0, terminal@, visited@, whitelist@).walk == spent(
                walk@,
            ));
            spend(walk)
        },
        Probe::Directory(entries) => {
            let open = eligible_entries(entries, whitelist);
            let pick = draw(&open);
            assert(walk_step(walk@, probe@, pick as int, terminal@, visited@, whitelist@)
                == enter_step(walk@, texts(open@), pick as int, terminal@, visited@));
            enter(walk, &open, pick, terminal, visited)
        },
    }
}

} // verus!
