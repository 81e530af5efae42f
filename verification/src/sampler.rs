//! The sampling run: repeated walks from the root, and again from the
//! directories that earlier walks went through.
//!
//! The run is a machine that never touches the file system. While it is not
//! done it names one path, [`Sampler::request`]; its caller looks at that
//! path and answers with a [`Probe`], and [`Sampler::step`] takes the answer
//! and moves on.
//!
//! A run of `n` wanted files makes up to `n` rounds. A round walks from the
//! root first. Then it walks once from every directory that has been visited
//! and is not known to be terminal, in the order in which they were first
//! visited; such a walk that fails marks its directory terminal. The run is
//! done when `n` files are collected, when the rounds are used up, or when a
//! walk from the root fails while as many directories are terminal as are
//! visited.
//!
//! The root is walked and never entered, so it is not a visited directory;
//! it is terminal once a probe has shown it without eligible entries.

use vstd::prelude::*;
use crate::path_set::{without, PathSet};
use crate::probe::{Node, Probe};
use crate::text::{inserted, texts};
use crate::walk::{fresh, guided_walk, random_walk, walk_step, Progress, Walk, WalkState};
use crate::whitelist::Whitelist;

verus! {

/// The number of probes that one walk may spend.
pub const MAX_STEPS: usize = 1000;

/// Where a run stands.
#[derive(Clone, Copy, PartialEq, Eq, Debug, Structural)]
pub enum Phase {
    /// A walk from the root is in progress.
    Root,
    /// A walk from a directory of the retry pool is in progress.
    Retry,
    /// The run is over.
    Done,
}

/// A run as a mathematical value.
pub struct State {
    /// The root of the tree.
    pub root: Seq<char>,
    /// How many files are wanted.
    pub wanted: nat,
    /// The texts of the whitelist patterns.
    pub patterns: Set<Seq<char>>,
    /// The files found, in the order of their discovery.
    pub selected: Seq<Seq<char>>,
    /// The entries that walks have entered, each once.
    pub visited: Seq<Seq<char>>,
    /// The directories known to lead nowhere, each once.
    pub terminal: Seq<Seq<char>>,
    /// The number of the round in progress, counted from one.
    pub round: nat,
    /// The retry pool of this round.
    pub pool: Seq<Seq<char>>,
    /// How many directories of the pool have been taken up.
    pub retry: nat,
    pub phase: Phase,
    /// The walk in progress.
    pub walk: WalkState,
    /// Whether the run ended because nothing is left to try.
    pub exhausted: bool,
}

/// The run before its first probe: the first walk from the root is in
/// progress, unless no file is wanted.
pub open spec fn init(root: Seq<char>, wanted: nat, patterns: Set<Seq<char>>) -> State {
    State {
        root,
        wanted,
        patterns,
        selected: Seq::empty(),
        visited: Seq::empty(),
        terminal: Seq::empty(),
        round: if wanted == 0 { 0 } else { 1 },
        pool: Seq::empty(),
        retry: 0,
        phase: if wanted == 0 { Phase::Done } else { Phase::Root },
        walk: fresh(root, MAX_STEPS as nat),
        exhausted: false,
    }
}

/// The path that the run wants probed, if it is not done.
pub open spec fn request(s: State) -> Option<Seq<char>> {
    if s.phase == Phase::Done {
        None
    } else {
        Some(s.walk.current)
    }
}

/// The files that the run hands out: those found, and never more than were
/// wanted.
pub open spec fn results(s: State) -> Seq<Seq<char>> {
    if s.selected.len() <= s.wanted {
        s.selected
    } else {
        s.selected.take(s.wanted as int)
    }
}

/// The retry pool is drawn up: the visited directories not known to be
/// terminal.
pub open spec fn pooled(s: State) -> State {
    State { pool: without(s.visited, s.terminal), retry: 0, ..s }
}

/// What comes after a walk whose result is booked: nothing if enough files
/// are found; else a walk from the next directory of the pool; else, the
/// pool being used up, the next round if there is one.
pub open spec fn proceed(s: State) -> State {
    if s.selected.len() >= s.wanted {
        State { phase: Phase::Done, ..s }
    } else if s.retry < s.pool.len() {
        State {
            phase: Phase::Retry,
            walk: fresh(s.pool[s.retry as int], MAX_STEPS as nat),
            retry: s.retry + 1,
            ..s
        }
    } else if s.round >= s.wanted {
        State { phase: Phase::Done, ..s }
    } else {
        State {
            phase: Phase::Root,
            walk: fresh(s.root, MAX_STEPS as nat),
            round: s.round + 1,
            ..s
        }
    }
}

/// The file at which the walk in progress stands is added to those found.
pub open spec fn collected(s: State) -> State {
    State { selected: s.selected.push(s.walk.current), ..s }
}

/// The walk in progress has ended, with a file or without. Its result is
/// booked and the run moves on.
///
/// A file found is collected. A failed walk from the root ends the run as
/// exhausted if as many directories are terminal as are visited. A failed
/// walk from a directory of the pool marks that directory terminal.
pub open spec fn conclude(s: State, found: bool) -> State {
    match s.phase {
        Phase::Root => if found {
            proceed(pooled(collected(s)))
        } else if s.terminal.len() == s.visited.len() {
            State { phase: Phase::Done, exhausted: true, ..s }
        } else {
            proceed(pooled(s))
        },
        Phase::Retry => if found {
            proceed(collected(s))
        } else {
            proceed(State { terminal: inserted(s.terminal, s.walk.start), ..s })
        },
        Phase::Done => s,
    }
}

/// One probe of the run: `node` is what stands at the requested path, and
/// `pick` decides which eligible entry of a directory the walk enters. A run
/// that is done stays as it is.
pub open spec fn step(s: State, node: Node, pick: int) -> State {
    if s.phase == Phase::Done {
        s
    } else {
        let o = walk_step(s.walk, node, pick, s.terminal, s.visited, s.patterns);
        let walked = State { walk: o.walk, terminal: o.terminal, visited: o.visited, ..s };
        match o.progress {
            Progress::Continue => walked,
            Progress::Found => conclude(walked, true),
            Progress::Failed => conclude(walked, false),
        }
    }
}

/// The run `s` after the probes `answers`, each of them what was found at
/// the requested path and which entry was picked.
pub open spec fn run(s: State, answers: Seq<(Node, int)>) -> State
    decreases answers.len(),
{
    if answers.len() == 0 {
        s
    } else {
        step(run(s, answers.drop_last()), answers.last().0, answers.last().1)
    }
}

/// A sampling run.
#[derive(Debug)]
pub struct Sampler {
    root: String,
    wanted: usize,
    whitelist: Whitelist,
    selected: Vec<String>,
    visited: PathSet,
    terminal: PathSet,
    round: usize,
    pool: Vec<String>,
    retry: usize,
    phase: Phase,
    walk: Walk,
    exhausted: bool,
}

impl View for Sampler {
    type V = State;

    closed spec fn view(&self) -> State {
        State {
            root: self.root@,
            wanted: self.wanted as nat,
            patterns: self.whitelist@,
            selected: texts(self.selected@),
            visited: self.visited@,
            terminal: self.terminal@,
            round: self.round as nat,
            pool: texts(self.pool@),
            retry: self.retry as nat,
            phase: self.phase,
            walk: self.walk@,
            exhausted: self.exhausted,
        }
    }
}

impl Sampler {
    /// A run that is to find `wanted` files under `root`, entering nothing
    /// that `whitelist` rules out.
    pub fn new(root: String, wanted: usize, whitelist: Whitelist) -> (sampler: Sampler)
        ensures
            sampler@ == init(root@, wanted as nat, whitelist@),
    {
        let walk = Walk::new(root.clone(), MAX_STEPS);
        let sampler = Sampler {
            root,
            wanted,
            whitelist,
            selected: Vec::new(),
            visited: PathSet::new(),
            terminal: PathSet::new(),
            round: if wanted == 0 { 0 } else { 1 },
            pool: Vec::new(),
            retry: 0,
            phase: if wanted == 0 { Phase::Done } else { Phase::Root },
            walk,
            exhausted: false,
        };
        proof {
            assert(texts(sampler.selected@) =~= Seq::<Seq<char>>::empty());
            assert(texts(sampler.pool@) =~= Seq::<Seq<char>>::empty());
        }
        sampler
    }

    /// The path to probe next, or `None` when the run is done.
    pub fn request(&self) -> (path: Option<&String>)
        ensures
            match path {
                Some(p) => request(self@) == Some(p@),
                None => request(self@) is None,
            },
    {
        if self.phase == Phase::Done {
            None
        } else {
            Some(self.walk.current())
        }
    }

    /// Whether the run is over.
    pub fn is_done(&self) -> (done: bool)
        ensures
            done == (self@.phase == Phase::Done),
    {
        self.phase == Phase::Done
    }

    /// Whether the run ended because a walk from the root failed while as
    /// many directories were terminal as were visited.
    pub fn is_exhausted(&self) -> (exhausted: bool)
        ensures
            exhausted == self@.exhausted,
    {
        self.exhausted
    }

    /// How many files are wanted.
    pub fn wanted(&self) -> (n: usize)
        ensures
            n == self@.wanted,
    {
        self.wanted
    }

    /// The entries that walks have entered so far.
    pub fn visited(&self) -> (set: &PathSet)
        ensures
            set@ == self@.visited,
    {
        &self.visited
    }

    /// The directories that are known to lead nowhere.
    pub fn terminal(&self) -> (set: &PathSet)
        ensures
            set@ == self@.terminal,
    {
        &self.terminal
    }

    /// The files found so far, in the order of their discovery and never
    /// more than were wanted.
    pub fn into_results(self) -> (paths: Vec<String>)
        ensures
            texts(paths@) == results(self@),
            paths@.len() <= self@.wanted,
    {
        let mut paths = self.selected;
        if paths.len() > self.wanted {
            paths.truncate(self.wanted);
        }
        proof {
            assert(texts(paths@) =~= results(self@));
        }
        paths
    }

    fn collect(&mut self)
        ensures
            final(self)@ == collected(old(self)@),
    {
        let found = self.walk.current().clone();
        proof {
            assert(texts(self.selected@.push(found)) =~= texts(self.selected@).push(found@));
        }
        self.selected.push(found);
    }

    fn draw_pool(&mut self)
        ensures
            final(self)@ == pooled(old(self)@),
    {
        self.pool = self.visited.difference(&self.terminal);
        self.retry = 0;
    }

    fn proceed(&mut self)
        ensures
            final(self)@ == proceed(old(self)@),
    {
        if self.selected.len() >= self.wanted {
            self.phase = Phase::Done;
        } else if self.retry < self.pool.len() {
            self.walk = Walk::new(self.pool[self.retry].clone(), MAX_STEPS);
            self.retry = self.retry + 1;
            self.phase = Phase::Retry;
        } else if self.round >= self.wanted {
            self.phase = Phase::Done;
        } else {
            self.walk = Walk::new(self.root.clone(), MAX_STEPS);
            self.round = self.round + 1;
            self.phase = Phase::Root;
        }
    }

    fn conclude(&mut self, found: bool)
        ensures
            final(self)@ == conclude(old(self)@, found),
    {
        match self.phase {
            Phase::Root => {
                if found {
                    self.collect();
                    self.draw_pool();
                    self.proceed();
                } else if self.terminal.len() == self.visited.len() {
                    self.exhausted = true;
                    self.phase = Phase::Done;
                } else {
                    self.draw_pool();
                    self.proceed();
                }
            },
            Phase::Retry => {
                if found {
                    self.collect();
                } else {
                    self.terminal.insert(self.walk.start().clone());
                }
                self.proceed();
            },
            Phase::Done => {},
        }
    }

    fn book(&mut self, progress: Progress)
        ensures
            final(self)@ == match progress {
                Progress::Continue => old(self)@,
                Progress::Found => conclude(old(self)@, true),
                Progress::Failed => conclude(old(self)@, false),
            },
    {
        match progress {
            Progress::Continue => {},
            Progress::Found => self.conclude(true),
            Progress::Failed => self.conclude(false),
        }
    }

    /// Takes the answer to the request with the entry to enter given by
    /// `pick`: of the eligible entries of a directory, the one at place
    /// `pick` counted round the list, so that `0` is the first.
    pub fn step_with(&mut self, probe: &Probe, pick: usize)
        ensures
            final(self)@ == step(old(self)@, probe@, pick as int),
    {
        if self.phase == Phase::Done {
            return ;
        }
        let progress = guided_walk(
            &mut self.walk,
            probe,
            pick,
            &mut self.terminal,
            &mut self.visited,
            &self.whitelist,
        );
        self.book(progress);
    }

    /// Takes the answer to the request. In a directory with eligible
    /// entries the walk enters one of them chosen at random.
    pub fn step(&mut self, probe: &Probe)
        ensures
            exists|pick: int| 0 <= pick && final(self)@ == #[trigger] step(old(self)@, probe@, pick),
    {
        if self.phase == Phase::Done {
            assert(self@ == step(self@, probe@, 0));
            return ;
        }
        let ghost before = self@;
        let progress = random_walk(
            &mut self.walk,
            probe,
            &mut self.terminal,
            &mut self.visited,
            &self.whitelist,
        );
        let ghost pick = choose|pick: int|
            0 <= pick && {
                let o = #[trigger] walk_step(
                    before.walk,
                    probe@,
                    pick,
                    before.terminal,
                    before.visited,
                    before.patterns,
                );
                &&& self@.walk == o.walk
                &&& self@.terminal == o.terminal
                &&& self@.visited == o.visited
                &&& progress == o.progress
            };
        self.book(progress);
        assert(self@ == step(before, probe@, pick));
    }
}

} // verus!
