//! A set of paths that remembers the order in which they came.

use vstd::prelude::*;
use crate::text::{contains_text, inserted, lemma_inserted, texts};

verus! {

/// The members of `paths` that are not in `others`, in their order.
pub open spec fn without(paths: Seq<Seq<char>>, others: Seq<Seq<char>>) -> Seq<Seq<char>> {
    paths.filter(|p: Seq<char>| !others.contains(p))
}

/// The paths seen so far, each once, in the order of their first insertion.
#[derive(Debug)]
pub struct PathSet {
    paths: Vec<String>,
}

impl View for PathSet {
    type V = Seq<Seq<char>>;

    /// The texts of the paths, in insertion order.
    closed spec fn view(&self) -> Seq<Seq<char>> {
        texts(self.paths@)
    }
}

impl PathSet {
    /// The empty set.
    pub fn new() -> (set: PathSet)
        ensures
            set@ == Seq::<Seq<char>>::empty(),
            set@.no_duplicates(),
    {
        let set = PathSet { paths: Vec::new() };
        assert(set@ =~= Seq::<Seq<char>>::empty());
        set
    }

    /// The number of paths held.
    pub fn len(&self) -> (n: usize)
        ensures
            n == self@.len(),
    {
        self.paths.len()
    }

    /// Whether `path` is held.
    pub fn contains(&self, path: &String) -> (found: bool)
        ensures
            found == self@.contains(path@),
    {
        contains_text(&self.paths, path)
    }

    /// Adds `path` unless it is held already, and says whether it was added.
    /// A set that held no path twice holds none twice afterwards.
    pub fn insert(&mut self, path: String) -> (added: bool)
        ensures
            final(self)@ == inserted(old(self)@, path@),
            added == !old(self)@.contains(path@),
            old(self)@.no_duplicates() ==> final(self)@.no_duplicates(),
    {
        proof {
            lemma_inserted(self@, path@);
        }
        if self.contains(&path) {
            false
        } else {
            proof {
                assert(texts(self.paths@.push(path)) =~= texts(self.paths@).push(path@));
            }
            self.paths.push(path);
            true
        }
    }

    /// The paths held that `others` does not hold, in insertion order.
    pub fn difference(&self, others: &PathSet) -> (rest: Vec<String>)
        ensures
            texts(rest@) == without(self@, others@),
    {
        let ghost keep = |p: Seq<char>| !others@.contains(p);
        let mut rest: Vec<String> = Vec::new();
        let mut i: usize = 0;
        proof {
            assert(self@.take(0) =~= Seq::<Seq<char>>::empty());
            reveal(Seq::filter);
            assert(texts(rest@) =~= self@.take(0).filter(keep));
        }
        while i < self.paths.len()
            invariant
                i <= self.paths.len(),
                keep == |p: Seq<char>| !others@.contains(p),
                texts(rest@) == self@.take(i as int).filter(keep),
            decreases self.paths.len() - i,
        {
            proof {
                assert(self@.take(i + 1) =~= self@.take(i as int).push(self@[i as int]));
                self@.take(i as int).lemma_filter_push(self@[i as int], keep);
            }
            if !others.contains(&self.paths[i]) {
                let path = self.paths[i].clone();
                proof {
                    assert(texts(rest@.push(path)) =~= texts(rest@).push(path@));
                }
                rest.push(path);
            }
            i = i + 1;
        }
        proof {
            assert(self@.take(i as int) =~= self@);
        }
        rest
    }
}

} // verus!
