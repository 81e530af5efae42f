//! The whitelist: glob patterns for file names that a walk must not enter.

use vstd::prelude::*;
use crate::glob_match::{accepts, compiles, glob_compiles, pattern_accepts};
use crate::text::{
    contains_text, lemma_unique, split, split_text, texts, trim, trim_text, unique,
};

verus! {

/// The final component of `path`, as `std::path::Path::file_name` gives it
/// on the platform that the library is built for: `None` where the path has
/// none, as for a path that ends in `..`.
pub uninterp spec fn final_component(path: Seq<char>) -> Option<Seq<char>>;

/// Calls `std::path::Path::file_name` on `path` and hands the name back as a
/// string. The name is a part of a valid string, so the conversion loses
/// nothing. The contract names the result and says nothing more of it.
#[verifier::external_body]
pub(crate) fn file_name_of(path: &str) -> (name: Option<String>)
    ensures
        match name {
            Some(n) => final_component(path@) == Some(n@),
            None => final_component(path@) is None,
        },
{
    match std::path::Path::new(path).file_name() {
        Some(name) => Some(name.to_string_lossy().into_owned()),
        None => None,
    }
}

/// The pattern texts that a whitelist argument holds: none where the
/// argument is absent, else its pieces between commas, each trimmed.
pub open spec fn pattern_texts(arg: Option<Seq<char>>) -> Seq<Seq<char>> {
    match arg {
        Some(s) => split(s, ',').map_values(|piece: Seq<char>| trim(piece)),
        None => Seq::<Seq<char>>::empty(),
    }
}

/// Whether `patterns` rule out the file at `path`: the path has a final
/// component, that name is not empty, and one of the patterns accepts it.
pub open spec fn whitelisted(path: Seq<char>, patterns: Set<Seq<char>>) -> bool {
    match final_component(path) {
        Some(name) => name.len() > 0 && exists|p: Seq<char>|
            patterns.contains(p) && #[trigger] pattern_accepts(p, name),
        None => false,
    }
}

/// A set of glob patterns, each held once, as its text.
#[derive(Debug)]
pub struct Whitelist {
    patterns: Vec<String>,
}

/// The pattern of a whitelist argument that is no well-formed glob.
#[derive(Debug)]
pub struct InvalidPattern {
    /// Its place among the patterns of the argument, counted from zero.
    pub index: usize,
    /// Its text, trimmed.
    pub pattern: String,
}

impl View for Whitelist {
    type V = Set<Seq<char>>;

    /// The texts of the patterns.
    closed spec fn view(&self) -> Set<Seq<char>> {
        texts(self.patterns@).to_set()
    }
}

impl Whitelist {
    #[verifier::type_invariant]
    spec fn distinct(self) -> bool {
        texts(self.patterns@).no_duplicates()
    }

    /// The whitelist that rules out nothing.
    pub fn empty() -> (w: Whitelist)
        ensures
            w@ == Set::<Seq<char>>::empty(),
    {
        let w = Whitelist { patterns: Vec::new() };
        assert(w@ =~= Set::<Seq<char>>::empty());
        w
    }

    /// The number of patterns held.
    pub fn len(&self) -> (n: usize)
        ensures
            self@.finite(),
            n == self@.len(),
    {
        proof {
            use_type_invariant(self);
            vstd::seq_lib::seq_to_set_is_finite(texts(self.patterns@));
            texts(self.patterns@).unique_seq_to_set();
        }
        self.patterns.len()
    }
}

/// The patterns of `arg`, where all of them are well-formed globs.
pub open spec fn compiled_from(w: Whitelist, arg: Option<Seq<char>>) -> bool {
    &&& w@ == pattern_texts(arg).to_set()
    &&& forall|p: Seq<char>| w@.contains(p) ==> glob_compiles(p)
}

/// The first pattern of `arg` that is no well-formed glob.
pub open spec fn first_invalid(e: InvalidPattern, arg: Option<Seq<char>>) -> bool {
    let all = pattern_texts(arg);
    &&& e.index < all.len()
    &&& e.pattern@ == all[e.index as int]
    &&& !glob_compiles(all[e.index as int])
    &&& forall|k: int| 0 <= k < e.index ==> glob_compiles(#[trigger] all[k])
}

/// The text of an optional string.
pub open spec fn arg_text(arg: Option<&String>) -> Option<Seq<char>> {
    match arg {
        Some(s) => Some(s@),
        None => None,
    }
}

/// Whether every pattern of `arg` is a well-formed glob.
pub open spec fn well_formed(arg: Option<Seq<char>>) -> bool {
    forall|k: int|
        0 <= k < pattern_texts(arg).len() ==> glob_compiles(#[trigger] pattern_texts(arg)[k])
}

/// Compiles the whitelist argument: a list of glob patterns separated by
/// commas, white space around each ignored. An absent argument gives the
/// empty whitelist.
///
/// Every pattern of the argument must be a well-formed glob: there is no
/// whitelist for an argument with a pattern that is none.
/// [`try_parse_whitelist`] takes any argument and tests that first.
pub fn parse_whitelist(whitelist_arg: Option<&String>) -> (w: Whitelist)
    requires
        well_formed(arg_text(whitelist_arg)),
    ensures
        compiled_from(w, arg_text(whitelist_arg)),
{
    let arg = match whitelist_arg {
        Some(arg) => arg,
        None => {
            let w = Whitelist::empty();
            assert(pattern_texts(None).to_set() =~= Set::<Seq<char>>::empty());
            return w;
        },
    };
    let ghost all = pattern_texts(Some(arg@));
    let pieces = split_text(arg.as_str(), ',');
    let mut patterns: Vec<String> = Vec::new();
    let mut i: usize = 0;
    while i < pieces.len()
        invariant
            i <= pieces.len(),
            all.len() == pieces.len(),
            forall|k: int| 0 <= k < all.len() ==> #[trigger] all[k] == trim(pieces@[k]@),
            texts(patterns@) == unique(all.take(i as int)),
        decreases pieces.len() - i,
    {
        let pattern = trim_text(pieces[i].as_str());
        proof {
            assert(all[i as int] == pattern@);
            assert(all.take(i + 1).drop_last() =~= all.take(i as int));
        }
        if !contains_text(&patterns, &pattern) {
            proof {
                assert(texts(patterns@.push(pattern)) =~= texts(patterns@).push(pattern@));
            }
            patterns.push(pattern);
        }
        i = i + 1;
    }
    proof {
        assert(all.take(i as int) =~= all);
        lemma_unique(all);
    }
    let w = Whitelist { patterns };
    proof {
        assert forall|p: Seq<char>| w@.contains(p) implies glob_compiles(p) by {
            let k = choose|k: int| 0 <= k < all.len() && all[k] == p;
            assert(glob_compiles(all[k]));
        }
    }
    w
}

/// The first pattern of the argument that is no well-formed glob, if there
/// is one.
fn first_malformed(whitelist_arg: Option<&String>) -> (found: Option<InvalidPattern>)
    ensures
        match found {
            Some(e) => first_invalid(e, arg_text(whitelist_arg)),
            None => well_formed(arg_text(whitelist_arg)),
        },
{
    let arg = match whitelist_arg {
        Some(arg) => arg,
        None => {
            return None;
        },
    };
    let ghost all = pattern_texts(Some(arg@));
    let pieces = split_text(arg.as_str(), ',');
    let mut i: usize = 0;
    while i < pieces.len()
        invariant
            i <= pieces.len(),
            all == pattern_texts(arg_text(whitelist_arg)),
            all.len() == pieces.len(),
            forall|k: int| 0 <= k < all.len() ==> #[trigger] all[k] == trim(pieces@[k]@),
            forall|k: int| 0 <= k < i ==> glob_compiles(#[trigger] all[k]),
        decreases pieces.len() - i,
    {
        let pattern = trim_text(pieces[i].as_str());
        assert(all[i as int] == pattern@);
        if !compiles(pattern.as_str()) {
            return Some(InvalidPattern { index: i, pattern });
        }
        i = i + 1;
    }
    None
}

/// Compiles the whitelist argument if every pattern in it is a well-formed
/// glob. Otherwise the first pattern that is none is reported, and no
/// whitelist is made.
pub fn try_parse_whitelist(whitelist_arg: Option<&String>) -> (r: Result<
    Whitelist,
    InvalidPattern,
>)
    ensures
        match r {
            Ok(w) => well_formed(arg_text(whitelist_arg)) && compiled_from(
                w,
                arg_text(whitelist_arg),
            ),
            Err(e) => first_invalid(e, arg_text(whitelist_arg)),
        },
{
    match first_malformed(whitelist_arg) {
        Some(e) => Err(e),
        None => Ok(parse_whitelist(whitelist_arg)),
    }
}

/// Whether the whitelist rules out the file at `path`. Only the final
/// component of the path is matched; a path without one is never ruled out.
pub fn is_whitelisted(path: &str, whitelist: &Whitelist) -> (hit: bool)
    ensures
        hit == whitelisted(path@, whitelist@),
{
    let name = match file_name_of(path) {
        Some(name) => name,
        None => {
            return false;
        },
    };
    if name.as_str().is_empty() {
        return false;
    }
    let ghost held = texts(whitelist.patterns@);
    let mut i: usize = 0;
    while i < whitelist.patterns.len()
        invariant
            i <= whitelist.patterns.len(),
            final_component(path@) == Some(name@),
            name@.len() > 0,
            held == texts(whitelist.patterns@),
            forall|k: int| 0 <= k < i ==> !pattern_accepts(#[trigger] held[k], name@),
        decreases whitelist.patterns.len() - i,
    {
        if accepts(whitelist.patterns[i].as_str(), name.as_str()) {
            proof {
                let p = held[i as int];
                assert(p == whitelist.patterns@[i as int]@);
                assert(held.contains(p));
                assert(held.to_set().contains(p));
                assert(whitelist@.contains(p) && pattern_accepts(p, name@));
                assert(whitelisted(path@, whitelist@));
            }
            return true;
        }
        i = i + 1;
    }
    proof {
        assert forall|p: Seq<char>| whitelist@.contains(p) implies !pattern_accepts(p, name@) by {
            let k = choose|k: int| 0 <= k < held.len() && held[k] == p;
            assert(!pattern_accepts(held[k], name@));
        }
    }
    false
}

/// Compiling one argument twice gives whitelists that rule out the same
/// paths: what a whitelist rules out depends on the pattern texts alone.
pub proof fn lemma_compile_twice(arg: Option<Seq<char>>, a: Whitelist, b: Whitelist)
    requires
        compiled_from(a, arg),
        compiled_from(b, arg),
    ensures
        a@ == b@,
        forall|path: Seq<char>| whitelisted(path, a@) == whitelisted(path, b@),
{
}

} // verus!
