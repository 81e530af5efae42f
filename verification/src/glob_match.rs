//! The two questions that this library asks of the `glob` crate: whether a
//! text is a well-formed pattern, and whether a pattern matches a name.
//!
//! The syntax and the matching are the crate's own and are not restated
//! here. Each answer gets a name, and the contracts of the library speak of
//! the names. The answers depend on the texts asked about and on nothing
//! else but which characters separate the components of a path on the
//! platform that the library is built for.

use vstd::prelude::*;

verus! {

/// Whether `pattern` is a well-formed glob, that is, whether
/// `glob::Pattern::new` returns `Ok` for it.
pub uninterp spec fn glob_compiles(pattern: Seq<char>) -> bool;

/// Whether the glob compiled from `pattern` matches the whole of `name`, as
/// `glob::Pattern::matches` decides it with its default options. Meaningful
/// where `pattern` compiles.
pub uninterp spec fn glob_matches(pattern: Seq<char>, name: Seq<char>) -> bool;

/// A pattern accepts a name when it is well-formed and matches it.
pub open spec fn pattern_accepts(pattern: Seq<char>, name: Seq<char>) -> bool {
    glob_compiles(pattern) && glob_matches(pattern, name)
}

/// Calls `glob::Pattern::new` and says whether it returned `Ok`. The
/// function reads its argument and nothing else, and no input makes it
/// panic.
#[verifier::external_body]
pub(crate) fn compiles(pattern: &str) -> (ok: bool)
    ensures
        ok == glob_compiles(pattern@),
{
    glob::Pattern::new(pattern).is_ok()
}

/// Compiles `pattern` with `glob::Pattern::new` and, where that succeeds,
/// asks `glob::Pattern::matches` about `name`. The result is `None` where
/// the pattern does not compile, and else the answer of `matches`, which
/// depends on the compiled pattern and the name alone and does not panic.
#[verifier::external_body]
pub(crate) fn match_glob(pattern: &str, name: &str) -> (answer: Option<bool>)
    ensures
        answer is Some <==> glob_compiles(pattern@),
        answer matches Some(hit) ==> hit == glob_matches(pattern@, name@),
{
    match glob::Pattern::new(pattern) {
        Ok(compiled) => Some(compiled.matches(name)),
        Err(_) => None,
    }
}

/// Whether `pattern` accepts `name`. A text that is no well-formed pattern
/// accepts nothing.
pub fn accepts(pattern: &str, name: &str) -> (hit: bool)
    ensures
        hit == pattern_accepts(pattern@, name@),
{
    match match_glob(pattern, name) {
        Some(hit) => hit,
        None => false,
    }
}

} // verus!
