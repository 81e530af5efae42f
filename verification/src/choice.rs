//! The random choice among the eligible entries of a directory.

use rand::seq::SliceRandom;
use vstd::prelude::*;
use crate::text::texts;

verus! {

/// Calls `rand::seq::SliceRandom::choose` on `items` with the generator of
/// `rand::thread_rng`, and hands back a copy of the item chosen. The crate
/// returns `None` for an empty slice and otherwise one of the items, which
/// is all the contract says: which one is left open, and two calls may
/// differ. The generator is seeded by the system on its first use in a
/// thread and panics if the system gives it no entropy.
#[verifier::external_body]
pub(crate) fn choose_one(items: &Vec<String>) -> (chosen: Option<String>)
    ensures
        chosen is Some <==> items@.len() > 0,
        chosen matches Some(c) ==> texts(items@).contains(c@),
{
    items.choose(&mut rand::thread_rng()).cloned()
}

/// The first place in `items` at which `chosen` stands, counted from zero.
/// Where `chosen` is absent or none of the items, the result is `0`.
pub fn position_of(items: &Vec<String>, chosen: &Option<String>) -> (pick: usize)
    ensures
        match *chosen {
            Some(c) if texts(items@).contains(c@) => {
                &&& pick < items@.len()
                &&& items@[pick as int]@ == c@
                &&& forall|k: int| 0 <= k < pick ==> texts(items@)[k] != c@
            },
            _ => pick == 0,
        },
{
    match chosen {
        Some(c) => {
            let mut i: usize = 0;
            while i < items.len()
                invariant
                    i <= items.len(),
                    *chosen == Some(*c),
                    forall|k: int| 0 <= k < i ==> texts(items@)[k] != c@,
                decreases items.len() - i,
            {
                if items[i] == *c {
                    assert(texts(items@)[i as int] == c@);
                    assert(texts(items@).contains(c@));
                    return i;
                }
                i = i + 1;
            }
            0
        },
        None => 0,
    }
}

/// Picks one of `items` at random and says which: a number below their
/// count, or `0` where there are none.
pub fn draw(items: &Vec<String>) -> (pick: usize)
    ensures
        items@.len() > 0 ==> pick < items@.len(),
        items@.len() == 0 ==> pick == 0,
{
    let chosen = choose_one(items);
    position_of(items, &chosen)
}

} // verus!
