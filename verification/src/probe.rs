//! What the file system says of a path, and which entries of a directory a
//! walk may enter.

use vstd::prelude::*;
use crate::text::texts;
use crate::whitelist::{is_whitelisted, whitelisted, Whitelist};

verus! {

/// What stands at a path, as a mathematical value.
pub enum Node {
    /// A directory, with the paths of its immediate entries.
    Directory(Seq<Seq<char>>),
    /// A regular file.
    File,
    /// Neither of the two: a socket, a broken link, nothing at all.
    Other,
}

/// What the caller found at the path that it was asked to look at.
#[derive(Debug)]
pub enum Probe {
    /// A directory, with the paths of its immediate entries.
    Directory(Vec<String>),
    /// A regular file.
    File,
    /// Neither of the two.
    Other,
}

impl View for Probe {
    type V = Node;

    open spec fn view(&self) -> Node {
        match *self {
            Probe::Directory(entries) => Node::Directory(texts(entries@)),
            Probe::File => Node::File,
            Probe::Other => Node::Other,
        }
    }
}

/// The entries that the patterns do not rule out, in their order.
pub open spec fn eligible(entries: Seq<Seq<char>>, patterns: Set<Seq<char>>) -> Seq<Seq<char>> {
    entries.filter(|e: Seq<char>| !whitelisted(e, patterns))
}

/// Every eligible entry is an entry that the patterns do not rule out.
pub proof fn lemma_eligible(entries: Seq<Seq<char>>, patterns: Set<Seq<char>>, i: int)
    requires
        0 <= i < eligible(entries, patterns).len(),
    ensures
        entries.contains(eligible(entries, patterns)[i]),
        !whitelisted(eligible(entries, patterns)[i], patterns),
{
    let keep = |e: Seq<char>| !whitelisted(e, patterns);
    entries.lemma_filter_pred(keep, i);
    let kept = entries.filter(keep);
    assert(kept.contains(kept[i]));
    entries.lemma_filter_contains_rev(keep, kept[i]);
}

/// The entries of a directory that the whitelist does not rule out.
pub fn eligible_entries(entries: &Vec<String>, whitelist: &Whitelist) -> (kept: Vec<String>)
    ensures
        texts(kept@) == eligible(texts(entries@), whitelist@),
{
    let ghost all = texts(entries@);
    let ghost keep = |e: Seq<char>| !whitelisted(e, whitelist@);
    let mut kept: Vec<String> = Vec::new();
    let mut i: usize = 0;
    proof {
        assert(all.take(0) =~= Seq::<Seq<char>>::empty());
        reveal(Seq::filter);
        assert(texts(kept@) =~= all.take(0).filter(keep));
    }
    while i < entries.len()
        invariant
            i <= entries.len(),
            all == texts(entries@),
            keep == |e: Seq<char>| !whitelisted(e, whitelist@),
            texts(kept@) == all.take(i as int).filter(keep),
        decreases entries.len() - i,
    {
        proof {
            assert(all.take(i + 1) =~= all.take(i as int).push(all[i as int]));
            all.take(i as int).lemma_filter_push(all[i as int], keep);
        }
        if !is_whitelisted(entries[i].as_str(), whitelist) {
            let entry = entries[i].clone();
            proof {
                assert(texts(kept@.push(entry)) =~= texts(kept@).push(entry@));
            }
            kept.push(entry);
        }
        i = i + 1;
    }
    proof {
        assert(all.take(i as int) =~= all);
    }
    kept
}

} // verus!
