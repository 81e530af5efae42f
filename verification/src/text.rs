//! Texts as sequences of characters: trimming white space and splitting at
//! a separator.

use vstd::prelude::*;

verus! {

/// The texts of a list of strings, in order.
pub open spec fn texts(strings: Seq<String>) -> Seq<Seq<char>> {
    strings.map_values(|s: String| s@)
}

/// `list` with `text` added at the end, unless it is there already.
pub open spec fn inserted(list: Seq<Seq<char>>, text: Seq<char>) -> Seq<Seq<char>> {
    if list.contains(text) {
        list
    } else {
        list.push(text)
    }
}

/// Adding a text to a list keeps its members and adds the new one, and a
/// list without repetitions stays without them.
pub proof fn lemma_inserted(list: Seq<Seq<char>>, text: Seq<char>)
    ensures
        inserted(list, text).contains(text),
        forall|p: Seq<char>| list.contains(p) ==> inserted(list, text).contains(p),
        forall|p: Seq<char>| inserted(list, text).contains(p) ==> p == text || list.contains(p),
        list.no_duplicates() ==> inserted(list, text).no_duplicates(),
        list.len() <= inserted(list, text).len() <= list.len() + 1,
{
    let after = inserted(list, text);
    if !list.contains(text) {
        assert(after[list.len() as int] == text);
        assert forall|p: Seq<char>| list.contains(p) implies after.contains(p) by {
            let i = choose|i: int| 0 <= i < list.len() && list[i] == p;
            assert(after[i] == p);
        }
        assert forall|p: Seq<char>| after.contains(p) implies p == text || list.contains(p) by {
            let i = choose|i: int| 0 <= i < after.len() && after[i] == p;
            if i < list.len() {
                assert(list[i] == p);
            }
        }
    }
}

/// The members of `list` in the order of their first occurrence, each once.
pub open spec fn unique(list: Seq<Seq<char>>) -> Seq<Seq<char>>
    decreases list.len(),
{
    if list.len() == 0 {
        list
    } else {
        inserted(unique(list.drop_last()), list.last())
    }
}

/// `unique` drops repetitions and nothing else.
pub proof fn lemma_unique(list: Seq<Seq<char>>)
    ensures
        unique(list).no_duplicates(),
        unique(list).to_set() == list.to_set(),
    decreases list.len(),
{
    if list.len() > 0 {
        let before = list.drop_last();
        lemma_unique(before);
        lemma_inserted(unique(before), list.last());
        assert forall|t: Seq<char>| unique(list).contains(t) <==> list.contains(t) by {
            if unique(list).contains(t) && t != list.last() {
                assert(unique(before).to_set().contains(t));
                let k = choose|k: int| 0 <= k < before.len() && before[k] == t;
                assert(list[k] == t);
            }
            if list.contains(t) && t != list.last() {
                let k = choose|k: int| 0 <= k < list.len() && list[k] == t;
                assert(before[k] == t);
                assert(before.to_set().contains(t));
                assert(unique(before).contains(t));
            }
            if t == list.last() {
                assert(list[list.len() - 1] == t);
            }
        }
    }
    assert(unique(list).to_set() =~= list.to_set());
}

/// Whether `text` is one of `list`.
pub fn contains_text(list: &Vec<String>, text: &String) -> (found: bool)
    ensures
        found == texts(list@).contains(text@),
{
    let mut i: usize = 0;
    while i < list.len()
        invariant
            i <= list.len(),
            forall|k: int| 0 <= k < i ==> texts(list@)[k] != text@,
        decreases list.len() - i,
    {
        if list[i] == *text {
            assert(texts(list@)[i as int] == text@);
            return true;
        }
        i = i + 1;
    }
    false
}

/// Whether `c` is white space: one of the characters with the Unicode
/// property `White_Space`, which are the tab, the line breaks and the space
/// of ASCII, the next line and the no-break space of Latin-1, and the
/// spaces and separators listed after them.
pub open spec fn is_white_space(c: char) -> bool {
    let code = c as u32;
    ||| 0x0009 <= code <= 0x000D
    ||| code == 0x0020
    ||| code == 0x0085
    ||| code == 0x00A0
    ||| code == 0x1680
    ||| 0x2000 <= code <= 0x200A
    ||| code == 0x2028
    ||| code == 0x2029
    ||| code == 0x202F
    ||| code == 0x205F
    ||| code == 0x3000
}

/// Whether `c` is white space.
pub fn white_space(c: char) -> (b: bool)
    ensures
        b == is_white_space(c),
{
    let code = c as u32;
    (0x0009 <= code && code <= 0x000D) || code == 0x0020 || code == 0x0085 || code == 0x00A0
        || code == 0x1680 || (0x2000 <= code && code <= 0x200A) || code == 0x2028 || code
        == 0x2029 || code == 0x202F || code == 0x205F || code == 0x3000
}

/// `s` without its leading white space.
pub open spec fn trim_start(s: Seq<char>) -> Seq<char>
    decreases s.len(),
{
    if s.len() > 0 && is_white_space(s.first()) {
        trim_start(s.drop_first())
    } else {
        s
    }
}

/// `s` without its trailing white space.
pub open spec fn trim_end(s: Seq<char>) -> Seq<char>
    decreases s.len(),
{
    if s.len() > 0 && is_white_space(s.last()) {
        trim_end(s.drop_last())
    } else {
        s
    }
}

/// `s` without the white space at either end.
pub open spec fn trim(s: Seq<char>) -> Seq<char> {
    trim_end(trim_start(s))
}

/// The pieces of `s` between occurrences of `sep`, in order. A text with
/// `k` separators has `k + 1` pieces, some of which may be empty; the empty
/// text has one empty piece.
pub open spec fn split(s: Seq<char>, sep: char) -> Seq<Seq<char>>
    decreases s.len(),
{
    if s.len() == 0 {
        seq![Seq::<char>::empty()]
    } else {
        let before = split(s.drop_last(), sep);
        if s.last() == sep {
            before.push(Seq::<char>::empty())
        } else {
            before.drop_last().push(before.last().push(s.last()))
        }
    }
}

/// The pieces put together again, with `sep` between each two.
pub open spec fn join(pieces: Seq<Seq<char>>, sep: char) -> Seq<char>
    decreases pieces.len(),
{
    if pieces.len() == 0 {
        Seq::<char>::empty()
    } else if pieces.len() == 1 {
        pieces[0]
    } else {
        join(pieces.drop_last(), sep).push(sep) + pieces.last()
    }
}

/// What splitting means: there is at least one piece, no piece holds the
/// separator, and the pieces joined by the separator give the text back.
pub proof fn lemma_split(s: Seq<char>, sep: char)
    ensures
        split(s, sep).len() >= 1,
        forall|k: int| 0 <= k < split(s, sep).len() ==> !(#[trigger] split(s, sep)[k]).contains(sep),
        join(split(s, sep), sep) == s,
    decreases s.len(),
{
    let pieces = split(s, sep);
    if s.len() == 0 {
        assert(join(pieces, sep) =~= s);
    } else {
        let before = split(s.drop_last(), sep);
        lemma_split(s.drop_last(), sep);
        if s.last() == sep {
            assert(pieces.drop_last() =~= before);
            assert(join(pieces, sep) =~= s.drop_last().push(sep));
            assert(s.drop_last().push(sep) =~= s);
        } else {
            let grown = before.last().push(s.last());
            assert forall|k: int| 0 <= k < pieces.len() implies !(#[trigger] pieces[k]).contains(
                sep,
            ) by {
                if k == pieces.len() - 1 {
                    if grown.contains(sep) {
                        let j = choose|j: int| 0 <= j < grown.len() && grown[j] == sep;
                        assert(before.last()[j] == sep);
                        assert(before.last().contains(sep));
                        assert(!before[before.len() - 1].contains(sep));
                    }
                } else {
                    assert(pieces[k] == before[k]);
                }
            }
            if before.len() == 1 {
                assert(join(before, sep) == before[0]);
                assert(join(pieces, sep) =~= s.drop_last().push(s.last()));
            } else {
                assert(pieces.drop_last() =~= before.drop_last());
                assert(join(pieces, sep) =~= (join(before.drop_last(), sep).push(sep)
                    + before.last()).push(s.last()));
                assert(join(pieces, sep) =~= s.drop_last().push(s.last()));
            }
            assert(s.drop_last().push(s.last()) =~= s);
        }
    }
}

/// The pieces of `s` at `sep`, each as a string of its own.
pub fn split_text(s: &str, sep: char) -> (pieces: Vec<String>)
    ensures
        texts(pieces@) == split(s@, sep),
{
    let n = s.unicode_len();
    let mut pieces: Vec<String> = Vec::new();
    let mut start: usize = 0;
    let mut i: usize = 0;
    assert(s@.take(0) =~= Seq::<char>::empty());
    assert(texts(pieces@).push(s@.subrange(0, 0)) =~= split(s@.take(0), sep));
    while i < n
        invariant
            n == s@.len(),
            start <= i <= n,
            split(s@.take(i as int), sep) == texts(pieces@).push(
                s@.subrange(start as int, i as int),
            ),
        decreases n - i,
    {
        let c = s.get_char(i);
        proof {
            let longer = s@.take(i + 1);
            assert(longer.drop_last() =~= s@.take(i as int));
            assert(longer.last() == c);
            let before = split(s@.take(i as int), sep);
            assert(before.last() == s@.subrange(start as int, i as int));
            assert(before.drop_last() =~= texts(pieces@));
        }
        if c == sep {
            let piece = s.substring_char(start, i).to_owned();
            proof {
                assert(texts(pieces@.push(piece)) =~= texts(pieces@).push(piece@));
                assert(s@.subrange(i + 1, i + 1) =~= Seq::<char>::empty());
            }
            pieces.push(piece);
            start = i + 1;
        } else {
            proof {
                assert(s@.subrange(start as int, i + 1) =~= s@.subrange(
                    start as int,
                    i as int,
                ).push(c));
            }
        }
        i = i + 1;
    }
    let piece = s.substring_char(start, n).to_owned();
    proof {
        assert(s@.take(n as int) =~= s@);
        assert(texts(pieces@.push(piece)) =~= texts(pieces@).push(piece@));
    }
    pieces.push(piece);
    pieces
}

/// What trimming means: the result is a stretch of the text with nothing
/// but white space before and after it, and with no white space at either
/// of its own ends.
pub proof fn lemma_trim(s: Seq<char>)
    ensures
        exists|from: int, to: int|
            {
                &&& 0 <= from <= to <= s.len()
                &&& #[trigger] s.subrange(from, to) == trim(s)
                &&& forall|k: int| 0 <= k < from || to <= k < s.len() ==> is_white_space(s[k])
                &&& from < to ==> !is_white_space(s[from]) && !is_white_space(s[to - 1])
            },
{
    let from = lemma_trim_start(s);
    let rest = s.subrange(from, s.len() as int);
    let cut = lemma_trim_end(rest);
    let to = from + cut;
    assert(rest.subrange(0, cut) =~= s.subrange(from, to));
    assert forall|k: int| 0 <= k < from || to <= k < s.len() implies is_white_space(s[k]) by {
        if to <= k {
            assert(rest[k - from] == s[k]);
        }
    }
    if from < to {
        assert(rest[0] == s[from]);
        assert(rest[cut - 1] == s[to - 1]);
    }
}

proof fn lemma_trim_start(s: Seq<char>) -> (from: int)
    ensures
        0 <= from <= s.len(),
        trim_start(s) == s.subrange(from, s.len() as int),
        forall|k: int| 0 <= k < from ==> is_white_space(s[k]),
        from < s.len() ==> !is_white_space(s[from]),
    decreases s.len(),
{
    if s.len() > 0 && is_white_space(s.first()) {
        let inner = lemma_trim_start(s.drop_first());
        assert(s.drop_first().subrange(inner, s.len() - 1) =~= s.subrange(
            inner + 1,
            s.len() as int,
        ));
        assert forall|k: int| 0 <= k < inner + 1 implies is_white_space(s[k]) by {
            if k > 0 {
                assert(s.drop_first()[k - 1] == s[k]);
            }
        }
        if inner + 1 < s.len() {
            assert(s.drop_first()[inner] == s[inner + 1]);
        }
        inner + 1
    } else {
        assert(s.subrange(0, s.len() as int) =~= s);
        0
    }
}

proof fn lemma_trim_end(s: Seq<char>) -> (to: int)
    ensures
        0 <= to <= s.len(),
        trim_end(s) == s.subrange(0, to),
        forall|k: int| to <= k < s.len() ==> is_white_space(s[k]),
        0 < to ==> !is_white_space(s[to - 1]),
    decreases s.len(),
{
    if s.len() > 0 && is_white_space(s.last()) {
        let inner = lemma_trim_end(s.drop_last());
        assert(s.drop_last().subrange(0, inner) =~= s.subrange(0, inner));
        assert forall|k: int| inner <= k < s.len() implies is_white_space(s[k]) by {
            if k < s.len() - 1 {
                assert(s.drop_last()[k] == s[k]);
            }
        }
        inner
    } else {
        assert(s.subrange(0, s.len() as int) =~= s);
        s.len() as int
    }
}

proof fn lemma_trim_start_step(s: Seq<char>, from: int, to: int)
    requires
        0 <= from < to <= s.len(),
        is_white_space(s[from]),
    ensures
        trim_start(s.subrange(from, to)) == trim_start(s.subrange(from + 1, to)),
{
    assert(s.subrange(from, to).drop_first() =~= s.subrange(from + 1, to));
}

proof fn lemma_trim_end_step(s: Seq<char>, from: int, to: int)
    requires
        0 <= from < to <= s.len(),
        is_white_space(s[to - 1]),
    ensures
        trim_end(s.subrange(from, to)) == trim_end(s.subrange(from, to - 1)),
{
    assert(s.subrange(from, to).drop_last() =~= s.subrange(from, to - 1));
}

/// `s` without the white space at either end, as a string of its own.
pub fn trim_text(s: &str) -> (trimmed: String)
    ensures
        trimmed@ == trim(s@),
{
    let n = s.unicode_len();
    let mut from: usize = 0;
    assert(s@.subrange(0, n as int) =~= s@);
    loop
        invariant
            n == s@.len(),
            from <= n,
            trim_start(s@) == trim_start(s@.subrange(from as int, n as int)),
        ensures
            from <= n,
            trim_start(s@) == s@.subrange(from as int, n as int),
        decreases n - from,
    {
        if from == n {
            break ;
        }
        let c = s.get_char(from);
        if !white_space(c) {
            break ;
        }
        proof {
            lemma_trim_start_step(s@, from as int, n as int);
        }
        from = from + 1;
    }
    let mut to: usize = n;
    loop
        invariant
            n == s@.len(),
            from <= to <= n,
            trim(s@) == trim_end(s@.subrange(from as int, to as int)),
        ensures
            from <= to <= n,
            trim(s@) == s@.subrange(from as int, to as int),
        decreases to - from,
    {
        if to == from {
            break ;
        }
        let c = s.get_char(to - 1);
        if !white_space(c) {
            break ;
        }
        proof {
            lemma_trim_end_step(s@, from as int, to as int);
        }
        to = to - 1;
    }
    s.substring_char(from, to).to_owned()
}

} // verus!
