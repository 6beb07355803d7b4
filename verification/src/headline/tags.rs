//! Lists of words that are written with a separator between them: the tags
//! of a headline, the keywords of a context.

use vstd::prelude::*;
use crate::text::{push_all, same_chars};

verus! {

/// The parts of `s` between the occurrences of `sep`. A text without the
/// separator, the empty one too, is one part.
pub open spec fn split_on(s: Seq<char>, sep: char) -> Seq<Seq<char>>
    decreases s.len(),
{
    if s.len() == 0 {
        seq![Seq::empty()]
    } else if s.last() == sep {
        split_on(s.drop_last(), sep).push(Seq::empty())
    } else {
        let parts = split_on(s.drop_last(), sep);
        parts.drop_last().push(parts.last().push(s.last()))
    }
}

/// The parts with `sep` between them.
pub open spec fn join_with(parts: Seq<Seq<char>>, sep: char) -> Seq<char>
    decreases parts.len(),
{
    if parts.len() == 0 {
        Seq::empty()
    } else if parts.len() == 1 {
        parts[0]
    } else {
        join_with(parts.drop_last(), sep).push(sep) + parts.last()
    }
}

/// The texts that the vectors hold.
pub open spec fn views(parts: Seq<Vec<char>>) -> Seq<Seq<char>> {
    Seq::new(parts.len(), |i: int| parts[i]@)
}

/// Cuts `s` at every `sep`.
pub fn split(s: &Vec<char>, sep: char) -> (parts: Vec<Vec<char>>)
    ensures
        views(parts@) == split_on(s@, sep),
{
    let mut parts: Vec<Vec<char>> = Vec::new();
    let mut cur: Vec<char> = Vec::new();
    let mut i: usize = 0;
    proof {
        assert(s@.take(0) == Seq::<char>::empty());
        assert(views(parts@).push(cur@) =~= split_on(s@.take(0), sep));
    }
    while i < s.len()
        invariant
            i <= s.len(),
            views(parts@).push(cur@) == split_on(s@.take(i as int), sep),
        decreases s.len() - i,
    {
        let c = s[i];
        let ghost before = s@.take(i as int);
        proof {
            assert(s@.take(i + 1).drop_last() == before);
            assert(s@.take(i + 1).last() == c);
            let sp = split_on(before, sep);
            assert(sp.last() == cur@);
            assert(sp.drop_last() =~= views(parts@));
        }
        if c == sep {
            parts.push(cur);
            cur = Vec::new();
            proof {
                assert(views(parts@).push(cur@) =~= split_on(before, sep).push(Seq::empty()));
            }
        } else {
            cur.push(c);
            proof {
                assert(views(parts@).push(cur@) =~= split_on(before, sep).drop_last().push(
                    split_on(before, sep).last().push(c),
                ));
            }
        }
        i += 1;
    }
    parts.push(cur);
    proof {
        assert(s@.take(s@.len() as int) == s@);
        assert(views(parts@) =~= split_on(s@, sep));
    }
    parts
}

/// Writes the parts with `sep` between them.
pub fn join(parts: &Vec<Vec<char>>, sep: char) -> (s: Vec<char>)
    ensures
        s@ == join_with(views(parts@), sep),
{
    let mut out: Vec<char> = Vec::new();
    let mut i: usize = 0;
    let ghost all = views(parts@);
    proof {
        assert(all.take(0) =~= Seq::<Seq<char>>::empty());
    }
    while i < parts.len()
        invariant
            i <= parts.len(),
            all == views(parts@),
            out@ == join_with(all.take(i as int), sep),
        decreases parts.len() - i,
    {
        if i > 0 {
            out.push(sep);
        }
        push_all(&mut out, &parts[i]);
        proof {
            assert(all.take(i + 1).drop_last() =~= all.take(i as int));
            assert(all.take(i + 1).last() == parts@[i as int]@);
            if i == 0 {
                assert(all.take(1)[0] == parts@[0]@);
                assert(out@ =~= parts@[0]@);
            }
        }
        i += 1;
    }
    proof {
        assert(all.take(all.len() as int) =~= all);
    }
    out
}

/// Whether `word` is one of `parts`.
pub fn contains_part(parts: &Vec<Vec<char>>, word: &Vec<char>) -> (r: bool)
    ensures
        r == views(parts@).contains(word@),
{
    let mut i: usize = 0;
    while i < parts.len()
        invariant
            i <= parts.len(),
            forall|k: int| 0 <= k < i ==> views(parts@)[k] != word@,
        decreases parts.len() - i,
    {
        if same_chars(&parts[i], word) {
            assert(views(parts@)[i as int] == word@);
            return true;
        }
        i += 1;
    }
    false
}

/// Whether `word` is one of the parts of `list` between its colons.
pub open spec fn is_listed(list: Seq<char>, word: Seq<char>) -> bool {
    split_on(list, ':').contains(word)
}

/// Tests whether `word` is one of the parts of `list` between its colons.
pub fn listed(list: &Vec<char>, word: &Vec<char>) -> (r: bool)
    ensures
        r == is_listed(list@, word@),
{
    let parts = split(list, ':');
    contains_part(&parts, word)
}

/// The parts that are not empty.
pub open spec fn nonempty_parts(parts: Seq<Seq<char>>) -> Seq<Seq<char>>
    decreases parts.len(),
{
    if parts.len() == 0 {
        parts
    } else if parts.last().len() == 0 {
        nonempty_parts(parts.drop_last())
    } else {
        nonempty_parts(parts.drop_last()).push(parts.last())
    }
}

/// The parts without those that equal `word`.
pub open spec fn parts_without(parts: Seq<Seq<char>>, word: Seq<char>) -> Seq<Seq<char>>
    decreases parts.len(),
{
    if parts.len() == 0 {
        parts
    } else if parts.last() == word {
        parts_without(parts.drop_last(), word)
    } else {
        parts_without(parts.drop_last(), word).push(parts.last())
    }
}

/// The parts without those that are among `words`.
pub open spec fn parts_without_any(parts: Seq<Seq<char>>, words: Seq<Seq<char>>) -> Seq<Seq<char>>
    decreases parts.len(),
{
    if parts.len() == 0 {
        parts
    } else if words.contains(parts.last()) {
        parts_without_any(parts.drop_last(), words)
    } else {
        parts_without_any(parts.drop_last(), words).push(parts.last())
    }
}

/// `seen` followed by those of `parts` that are not empty and occur neither
/// in `seen` nor earlier in `parts`.
pub open spec fn merged_parts(seen: Seq<Seq<char>>, parts: Seq<Seq<char>>) -> Seq<Seq<char>>
    decreases parts.len(),
{
    if parts.len() == 0 {
        seen
    } else {
        let before = merged_parts(seen, parts.drop_last());
        if parts.last().len() == 0 || before.contains(parts.last()) {
            before
        } else {
            before.push(parts.last())
        }
    }
}

/// Copies the parts that are not empty.
pub fn keep_nonempty(parts: &Vec<Vec<char>>) -> (out: Vec<Vec<char>>)
    ensures
        views(out@) == nonempty_parts(views(parts@)),
{
    let mut out: Vec<Vec<char>> = Vec::new();
    let mut i: usize = 0;
    let ghost all = views(parts@);
    proof {
        assert(all.take(0) =~= Seq::<Seq<char>>::empty());
        assert(views(out@) =~= nonempty_parts(all.take(0)));
    }
    while i < parts.len()
        invariant
            i <= parts.len(),
            all == views(parts@),
            views(out@) == nonempty_parts(all.take(i as int)),
        decreases parts.len() - i,
    {
        proof {
            assert(all.take(i + 1).drop_last() =~= all.take(i as int));
            assert(all.take(i + 1).last() == parts@[i as int]@);
        }
        if parts[i].len() > 0 {
            let ghost before = views(out@);
            out.push(parts[i].clone());
            proof {
                assert(views(out@) =~= before.push(parts@[i as int]@));
            }
        }
        i += 1;
    }
    proof {
        assert(all.take(all.len() as int) =~= all);
    }
    out
}

/// Copies the parts that do not equal `word`.
pub fn drop_part(parts: &Vec<Vec<char>>, word: &Vec<char>) -> (out: Vec<Vec<char>>)
    ensures
        views(out@) == parts_without(views(parts@), word@),
{
    let mut out: Vec<Vec<char>> = Vec::new();
    let mut i: usize = 0;
    let ghost all = views(parts@);
    proof {
        assert(all.take(0) =~= Seq::<Seq<char>>::empty());
        assert(views(out@) =~= parts_without(all.take(0), word@));
    }
    while i < parts.len()
        invariant
            i <= parts.len(),
            all == views(parts@),
            views(out@) == parts_without(all.take(i as int), word@),
        decreases parts.len() - i,
    {
        proof {
            assert(all.take(i + 1).drop_last() =~= all.take(i as int));
            assert(all.take(i + 1).last() == parts@[i as int]@);
        }
        if !same_chars(&parts[i], word) {
            let ghost before = views(out@);
            out.push(parts[i].clone());
            proof {
                assert(views(out@) =~= before.push(parts@[i as int]@));
            }
        }
        i += 1;
    }
    proof {
        assert(all.take(all.len() as int) =~= all);
    }
    out
}

/// Copies the parts that are not among `words`.
pub fn drop_parts(parts: &Vec<Vec<char>>, words: &Vec<Vec<char>>) -> (out: Vec<Vec<char>>)
    ensures
        views(out@) == parts_without_any(views(parts@), views(words@)),
{
    let mut out: Vec<Vec<char>> = Vec::new();
    let mut i: usize = 0;
    let ghost all = views(parts@);
    proof {
        assert(all.take(0) =~= Seq::<Seq<char>>::empty());
        assert(views(out@) =~= parts_without_any(all.take(0), views(words@)));
    }
    while i < parts.len()
        invariant
            i <= parts.len(),
            all == views(parts@),
            views(out@) == parts_without_any(all.take(i as int), views(words@)),
        decreases parts.len() - i,
    {
        proof {
            assert(all.take(i + 1).drop_last() =~= all.take(i as int));
            assert(all.take(i + 1).last() == parts@[i as int]@);
        }
        if !contains_part(words, &parts[i]) {
            let ghost before = views(out@);
            out.push(parts[i].clone());
            proof {
                assert(views(out@) =~= before.push(parts@[i as int]@));
            }
        }
        i += 1;
    }
    proof {
        assert(all.take(all.len() as int) =~= all);
    }
    out
}

/// Appends to `seen` those of `parts` that are not empty and not yet there.
pub fn merge_parts(seen: Vec<Vec<char>>, parts: &Vec<Vec<char>>) -> (out: Vec<Vec<char>>)
    ensures
        views(out@) == merged_parts(views(seen@), views(parts@)),
{
    let mut out = seen;
    let mut i: usize = 0;
    let ghost all = views(parts@);
    let ghost first = views(seen@);
    proof {
        assert(all.take(0) =~= Seq::<Seq<char>>::empty());
    }
    while i < parts.len()
        invariant
            i <= parts.len(),
            all == views(parts@),
            views(out@) == merged_parts(first, all.take(i as int)),
        decreases parts.len() - i,
    {
        proof {
            assert(all.take(i + 1).drop_last() =~= all.take(i as int));
            assert(all.take(i + 1).last() == parts@[i as int]@);
        }
        if parts[i].len() > 0 && !contains_part(&out, &parts[i]) {
            let ghost before = views(out@);
            out.push(parts[i].clone());
            proof {
                assert(views(out@) =~= before.push(parts@[i as int]@));
            }
        }
        i += 1;
    }
    proof {
        assert(all.take(all.len() as int) =~= all);
    }
    out
}

} // verus!
