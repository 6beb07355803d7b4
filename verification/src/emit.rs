//! Writing a subtree of the arena out as text.

use vstd::prelude::*;
use indextree::NodeId;
use crate::forest::{pool_children, pool_data, Arena, Forest};
use crate::outline::{
    join_lines, lemma_join_concat, lemma_join_cons, line_feed_if, written, written_texts,
};
use crate::text::push_all;
use crate::tree_model::{node_ok, ordered_at, subtree, subtrees, texts_of};

verus! {

/// The text of the subtree of `root`: the texts of its sections in order,
/// joined by line feeds. The text of a root at level 0 that is empty is left
/// out where `empty_root_section` says that it stands for nothing, and a
/// line feed ends the text where `terminal_newline` asks for it and anything
/// was written.
pub open spec fn tree_text(
    m: Forest,
    root: NodeId,
    terminal_newline: bool,
    empty_root_section: bool,
) -> Seq<char> {
    written(
        written_texts(texts_of(m, subtree(m, root)), m[root].level, empty_root_section),
        terminal_newline,
    )
}

/// `out` with `pieces` written after it; a line feed comes first where one
/// is owed.
pub open spec fn appended(out: Seq<char>, owed: bool, pieces: Seq<Seq<char>>) -> Seq<char> {
    out + line_feed_if(owed && pieces.len() > 0) + join_lines(pieces)
}

proof fn lemma_appended_twice(out: Seq<char>, owed: bool, a: Seq<Seq<char>>, b: Seq<Seq<char>>)
    ensures
        appended(appended(out, owed, a), owed || a.len() > 0, b) == appended(out, owed, a + b),
{
    lemma_join_concat(a, b);
    if a.len() == 0 {
        assert(a + b == b);
        assert(appended(out, owed, a) == out);
    } else if b.len() == 0 {
        assert(a + b == a);
        assert(appended(appended(out, owed, a), true, b) == appended(out, owed, a));
    } else {
        assert(appended(appended(out, owed, a), true, b) == appended(out, owed, a + b));
    }
}

proof fn lemma_texts_concat(m: Forest, a: Seq<NodeId>, b: Seq<NodeId>)
    ensures
        texts_of(m, a + b) == texts_of(m, a) + texts_of(m, b),
{
    assert(texts_of(m, a + b) =~= texts_of(m, a) + texts_of(m, b));
}

/// Writes the subtrees of the children of `id` after `out`.
fn emit_children(arena: &Arena, id: NodeId, out: &mut Vec<char>, owed: &mut bool)
    requires
        arena.wf(),
        arena.ordered(),
        arena@.contains_key(id),
    ensures
        final(out)@ == appended(
            old(out)@,
            *old(owed),
            texts_of(arena@, subtrees(arena@, arena@[id].children, arena@[id].level as int)),
        ),
        *final(owed) == (*old(owed) || subtrees(
            arena@,
            arena@[id].children,
            arena@[id].level as int,
        ).len() > 0),
    decreases 65536 - arena@[id].level,
{
    let kids = pool_children(arena, id);
    let ghost m = arena@;
    let ghost above = m[id].level as int;
    let mut j: usize = 0;
    proof {
        assert(node_ok(m, id));
        assert(kids@.take(0) == Seq::<NodeId>::empty());
        assert(texts_of(m, Seq::<NodeId>::empty()) == Seq::<Seq<char>>::empty());
    }
    while j < kids.len()
        invariant
            j <= kids.len(),
            arena.wf(),
            arena.ordered(),
            m == arena@,
            m.contains_key(id),
            kids@ == m[id].children,
            above == m[id].level,
            out@ == appended(old(out)@, *old(owed), texts_of(m, subtrees(m, kids@.take(j as int), above))),
            *owed == (*old(owed) || subtrees(m, kids@.take(j as int), above).len() > 0),
        decreases kids.len() - j,
    {
        let kid = kids[j];
        let ghost before = subtrees(m, kids@.take(j as int), above);
        let ghost inner = subtrees(m, m[kid].children, m[kid].level as int);
        proof {
            assert(node_ok(m, id));
            assert(ordered_at(m, id));
            assert(m.contains_key(m[id].children[j as int]));
            assert(m[m[id].children[j as int]].level > m[id].level);
            assert(kids@.take(j + 1).drop_last() == kids@.take(j as int));
            assert(subtrees(m, kids@.take(j + 1), above) == before + subtree(m, kid));
            assert(subtree(m, kid) == seq![kid] + inner);
        }
        let ghost out1 = out@;
        let ghost owed1 = *owed;
        if *owed {
            out.push('\n');
        }
        push_all(out, &pool_data(arena, kid).text);
        *owed = true;
        proof {
            assert(join_lines(seq![m[kid].text]) == m[kid].text);
            assert(out@ == appended(out1, owed1, seq![m[kid].text]));
        }
        emit_children(arena, kid, out, owed);
        proof {
            let head = seq![m[kid].text];
            let tail = texts_of(m, inner);
            lemma_appended_twice(out1, owed1, head, tail);
            lemma_texts_concat(m, seq![kid], inner);
            assert(texts_of(m, seq![kid]) == head);
            lemma_appended_twice(old(out)@, *old(owed), texts_of(m, before), head + tail);
            lemma_texts_concat(m, before, subtree(m, kid));
        }
        j += 1;
    }
    proof {
        assert(kids@.take(kids@.len() as int) == kids@);
    }
}

/// Writes the subtree of `root` out as text.
pub fn section_tree_to_rope(
    root: NodeId,
    arena: &Arena,
    terminal_newline: bool,
    empty_root_section: bool,
) -> (text: Vec<char>)
    requires
        arena.wf(),
        arena.ordered(),
        arena@.contains_key(root),
    ensures
        text@ == tree_text(arena@, root, terminal_newline, empty_root_section),
{
    let mut out: Vec<char> = Vec::new();
    let mut owed = false;
    let data = pool_data(arena, root);
    let ghost m = arena@;
    let ghost inner = subtrees(m, m[root].children, m[root].level as int);
    let ghost all = texts_of(m, subtree(m, root));
    proof {
        lemma_texts_concat(m, seq![root], inner);
        assert(texts_of(m, seq![root]) == seq![m[root].text]);
        assert(all == seq![m[root].text] + texts_of(m, inner));
        assert(all.skip(1) == texts_of(m, inner));
        lemma_join_cons(m[root].text, texts_of(m, inner));
    }
    if data.level > 0 || data.text.len() > 0 {
        push_all(&mut out, &data.text);
        owed = true;
    } else if !empty_root_section {
        owed = true;
    }
    let ghost out1 = out@;
    let ghost owed1 = owed;
    emit_children(arena, root, &mut out, &mut owed);
    if terminal_newline && owed {
        out.push('\n');
    }
    proof {
        let pieces = written_texts(all, m[root].level, empty_root_section);
        if owed1 {
            assert(pieces == all);
            assert(out1 == m[root].text);
        } else {
            assert(pieces == texts_of(m, inner));
            assert(out1.len() == 0);
            assert(appended(out1, false, pieces) == join_lines(pieces));
        }
    }
    out
}

} // verus!
