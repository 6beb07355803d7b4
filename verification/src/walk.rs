//! Walking the tree: the relatives of a section, a copy of its subtree, and
//! the section that a position in the written text falls into.

use vstd::prelude::*;
use indextree::NodeId;
use crate::arena::Section;
use crate::emit::{section_tree_to_rope, tree_text};
use crate::forest::{
    detached,
    is_chain,
    pool_children,
    pool_data,
    pool_parent,
    reaches_up,
    same_node,
    Arena,
    Forest,
};
use crate::parse::Document;
use crate::tree::ids_of;
use crate::tree_model::{
    forest_wf,
    lemma_same_tree_frame,
    lemma_subtree_frame,
    lemma_subtree_levels,
    lemma_subtree_live,
    node_ok,
    ordered,
    ordered_at,
    same_tree,
    subtree,
    subtrees,
};

verus! {

/// A section and its ancestors, from the section upwards.
pub open spec fn lineage(m: Forest, x: NodeId) -> Seq<NodeId>
    decreases m[x].level,
{
    match m[x].parent {
        Some(p) => if m[p].level < m[x].level {
            seq![x] + lineage(m, p)
        } else {
            seq![x]
        },
        None => seq![x],
    }
}

/// The position of `x` in `ids`.
pub open spec fn position_in(ids: Seq<NodeId>, x: NodeId) -> int {
    choose|i: int| 0 <= i < ids.len() && ids[i] == x
}

/// A section and the siblings after it. A section without a parent stands
/// alone.
pub open spec fn following(m: Forest, x: NodeId) -> Seq<NodeId> {
    match m[x].parent {
        None => seq![x],
        Some(p) => m[p].children.skip(position_in(m[p].children, x)),
    }
}

/// A section and the siblings before it, the nearest first. A section
/// without a parent stands alone.
pub open spec fn preceding(m: Forest, x: NodeId) -> Seq<NodeId> {
    match m[x].parent {
        None => seq![x],
        Some(p) => m[p].children.take(position_in(m[p].children, x) + 1).reverse(),
    }
}

/// The section and the offset in it that the position `pos` of the text of
/// the subtree of `id` falls into. The text of a section ends where that
/// of its first child starts; a position past the text of a child and all
/// its descendants falls to that child.
pub open spec fn at_node(m: Forest, id: NodeId, pos: int) -> Option<(NodeId, int)>
    decreases 65536 - m[id].level, 0nat,
{
    if pos < m[id].text.len() {
        Some((id, pos))
    } else {
        at_nodes(m, m[id].children, m[id].level as int, pos - m[id].text.len())
    }
}

/// As `at_node`, for a position in the texts of the subtrees of `ids`, one
/// after the other.
pub open spec fn at_nodes(m: Forest, ids: Seq<NodeId>, above: int, pos: int) -> Option<(NodeId, int)>
    decreases 65535 - above, 1 + ids.len(),
{
    if ids.len() == 0 || above >= 65535 {
        None
    } else {
        let first = ids[0];
        let k = tree_text(m, first, true, true).len();
        if m[first].level > above && pos < k {
            match at_node(m, first, pos) {
                Some(r) => Some(r),
                None => Some((first, pos)),
            }
        } else {
            at_nodes(m, ids.skip(1), above, pos - k)
        }
    }
}

/// The section and the offset in it that the position `pos` of the text of
/// a document falls into.
pub open spec fn document_at(m: Forest, doc: Document, pos: int) -> Option<(NodeId, int)> {
    let text = doc.text(m);
    let k = text.len() as int;
    if pos >= k {
        None
    } else if pos == 0 && (!doc.empty_root_section || text == seq!['\n']) {
        Some((doc.root.id, 0))
    } else {
        let at_end = pos == k - 1 && doc.terminal_newline;
        let moved = if at_end {
            k - 2
        } else {
            pos
        };
        let inner = if !doc.empty_root_section && moved > 0 {
            moved - 1
        } else {
            moved
        };
        match at_node(m, doc.root.id, inner) {
            Some((id, offset)) => Some(
                (
                    id,
                    if at_end {
                        offset + 1
                    } else {
                        offset
                    },
                ),
            ),
            None => None,
        }
    }
}

/// The sections named by the handles `ids`.
fn sections_of(ids: &Vec<NodeId>) -> (v: Vec<Section>)
    ensures
        ids_of(v@) == ids@,
{
    let mut v: Vec<Section> = Vec::new();
    let mut i: usize = 0;
    while i < ids.len()
        invariant
            i <= ids.len(),
            v@.len() == i,
            forall|k: int| 0 <= k < i ==> (#[trigger] v@[k]).id == ids@[k],
        decreases ids.len() - i,
    {
        v.push(Section { id: ids[i] });
        i += 1;
    }
    assert(ids_of(v@) =~= ids@);
    v
}

/// Collects the handles of the subtree of `id` after `out`.
fn collect_subtree(arena: &Arena, id: NodeId, out: &mut Vec<NodeId>)
    requires
        arena.wf(),
        arena.ordered(),
        arena@.contains_key(id),
    ensures
        final(out)@ == old(out)@ + subtree(arena@, id),
    decreases 65536 - arena@[id].level,
{
    out.push(id);
    let kids = pool_children(arena, id);
    let ghost m = arena@;
    let ghost above = m[id].level as int;
    let mut j: usize = 0;
    proof {
        assert(kids@.take(0) == Seq::<NodeId>::empty());
        assert(out@ =~= old(out)@ + seq![id] + subtrees(m, kids@.take(0), above));
    }
    while j < kids.len()
        invariant
            j <= kids.len(),
            arena.wf(),
            arena.ordered(),
            m == arena@,
            m.contains_key(id),
            kids@ == m[id].children,
            above == m[id].level,
            out@ == old(out)@ + seq![id] + subtrees(m, kids@.take(j as int), above),
        decreases kids.len() - j,
    {
        let kid = kids[j];
        proof {
            assert(node_ok(m, id));
            assert(ordered_at(m, id));
            assert(m.contains_key(m[id].children[j as int]));
            assert(m[m[id].children[j as int]].level > m[id].level);
            assert(kids@.take(j + 1).drop_last() == kids@.take(j as int));
        }
        let ghost before = out@;
        collect_subtree(arena, kid, out);
        proof {
            assert(out@ =~= old(out)@ + seq![id] + subtrees(m, kids@.take(j + 1), above));
        }
        j += 1;
    }
    proof {
        assert(kids@.take(kids@.len() as int) == kids@);
        assert(out@ =~= old(out)@ + subtree(m, id));
    }
}

/// A loose node has no ancestor but itself.
pub proof fn lemma_loose_reaches_nothing(m: Forest, x: NodeId, y: NodeId)
    requires
        m[x].parent is None,
        x != y,
    ensures
        !reaches_up(m, x, y),
{
    if reaches_up(m, x, y) {
        let path = choose|path: Seq<NodeId>| is_chain(m, path) && path[0] == x && path.last() == y;
        assert(path.len() >= 2);
        assert(m[path[0]].parent == Some(path[1]));
    }
}

impl Section {
    /// This section and its ancestors, from this section upwards.
    pub fn ancestors(self, arena: &Arena) -> (v: Vec<Section>)
        requires
            arena.wf(),
            arena.ordered(),
            arena@.contains_key(self.id),
        ensures
            ids_of(v@) == lineage(arena@, self.id),
    {
        let mut ids: Vec<NodeId> = Vec::new();
        let mut cur = self.id;
        let mut more = true;
        let ghost m = arena@;
        while more
            invariant
                arena.wf(),
                arena.ordered(),
                m == arena@,
                m.contains_key(cur),
                more ==> ids@ + lineage(m, cur) == lineage(m, self.id),
                !more ==> ids@ == lineage(m, self.id),
            decreases m[cur].level, if more { 1int } else { 0int },
        {
            ids.push(cur);
            proof {
                assert(node_ok(m, cur));
            }
            match pool_parent(arena, cur) {
                Some(p) => {
                    proof {
                        assert(ordered_at(m, p));
                        let j = choose|j: int| 0 <= j < m[p].children.len() && m[p].children[j] == cur;
                        assert(m[m[p].children[j]].level > m[p].level);
                        assert(ids@ + lineage(m, p) =~= ids@.drop_last() + lineage(m, cur));
                    }
                    cur = p;
                },
                None => {
                    proof {
                        assert(ids@ =~= ids@.drop_last() + lineage(m, cur));
                    }
                    more = false;
                },
            }
        }
        sections_of(&ids)
    }

    /// This section and its descendants, in the order in which they are
    /// written.
    pub fn descendants(self, arena: &Arena) -> (v: Vec<Section>)
        requires
            arena.wf(),
            arena.ordered(),
            arena@.contains_key(self.id),
        ensures
            ids_of(v@) == subtree(arena@, self.id),
    {
        let mut ids: Vec<NodeId> = Vec::new();
        collect_subtree(arena, self.id, &mut ids);
        assert(ids@ =~= subtree(arena@, self.id));
        sections_of(&ids)
    }

    /// The children of this section, last to first.
    pub fn reverse_children(self, arena: &Arena) -> (v: Vec<Section>)
        requires
            arena@.contains_key(self.id),
        ensures
            ids_of(v@) == arena@[self.id].children.reverse(),
    {
        let kids = pool_children(arena, self.id);
        let mut ids: Vec<NodeId> = Vec::new();
        let mut i: usize = kids.len();
        while i > 0
            invariant
                i <= kids.len(),
                ids@.len() == kids.len() - i,
                forall|k: int| 0 <= k < ids@.len() ==> ids@[k] == kids@[kids.len() - 1 - k],
            decreases i,
        {
            i -= 1;
            ids.push(kids[i]);
        }
        assert(ids@ =~= kids@.reverse());
        sections_of(&ids)
    }

    /// The position of this section among the children `kids` of its
    /// parent.
    fn index_among(self, kids: &Vec<NodeId>) -> (i: usize)
        requires
            kids@.contains(self.id),
            kids@.no_duplicates(),
        ensures
            i == position_in(kids@, self.id),
            i < kids.len(),
            kids@[i as int] == self.id,
    {
        let mut i: usize = 0;
        while i < kids.len() && !same_node(kids[i], self.id)
            invariant
                i <= kids.len(),
                forall|k: int| 0 <= k < i ==> kids@[k] != self.id,
            decreases kids.len() - i,
        {
            i += 1;
        }
        proof {
            let w = choose|w: int| 0 <= w < kids@.len() && kids@[w] == self.id;
            assert(i < kids.len());
            let p = position_in(kids@, self.id);
            assert(kids@[p] == kids@[i as int]);
        }
        i
    }

    /// This section and the siblings after it.
    pub fn following_siblings(self, arena: &Arena) -> (v: Vec<Section>)
        requires
            arena.wf(),
            arena@.contains_key(self.id),
        ensures
            ids_of(v@) == following(arena@, self.id),
    {
        proof {
            assert(node_ok(arena@, self.id));
        }
        match pool_parent(arena, self.id) {
            None => {
                let mut ids: Vec<NodeId> = Vec::new();
                ids.push(self.id);
                assert(ids@ =~= seq![self.id]);
                sections_of(&ids)
            },
            Some(p) => {
                proof {
                    assert(node_ok(arena@, p));
                }
                let kids = pool_children(arena, p);
                let at = self.index_among(&kids);
                let mut ids: Vec<NodeId> = Vec::new();
                let mut i: usize = at;
                while i < kids.len()
                    invariant
                        at <= i <= kids.len(),
                        ids@ == kids@.subrange(at as int, i as int),
                    decreases kids.len() - i,
                {
                    ids.push(kids[i]);
                    i += 1;
                }
                assert(ids@ =~= kids@.skip(at as int));
                sections_of(&ids)
            },
        }
    }

    /// This section and the siblings before it, the nearest first.
    pub fn preceding_siblings(self, arena: &Arena) -> (v: Vec<Section>)
        requires
            arena.wf(),
            arena@.contains_key(self.id),
        ensures
            ids_of(v@) == preceding(arena@, self.id),
    {
        proof {
            assert(node_ok(arena@, self.id));
        }
        match pool_parent(arena, self.id) {
            None => {
                let mut ids: Vec<NodeId> = Vec::new();
                ids.push(self.id);
                assert(ids@ =~= seq![self.id]);
                sections_of(&ids)
            },
            Some(p) => {
                proof {
                    assert(node_ok(arena@, p));
                }
                let kids = pool_children(arena, p);
                let at = self.index_among(&kids);
                let mut ids: Vec<NodeId> = Vec::new();
                let mut i: usize = at + 1;
                while i > 0
                    invariant
                        i <= at + 1 <= kids.len(),
                        ids@.len() == at + 1 - i,
                        forall|k: int| 0 <= k < ids@.len() ==> ids@[k] == kids@[at - k],
                    decreases i,
                {
                    i -= 1;
                    ids.push(kids[i]);
                }
                assert(ids@ =~= kids@.take(at + 1).reverse());
                sections_of(&ids)
            },
        }
    }

    /// The section and the offset in it that the position `pos` of the text
    /// of the subtree of this section falls into.
    pub fn at(self, arena: &Arena, pos: usize) -> (r: Option<(Section, usize)>)
        requires
            arena.wf(),
            arena.ordered(),
            arena@.contains_key(self.id),
        ensures
            r is Some <==> at_node(arena@, self.id, pos as int) is Some,
            r matches Some(v) ==> at_node(arena@, self.id, pos as int) == Some((v.0.id, v.1 as int))
                && v.1 <= pos,
        decreases 65536 - arena@[self.id].level,
    {
        let k = pool_data(arena, self.id).text.len();
        if pos < k {
            return Some((self, pos));
        }
        let mut left: usize = pos - k;
        let kids = pool_children(arena, self.id);
        let ghost m = arena@;
        let ghost above = m[self.id].level as int;
        let mut j: usize = 0;
        proof {
            assert(kids@.skip(0) == kids@);
        }
        while j < kids.len()
            invariant
                j <= kids.len(),
                arena.wf(),
                arena.ordered(),
                m == arena@,
                m.contains_key(self.id),
                kids@ == m[self.id].children,
                above == m[self.id].level,
                left <= pos,
                at_nodes(m, kids@.skip(j as int), above, left as int) == at_node(
                    m,
                    self.id,
                    pos as int,
                ),
            decreases kids.len() - j,
        {
            let kid = kids[j];
            proof {
                assert(node_ok(m, self.id));
                assert(ordered_at(m, self.id));
                assert(m.contains_key(m[self.id].children[j as int]));
                assert(m[m[self.id].children[j as int]].level > m[self.id].level);
                assert(kids@.skip(j as int)[0] == kid);
                assert(kids@.skip(j as int).skip(1) == kids@.skip(j + 1));
            }
            let size = section_tree_to_rope(kid, arena, true, true).len();
            if left < size {
                let child = Section { id: kid };
                return match child.at(arena, left) {
                    Some(found) => Some(found),
                    None => Some((child, left)),
                };
            }
            left -= size;
            j += 1;
        }
        None
    }

    /// Copies the subtree of this section into new sections: each copy has
    /// the level and the text of the section that it is a copy of, and its
    /// children are the copies of that section's children, in their order.
    /// The copy of this section has no parent.
    pub fn clone_subtree(self, arena: &mut Arena) -> (copy: Section)
        requires
            old(arena).wf(),
            old(arena).ordered(),
            old(arena)@.contains_key(self.id),
        ensures
            final(arena).wf(),
            final(arena).ordered(),
            !old(arena)@.contains_key(copy.id),
            final(arena)@.contains_key(copy.id),
            final(arena)@[copy.id].parent is None,
            final(arena)@[copy.id].level == old(arena)@[self.id].level,
            final(arena)@[copy.id].text == old(arena)@[self.id].text,
            same_tree(old(arena)@, self.id, final(arena)@, copy.id),
            forall|x: NodeId| #[trigger]
                old(arena)@.contains_key(x) ==> final(arena)@.contains_key(x) && final(arena)@[x]
                    == old(arena)@[x],
        decreases 65536 - old(arena)@[self.id].level,
    {
        let ghost before = arena@;
        let kids = pool_children(arena, self.id);
        let copy = arena.clone_section(self);
        let mut j: usize = 0;
        proof {
            assert(node_ok(before, self.id));
            assert(ordered_at(before, self.id));
        }
        while j < kids.len()
            invariant
                j <= kids.len(),
                arena.wf(),
                arena.ordered(),
                before == old(arena)@,
                forest_wf(before),
                ordered(before),
                before.contains_key(self.id),
                kids@ == before[self.id].children,
                !before.contains_key(copy.id),
                arena@.contains_key(copy.id),
                arena@[copy.id].parent is None,
                arena@[copy.id].level == before[self.id].level,
                arena@[copy.id].text == before[self.id].text,
                arena@[copy.id].children.len() == j,
                forall|i: int|
                    0 <= i < j ==> arena@.contains_key(#[trigger] arena@[copy.id].children[i])
                        && same_tree(before, kids@[i], arena@, arena@[copy.id].children[i]),
                forall|x: NodeId| #[trigger]
                    before.contains_key(x) ==> arena@.contains_key(x) && arena@[x] == before[x],
            decreases kids.len() - j,
        {
            let kid = Section { id: kids[j] };
            proof {
                assert(node_ok(before, self.id));
                assert(ordered_at(before, self.id));
                assert(before.contains_key(before[self.id].children[j as int]));
                assert(before[before[self.id].children[j as int]].level > before[self.id].level);
                assert(kid.id == before[self.id].children[j as int]);
                assert(before.contains_key(kid.id));
                assert(arena@[kid.id] == before[kid.id]);
            }
            let ghost m1 = arena@;
            let child = kid.clone_subtree(arena);
            let ghost m2 = arena@;
            proof {
                assert(m1.contains_key(copy.id));
                lemma_loose_reaches_nothing(m2, copy.id, child.id);
                crate::forest_laws::lemma_detached(m2, child.id);
                assert(detached(m2, child.id) == m2);
            }
            copy.unchecked_append(arena, child);
            let ghost m3 = arena@;
            proof {
                assert forall|x: NodeId| #[trigger] before.contains_key(x) implies m3.contains_key(
                    x,
                ) && m3[x] == before[x] by {
                    assert(m1.contains_key(x));
                    assert(m2.contains_key(x) && m2[x] == m1[x]);
                }
                assert(m3[copy.id].children == m1[copy.id].children.push(child.id));
                // the copies made before are still copies
                assert forall|i: int| 0 <= i < j implies m3.contains_key(
                    #[trigger] m3[copy.id].children[i],
                ) && same_tree(before, kids@[i], m3, m3[copy.id].children[i]) by {
                    let c = m1[copy.id].children[i];
                    assert(m1.contains_key(c));
                    assert(same_tree(before, kids@[i], m1, c));
                    lemma_subtree_live(m1, c);
                    lemma_subtree_levels(m1, c);
                    assert(m1[c].level == before[kids@[i]].level);
                    assert(before[before[self.id].children[i]].level > before[self.id].level);
                    assert forall|x: NodeId| subtree(m1, c).contains(x) implies crate::tree_model::same_below(
                        #[trigger] m3[x],
                        m1[x],
                    ) by {
                        assert(m1.contains_key(x));
                        assert(m2[x] == m1[x]);
                    }
                    lemma_same_tree_frame(before, kids@[i], m1, c, before, m3);
                }
                // and the new one is a copy too
                lemma_subtree_live(before, kid.id);
                assert forall|x: NodeId| subtree(before, kid.id).contains(x) implies m1[x]
                    == before[x] && ordered_at(before, x) by {
                    assert(before.contains_key(x));
                }
                lemma_subtree_frame(before, m1, kid.id);
                lemma_subtree_levels(m2, child.id);
                assert forall|x: NodeId| subtree(m1, kid.id).contains(x) implies crate::tree_model::same_below(
                    #[trigger] before[x],
                    m1[x],
                ) by {
                    assert(before.contains_key(x));
                }
                assert forall|x: NodeId| subtree(m2, child.id).contains(x) implies crate::tree_model::same_below(
                    #[trigger] m3[x],
                    m2[x],
                ) by {}
                lemma_same_tree_frame(m1, kid.id, m2, child.id, before, m3);
                assert(m3[copy.id].children[j as int] == child.id);
            }
            j += 1;
        }
        proof {
            assert(ordered_at(before, self.id));
        }
        copy
    }
}

/// A document with a final line feed and a text of one character is a
/// single line feed.
proof fn lemma_one_char_text(m: Forest, doc: Document)
    requires
        doc.terminal_newline,
        doc.text(m).len() == 1,
    ensures
        doc.text(m) == seq!['\n'],
{
    let text = doc.text(m);
    assert(text.last() == '\n');
    assert(text =~= seq!['\n']);
}

impl Document {
    /// The section and the offset in it that the position `pos` of the text
    /// of the document falls into.
    pub fn at(&self, arena: &Arena, pos: usize) -> (r: Option<(Section, usize)>)
        requires
            arena.wf(),
            arena.ordered(),
            arena@.contains_key(self.root.id),
        ensures
            r is Some <==> document_at(arena@, *self, pos as int) is Some,
            r matches Some(v) ==> document_at(arena@, *self, pos as int) == Some(
                (v.0.id, v.1 as int),
            ),
    {
        let text = section_tree_to_rope(
            self.root.id,
            arena,
            self.terminal_newline,
            self.empty_root_section,
        );
        let k = text.len();
        if pos >= k {
            return None;
        }
        let single = k == 1 && text[0] == '\n';
        proof {
            assert(single == (text@ == seq!['\n'])) by {
                if single {
                    assert(text@ =~= seq!['\n']);
                }
            }
        }
        if pos == 0 && (!self.empty_root_section || single) {
            return Some((self.root, pos));
        }
        let at_end = pos == k - 1 && self.terminal_newline;
        proof {
            if at_end && k == 1 {
                lemma_one_char_text(arena@, *self);
            }
        }
        let mut p = if at_end {
            k - 2
        } else {
            pos
        };
        if !self.empty_root_section && p > 0 {
            p -= 1;
        }
        match self.root.at(arena, p) {
            Some((section, offset)) => {
                if at_end {
                    Some((section, offset + 1))
                } else {
                    Some((section, offset))
                }
            },
            None => None,
        }
    }
}

} // verus!
