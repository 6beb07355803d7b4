//! Sections: reading them, and moving them about in the tree.

use vstd::prelude::*;
use indextree::NodeId;
use crate::arena::{children_above, lemma_releveled, raised, releveled, Section};
use crate::outline::lemma_cut_and_written;
use crate::parse::is_parse_of;
use crate::emit::{section_tree_to_rope, tree_text};
use crate::errors::StructureError;
use crate::forest::{
    detached,
    dissolved,
    hung_after,
    hung_before,
    hung_first,
    hung_last,
    is_chain,
    pool_checked_append,
    pool_checked_insert_after,
    pool_checked_insert_before,
    pool_checked_prepend,
    pool_children,
    pool_data,
    pool_detach,
    pool_parent,
    pool_remove,
    put_after,
    put_before,
    reaches_up,
    Arena,
    Forest,
};
use crate::forest_laws::{
    hung,
    lemma_detached,
    lemma_dissolved,
    lemma_hung,
    lemma_loose_is_unlisted,
    lemma_push_fresh,
    lemma_put_after,
    lemma_put_before,
    lemma_without_first,
};
use crate::parse::Document;
use crate::text::string_of;
use crate::tree_model::{forest_wf, node_ok, ordered};

verus! {

/// The handles of the sections `v`.
pub open spec fn ids_of(v: Seq<Section>) -> Seq<NodeId> {
    Seq::new(v.len(), |i: int| v[i].id)
}

/// The change was refused for the levels it would have given.
pub open spec fn refused_for_level(r: Result<(), StructureError>) -> bool {
    r matches Err(StructureError::LevelError)
}

/// The change was refused by the arena, for the links it would have given.
pub open spec fn refused_by_arena(r: Result<(), StructureError>) -> bool {
    r matches Err(StructureError::IndextreeError(_))
}

/// A node is itself or its own ancestor in the sense of `reaches_up`.
pub proof fn lemma_reaches_itself(m: Forest, x: NodeId)
    ensures
        reaches_up(m, x, x),
{
    let path = seq![x];
    assert(is_chain(m, path) && path[0] == x && path.last() == x);
}

/// A node reaches its parent.
pub proof fn lemma_reaches_parent(m: Forest, x: NodeId, p: NodeId)
    requires
        m.contains_key(x),
        m[x].parent == Some(p),
    ensures
        reaches_up(m, x, p),
{
    let path = seq![x, p];
    assert(is_chain(m, path) && path[0] == x && path.last() == p);
}

/// Cutting `x` loose and hanging it last under `p` keeps the forest well
/// formed, and ordered where `x` sits above `p`.
pub proof fn lemma_move_last(m: Forest, p: NodeId, x: NodeId)
    requires
        forest_wf(m),
        m.contains_key(p),
        m.contains_key(x),
        p != x,
    ensures
        forest_wf(hung_last(detached(m, x), p, x)),
        ordered(m) && m[x].level > m[p].level ==> ordered(hung_last(detached(m, x), p, x)),
        forall|y: NodeId| #[trigger]
            hung_last(detached(m, x), p, x).contains_key(y) == m.contains_key(y),
{
    let d = detached(m, x);
    lemma_detached(m, x);
    lemma_loose_is_unlisted(d, x);
    assert(node_ok(d, p));
    let kids = d[p].children.push(x);
    lemma_push_fresh(d[p].children, x);
    assert forall|y: NodeId| #[trigger] kids.contains(y) <==> d[p].children.contains(y) || y
        == x by {
        if kids.contains(y) {
            let k = choose|k: int| 0 <= k < kids.len() && kids[k] == y;
            if k < d[p].children.len() {
                assert(d[p].children[k] == y);
            }
        }
        if d[p].children.contains(y) {
            let k = choose|k: int| 0 <= k < d[p].children.len() && d[p].children[k] == y;
            assert(kids[k] == y);
        }
        if y == x {
            assert(kids[kids.len() - 1] == x);
        }
    }
    lemma_hung(d, p, x, kids);
    assert(hung_last(d, p, x) == hung(d, p, x, kids));
}

/// As `lemma_move_last`, with `x` as the first child.
pub proof fn lemma_move_first(m: Forest, p: NodeId, x: NodeId)
    requires
        forest_wf(m),
        m.contains_key(p),
        m.contains_key(x),
        p != x,
    ensures
        forest_wf(hung_first(detached(m, x), p, x)),
        ordered(m) && m[x].level > m[p].level ==> ordered(hung_first(detached(m, x), p, x)),
        forall|y: NodeId| #[trigger]
            hung_first(detached(m, x), p, x).contains_key(y) == m.contains_key(y),
{
    let d = detached(m, x);
    lemma_detached(m, x);
    lemma_loose_is_unlisted(d, x);
    assert(node_ok(d, p));
    let old_kids = d[p].children;
    let kids = seq![x] + old_kids;
    assert forall|y: NodeId| #[trigger] kids.contains(y) <==> old_kids.contains(y) || y == x by {
        if kids.contains(y) {
            let k = choose|k: int| 0 <= k < kids.len() && kids[k] == y;
            if k > 0 {
                assert(old_kids[k - 1] == y);
            }
        }
        if old_kids.contains(y) {
            let k = choose|k: int| 0 <= k < old_kids.len() && old_kids[k] == y;
            assert(kids[k + 1] == y);
        }
        if y == x {
            assert(kids[0] == x);
        }
    }
    assert(kids.no_duplicates()) by {
        assert forall|a: int, b: int| 0 <= a < kids.len() && 0 <= b < kids.len() && a != b implies kids[a]
            != kids[b] by {
            if a > 0 {
                assert(old_kids.contains(old_kids[a - 1]));
            }
            if b > 0 {
                assert(old_kids.contains(old_kids[b - 1]));
            }
        }
    }
    lemma_hung(d, p, x, kids);
    assert(hung_first(d, p, x) == hung(d, p, x, kids));
}

/// Cutting `x` loose and putting it next to `anchor` keeps the forest well
/// formed, and ordered where `x` sits above the parent of `anchor`.
pub proof fn lemma_move_beside(m: Forest, anchor: NodeId, x: NodeId)
    requires
        forest_wf(m),
        m.contains_key(anchor),
        m.contains_key(x),
        !reaches_up(m, anchor, x),
    ensures
        forest_wf(hung_after(detached(m, x), anchor, x)),
        forest_wf(hung_before(detached(m, x), anchor, x)),
        ordered(m) && (m[anchor].parent matches Some(p) ==> m[x].level > m[p].level) ==> ordered(
            hung_after(detached(m, x), anchor, x),
        ) && ordered(hung_before(detached(m, x), anchor, x)),
        forall|y: NodeId| #[trigger]
            hung_after(detached(m, x), anchor, x).contains_key(y) == m.contains_key(y),
        forall|y: NodeId| #[trigger]
            hung_before(detached(m, x), anchor, x).contains_key(y) == m.contains_key(y),
{
    let d = detached(m, x);
    lemma_detached(m, x);
    lemma_reaches_itself(m, x);
    assert(anchor != x);
    assert(d[anchor].parent == m[anchor].parent);
    match m[anchor].parent {
        None => {},
        Some(p) => {
            lemma_reaches_parent(m, anchor, p);
            assert(p != x);
            assert(node_ok(d, anchor));
            assert(node_ok(d, p));
            lemma_loose_is_unlisted(d, x);
            lemma_put_after(d[p].children, anchor, x);
            lemma_put_before(d[p].children, anchor, x);
            lemma_hung(d, p, x, put_after(d[p].children, anchor, x));
            lemma_hung(d, p, x, put_before(d[p].children, anchor, x));
            assert(hung_after(d, anchor, x) == hung(d, p, x, put_after(d[p].children, anchor, x)));
            assert(hung_before(d, anchor, x) == hung(
                d,
                p,
                x,
                put_before(d[p].children, anchor, x),
            ));
        },
    }
}

impl Section {
    /// The level of the section: 0 for a root, else the number of its
    /// stars.
    pub fn level(self, arena: &Arena) -> (level: u16)
        requires
            arena@.contains_key(self.id),
        ensures
            level == arena@[self.id].level,
    {
        pool_data(arena, self.id).level
    }

    /// The text of the section itself, without that of its children.
    pub fn text(self, arena: &Arena) -> (text: String)
        requires
            arena@.contains_key(self.id),
        ensures
            text@ == arena@[self.id].text,
    {
        string_of(&pool_data(arena, self.id).text)
    }

    /// The section that this one hangs under, if any.
    pub fn parent(self, arena: &Arena) -> (parent: Option<Section>)
        requires
            arena@.contains_key(self.id),
        ensures
            parent is Some <==> arena@[self.id].parent is Some,
            parent matches Some(p) ==> arena@[self.id].parent == Some(p.id),
    {
        match pool_parent(arena, self.id) {
            Some(id) => Some(Section { id }),
            None => None,
        }
    }

    /// The sections that hang under this one, first to last.
    pub fn children(self, arena: &Arena) -> (kids: Vec<Section>)
        requires
            arena@.contains_key(self.id),
        ensures
            ids_of(kids@) == arena@[self.id].children,
    {
        let ids = pool_children(arena, self.id);
        let mut kids: Vec<Section> = Vec::new();
        let mut i: usize = 0;
        while i < ids.len()
            invariant
                i <= ids.len(),
                kids@.len() == i,
                forall|k: int| 0 <= k < i ==> (#[trigger] kids@[k]).id == ids@[k],
            decreases ids.len() - i,
        {
            kids.push(Section { id: ids[i] });
            i += 1;
        }
        assert(ids_of(kids@) =~= ids@);
        kids
    }

    /// Cuts `new_child` loose and makes it the last child of this section.
    /// Where it sits at or below the level of this section, it is first
    /// raised to one level above it, whether or not the arena then accepts
    /// the move.
    pub fn append(self, arena: &mut Arena, new_child: Section) -> (r: Result<(), StructureError>)
        requires
            old(arena).wf(),
            old(arena)@.contains_key(self.id),
            old(arena)@.contains_key(new_child.id),
        ensures
            final(arena).wf(),
            old(arena)@[self.id].level == u16::MAX ==> refused_for_level(r) && final(arena)@ == old(arena)@,
            old(arena)@[self.id].level < u16::MAX ==> ({
                let m = raised(old(arena)@, new_child.id, (old(arena)@[self.id].level + 1) as u16);
                &&& reaches_up(m, self.id, new_child.id) ==> refused_by_arena(r) && final(arena)@
                    == m
                &&& !reaches_up(m, self.id, new_child.id) ==> r is Ok && final(arena)@ == hung_last(
                    detached(m, new_child.id),
                    self.id,
                    new_child.id,
                )
            }),
            old(arena).ordered() && (old(arena)@[new_child.id].level > old(arena)@[self.id].level
                || children_above(old(arena)@, new_child.id, old(arena)@[self.id].level + 1))
                ==> final(arena).ordered(),
    {
        let level = pool_data(arena, self.id).level;
        if level == u16::MAX {
            return Err(StructureError::LevelError);
        }
        let ghost m0 = arena@;
        arena.section_min_level(new_child, level + 1);
        let ghost m = arena@;
        proof {
            lemma_raise_keeps_order(m0, new_child.id, (level + 1) as u16);
            if !reaches_up(m, self.id, new_child.id) {
                lemma_reaches_itself(m, self.id);
                lemma_move_last(m, self.id, new_child.id);
            }
        }
        match pool_checked_append(arena, self.id, new_child.id) {
            Ok(()) => Ok(()),
            Err(e) => Err(StructureError::IndextreeError(e)),
        }
    }

    /// Cuts `new_child` loose and makes it the first child of this section.
    /// Where it sits at or below the level of this section, it is first
    /// raised to one level above it, whether or not the arena then accepts
    /// the move.
    pub fn prepend(self, arena: &mut Arena, new_child: Section) -> (r: Result<(), StructureError>)
        requires
            old(arena).wf(),
            old(arena)@.contains_key(self.id),
            old(arena)@.contains_key(new_child.id),
        ensures
            final(arena).wf(),
            old(arena)@[self.id].level == u16::MAX ==> refused_for_level(r) && final(arena)@ == old(arena)@,
            old(arena)@[self.id].level < u16::MAX ==> ({
                let m = raised(old(arena)@, new_child.id, (old(arena)@[self.id].level + 1) as u16);
                &&& reaches_up(m, self.id, new_child.id) ==> refused_by_arena(r) && final(arena)@
                    == m
                &&& !reaches_up(m, self.id, new_child.id) ==> r is Ok && final(arena)@
                    == hung_first(detached(m, new_child.id), self.id, new_child.id)
            }),
            old(arena).ordered() && (old(arena)@[new_child.id].level > old(arena)@[self.id].level
                || children_above(old(arena)@, new_child.id, old(arena)@[self.id].level + 1))
                ==> final(arena).ordered(),
    {
        let level = pool_data(arena, self.id).level;
        if level == u16::MAX {
            return Err(StructureError::LevelError);
        }
        let ghost m0 = arena@;
        arena.section_min_level(new_child, level + 1);
        let ghost m = arena@;
        proof {
            lemma_raise_keeps_order(m0, new_child.id, (level + 1) as u16);
            if !reaches_up(m, self.id, new_child.id) {
                lemma_reaches_itself(m, self.id);
                lemma_move_first(m, self.id, new_child.id);
            }
        }
        match pool_checked_prepend(arena, self.id, new_child.id) {
            Ok(()) => Ok(()),
            Err(e) => Err(StructureError::IndextreeError(e)),
        }
    }

    /// Cuts `new_sibling` loose and puts it right after this section, under
    /// the same parent. Where it sits at or below the level of that parent,
    /// it is first raised to one level above it. A section without a parent
    /// takes no sibling.
    pub fn insert_after(self, arena: &mut Arena, new_sibling: Section) -> (r: Result<
        (),
        StructureError,
    >)
        requires
            old(arena).wf(),
            old(arena)@.contains_key(self.id),
            old(arena)@.contains_key(new_sibling.id),
        ensures
            final(arena).wf(),
            no_room_beside(old(arena)@, self.id) ==> refused_for_level(r) && final(arena)@ == old(arena)@,
            !no_room_beside(old(arena)@, self.id) ==> ({
                let m = raised(
                    old(arena)@,
                    new_sibling.id,
                    (old(arena)@[old(arena)@[self.id].parent->0].level + 1) as u16,
                );
                &&& reaches_up(m, self.id, new_sibling.id) ==> refused_by_arena(r) && final(arena)@ == m
                &&& !reaches_up(m, self.id, new_sibling.id) ==> r is Ok && final(arena)@
                    == hung_after(detached(m, new_sibling.id), self.id, new_sibling.id)
            }),
            old(arena).ordered() && !no_room_beside(old(arena)@, self.id) && (old(arena)@[new_sibling.id].level > old(arena)@[old(arena)@[self.id].parent->0].level
                || children_above(
                old(arena)@,
                new_sibling.id,
                old(arena)@[old(arena)@[self.id].parent->0].level + 1,
            )) ==> final(arena).ordered(),
    {
        let parent = match pool_parent(arena, self.id) {
            Some(p) => p,
            None => {
                return Err(StructureError::LevelError);
            },
        };
        proof {
            assert(node_ok(arena@, self.id));
        }
        let level = pool_data(arena, parent).level;
        if level == u16::MAX {
            return Err(StructureError::LevelError);
        }
        let ghost m0 = arena@;
        arena.section_min_level(new_sibling, level + 1);
        let ghost m = arena@;
        proof {
            lemma_raise_keeps_order(m0, new_sibling.id, (level + 1) as u16);
            if !reaches_up(m, self.id, new_sibling.id) {
                lemma_move_beside(m, self.id, new_sibling.id);
                lemma_reaches_itself(m, self.id);
                lemma_reaches_parent(m, self.id, parent);
            }
        }
        match pool_checked_insert_after(arena, self.id, new_sibling.id) {
            Ok(()) => Ok(()),
            Err(e) => Err(StructureError::IndextreeError(e)),
        }
    }

    /// As `insert_after`, with `new_sibling` right before this section.
    pub fn insert_before(self, arena: &mut Arena, new_sibling: Section) -> (r: Result<
        (),
        StructureError,
    >)
        requires
            old(arena).wf(),
            old(arena)@.contains_key(self.id),
            old(arena)@.contains_key(new_sibling.id),
        ensures
            final(arena).wf(),
            no_room_beside(old(arena)@, self.id) ==> refused_for_level(r) && final(arena)@ == old(arena)@,
            !no_room_beside(old(arena)@, self.id) ==> ({
                let m = raised(
                    old(arena)@,
                    new_sibling.id,
                    (old(arena)@[old(arena)@[self.id].parent->0].level + 1) as u16,
                );
                &&& reaches_up(m, self.id, new_sibling.id) ==> refused_by_arena(r) && final(arena)@ == m
                &&& !reaches_up(m, self.id, new_sibling.id) ==> r is Ok && final(arena)@
                    == hung_before(detached(m, new_sibling.id), self.id, new_sibling.id)
            }),
            old(arena).ordered() && !no_room_beside(old(arena)@, self.id) && (old(arena)@[new_sibling.id].level > old(arena)@[old(arena)@[self.id].parent->0].level
                || children_above(
                old(arena)@,
                new_sibling.id,
                old(arena)@[old(arena)@[self.id].parent->0].level + 1,
            )) ==> final(arena).ordered(),
    {
        let parent = match pool_parent(arena, self.id) {
            Some(p) => p,
            None => {
                return Err(StructureError::LevelError);
            },
        };
        proof {
            assert(node_ok(arena@, self.id));
        }
        let level = pool_data(arena, parent).level;
        if level == u16::MAX {
            return Err(StructureError::LevelError);
        }
        let ghost m0 = arena@;
        arena.section_min_level(new_sibling, level + 1);
        let ghost m = arena@;
        proof {
            lemma_raise_keeps_order(m0, new_sibling.id, (level + 1) as u16);
            if !reaches_up(m, self.id, new_sibling.id) {
                lemma_move_beside(m, self.id, new_sibling.id);
                lemma_reaches_itself(m, self.id);
                lemma_reaches_parent(m, self.id, parent);
            }
        }
        match pool_checked_insert_before(arena, self.id, new_sibling.id) {
            Ok(()) => Ok(()),
            Err(e) => Err(StructureError::IndextreeError(e)),
        }
    }

    /// Cuts `new_child` loose and makes it the last child of this section,
    /// unless it sits at or below the level of this section. No level
    /// changes.
    pub fn checked_append(self, arena: &mut Arena, new_child: Section) -> (r: Result<
        (),
        StructureError,
    >)
        requires
            old(arena).wf(),
            old(arena)@.contains_key(self.id),
            old(arena)@.contains_key(new_child.id),
        ensures
            final(arena).wf(),
            old(arena).ordered() ==> final(arena).ordered(),
            r is Err ==> final(arena)@ == old(arena)@,
            refused_for_level(r) <==> old(arena)@[new_child.id].level <= old(arena)@[self.id].level,
            refused_by_arena(r) <==> old(arena)@[new_child.id].level > old(arena)@[self.id].level
                && reaches_up(old(arena)@, self.id, new_child.id),
            r is Ok ==> final(arena)@ == hung_last(
                detached(old(arena)@, new_child.id),
                self.id,
                new_child.id,
            ),
    {
        if pool_data(arena, new_child.id).level <= pool_data(arena, self.id).level {
            return Err(StructureError::LevelError);
        }
        proof {
            lemma_move_last(arena@, self.id, new_child.id);
        }
        match pool_checked_append(arena, self.id, new_child.id) {
            Ok(()) => Ok(()),
            Err(e) => Err(StructureError::IndextreeError(e)),
        }
    }

    /// As `checked_append`, with `new_child` as the first child.
    pub fn checked_prepend(self, arena: &mut Arena, new_child: Section) -> (r: Result<
        (),
        StructureError,
    >)
        requires
            old(arena).wf(),
            old(arena)@.contains_key(self.id),
            old(arena)@.contains_key(new_child.id),
        ensures
            final(arena).wf(),
            old(arena).ordered() ==> final(arena).ordered(),
            r is Err ==> final(arena)@ == old(arena)@,
            refused_for_level(r) <==> old(arena)@[new_child.id].level <= old(arena)@[self.id].level,
            refused_by_arena(r) <==> old(arena)@[new_child.id].level > old(arena)@[self.id].level
                && reaches_up(old(arena)@, self.id, new_child.id),
            r is Ok ==> final(arena)@ == hung_first(
                detached(old(arena)@, new_child.id),
                self.id,
                new_child.id,
            ),
    {
        if pool_data(arena, new_child.id).level <= pool_data(arena, self.id).level {
            return Err(StructureError::LevelError);
        }
        proof {
            lemma_move_first(arena@, self.id, new_child.id);
        }
        match pool_checked_prepend(arena, self.id, new_child.id) {
            Ok(()) => Ok(()),
            Err(e) => Err(StructureError::IndextreeError(e)),
        }
    }

    /// Cuts `new_sibling` loose and puts it right after this section, under
    /// the same parent, unless it sits at or below the level of that parent.
    /// No level changes. Beside a section without a parent the new sibling
    /// is left loose.
    pub fn checked_insert_after(self, arena: &mut Arena, new_sibling: Section) -> (r: Result<
        (),
        StructureError,
    >)
        requires
            old(arena).wf(),
            old(arena)@.contains_key(self.id),
            old(arena)@.contains_key(new_sibling.id),
        ensures
            final(arena).wf(),
            old(arena).ordered() ==> final(arena).ordered(),
            r is Err ==> final(arena)@ == old(arena)@,
            refused_for_level(r) <==> too_low_beside(old(arena)@, self.id, new_sibling.id),
            refused_by_arena(r) <==> !too_low_beside(old(arena)@, self.id, new_sibling.id)
                && reaches_up(old(arena)@, self.id, new_sibling.id),
            r is Ok ==> final(arena)@ == hung_after(
                detached(old(arena)@, new_sibling.id),
                self.id,
                new_sibling.id,
            ),
    {
        if let Some(parent) = pool_parent(arena, self.id) {
            proof {
                assert(node_ok(arena@, self.id));
            }
            if pool_data(arena, new_sibling.id).level <= pool_data(arena, parent).level {
                return Err(StructureError::LevelError);
            }
        }
        proof {
            if !reaches_up(arena@, self.id, new_sibling.id) {
                lemma_move_beside(arena@, self.id, new_sibling.id);
            }
        }
        match pool_checked_insert_after(arena, self.id, new_sibling.id) {
            Ok(()) => Ok(()),
            Err(e) => Err(StructureError::IndextreeError(e)),
        }
    }

    /// As `checked_insert_after`, with `new_sibling` right before this
    /// section.
    pub fn checked_insert_before(self, arena: &mut Arena, new_sibling: Section) -> (r: Result<
        (),
        StructureError,
    >)
        requires
            old(arena).wf(),
            old(arena)@.contains_key(self.id),
            old(arena)@.contains_key(new_sibling.id),
        ensures
            final(arena).wf(),
            old(arena).ordered() ==> final(arena).ordered(),
            r is Err ==> final(arena)@ == old(arena)@,
            refused_for_level(r) <==> too_low_beside(old(arena)@, self.id, new_sibling.id),
            refused_by_arena(r) <==> !too_low_beside(old(arena)@, self.id, new_sibling.id)
                && reaches_up(old(arena)@, self.id, new_sibling.id),
            r is Ok ==> final(arena)@ == hung_before(
                detached(old(arena)@, new_sibling.id),
                self.id,
                new_sibling.id,
            ),
    {
        if let Some(parent) = pool_parent(arena, self.id) {
            proof {
                assert(node_ok(arena@, self.id));
            }
            if pool_data(arena, new_sibling.id).level <= pool_data(arena, parent).level {
                return Err(StructureError::LevelError);
            }
        }
        proof {
            if !reaches_up(arena@, self.id, new_sibling.id) {
                lemma_move_beside(arena@, self.id, new_sibling.id);
            }
        }
        match pool_checked_insert_before(arena, self.id, new_sibling.id) {
            Ok(()) => Ok(()),
            Err(e) => Err(StructureError::IndextreeError(e)),
        }
    }

    /// As `checked_append`, for a move that is known to be accepted.
    pub fn unchecked_append(self, arena: &mut Arena, new_child: Section)
        requires
            old(arena).wf(),
            old(arena)@.contains_key(self.id),
            old(arena)@.contains_key(new_child.id),
            old(arena)@[new_child.id].level > old(arena)@[self.id].level,
            !reaches_up(old(arena)@, self.id, new_child.id),
        ensures
            final(arena).wf(),
            old(arena).ordered() ==> final(arena).ordered(),
            final(arena)@ == hung_last(detached(old(arena)@, new_child.id), self.id, new_child.id),
    {
        let r = self.checked_append(arena, new_child);
        assert(r is Ok);
    }

    /// As `checked_prepend`, for a move that is known to be accepted.
    pub fn unchecked_prepend(self, arena: &mut Arena, new_child: Section)
        requires
            old(arena).wf(),
            old(arena)@.contains_key(self.id),
            old(arena)@.contains_key(new_child.id),
            old(arena)@[new_child.id].level > old(arena)@[self.id].level,
            !reaches_up(old(arena)@, self.id, new_child.id),
        ensures
            final(arena).wf(),
            old(arena).ordered() ==> final(arena).ordered(),
            final(arena)@ == hung_first(detached(old(arena)@, new_child.id), self.id, new_child.id),
    {
        let r = self.checked_prepend(arena, new_child);
        assert(r is Ok);
    }

    /// As `checked_insert_after`, for a move that is known to be accepted.
    pub fn unchecked_insert_after(self, arena: &mut Arena, new_sibling: Section)
        requires
            old(arena).wf(),
            old(arena)@.contains_key(self.id),
            old(arena)@.contains_key(new_sibling.id),
            !too_low_beside(old(arena)@, self.id, new_sibling.id),
            !reaches_up(old(arena)@, self.id, new_sibling.id),
        ensures
            final(arena).wf(),
            old(arena).ordered() ==> final(arena).ordered(),
            final(arena)@ == hung_after(
                detached(old(arena)@, new_sibling.id),
                self.id,
                new_sibling.id,
            ),
    {
        let r = self.checked_insert_after(arena, new_sibling);
        assert(r is Ok);
    }

    /// As `checked_insert_before`, for a move that is known to be accepted.
    pub fn unchecked_insert_before(self, arena: &mut Arena, new_sibling: Section)
        requires
            old(arena).wf(),
            old(arena)@.contains_key(self.id),
            old(arena)@.contains_key(new_sibling.id),
            !too_low_beside(old(arena)@, self.id, new_sibling.id),
            !reaches_up(old(arena)@, self.id, new_sibling.id),
        ensures
            final(arena).wf(),
            old(arena).ordered() ==> final(arena).ordered(),
            final(arena)@ == hung_before(
                detached(old(arena)@, new_sibling.id),
                self.id,
                new_sibling.id,
            ),
    {
        let r = self.checked_insert_before(arena, new_sibling);
        assert(r is Ok);
    }

    /// Cuts this section loose from its parent. Its children stay with it.
    pub fn remove_subtree(self, arena: &mut Arena)
        requires
            old(arena).wf(),
            old(arena)@.contains_key(self.id),
        ensures
            final(arena).wf(),
            old(arena).ordered() ==> final(arena).ordered(),
            final(arena)@ == detached(old(arena)@, self.id),
    {
        proof {
            lemma_detached(arena@, self.id);
        }
        pool_detach(arena, self.id);
    }
}

/// The forest after each of the nodes `ids` was cut loose, first to last.
pub open spec fn all_detached(m: Forest, ids: Seq<NodeId>) -> Forest
    decreases ids.len(),
{
    if ids.len() == 0 {
        m
    } else {
        detached(all_detached(m, ids.drop_last()), ids.last())
    }
}

/// Whether the level of `x` may be set to `level`: it is the level that `x`
/// has, or neither of the two is 0 and `level` lies above the level of the
/// parent of `x` and below those of its children.
pub open spec fn level_fits(m: Forest, x: NodeId, level: u16) -> bool {
    level == m[x].level || (m[x].level != 0 && level != 0 && (m[x].parent matches Some(p)
        ==> m[p].level < level) && children_above(m, x, level as int))
}

impl Section {
    /// Takes this section out of the arena and puts its children in its
    /// place under its parent. The handle names no section afterwards.
    pub fn replace_with_children(self, arena: &mut Arena)
        requires
            old(arena).wf(),
            old(arena).ordered(),
            old(arena)@.contains_key(self.id),
        ensures
            final(arena).wf(),
            final(arena).ordered(),
            final(arena)@ == dissolved(old(arena)@, self.id),
    {
        proof {
            lemma_dissolved(arena@, self.id);
        }
        pool_remove(arena, self.id);
    }

    /// Cuts every child of this section loose: the section is left without
    /// children, and each of them without a parent.
    pub fn remove_children(self, arena: &mut Arena)
        requires
            old(arena).wf(),
            old(arena)@.contains_key(self.id),
        ensures
            final(arena).wf(),
            old(arena).ordered() ==> final(arena).ordered(),
            final(arena)@ == all_detached(old(arena)@, old(arena)@[self.id].children),
            final(arena)@[self.id].children.len() == 0,
            forall|j: int|
                0 <= j < old(arena)@[self.id].children.len() ==> final(arena)@[#[trigger] old(arena)@[self.id].children[j]].parent is None,
    {
        let kids = pool_children(arena, self.id);
        let mut i: usize = 0;
        proof {
            assert(node_ok(arena@, self.id));
            assert(kids@.take(0) == Seq::<NodeId>::empty());
            assert(kids@.skip(0) == kids@);
            assert forall|j: int| 0 <= j < kids@.len() implies arena@[#[trigger] kids@[j]].parent
                == Some(self.id) by {
                assert(arena@[arena@[self.id].children[j]].parent == Some(self.id));
            }
        }
        while i < kids.len()
            invariant
                i <= kids.len(),
                arena.wf(),
                old(arena).ordered() ==> arena.ordered(),
                arena@ == all_detached(old(arena)@, kids@.take(i as int)),
                forall|y: NodeId| #[trigger] arena@.contains_key(y) == old(arena)@.contains_key(y),
                forall|j: int| 0 <= j < kids@.len() ==> old(arena)@.contains_key(#[trigger] kids@[j]),
                kids@ == old(arena)@[self.id].children,
                kids@.no_duplicates(),
                arena@.contains_key(self.id),
                arena@[self.id].children == kids@.skip(i as int),
                forall|j: int| 0 <= j < i ==> arena@[#[trigger] kids@[j]].parent is None,
                forall|j: int| i <= j < kids@.len() ==> arena@[#[trigger] kids@[j]].parent == Some(
                    self.id,
                ),
            decreases kids.len() - i,
        {
            proof {
                lemma_detached(arena@, kids@[i as int]);
                assert(kids@.take(i + 1).drop_last() == kids@.take(i as int));
                assert(kids@.skip(i as int)[0] == kids@[i as int]);
                lemma_without_first(kids@.skip(i as int));
                assert(kids@.skip(i as int).skip(1) == kids@.skip(i + 1));
                assert(node_ok(arena@, self.id));
            }
            let ghost m = arena@;
            pool_detach(arena, kids[i]);
            proof {
                assert forall|j: int| 0 <= j < i + 1 implies arena@[#[trigger] kids@[j]].parent is None by {
                    if j < i {
                        assert(m[kids@[j]].parent is None);
                        assert(kids@[j] != kids@[i as int]);
                    }
                }
                assert forall|j: int| i + 1 <= j < kids@.len() implies arena@[#[trigger] kids@[j]].parent
                    == Some(self.id) by {
                    assert(m[kids@[j]].parent == Some(self.id));
                    assert(kids@[j] != kids@[i as int]);
                }
            }
            i += 1;
        }
        proof {
            assert(kids@.take(kids@.len() as int) == kids@);
        }
    }

    /// Tests whether the level of this section may be set to `level`.
    pub(crate) fn level_change_ok(self, arena: &Arena, level: u16) -> (ok: bool)
        requires
            arena.wf(),
            arena@.contains_key(self.id),
        ensures
            ok == level_fits(arena@, self.id, level),
    {
        let old_level = pool_data(arena, self.id).level;
        if old_level == level {
            return true;
        }
        if old_level == 0 || level == 0 {
            return false;
        }
        proof {
            assert(node_ok(arena@, self.id));
        }
        if let Some(parent) = pool_parent(arena, self.id) {
            if pool_data(arena, parent).level >= level {
                return false;
            }
        }
        let kids = pool_children(arena, self.id);
        let mut i: usize = 0;
        while i < kids.len()
            invariant
                i <= kids.len(),
                arena@.contains_key(self.id),
                kids@ == arena@[self.id].children,
                level != arena@[self.id].level,
                forall|j: int| 0 <= j < kids@.len() ==> arena@.contains_key(#[trigger] kids@[j]),
                forall|j: int| 0 <= j < i ==> arena@[#[trigger] kids@[j]].level > level,
            decreases kids.len() - i,
        {
            if pool_data(arena, kids[i]).level <= level {
                proof {
                    assert(arena@[arena@[self.id].children[i as int]].level <= level);
                }
                return false;
            }
            i += 1;
        }
        true
    }

    /// Moves this section to the level `level` and changes the stars of its
    /// text to match, where `level` fits between the levels of its parent
    /// and of its children.
    pub fn set_level(self, arena: &mut Arena, level: u16) -> (r: Result<(), StructureError>)
        requires
            old(arena).wf(),
            old(arena)@.contains_key(self.id),
        ensures
            final(arena).wf(),
            old(arena).ordered() ==> final(arena).ordered(),
            r is Ok <==> level_fits(old(arena)@, self.id, level),
            r is Ok ==> final(arena)@ == releveled(old(arena)@, self.id, level),
            r is Err ==> refused_for_level(r) && final(arena)@ == old(arena)@,
    {
        if self.level_change_ok(arena, level) {
            if level == 0 {
                assert(releveled(arena@, self.id, level) =~= arena@);
            } else {
                proof {
                    lemma_releveled(arena@, self.id, level);
                    if level == arena@[self.id].level {
                        assert(releveled(arena@, self.id, level) =~= arena@);
                    }
                }
                arena.set_level(self, level);
            }
            Ok(())
        } else {
            Err(StructureError::LevelError)
        }
    }

    /// The text of the subtree of this section, each section followed by a
    /// line feed.
    pub fn to_rope(self, arena: &Arena) -> (text: String)
        requires
            arena.wf(),
            arena.ordered(),
            arena@.contains_key(self.id),
        ensures
            text@ == tree_text(arena@, self.id, true, true),
    {
        string_of(&section_tree_to_rope(self.id, arena, true, true))
    }
}

impl Document {
    /// The text of the document in the forest `m`.
    pub open spec fn text(&self, m: Forest) -> Seq<char> {
        tree_text(m, self.root.id, self.terminal_newline, self.empty_root_section)
    }

    /// Writes the document out as text.
    pub fn to_rope(&self, arena: &Arena) -> (text: String)
        requires
            arena.wf(),
            arena.ordered(),
            arena@.contains_key(self.root.id),
        ensures
            text@ == self.text(arena@),
    {
        string_of(
            &section_tree_to_rope(
                self.root.id,
                arena,
                self.terminal_newline,
                self.empty_root_section,
            ),
        )
    }
}

/// Parsing a text and writing the document out again gives back the text,
/// character for character.
pub proof fn lemma_parse_then_write(m: Forest, doc: Document, s: Seq<char>)
    requires
        is_parse_of(m, doc, s),
    ensures
        doc.text(m) == s,
{
    lemma_cut_and_written(s);
}

/// Whether nothing can be put beside `anchor`: it has no parent, or its
/// parent sits at the greatest level there is.
pub open spec fn no_room_beside(m: Forest, anchor: NodeId) -> bool {
    match m[anchor].parent {
        None => true,
        Some(p) => m[p].level == u16::MAX,
    }
}

/// Whether `x` sits at or below the level of the parent of `anchor`.
pub open spec fn too_low_beside(m: Forest, anchor: NodeId, x: NodeId) -> bool {
    match m[anchor].parent {
        None => false,
        Some(p) => m[x].level <= m[p].level,
    }
}

/// Raising a node keeps the forest ordered where its children sit above the
/// new level, and changes no link.
pub proof fn lemma_raise_keeps_order(m: Forest, x: NodeId, min: u16)
    requires
        forest_wf(m),
        m.contains_key(x),
        min >= 1,
    ensures
        forest_wf(raised(m, x, min)),
        forall|y: NodeId| #[trigger] raised(m, x, min).contains_key(y) == m.contains_key(y),
        forall|y: NodeId| (#[trigger] raised(m, x, min)[y]).parent == m[y].parent,
        raised(m, x, min)[x].level >= min,
        raised(m, x, min)[x].level >= m[x].level,
        forall|y: NodeId| y != x ==> (#[trigger] raised(m, x, min)[y]) == m[y],
        ordered(m) && (m[x].level >= min || children_above(m, x, min as int)) ==> ordered(
            raised(m, x, min),
        ),
{
    if m[x].level < min {
        lemma_releveled(m, x, min);
        if ordered(m) {
            assert(node_ok(m, x));
            if let Some(p) = m[x].parent {
                assert(crate::tree_model::ordered_at(m, p));
                let j = choose|j: int| 0 <= j < m[p].children.len() && m[p].children[j] == x;
                assert(m[m[p].children[j]].level > m[p].level);
            }
        }
    }
}

} // verus!
