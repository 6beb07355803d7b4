//! The node pool: an `indextree` arena, described by a map from the handles
//! of its live nodes to what each node holds and how it is linked.
//!
//! Everything in this file that is marked `external_body` states what the
//! named `indextree` operation does to that map; none of it is proved here.
//! The map leaves one thing out: the order among nodes that have no parent.

use vstd::prelude::*;
use indextree::NodeId;

verus! {

/// `indextree::NodeId`: the handle of a node. Nothing of what is inside it
/// is looked at; two handles are told apart by `same_node`.
#[verifier::external_type_specification]
#[verifier::external_body]
pub struct ExNodeId(indextree::NodeId);

/// `indextree::NodeError`: why the arena refused a change. It is only
/// carried through.
#[verifier::external_type_specification]
#[verifier::external_body]
pub struct ExNodeError(indextree::NodeError);

/// What a node stores: its level and its text.
pub struct SectionData {
    pub level: u16,
    pub text: Vec<char>,
}

/// Storage for the sections of any number of documents: an
/// `indextree::Arena` of `SectionData`, in a field that nothing outside this
/// file reaches. The verifier sees none of it: `forest` names what it holds,
/// and the functions of this file state what each operation does to that.
#[verifier::external_body]
pub struct Arena {
    arena: indextree::Arena<SectionData>,
}

/// The state of one live node.
pub struct NodeView {
    pub parent: Option<NodeId>,
    pub children: Seq<NodeId>,
    pub level: u16,
    pub text: Seq<char>,
}

pub type Forest = Map<NodeId, NodeView>;

/// The live nodes of a pool: for each handle that names a node which was
/// made and not taken out since, the parent of that node, its children from
/// the first to the last, and the level and the text that it stores.
pub uninterp spec fn forest(a: Arena) -> Map<NodeId, NodeView>;

/// The forest of a pool without nodes.
pub open spec fn no_nodes() -> Forest {
    Map::empty()
}

/// A node that was just made: no parent, no children.
pub open spec fn loose_node(level: u16, text: Seq<char>) -> NodeView {
    NodeView { parent: None, children: Seq::empty(), level, text }
}

/// `ids` without every occurrence of `x`.
pub open spec fn without(ids: Seq<NodeId>, x: NodeId) -> Seq<NodeId>
    decreases ids.len(),
{
    if ids.len() == 0 {
        ids
    } else if ids.last() == x {
        without(ids.drop_last(), x)
    } else {
        without(ids.drop_last(), x).push(ids.last())
    }
}

/// `ids` with `x` put right after `anchor`.
pub open spec fn put_after(ids: Seq<NodeId>, anchor: NodeId, x: NodeId) -> Seq<NodeId>
    decreases ids.len(),
{
    if ids.len() == 0 {
        ids
    } else if ids.last() == anchor {
        ids.push(x)
    } else {
        put_after(ids.drop_last(), anchor, x).push(ids.last())
    }
}

/// `ids` with `x` put right before `anchor`.
pub open spec fn put_before(ids: Seq<NodeId>, anchor: NodeId, x: NodeId) -> Seq<NodeId>
    decreases ids.len(),
{
    if ids.len() == 0 {
        ids
    } else if ids.last() == anchor {
        ids.drop_last().push(x).push(anchor)
    } else {
        put_before(ids.drop_last(), anchor, x).push(ids.last())
    }
}

/// `ids` with `x` replaced by the nodes `by`.
pub open spec fn spliced(ids: Seq<NodeId>, x: NodeId, by: Seq<NodeId>) -> Seq<NodeId>
    decreases ids.len(),
{
    if ids.len() == 0 {
        ids
    } else if ids.last() == x {
        ids.drop_last() + by
    } else {
        spliced(ids.drop_last(), x, by).push(ids.last())
    }
}

/// The node `x` with another parent.
pub open spec fn with_parent(v: NodeView, parent: Option<NodeId>) -> NodeView {
    NodeView { parent, ..v }
}

/// The node `x` with other children.
pub open spec fn with_children(v: NodeView, children: Seq<NodeId>) -> NodeView {
    NodeView { children, ..v }
}

/// The forest after `x` was cut loose from its parent. Its own children stay
/// with it.
pub open spec fn detached(m: Forest, x: NodeId) -> Forest {
    match m[x].parent {
        None => m,
        Some(p) => m.insert(p, with_children(m[p], without(m[p].children, x))).insert(
            x,
            with_parent(m[x], None),
        ),
    }
}

/// The forest after the loose node `x` became the last child of `p`.
pub open spec fn hung_last(m: Forest, p: NodeId, x: NodeId) -> Forest {
    m.insert(p, with_children(m[p], m[p].children.push(x))).insert(x, with_parent(m[x], Some(p)))
}

/// The forest after the loose node `x` became the first child of `p`.
pub open spec fn hung_first(m: Forest, p: NodeId, x: NodeId) -> Forest {
    m.insert(p, with_children(m[p], seq![x] + m[p].children)).insert(x, with_parent(m[x], Some(p)))
}

/// The forest after the loose node `x` was put right after `anchor` among
/// the children of `anchor`'s parent. Where `anchor` has no parent, nothing
/// that the forest records changes.
pub open spec fn hung_after(m: Forest, anchor: NodeId, x: NodeId) -> Forest {
    match m[anchor].parent {
        None => m,
        Some(p) => m.insert(p, with_children(m[p], put_after(m[p].children, anchor, x))).insert(
            x,
            with_parent(m[x], Some(p)),
        ),
    }
}

/// As `hung_after`, with `x` right before `anchor`.
pub open spec fn hung_before(m: Forest, anchor: NodeId, x: NodeId) -> Forest {
    match m[anchor].parent {
        None => m,
        Some(p) => m.insert(p, with_children(m[p], put_before(m[p].children, anchor, x))).insert(
            x,
            with_parent(m[x], Some(p)),
        ),
    }
}

/// The forest after `x` was taken out and its children were put in its
/// place under its parent.
pub open spec fn dissolved(m: Forest, x: NodeId) -> Forest {
    Map::new(
        |id: NodeId| m.contains_key(id) && id != x,
        |id: NodeId|
            if m[x].children.contains(id) {
                with_parent(m[id], m[x].parent)
            } else if m[x].parent == Some(id) {
                with_children(m[id], spliced(m[id].children, x, m[x].children))
            } else {
                m[id]
            },
    )
}

/// Whether each node of `path` but the last has the next one as its parent.
pub open spec fn is_chain(m: Forest, path: Seq<NodeId>) -> bool {
    &&& path.len() >= 1
    &&& forall|i: int|
        0 <= i < path.len() - 1 ==> m.contains_key(#[trigger] path[i]) && m[path[i]].parent == Some(
            path[i + 1],
        )
}

/// Whether `to` is `from` itself or one of its ancestors.
pub open spec fn reaches_up(m: Forest, from: NodeId, to: NodeId) -> bool {
    exists|path: Seq<NodeId>| is_chain(m, path) && path[0] == from && path.last() == to
}

/// `Arena::new`: a pool without nodes.
#[verifier::external_body]
pub(crate) fn pool_new() -> (a: Arena)
    ensures
        forest(a) == no_nodes(),
{
    Arena { arena: indextree::Arena::new() }
}

/// `Arena::new_node`: stores `data` in a node that was not live before. The
/// node has no parent and no children, and no other node changes.
#[verifier::external_body]
pub(crate) fn pool_new_node(a: &mut Arena, data: SectionData) -> (id:
    NodeId)
    ensures
        !forest(*old(a)).contains_key(id),
        forest(*final(a)) == forest(*old(a)).insert(id, loose_node(data.level, data.text@)),
{
    a.arena.new_node(data)
}

/// `NodeId::is_removed`, negated: whether the handle names a live node.
#[verifier::external_body]
pub(crate) fn pool_contains(a: &Arena, id: NodeId) -> (r: bool)
    ensures
        r == forest(*a).contains_key(id),
{
    !id.is_removed(&a.arena)
}

/// Indexing the arena and `Node::get`: the data that a live node stores.
#[verifier::external_body]
pub(crate) fn pool_data(a: &Arena, id: NodeId) -> (d: &SectionData)
    requires
        forest(*a).contains_key(id),
    ensures
        d.level == forest(*a)[id].level,
        d.text@ == forest(*a)[id].text,
{
    a.arena[id].get()
}

/// Indexing the arena and `Node::get_mut`: overwrites the data of a live
/// node and leaves its links as they are.
#[verifier::external_body]
pub(crate) fn pool_set_data(a: &mut Arena, id: NodeId, data: SectionData)
    requires
        forest(*old(a)).contains_key(id),
    ensures
        forest(*final(a)) == forest(*old(a)).insert(
            id,
            NodeView { level: data.level, text: data.text@, ..forest(*old(a))[id] },
        ),
{
    *a.arena[id].get_mut() = data;
}

/// Indexing the arena and `Node::parent`: the parent of a live node.
#[verifier::external_body]
pub(crate) fn pool_parent(a: &Arena, id: NodeId) -> (p: Option<NodeId>)
    requires
        forest(*a).contains_key(id),
    ensures
        p == forest(*a)[id].parent,
{
    a.arena[id].parent()
}

/// `NodeId::children`: the children of a live node, first to last.
#[verifier::external_body]
pub(crate) fn pool_children(a: &Arena, id: NodeId) -> (kids: Vec<NodeId>)
    requires
        forest(*a).contains_key(id),
    ensures
        kids@ == forest(*a)[id].children,
{
    id.children(&a.arena).collect()
}

/// `==` on `NodeId`: whether two handles are the same.
#[verifier::external_body]
pub(crate) fn same_node(x: NodeId, y: NodeId) -> (r: bool)
    ensures
        r == (x == y),
{
    x == y
}

/// `NodeId::append`: cuts the live node `x` loose and makes it the last
/// child of the live node `p`. It panics where `p` is `x` or one of its
/// descendants, which `requires` leaves out.
#[verifier::external_body]
pub(crate) fn pool_append(a: &mut Arena, p: NodeId, x: NodeId)
    requires
        forest(*old(a)).contains_key(p),
        forest(*old(a)).contains_key(x),
        !reaches_up(forest(*old(a)), p, x),
    ensures
        forest(*final(a)) == hung_last(detached(forest(*old(a)), x), p, x),
{
    p.append(x, &mut a.arena)
}

/// `NodeId::checked_append`: as `append`, but where `p` is `x` or one of its
/// descendants it changes nothing and returns an error.
#[verifier::external_body]
pub(crate) fn pool_checked_append(a: &mut Arena, p: NodeId, x: NodeId) -> (r:
    Result<(), indextree::NodeError>)
    requires
        forest(*old(a)).contains_key(p),
        forest(*old(a)).contains_key(x),
    ensures
        r is Err <==> reaches_up(forest(*old(a)), p, x),
        r is Err ==> forest(*final(a)) == forest(*old(a)),
        r is Ok ==> forest(*final(a)) == hung_last(detached(forest(*old(a)), x), p, x),
{
    p.checked_append(x, &mut a.arena)
}

/// `NodeId::checked_prepend`: as `checked_append`, with `x` as the first
/// child.
#[verifier::external_body]
pub(crate) fn pool_checked_prepend(a: &mut Arena, p: NodeId, x: NodeId) -> (r:
    Result<(), indextree::NodeError>)
    requires
        forest(*old(a)).contains_key(p),
        forest(*old(a)).contains_key(x),
    ensures
        r is Err <==> reaches_up(forest(*old(a)), p, x),
        r is Err ==> forest(*final(a)) == forest(*old(a)),
        r is Ok ==> forest(*final(a)) == hung_first(detached(forest(*old(a)), x), p, x),
{
    p.checked_prepend(x, &mut a.arena)
}

/// `NodeId::checked_insert_after`: cuts the live node `x` loose and puts it
/// right after the live node `anchor`, under the same parent. Where `anchor`
/// is `x` or one of its descendants it changes nothing and returns an error.
#[verifier::external_body]
pub(crate) fn pool_checked_insert_after(
    a: &mut Arena,
    anchor: NodeId,
    x: NodeId,
) -> (r: Result<(), indextree::NodeError>)
    requires
        forest(*old(a)).contains_key(anchor),
        forest(*old(a)).contains_key(x),
    ensures
        r is Err <==> reaches_up(forest(*old(a)), anchor, x),
        r is Err ==> forest(*final(a)) == forest(*old(a)),
        r is Ok ==> forest(*final(a)) == hung_after(detached(forest(*old(a)), x), anchor, x),
{
    anchor.checked_insert_after(x, &mut a.arena)
}

/// `NodeId::checked_insert_before`: as `checked_insert_after`, with `x`
/// right before `anchor`.
#[verifier::external_body]
pub(crate) fn pool_checked_insert_before(
    a: &mut Arena,
    anchor: NodeId,
    x: NodeId,
) -> (r: Result<(), indextree::NodeError>)
    requires
        forest(*old(a)).contains_key(anchor),
        forest(*old(a)).contains_key(x),
    ensures
        r is Err <==> reaches_up(forest(*old(a)), anchor, x),
        r is Err ==> forest(*final(a)) == forest(*old(a)),
        r is Ok ==> forest(*final(a)) == hung_before(detached(forest(*old(a)), x), anchor, x),
{
    anchor.checked_insert_before(x, &mut a.arena)
}

/// `NodeId::detach`: cuts a live node loose from its parent; its children
/// stay with it.
#[verifier::external_body]
pub(crate) fn pool_detach(a: &mut Arena, x: NodeId)
    requires
        forest(*old(a)).contains_key(x),
    ensures
        forest(*final(a)) == detached(forest(*old(a)), x),
{
    x.detach(&mut a.arena)
}

/// `NodeId::remove`: takes a live node out of the pool and puts its children
/// in its place under its parent. The handle names no live node afterwards.
#[verifier::external_body]
pub(crate) fn pool_remove(a: &mut Arena, x: NodeId)
    requires
        forest(*old(a)).contains_key(x),
    ensures
        forest(*final(a)) == dissolved(forest(*old(a)), x),
{
    x.remove(&mut a.arena)
}

} // verus!
