//! What cutting a node loose and hanging it elsewhere do to a well-formed
//! forest.

use vstd::prelude::*;
use indextree::NodeId;
use crate::forest::{
    detached,
    dissolved,
    put_after,
    put_before,
    spliced,
    with_children,
    with_parent,
    without,
    Forest,
};
use crate::tree_model::{forest_wf, node_ok, ordered, ordered_at};

verus! {

pub proof fn lemma_push_fresh(ids: Seq<NodeId>, x: NodeId)
    requires
        ids.no_duplicates(),
        !ids.contains(x),
    ensures
        ids.push(x).no_duplicates(),
{
    assert forall|a: int, b: int|
        0 <= a < ids.push(x).len() && 0 <= b < ids.push(x).len() && a != b implies ids.push(x)[a]
        != ids.push(x)[b] by {
        if a < ids.len() {
            assert(ids.contains(ids[a]));
        }
        if b < ids.len() {
            assert(ids.contains(ids[b]));
        }
    }
}

pub proof fn lemma_without(ids: Seq<NodeId>, x: NodeId)
    ensures
        forall|y: NodeId| #[trigger] without(ids, x).contains(y) <==> ids.contains(y) && y != x,
        ids.no_duplicates() ==> without(ids, x).no_duplicates(),
        !ids.contains(x) ==> without(ids, x) == ids,
    decreases ids.len(),
{
    if ids.len() > 0 {
        let front = ids.drop_last();
        let last = ids.last();
        lemma_without(front, x);
        let w = without(front, x);
        assert(ids == front.push(last));
        assert forall|y: NodeId| #[trigger] without(ids, x).contains(y) <==> ids.contains(y) && y
            != x by {
            if without(ids, x).contains(y) {
                if last != x {
                    let k = choose|k: int| 0 <= k < w.push(last).len() && w.push(last)[k] == y;
                    if k < w.len() {
                        assert(w.contains(y));
                        let j = choose|j: int| 0 <= j < front.len() && front[j] == y;
                        assert(ids[j] == y);
                    } else {
                        assert(ids[ids.len() - 1] == y);
                    }
                } else {
                    assert(w.contains(y));
                    let j = choose|j: int| 0 <= j < front.len() && front[j] == y;
                    assert(ids[j] == y);
                }
            }
            if ids.contains(y) && y != x {
                let j = choose|j: int| 0 <= j < ids.len() && ids[j] == y;
                if j < front.len() {
                    assert(front[j] == y);
                    assert(w.contains(y));
                    let k = choose|k: int| 0 <= k < w.len() && w[k] == y;
                    if last != x {
                        assert(w.push(last)[k] == y);
                    }
                } else {
                    assert(last == y);
                    assert(w.push(last)[w.len() as int] == y);
                }
            }
        }
        if ids.no_duplicates() {
            assert(front.no_duplicates());
            if last != x {
                assert(!w.contains(last)) by {
                    if w.contains(last) {
                        let j = choose|j: int| 0 <= j < front.len() && front[j] == last;
                        assert(ids[j] == ids[ids.len() - 1]);
                    }
                }
                assert(w.push(last).no_duplicates());
            }
        }
        if !ids.contains(x) {
            assert(!front.contains(x)) by {
                if front.contains(x) {
                    let j = choose|j: int| 0 <= j < front.len() && front[j] == x;
                    assert(ids[j] == x);
                }
            }
            assert(last != x) by {
                assert(ids[ids.len() - 1] == last);
            }
        }
    }
}

/// Leaving out the first of a list without repetitions leaves the rest.
pub proof fn lemma_without_first(ids: Seq<NodeId>)
    requires
        ids.len() > 0,
        ids.no_duplicates(),
    ensures
        without(ids, ids[0]) == ids.skip(1),
    decreases ids.len(),
{
    let front = ids.drop_last();
    if ids.len() == 1 {
        assert(without(front, ids[0]) == front);
        assert(ids.skip(1) =~= Seq::<NodeId>::empty());
        assert(front =~= Seq::<NodeId>::empty());
    } else {
        assert(front[0] == ids[0]);
        assert(front.no_duplicates());
        lemma_without_first(front);
        assert(ids.last() != ids[0]) by {
            assert(ids[ids.len() - 1] != ids[0]);
        }
        assert(front.skip(1).push(ids.last()) =~= ids.skip(1));
    }
}

pub proof fn lemma_put_after(ids: Seq<NodeId>, anchor: NodeId, x: NodeId)
    requires
        ids.no_duplicates(),
        !ids.contains(x),
        ids.contains(anchor),
    ensures
        put_after(ids, anchor, x).no_duplicates(),
        forall|y: NodeId| #[trigger]
            put_after(ids, anchor, x).contains(y) <==> ids.contains(y) || y == x,
    decreases ids.len(),
{
    let front = ids.drop_last();
    let last = ids.last();
    assert(ids == front.push(last));
    assert(ids[ids.len() - 1] == last);
    assert forall|y: NodeId| front.contains(y) implies ids.contains(y) by {
        let j = choose|j: int| 0 <= j < front.len() && front[j] == y;
        assert(ids[j] == y);
    }
    let r = put_after(ids, anchor, x);
    if last == anchor {
        assert(r == ids.push(x));
        lemma_push_fresh(ids, x);
        assert forall|y: NodeId| #[trigger] r.contains(y) <==> ids.contains(y) || y == x by {
            if r.contains(y) {
                let k = choose|k: int| 0 <= k < r.len() && r[k] == y;
                if k < ids.len() {
                    assert(ids[k] == y);
                }
            }
            if ids.contains(y) {
                let j = choose|j: int| 0 <= j < ids.len() && ids[j] == y;
                assert(r[j] == y);
            }
            if y == x {
                assert(r[ids.len() as int] == x);
            }
        }
    } else {
        assert(front.contains(anchor)) by {
            let j = choose|j: int| 0 <= j < ids.len() && ids[j] == anchor;
            assert(front[j] == anchor);
        }
        assert(front.no_duplicates());
        assert(!front.contains(x));
        lemma_put_after(front, anchor, x);
        let inner = put_after(front, anchor, x);
        assert(r == inner.push(last));
        assert(!inner.contains(last)) by {
            if front.contains(last) {
                let j = choose|j: int| 0 <= j < front.len() && front[j] == last;
                assert(ids[j] == ids[ids.len() - 1]);
            }
        }
        lemma_push_fresh(inner, last);
        assert forall|y: NodeId| #[trigger] r.contains(y) <==> ids.contains(y) || y == x by {
            if r.contains(y) {
                let k = choose|k: int| 0 <= k < r.len() && r[k] == y;
                if k < inner.len() {
                    assert(inner.contains(y));
                }
            }
            if ids.contains(y) {
                let j = choose|j: int| 0 <= j < ids.len() && ids[j] == y;
                if j < front.len() {
                    assert(front[j] == y);
                    assert(inner.contains(y));
                    let k = choose|k: int| 0 <= k < inner.len() && inner[k] == y;
                    assert(r[k] == y);
                } else {
                    assert(r[inner.len() as int] == y);
                }
            }
            if y == x {
                assert(inner.contains(x));
                let k = choose|k: int| 0 <= k < inner.len() && inner[k] == x;
                assert(r[k] == x);
            }
        }
    }
}

pub proof fn lemma_put_before(ids: Seq<NodeId>, anchor: NodeId, x: NodeId)
    requires
        ids.no_duplicates(),
        !ids.contains(x),
        ids.contains(anchor),
    ensures
        put_before(ids, anchor, x).no_duplicates(),
        forall|y: NodeId| #[trigger]
            put_before(ids, anchor, x).contains(y) <==> ids.contains(y) || y == x,
    decreases ids.len(),
{
    let front = ids.drop_last();
    let last = ids.last();
    assert(ids == front.push(last));
    assert(ids[ids.len() - 1] == last);
    assert forall|y: NodeId| front.contains(y) implies ids.contains(y) by {
        let j = choose|j: int| 0 <= j < front.len() && front[j] == y;
        assert(ids[j] == y);
    }
    assert(!front.contains(last)) by {
        if front.contains(last) {
            let j = choose|j: int| 0 <= j < front.len() && front[j] == last;
            assert(ids[j] == ids[ids.len() - 1]);
        }
    }
    let r = put_before(ids, anchor, x);
    if last == anchor {
        assert(r == front.push(x).push(anchor));
        assert forall|y: NodeId| #[trigger] r.contains(y) <==> ids.contains(y) || y == x by {
            if r.contains(y) {
                let k = choose|k: int| 0 <= k < r.len() && r[k] == y;
                if k < front.len() {
                    assert(front[k] == y);
                    assert(front.contains(y));
                }
            }
            if ids.contains(y) {
                let j = choose|j: int| 0 <= j < ids.len() && ids[j] == y;
                if j < front.len() {
                    assert(r[j] == y);
                } else {
                    assert(r[front.len() as int + 1] == y);
                }
            }
            if y == x {
                assert(r[front.len() as int] == x);
            }
        }
        assert(front.no_duplicates());
        lemma_push_fresh(front, x);
        assert(!front.push(x).contains(anchor)) by {
            if front.push(x).contains(anchor) {
                let k = choose|k: int| 0 <= k < front.push(x).len() && front.push(x)[k] == anchor;
                if k < front.len() {
                    assert(front.contains(front[k]));
                } else {
                    assert(ids.contains(x));
                }
            }
        }
        lemma_push_fresh(front.push(x), anchor);
    } else {
        assert(front.contains(anchor)) by {
            let j = choose|j: int| 0 <= j < ids.len() && ids[j] == anchor;
            assert(front[j] == anchor);
        }
        assert(front.no_duplicates());
        assert(!front.contains(x));
        lemma_put_before(front, anchor, x);
        let inner = put_before(front, anchor, x);
        assert(r == inner.push(last));
        assert(!inner.contains(last));
        lemma_push_fresh(inner, last);
        assert forall|y: NodeId| #[trigger] r.contains(y) <==> ids.contains(y) || y == x by {
            if r.contains(y) {
                let k = choose|k: int| 0 <= k < r.len() && r[k] == y;
                if k < inner.len() {
                    assert(inner.contains(y));
                }
            }
            if ids.contains(y) {
                let j = choose|j: int| 0 <= j < ids.len() && ids[j] == y;
                if j < front.len() {
                    assert(front[j] == y);
                    assert(inner.contains(y));
                    let k = choose|k: int| 0 <= k < inner.len() && inner[k] == y;
                    assert(r[k] == y);
                } else {
                    assert(r[inner.len() as int] == y);
                }
            }
            if y == x {
                assert(inner.contains(x));
                let k = choose|k: int| 0 <= k < inner.len() && inner[k] == x;
                assert(r[k] == x);
            }
        }
    }
}

/// No list of children holds a node that has no parent.
pub proof fn lemma_loose_is_unlisted(m: Forest, x: NodeId)
    requires
        forest_wf(m),
        m.contains_key(x),
        m[x].parent is None,
    ensures
        forall|y: NodeId| m.contains_key(y) ==> !(#[trigger] m[y].children).contains(x),
{
    assert forall|y: NodeId| m.contains_key(y) implies !(#[trigger] m[y].children).contains(x) by {
        if m[y].children.contains(x) {
            assert(node_ok(m, y));
            let j = choose|j: int| 0 <= j < m[y].children.len() && m[y].children[j] == x;
            assert(m[m[y].children[j]].parent == Some(y));
        }
    }
}

/// Cutting a node loose keeps the forest well formed.
pub proof fn lemma_detached(m: Forest, x: NodeId)
    requires
        forest_wf(m),
        m.contains_key(x),
    ensures
        forest_wf(detached(m, x)),
        ordered(m) ==> ordered(detached(m, x)),
        forall|y: NodeId| #[trigger] detached(m, x).contains_key(y) == m.contains_key(y),
        detached(m, x)[x].parent is None,
        detached(m, x)[x].children == m[x].children,
        forall|y: NodeId|
            m.contains_key(y) ==> (#[trigger] detached(m, x)[y]).level == m[y].level && detached(
                m,
                x,
            )[y].text == m[y].text,
        forall|y: NodeId| y != x ==> (#[trigger] detached(m, x)[y]).parent == m[y].parent,
        forall|y: NodeId|
            m.contains_key(y) && Some(y) != m[x].parent ==> (#[trigger] detached(m, x)[y]).children
                == m[y].children,
{
    let d = detached(m, x);
    assert(node_ok(m, x));
    match m[x].parent {
        None => {},
        Some(p) => {
            assert(node_ok(m, p));
            lemma_without(m[p].children, x);
            assert forall|y: NodeId| d.contains_key(y) implies #[trigger] node_ok(d, y) by {
                assert(node_ok(m, y));
                assert forall|j: int| 0 <= j < d[y].children.len() implies d.contains_key(
                    #[trigger] d[y].children[j],
                ) && d[d[y].children[j]].parent == Some(y) by {
                    let c = d[y].children[j];
                    if y == p {
                        assert(without(m[p].children, x).contains(c));
                        let k = choose|k: int| 0 <= k < m[p].children.len() && m[p].children[k] == c;
                        assert(m.contains_key(m[p].children[k]));
                    } else {
                        assert(m.contains_key(m[y].children[j]));
                        assert(m[m[y].children[j]].parent == Some(y));
                    }
                }
                if let Some(q) = d[y].parent {
                    assert(y != x);
                    assert(m[q].children.contains(y));
                    if q == p {
                        assert(without(m[p].children, x).contains(y));
                    }
                }
            }
            if ordered(m) {
                assert forall|y: NodeId| d.contains_key(y) implies #[trigger] ordered_at(d, y) by {
                    assert(ordered_at(m, y));
                    assert forall|j: int| 0 <= j < d[y].children.len() implies d[#[trigger] d[y].children[j]].level
                        > d[y].level by {
                        let c = d[y].children[j];
                        if y == p {
                            assert(without(m[p].children, x).contains(c));
                            let k = choose|k: int|
                                0 <= k < m[p].children.len() && m[p].children[k] == c;
                            assert(m[m[p].children[k]].level > m[p].level);
                        } else {
                            assert(m[m[y].children[j]].level > m[y].level);
                        }
                    }
                }
            }
        },
    }
}

/// The forest after the loose node `x` was hung under `p`, whose children
/// are then `kids`.
pub open spec fn hung(m: Forest, p: NodeId, x: NodeId, kids: Seq<NodeId>) -> Forest {
    m.insert(p, with_children(m[p], kids)).insert(x, with_parent(m[x], Some(p)))
}

/// Hanging a loose node among the children of another node keeps the forest
/// well formed, and ordered where the node sits above its new parent.
pub proof fn lemma_hung(m: Forest, p: NodeId, x: NodeId, kids: Seq<NodeId>)
    requires
        forest_wf(m),
        m.contains_key(p),
        m.contains_key(x),
        p != x,
        m[x].parent is None,
        kids.no_duplicates(),
        forall|y: NodeId| #[trigger] kids.contains(y) <==> m[p].children.contains(y) || y == x,
    ensures
        forest_wf(hung(m, p, x, kids)),
        ordered(m) && m[x].level > m[p].level ==> ordered(hung(m, p, x, kids)),
        forall|y: NodeId| #[trigger] hung(m, p, x, kids).contains_key(y) == m.contains_key(y),
{
    let h = hung(m, p, x, kids);
    lemma_loose_is_unlisted(m, x);
    assert(node_ok(m, p));
    assert(node_ok(m, x));
    assert forall|y: NodeId| h.contains_key(y) implies #[trigger] node_ok(h, y) by {
        assert(node_ok(m, y));
        assert forall|j: int| 0 <= j < h[y].children.len() implies h.contains_key(
            #[trigger] h[y].children[j],
        ) && h[h[y].children[j]].parent == Some(y) by {
            let c = h[y].children[j];
            if y == p {
                assert(kids.contains(c));
                if c != x {
                    let k = choose|k: int| 0 <= k < m[p].children.len() && m[p].children[k] == c;
                    assert(m.contains_key(m[p].children[k]));
                }
            } else {
                assert(m.contains_key(m[y].children[j]));
                assert(m[m[y].children[j]].parent == Some(y));
                assert(m[y].children.contains(c));
            }
        }
        if let Some(q) = h[y].parent {
            if y != x {
                assert(m[q].children.contains(y));
                if q == p {
                    assert(kids.contains(y));
                }
            } else {
                assert(kids.contains(x));
            }
        }
    }
    if ordered(m) && m[x].level > m[p].level {
        assert forall|y: NodeId| h.contains_key(y) implies #[trigger] ordered_at(h, y) by {
            assert(ordered_at(m, y));
            assert forall|j: int| 0 <= j < h[y].children.len() implies h[#[trigger] h[y].children[j]].level
                > h[y].level by {
                let c = h[y].children[j];
                if y == p {
                    assert(kids.contains(c));
                    if c != x {
                        let k = choose|k: int|
                            0 <= k < m[p].children.len() && m[p].children[k] == c;
                        assert(m[m[p].children[k]].level > m[p].level);
                    }
                } else {
                    assert(m[m[y].children[j]].level > m[y].level);
                }
            }
        }
    }
}

pub proof fn lemma_spliced(ids: Seq<NodeId>, x: NodeId, by: Seq<NodeId>)
    requires
        ids.no_duplicates(),
        by.no_duplicates(),
        ids.contains(x),
        forall|y: NodeId| by.contains(y) ==> !ids.contains(y),
    ensures
        spliced(ids, x, by).no_duplicates(),
        forall|y: NodeId| #[trigger]
            spliced(ids, x, by).contains(y) <==> (ids.contains(y) && y != x) || by.contains(y),
    decreases ids.len(),
{
    let front = ids.drop_last();
    let last = ids.last();
    assert(ids == front.push(last));
    assert(ids[ids.len() - 1] == last);
    assert forall|y: NodeId| front.contains(y) implies ids.contains(y) by {
        let j = choose|j: int| 0 <= j < front.len() && front[j] == y;
        assert(ids[j] == y);
    }
    assert(!front.contains(last)) by {
        if front.contains(last) {
            let j = choose|j: int| 0 <= j < front.len() && front[j] == last;
            assert(ids[j] == ids[ids.len() - 1]);
        }
    }
    assert(front.no_duplicates());
    let r = spliced(ids, x, by);
    if last == x {
        assert(r == front + by);
        assert forall|y: NodeId| #[trigger] r.contains(y) <==> (ids.contains(y) && y != x)
            || by.contains(y) by {
            if r.contains(y) {
                let k = choose|k: int| 0 <= k < r.len() && r[k] == y;
                if k < front.len() {
                    assert(front[k] == y);
                    assert(front.contains(y));
                } else {
                    assert(by[k - front.len()] == y);
                }
            }
            if ids.contains(y) && y != x {
                let j = choose|j: int| 0 <= j < ids.len() && ids[j] == y;
                assert(r[j] == y);
            }
            if by.contains(y) {
                let j = choose|j: int| 0 <= j < by.len() && by[j] == y;
                assert(r[front.len() + j] == y);
            }
        }
        assert forall|a: int, b: int| 0 <= a < r.len() && 0 <= b < r.len() && a != b implies r[a]
            != r[b] by {
            if a < front.len() {
                assert(front.contains(front[a]));
            } else {
                assert(by.contains(by[a - front.len()]));
            }
            if b < front.len() {
                assert(front.contains(front[b]));
            } else {
                assert(by.contains(by[b - front.len()]));
            }
        }
    } else {
        assert(front.contains(x)) by {
            let j = choose|j: int| 0 <= j < ids.len() && ids[j] == x;
            assert(front[j] == x);
        }
        lemma_spliced(front, x, by);
        let inner = spliced(front, x, by);
        assert(r == inner.push(last));
        assert(!by.contains(last)) by {
            assert(ids.contains(last));
        }
        assert(!inner.contains(last));
        lemma_push_fresh(inner, last);
        assert forall|y: NodeId| #[trigger] r.contains(y) <==> (ids.contains(y) && y != x)
            || by.contains(y) by {
            if r.contains(y) {
                let k = choose|k: int| 0 <= k < r.len() && r[k] == y;
                if k < inner.len() {
                    assert(inner.contains(y));
                }
            }
            if ids.contains(y) && y != x {
                let j = choose|j: int| 0 <= j < ids.len() && ids[j] == y;
                if j < front.len() {
                    assert(front[j] == y);
                    assert(inner.contains(y));
                    let k = choose|k: int| 0 <= k < inner.len() && inner[k] == y;
                    assert(r[k] == y);
                } else {
                    assert(r[inner.len() as int] == y);
                }
            }
            if by.contains(y) {
                assert(inner.contains(y));
                let k = choose|k: int| 0 <= k < inner.len() && inner[k] == y;
                assert(r[k] == y);
            }
        }
    }
}

/// Taking a node out and putting its children in its place keeps an ordered
/// forest well formed and ordered.
pub proof fn lemma_dissolved(m: Forest, x: NodeId)
    requires
        forest_wf(m),
        ordered(m),
        m.contains_key(x),
    ensures
        forest_wf(dissolved(m, x)),
        ordered(dissolved(m, x)),
{
    let d = dissolved(m, x);
    let cs = m[x].children;
    assert(node_ok(m, x));
    assert(ordered_at(m, x));
    assert forall|c: NodeId| cs.contains(c) implies m.contains_key(c) && m[c].parent == Some(x)
        && m[c].level > m[x].level by {
        let j = choose|j: int| 0 <= j < cs.len() && cs[j] == c;
        assert(m.contains_key(m[x].children[j]));
        assert(m[m[x].children[j]].level > m[x].level);
    }
    if let Some(p) = m[x].parent {
        assert(node_ok(m, p));
        assert(ordered_at(m, p));
        let jx = choose|j: int| 0 <= j < m[p].children.len() && m[p].children[j] == x;
        assert(m[m[p].children[jx]].level > m[p].level);
        assert forall|y: NodeId| cs.contains(y) implies !m[p].children.contains(y) by {
            if m[p].children.contains(y) {
                let j = choose|j: int| 0 <= j < m[p].children.len() && m[p].children[j] == y;
                assert(m[m[p].children[j]].parent == Some(p));
            }
        }
        lemma_spliced(m[p].children, x, cs);
    }
    assert forall|y: NodeId| d.contains_key(y) implies #[trigger] node_ok(d, y) && ordered_at(
        d,
        y,
    ) by {
        assert(node_ok(m, y));
        assert(ordered_at(m, y));
        assert(!cs.contains(y) || m[x].parent != Some(y));
        assert forall|j: int| 0 <= j < d[y].children.len() implies d.contains_key(
            #[trigger] d[y].children[j],
        ) && d[d[y].children[j]].parent == Some(y) && d[d[y].children[j]].level
            > d[y].level by {
            let c = d[y].children[j];
            if m[x].parent == Some(y) && !cs.contains(y) {
                assert(spliced(m[y].children, x, cs).contains(c));
                if cs.contains(c) {
                } else {
                    let k = choose|k: int| 0 <= k < m[y].children.len() && m[y].children[k] == c;
                    assert(m.contains_key(m[y].children[k]));
                    assert(m[m[y].children[k]].level > m[y].level);
                }
            } else {
                assert(m.contains_key(m[y].children[j]));
                assert(m[m[y].children[j]].parent == Some(y));
                assert(m[m[y].children[j]].level > m[y].level);
                assert(c != x);
                assert(!cs.contains(c));
            }
        }
        if let Some(q) = d[y].parent {
            if cs.contains(y) {
                assert(spliced(m[q].children, x, cs).contains(y));
            } else {
                assert(m[y].parent == Some(q));
                assert(q != x) by {
                    if q == x {
                        assert(m[x].children.contains(y));
                    }
                }
                assert(m[q].children.contains(y));
                if m[x].parent == Some(q) {
                    assert(spliced(m[q].children, x, cs).contains(y));
                }
            }
        }
    }
    assert forall|y: NodeId| d.contains_key(y) implies #[trigger] ordered_at(d, y) by {
        assert(node_ok(d, y));
    }
}

} // verus!
