//! What it means for the forest of a pool to be a well-formed outline, and
//! the order in which the nodes of a subtree are written out.

use vstd::prelude::*;
use indextree::NodeId;
use crate::forest::{with_children, Forest, NodeView};
use crate::structure::{lemma_star_run_bound, level_at, plain_after_first_line, star_run};

verus! {

/// The links of `x` agree with those of its parent and children, its text
/// starts with as many stars as its level says, and no line after the
/// first is a headline line.
pub open spec fn node_ok(m: Forest, x: NodeId) -> bool {
    &&& m[x].children.no_duplicates()
    &&& forall|j: int|
        0 <= j < m[x].children.len() ==> m.contains_key(#[trigger] m[x].children[j])
            && m[m[x].children[j]].parent == Some(x)
    &&& (m[x].parent matches Some(p) ==> p != x && m.contains_key(p) && m[p].children.contains(x))
    &&& level_at(m[x].text, 0) == m[x].level
    &&& plain_after_first_line(m[x].text)
}

/// Every live node is linked consistently, and its text is that of one
/// section of its level.
pub open spec fn forest_wf(m: Forest) -> bool {
    forall|x: NodeId| m.contains_key(x) ==> #[trigger] node_ok(m, x)
}

/// Every child of `x` sits at a strictly greater level than `x`.
pub open spec fn ordered_at(m: Forest, x: NodeId) -> bool {
    forall|j: int|
        0 <= j < m[x].children.len() ==> m[#[trigger] m[x].children[j]].level > m[x].level
}

/// Every child sits at a strictly greater level than its parent.
pub open spec fn ordered(m: Forest) -> bool {
    forall|x: NodeId| m.contains_key(x) ==> #[trigger] ordered_at(m, x)
}

/// The nodes of the subtree of `id` in the order in which they are written:
/// a node, then the subtrees of its children, first to last.
pub open spec fn subtree(m: Forest, id: NodeId) -> Seq<NodeId>
    decreases 65536 - m[id].level, 0nat,
{
    seq![id] + subtrees(m, m[id].children, m[id].level as int)
}

/// The subtrees of those of `ids` that sit above the level `above`, one
/// after the other.
pub open spec fn subtrees(m: Forest, ids: Seq<NodeId>, above: int) -> Seq<NodeId>
    decreases 65535 - above, 1 + ids.len(),
{
    if ids.len() == 0 || above >= 65535 {
        Seq::empty()
    } else if m[ids.last()].level > above {
        subtrees(m, ids.drop_last(), above) + subtree(m, ids.last())
    } else {
        subtrees(m, ids.drop_last(), above)
    }
}

/// The texts of the nodes `ids`.
pub open spec fn texts_of(m: Forest, ids: Seq<NodeId>) -> Seq<Seq<char>> {
    Seq::new(ids.len(), |i: int| m[ids[i]].text)
}

/// The nodes of a subtree are live.
pub proof fn lemma_subtree_live(m: Forest, id: NodeId)
    requires
        forest_wf(m),
        m.contains_key(id),
    ensures
        forall|x: NodeId| subtree(m, id).contains(x) ==> m.contains_key(x),
        subtree(m, id)[0] == id,
    decreases 65536 - m[id].level, 0nat,
{
    assert(node_ok(m, id));
    lemma_subtrees_live(m, m[id].children, m[id].level as int);
    assert forall|x: NodeId| subtree(m, id).contains(x) implies m.contains_key(x) by {
        let k = choose|k: int| 0 <= k < subtree(m, id).len() && subtree(m, id)[k] == x;
        if k > 0 {
            assert(subtrees(m, m[id].children, m[id].level as int)[k - 1] == x);
        }
    }
}

pub proof fn lemma_subtrees_live(m: Forest, ids: Seq<NodeId>, above: int)
    requires
        forest_wf(m),
        forall|j: int| 0 <= j < ids.len() ==> m.contains_key(ids[j]),
    ensures
        forall|x: NodeId| subtrees(m, ids, above).contains(x) ==> m.contains_key(x),
    decreases 65535 - above, 1 + ids.len(),
{
    if ids.len() == 0 || above >= 65535 {
    } else {
        lemma_subtrees_live(m, ids.drop_last(), above);
        let rest = subtrees(m, ids.drop_last(), above);
        if m[ids.last()].level > above {
            lemma_subtree_live(m, ids.last());
            let sub = subtree(m, ids.last());
            assert forall|x: NodeId| subtrees(m, ids, above).contains(x) implies m.contains_key(
                x,
            ) by {
                let k = choose|k: int| 0 <= k < (rest + sub).len() && (rest + sub)[k] == x;
                if k < rest.len() {
                    assert(rest[k] == x);
                } else {
                    assert(sub[k - rest.len()] == x);
                }
            }
        }
    }
}

/// A subtree is written the same in two forests that agree on its nodes.
pub proof fn lemma_subtree_frame(m: Forest, m2: Forest, id: NodeId)
    requires
        forest_wf(m),
        m.contains_key(id),
        forall|x: NodeId| subtree(m, id).contains(x) ==> m2[x] == m[x] && ordered_at(m, x),
    ensures
        subtree(m2, id) == subtree(m, id),
    decreases 65536 - m[id].level, 0nat,
{
    assert(node_ok(m, id));
    assert(subtree(m, id)[0] == id);
    assert(m2[id] == m[id]);
    assert(ordered_at(m, id));
    let kids = m[id].children;
    let rest = subtrees(m, kids, m[id].level as int);
    assert forall|x: NodeId| rest.contains(x) implies m2[x] == m[x] && ordered_at(m, x) by {
        let k = choose|k: int| 0 <= k < rest.len() && rest[k] == x;
        assert(subtree(m, id)[k + 1] == x);
    }
    lemma_subtrees_frame(m, m2, kids, m[id].level as int);
}

pub proof fn lemma_subtrees_frame(m: Forest, m2: Forest, ids: Seq<NodeId>, above: int)
    requires
        forest_wf(m),
        forall|j: int| 0 <= j < ids.len() ==> m.contains_key(ids[j]) && m[ids[j]].level > above,
        forall|x: NodeId|
            subtrees(m, ids, above).contains(x) ==> m2[x] == m[x] && ordered_at(m, x),
    ensures
        subtrees(m2, ids, above) == subtrees(m, ids, above),
    decreases 65535 - above, 1 + ids.len(),
{
    if ids.len() == 0 || above >= 65535 {
    } else {
        let rest = subtrees(m, ids.drop_last(), above);
        let last = ids.last();
        let sub = subtree(m, last);
        assert(m[last].level > above);
        assert forall|x: NodeId| rest.contains(x) implies m2[x] == m[x] && ordered_at(m, x) by {
            let k = choose|k: int| 0 <= k < rest.len() && rest[k] == x;
            assert((rest + sub)[k] == x);
        }
        assert forall|x: NodeId| sub.contains(x) implies m2[x] == m[x] && ordered_at(m, x) by {
            let k = choose|k: int| 0 <= k < sub.len() && sub[k] == x;
            assert((rest + sub)[rest.len() + k] == x);
        }
        lemma_subtrees_frame(m, m2, ids.drop_last(), above);
        lemma_subtree_frame(m, m2, last);
        assert(sub[0] == last);
        assert(m2[last] == m[last]);
    }
}

/// Whether `path` leads from its first node down through last children.
pub open spec fn last_child_path(m: Forest, path: Seq<NodeId>) -> bool {
    &&& path.len() >= 1
    &&& forall|i: int| 0 <= i < path.len() ==> m.contains_key(#[trigger] path[i])
    &&& forall|i: int|
        0 <= i < path.len() - 1 ==> m[#[trigger] path[i]].children.len() > 0
            && m[path[i]].children.last() == path[i + 1]
}

/// The forest after the new leaf `n` was hung as the last child of `t`.
pub open spec fn with_leaf(m: Forest, t: NodeId, n: NodeId, level: u16, text: Seq<char>) -> Forest {
    m.insert(t, with_children(m[t], m[t].children.push(n))).insert(
        n,
        NodeView { parent: Some(t), children: Seq::empty(), level, text },
    )
}

/// A new leaf that is hung at the end of a path of last children comes last
/// in the subtree of every node of the path.
pub proof fn lemma_leaf_comes_last(
    m: Forest,
    path: Seq<NodeId>,
    n: NodeId,
    level: u16,
    text: Seq<char>,
    i: int,
)
    requires
        forest_wf(m),
        last_child_path(m, path),
        0 <= i < path.len(),
        !m.contains_key(n),
        level > m[path.last()].level,
        forall|k: int|
            0 <= k < path.len() ==> (#[trigger] subtree(m, path[k])).no_duplicates() && subtree(
                m,
                path[k],
            ).contains(path.last()),
        forall|k: int, x: NodeId|
            0 <= k < path.len() && (#[trigger] subtree(m, path[k])).contains(x) ==> #[trigger] ordered_at(m, x),
    ensures
        subtree(with_leaf(m, path.last(), n, level, text), path[i]) == subtree(m, path[i]).push(n),
    decreases path.len() - i,
{
    let t = path.last();
    let m2 = with_leaf(m, t, n, level, text);
    let p = path[i];
    let kids = m[p].children;
    let above = m[p].level as int;
    assert(node_ok(m, p));
    assert(subtree(m, p).no_duplicates());
    assert(subtree(m, p)[0] == p);
    assert(ordered_at(m, p));
    assert forall|j: int| 0 <= j < kids.len() implies m.contains_key(kids[j]) && m[kids[j]].level
        > above by {
        assert(m.contains_key(m[p].children[j]));
    }
    assert(m2[n].children.len() == 0);
    assert(subtree(m2, n) == seq![n]);
    if i == path.len() - 1 {
        let grown = kids.push(n);
        assert(m2[t].children == grown);
        assert(grown.drop_last() == kids);
        lemma_subtrees_live(m, kids, above);
        assert forall|x: NodeId| subtrees(m, kids, above).contains(x) implies m2[x] == m[x]
            && ordered_at(m, x) by {
            let k = choose|k: int|
                0 <= k < subtrees(m, kids, above).len() && subtrees(m, kids, above)[k] == x;
            assert(subtree(m, p)[k + 1] == x);
        }
        lemma_subtrees_frame(m, m2, kids, above);
        assert(subtrees(m2, grown, above) == subtrees(m2, kids, above) + seq![n]);
        assert(subtree(m2, p) == subtree(m, p).push(n));
    } else {
        let q = path[i + 1];
        assert(kids.last() == q);
        assert(m[kids[kids.len() - 1]].level > m[p].level);
        let front = subtrees(m, kids.drop_last(), above);
        let back = subtree(m, q);
        assert(subtrees(m, kids, above) == front + back);
        assert(back.contains(t));
        let b = choose|b: int| 0 <= b < back.len() && back[b] == t;
        assert(subtree(m, p)[1 + front.len() + b] == t);
        assert(p != t);
        assert(m2[p] == m[p]);
        lemma_subtrees_live(m, kids.drop_last(), above);
        assert forall|x: NodeId| front.contains(x) implies m2[x] == m[x] && ordered_at(m, x) by {
            let k = choose|k: int| 0 <= k < front.len() && front[k] == x;
            assert(subtree(m, p)[k + 1] == x);
        }
        lemma_subtrees_frame(m, m2, kids.drop_last(), above);
        lemma_leaf_comes_last(m, path, n, level, text, i + 1);
        assert(m2[q].level == m[q].level);
        assert(subtrees(m2, kids, above) == front + back.push(n));
        assert(subtree(m2, p) == subtree(m, p).push(n));
    }
}

/// In an ordered forest every section that has a parent sits at a greater
/// level than that parent.
pub proof fn lemma_child_sits_deeper(m: Forest, x: NodeId, p: NodeId)
    requires
        forest_wf(m),
        ordered(m),
        m.contains_key(x),
        m[x].parent == Some(p),
    ensures
        m[x].level > m[p].level >= 0,
{
    assert(node_ok(m, x));
    assert(ordered_at(m, p));
    let j = choose|j: int| 0 <= j < m[p].children.len() && m[p].children[j] == x;
    assert(m[m[p].children[j]].level > m[p].level);
}

/// The text of every section above level 0 starts with as many stars as
/// its level says, and a space follows them; no later line of it is a
/// headline line.
pub proof fn lemma_text_starts_with_level(m: Forest, x: NodeId)
    requires
        forest_wf(m),
        m.contains_key(x),
        m[x].level > 0,
    ensures
        star_run(m[x].text, 0) == m[x].level,
        m[x].level < m[x].text.len(),
        m[x].text[m[x].level as int] == ' ',
        plain_after_first_line(m[x].text),
{
    assert(node_ok(m, x));
    lemma_star_run_bound(m[x].text, 0);
}

/// Whether two nodes have the same children, level and text.
pub open spec fn same_below(a: NodeView, b: NodeView) -> bool {
    a.children == b.children && a.level == b.level && a.text == b.text
}

/// Whether the subtree of `b` in the forest `n` is a copy of the subtree of
/// `a` in the forest `m`: the two have the same level and text and as many
/// children, and each child of `b` heads a copy of the subtree of the child
/// of `a` at the same place.
pub open spec fn same_tree(m: Forest, a: NodeId, n: Forest, b: NodeId) -> bool
    decreases 65536 - m[a].level,
{
    &&& m[a].level == n[b].level
    &&& m[a].text == n[b].text
    &&& m[a].children.len() == n[b].children.len()
    &&& forall|j: int|
        0 <= j < m[a].children.len() ==> m[#[trigger] m[a].children[j]].level > m[a].level
            && same_tree(m, m[a].children[j], n, n[b].children[j])
}

/// No node of a subtree sits below the node that heads it.
pub proof fn lemma_subtree_levels(m: Forest, id: NodeId)
    ensures
        forall|x: NodeId| subtree(m, id).contains(x) ==> m[x].level >= m[id].level,
    decreases 65536 - m[id].level, 0nat,
{
    lemma_subtrees_levels(m, m[id].children, m[id].level as int);
    assert forall|x: NodeId| subtree(m, id).contains(x) implies m[x].level >= m[id].level by {
        let k = choose|k: int| 0 <= k < subtree(m, id).len() && subtree(m, id)[k] == x;
        if k > 0 {
            assert(subtrees(m, m[id].children, m[id].level as int)[k - 1] == x);
            assert(subtrees(m, m[id].children, m[id].level as int).contains(x));
        } else {
            assert(x == id);
        }
    }
}

pub proof fn lemma_subtrees_levels(m: Forest, ids: Seq<NodeId>, above: int)
    ensures
        forall|x: NodeId| subtrees(m, ids, above).contains(x) ==> m[x].level > above,
    decreases 65535 - above, 1 + ids.len(),
{
    if ids.len() == 0 || above >= 65535 {
    } else {
        lemma_subtrees_levels(m, ids.drop_last(), above);
        let rest = subtrees(m, ids.drop_last(), above);
        if m[ids.last()].level > above {
            lemma_subtree_levels(m, ids.last());
            let sub = subtree(m, ids.last());
            assert forall|x: NodeId| subtrees(m, ids, above).contains(x) implies m[x].level
                > above by {
                let k = choose|k: int| 0 <= k < (rest + sub).len() && (rest + sub)[k] == x;
                if k < rest.len() {
                    assert(rest[k] == x);
                    assert(rest.contains(x));
                } else {
                    assert(sub[k - rest.len()] == x);
                    assert(sub.contains(x));
                }
            }
        }
    }
}

/// What the subtree of one of `ids` holds, the subtrees of `ids` hold.
pub proof fn lemma_subtrees_member(m: Forest, ids: Seq<NodeId>, above: int, j: int, x: NodeId)
    requires
        0 <= j < ids.len(),
        m[ids[j]].level > above,
        subtree(m, ids[j]).contains(x),
    ensures
        subtrees(m, ids, above).contains(x),
    decreases ids.len(),
{
    let rest = subtrees(m, ids.drop_last(), above);
    if j == ids.len() - 1 {
        let sub = subtree(m, ids.last());
        let k = choose|k: int| 0 <= k < sub.len() && sub[k] == x;
        assert((rest + sub)[rest.len() + k] == x);
    } else {
        assert(ids.drop_last()[j] == ids[j]);
        lemma_subtrees_member(m, ids.drop_last(), above, j, x);
        let k = choose|k: int| 0 <= k < rest.len() && rest[k] == x;
        if m[ids.last()].level > above {
            assert((rest + subtree(m, ids.last()))[k] == x);
        }
    }
}

/// A copy stays a copy when neither of the two subtrees changes below its
/// head.
pub proof fn lemma_same_tree_frame(
    m: Forest,
    a: NodeId,
    n: Forest,
    b: NodeId,
    m2: Forest,
    n2: Forest,
)
    requires
        same_tree(m, a, n, b),
        forall|x: NodeId| subtree(m, a).contains(x) ==> same_below(#[trigger] m2[x], m[x]),
        forall|x: NodeId| subtree(n, b).contains(x) ==> same_below(#[trigger] n2[x], n[x]),
    ensures
        same_tree(m2, a, n2, b),
    decreases 65536 - m[a].level,
{
    assert(subtree(m, a)[0] == a);
    assert(subtree(n, b)[0] == b);
    assert(same_below(m2[a], m[a]));
    assert(same_below(n2[b], n[b]));
    let ka = m[a].children;
    let kb = n[b].children;
    assert forall|j: int| 0 <= j < m2[a].children.len() implies m2[#[trigger] m2[a].children[j]].level
        > m2[a].level && same_tree(m2, m2[a].children[j], n2, n2[b].children[j]) by {
        let ca = ka[j];
        let cb = kb[j];
        assert(m[m[a].children[j]].level > m[a].level);
        assert(same_tree(m, ca, n, cb));
        assert forall|x: NodeId| subtree(m, ca).contains(x) implies same_below(
            #[trigger] m2[x],
            m[x],
        ) by {
            lemma_subtrees_member(m, ka, m[a].level as int, j, x);
            let k = choose|k: int|
                0 <= k < subtrees(m, ka, m[a].level as int).len() && subtrees(
                    m,
                    ka,
                    m[a].level as int,
                )[k] == x;
            assert(subtree(m, a)[k + 1] == x);
        }
        assert forall|x: NodeId| subtree(n, cb).contains(x) implies same_below(
            #[trigger] n2[x],
            n[x],
        ) by {
            lemma_subtrees_member(n, kb, n[b].level as int, j, x);
            let k = choose|k: int|
                0 <= k < subtrees(n, kb, n[b].level as int).len() && subtrees(
                    n,
                    kb,
                    n[b].level as int,
                )[k] == x;
            assert(subtree(n, b)[k + 1] == x);
        }
        lemma_same_tree_frame(m, ca, n, cb, m2, n2);
        assert(subtree(m, ca)[0] == ca);
        assert(same_below(m2[ca], m[ca]));
    }
}

} // verus!
