//! Parsing a text into a document: a root section and, under it, the
//! headline sections nested by their levels.

use vstd::prelude::*;
use indextree::NodeId;
use crate::arena::Section;
use crate::forest::{
    detached,
    hung_last,
    is_chain,
    loose_node,
    pool_append,
    pool_data,
    pool_new_node,
    reaches_up,
    Arena,
    Forest,
    SectionData,
};
use crate::outline::{
    all_texts,
    ends_in_line_feed,
    headline_span,
    lemma_headline_span,
    root_is_absent,
    root_text,
    section_texts,
};
use crate::structure::{
    lemma_level_of_slice, lemma_line_end, lemma_line_end_slice, lemma_next_headline,
    lemma_no_headline_in_slice, lemma_plain_from_start, lemma_star_run_bound, level_at, level_of,
    line_end, line_end_of, parse_section, plain_after_first_line, section_span,
};
use crate::text::copy_range;
use crate::tree_model::{
    forest_wf,
    last_child_path,
    lemma_leaf_comes_last,
    node_ok,
    ordered,
    ordered_at,
    subtree,
    texts_of,
    with_leaf,
};

verus! {

/// A parsed document: its root section and the two facts about the text
/// that the sections themselves do not hold.
#[derive(Clone, Copy, Debug)]
pub struct Document {
    pub root: Section,
    /// The text started with a headline, or was empty: the root section
    /// stands for no text at all.
    pub empty_root_section: bool,
    /// The text ended in a line feed.
    pub terminal_newline: bool,
}

/// The levels of the nodes `ids`.
pub open spec fn levels_of(m: Forest, ids: Seq<NodeId>) -> Seq<int> {
    Seq::new(ids.len(), |i: int| m[ids[i]].level as int)
}

/// The last position at or before `j` whose level is below that at `k`, or
/// -1 where there is none.
pub open spec fn nearest_shallower(levels: Seq<int>, k: int, j: int) -> int
    decreases j + 1,
{
    if j < 0 || j >= levels.len() || k < 0 || k >= levels.len() {
        -1
    } else if levels[j] < levels[k] {
        j
    } else {
        nearest_shallower(levels, k, j - 1)
    }
}

/// The parent of the node at position `k` of `order`.
pub open spec fn parent_at(m: Forest, order: Seq<NodeId>, k: int) -> Option<NodeId> {
    m[order[k]].parent
}

/// The level of the node at position `k` of `order`.
pub open spec fn level_in(m: Forest, order: Seq<NodeId>, k: int) -> int {
    m[order[k]].level as int
}

/// Every node of `order` but the first has as its parent the last node
/// before it that sits at a lower level.
pub open spec fn nested_by_level(m: Forest, order: Seq<NodeId>) -> bool {
    forall|k: int|
        1 <= k < order.len() ==> nearest_shallower(levels_of(m, order), k, k - 1) >= 0
            && #[trigger] parent_at(m, order, k) == Some(
            order[nearest_shallower(levels_of(m, order), k, k - 1)],
        )
}

proof fn lemma_nearest_found(levels: Seq<int>, k: int, j: int, from: int)
    requires
        0 <= j <= from < k < levels.len(),
        levels[j] < levels[k],
        forall|i: int| j < i < k ==> levels[i] >= levels[k],
    ensures
        nearest_shallower(levels, k, from) == j,
    decreases from - j,
{
    if from > j {
        lemma_nearest_found(levels, k, j, from - 1);
    }
}

proof fn lemma_nearest_bound(levels: Seq<int>, k: int, j: int)
    requires
        -1 <= j < k,
    ensures
        nearest_shallower(levels, k, j) <= j,
        nearest_shallower(levels, k, j) >= -1,
    decreases j + 1,
{
    if !(j < 0 || j >= levels.len() || k < 0 || k >= levels.len()) && levels[j] >= levels[k] {
        lemma_nearest_bound(levels, k, j - 1);
    }
}

proof fn lemma_nearest_prefix(levels: Seq<int>, more: Seq<int>, k: int, j: int)
    requires
        -1 <= j < k < levels.len(),
        more.len() >= levels.len(),
        forall|i: int| 0 <= i < levels.len() ==> more[i] == levels[i],
    ensures
        nearest_shallower(more, k, j) == nearest_shallower(levels, k, j),
    decreases j + 1,
{
    if j >= 0 && levels[j] >= levels[k] {
        lemma_nearest_prefix(levels, more, k, j - 1);
    }
}

/// The forest `m` is `before` with the nodes `order` added: nothing that was
/// there changed, each new node is live and sits below its children, and the
/// first of them is a loose node at level 0.
pub open spec fn grown(before: Forest, m: Forest, order: Seq<NodeId>) -> bool {
    &&& forest_wf(m)
    &&& ordered(before) ==> ordered(m)
    &&& forall|x: NodeId| #[trigger]
        before.contains_key(x) ==> m.contains_key(x) && m[x] == before[x]
    &&& forall|x: NodeId| #[trigger]
        m.contains_key(x) ==> before.contains_key(x) || order.contains(x)
    &&& forall|k: int|
        0 <= k < order.len() ==> !before.contains_key(#[trigger] order[k]) && m.contains_key(
            order[k],
        ) && ordered_at(m, order[k])
    &&& order.no_duplicates()
    &&& order.len() >= 1
    &&& m[order[0]].level == 0
    &&& m[order[0]].parent is None
}

/// `stack` leads from the first node of `order` down through last children,
/// `starts` says where in `order` each of its nodes stands, and the subtree
/// of each is what follows it in `order`.
pub open spec fn on_path(m: Forest, order: Seq<NodeId>, stack: Seq<NodeId>, starts: Seq<int>) -> bool {
    &&& stack.len() == starts.len()
    &&& stack.len() >= 1
    &&& starts[0] == 0
    &&& forall|i: int|
        0 <= i < stack.len() ==> 0 <= #[trigger] starts[i] < order.len() && order[starts[i]]
            == stack[i]
    &&& forall|i: int, j: int|
        0 <= i < j < stack.len() ==> #[trigger] starts[i] < #[trigger] starts[j]
    &&& last_child_path(m, stack)
    &&& forall|i: int|
        0 <= i < stack.len() ==> #[trigger] subtree(m, stack[i]) == order.skip(starts[i])
}

/// Between two neighbours of the path no node sits below the deeper of the
/// two, after the last node of the path none sits below `floor`, and every
/// node hangs under the last shallower node before it.
pub open spec fn levels_fit(
    m: Forest,
    order: Seq<NodeId>,
    stack: Seq<NodeId>,
    starts: Seq<int>,
    floor: int,
) -> bool {
    &&& forall|i: int, q: int|
        0 <= i < stack.len() - 1 && #[trigger] starts[i] < q < starts[i + 1] ==> #[trigger] level_in(
            m,
            order,
            q,
        ) >= m[stack[i + 1]].level
    &&& forall|q: int| starts.last() < q < order.len() ==> #[trigger] level_in(m, order, q) >= floor
    &&& nested_by_level(m, order)
}

/// The state of the parser between two headlines: `order` holds the
/// sections made so far, whose texts are those of the text up to `offset`.
#[verifier::opaque]
pub open spec fn building(
    before: Forest,
    m: Forest,
    s: Seq<char>,
    offset: int,
    order: Seq<NodeId>,
    stack: Seq<NodeId>,
    starts: Seq<int>,
    floor: int,
) -> bool {
    &&& grown(before, m, order)
    &&& on_path(m, order, stack, starts)
    &&& levels_fit(m, order, stack, starts, floor)
    &&& texts_of(m, order) + section_texts(s, offset) == all_texts(s)
}

proof fn lemma_pop_path(m: Forest, order: Seq<NodeId>, stack: Seq<NodeId>, starts: Seq<int>)
    requires
        on_path(m, order, stack, starts),
        stack.len() >= 2,
    ensures
        on_path(m, order, stack.drop_last(), starts.drop_last()),
{
    let stack2 = stack.drop_last();
    let starts2 = starts.drop_last();
    assert forall|i: int| 0 <= i < stack2.len() implies 0 <= #[trigger] starts2[i] < order.len()
        && order[starts2[i]] == stack2[i] by {
        assert(starts2[i] == starts[i]);
    }
    assert forall|i: int, j: int| 0 <= i < j < stack2.len() implies #[trigger] starts2[i]
        < #[trigger] starts2[j] by {
        assert(starts[i] < starts[j]);
    }
    assert forall|i: int| 0 <= i < stack2.len() implies #[trigger] subtree(m, stack2[i])
        == order.skip(starts2[i]) by {
        assert(subtree(m, stack[i]) == order.skip(starts[i]));
    }
    assert(last_child_path(m, stack2)) by {
        assert forall|i: int| 0 <= i < stack2.len() implies m.contains_key(
            #[trigger] stack2[i],
        ) by {
            assert(m.contains_key(stack[i]));
        }
        assert forall|i: int| 0 <= i < stack2.len() - 1 implies m[#[trigger] stack2[i]].children.len()
            > 0 && m[stack2[i]].children.last() == stack2[i + 1] by {
            assert(m[stack[i]].children.last() == stack[i + 1]);
        }
    }
}

proof fn lemma_pop_levels(
    m: Forest,
    order: Seq<NodeId>,
    stack: Seq<NodeId>,
    starts: Seq<int>,
    floor: int,
)
    requires
        on_path(m, order, stack, starts),
        levels_fit(m, order, stack, starts, floor),
        stack.len() >= 2,
        m[stack.last()].level >= floor,
    ensures
        levels_fit(m, order, stack.drop_last(), starts.drop_last(), floor),
{
    let stack2 = stack.drop_last();
    let starts2 = starts.drop_last();
    assert forall|i: int, q: int|
        0 <= i < stack2.len() - 1 && #[trigger] starts2[i] < q < starts2[i + 1] implies #[trigger] level_in(
        m,
        order,
        q,
    ) >= m[stack2[i + 1]].level by {
        assert(starts[i] < q < starts[i + 1]);
        assert(starts2[i] == starts[i]);
    }
    assert forall|q: int| starts2.last() < q < order.len() implies #[trigger] level_in(m, order, q)
        >= floor by {
        let top = stack.len() - 1;
        assert(starts2.last() == starts[top - 1]);
        assert(order[starts[top]] == stack[top]);
        if q < starts[top] {
            assert(starts[top - 1] < q < starts[top - 1 + 1]);
            assert(level_in(m, order, q) >= m[stack[top - 1 + 1]].level);
        } else if q > starts[top] {
            assert(level_in(m, order, q) >= floor);
        }
    }
}

proof fn lemma_building_pop(
    before: Forest,
    m: Forest,
    s: Seq<char>,
    offset: int,
    order: Seq<NodeId>,
    stack: Seq<NodeId>,
    starts: Seq<int>,
    floor: int,
)
    requires
        building(before, m, s, offset, order, stack, starts, floor),
        stack.len() >= 2,
        m[stack.last()].level >= floor,
    ensures
        building(before, m, s, offset, order, stack.drop_last(), starts.drop_last(), floor),
{
    reveal(building);
    lemma_pop_path(m, order, stack, starts);
    lemma_pop_levels(m, order, stack, starts, floor);
}

/// Hanging a new leaf under a live node keeps every node linked
/// consistently.
proof fn lemma_leaf_keeps_links(m: Forest, t: NodeId, n: NodeId, level: u16, text: Seq<char>)
    requires
        forest_wf(m),
        m.contains_key(t),
        !m.contains_key(n),
        level_at(text, 0) == level,
        plain_after_first_line(text),
        level > m[t].level,
    ensures
        forest_wf(with_leaf(m, t, n, level, text)),
        forall|x: NodeId|
            m.contains_key(x) && ordered_at(m, x) ==> #[trigger] ordered_at(
                with_leaf(m, t, n, level, text),
                x,
            ),
        ordered_at(with_leaf(m, t, n, level, text), n),
{
    let m2 = with_leaf(m, t, n, level, text);
    assert(node_ok(m, t));
    assert forall|x: NodeId| m2.contains_key(x) implies #[trigger] node_ok(m2, x) by {
        if x == n {
            assert(m2[t].children.last() == n);
        } else {
            assert(m.contains_key(x));
            assert(node_ok(m, x));
            if x == t {
                assert forall|j: int| 0 <= j < m2[t].children.len() implies m2.contains_key(
                    #[trigger] m2[t].children[j],
                ) && m2[m2[t].children[j]].parent == Some(t) by {
                    if j < m[t].children.len() {
                        assert(m.contains_key(m[t].children[j]));
                    }
                }
                assert(m2[t].children.no_duplicates()) by {
                    assert forall|a: int, b: int|
                        0 <= a < m2[t].children.len() && 0 <= b < m2[t].children.len() && a
                            != b implies m2[t].children[a] != m2[t].children[b] by {
                        if a < m[t].children.len() {
                            assert(m.contains_key(m[t].children[a]));
                        }
                        if b < m[t].children.len() {
                            assert(m.contains_key(m[t].children[b]));
                        }
                    }
                }
            } else {
                assert(m2[x] == m[x]);
                assert forall|j: int| 0 <= j < m2[x].children.len() implies m2.contains_key(
                    #[trigger] m2[x].children[j],
                ) && m2[m2[x].children[j]].parent == Some(x) by {
                    assert(m.contains_key(m[x].children[j]));
                }
            }
            if let Some(p) = m[x].parent {
                if p == t {
                    let k = choose|k: int| 0 <= k < m[t].children.len() && m[t].children[k] == x;
                    assert(m2[t].children[k] == x);
                }
            }
        }
    }
    assert forall|x: NodeId| m.contains_key(x) && ordered_at(m, x) implies #[trigger] ordered_at(
        m2,
        x,
    ) by {
        assert(node_ok(m, x));
        assert forall|j: int| 0 <= j < m2[x].children.len() implies m2[#[trigger] m2[x].children[j]].level
            > m2[x].level by {
            if j < m[x].children.len() {
                assert(m.contains_key(m[x].children[j]));
                assert(m[m[x].children[j]].level > m[x].level);
            }
        }
    }
}

proof fn lemma_push_grown(
    before: Forest,
    m: Forest,
    order: Seq<NodeId>,
    t: NodeId,
    n: NodeId,
    level: u16,
    text: Seq<char>,
)
    requires
        grown(before, m, order),
        order.contains(t),
        !m.contains_key(n),
        level_at(text, 0) == level,
        plain_after_first_line(text),
        level > m[t].level,
    ensures
        grown(before, with_leaf(m, t, n, level, text), order.push(n)),
{
    let m2 = with_leaf(m, t, n, level, text);
    let order2 = order.push(n);
    let kt = choose|k: int| 0 <= k < order.len() && order[k] == t;
    assert(m.contains_key(order[kt]));
    lemma_leaf_keeps_links(m, t, n, level, text);
    assert(!order.contains(n)) by {
        if order.contains(n) {
            let k = choose|k: int| 0 <= k < order.len() && order[k] == n;
            assert(m.contains_key(order[k]));
        }
    }
    assert forall|k: int| 0 <= k < order2.len() implies !before.contains_key(
        #[trigger] order2[k],
    ) && m2.contains_key(order2[k]) && ordered_at(m2, order2[k]) by {
        if k < order.len() {
            assert(order2[k] == order[k]);
            assert(m.contains_key(order[k]));
            assert(ordered_at(m, order[k]));
            assert(ordered_at(m2, order[k]));
        } else {
            assert(order2[k] == n);
            assert(!before.contains_key(n));
        }
    }
    assert forall|x: NodeId| #[trigger] m2.contains_key(x) implies before.contains_key(x)
        || order2.contains(x) by {
        if x == n {
            assert(order2[order.len() as int] == n);
        } else if !before.contains_key(x) {
            assert(m.contains_key(x));
            assert(order.contains(x));
            let k = choose|k: int| 0 <= k < order.len() && order[k] == x;
            assert(order2[k] == x);
        }
    }
    assert forall|x: NodeId| #[trigger] before.contains_key(x) implies m2.contains_key(x) && m2[x]
        == before[x] by {
        if x == t {
            assert(order[kt] == t);
        }
    }
    assert(order2.no_duplicates());
    assert(order2[0] == order[0]);
    assert(m2[order[0]].level == 0 && m2[order[0]].parent is None) by {
        assert(m.contains_key(order[0]));
    }
    if ordered(before) {
        assert forall|x: NodeId| m2.contains_key(x) implies #[trigger] ordered_at(m2, x) by {
            if x != n {
                assert(ordered_at(m, x));
            }
        }
    }
}

proof fn lemma_push_path(
    before: Forest,
    m: Forest,
    order: Seq<NodeId>,
    stack: Seq<NodeId>,
    starts: Seq<int>,
    n: NodeId,
    level: u16,
    text: Seq<char>,
)
    requires
        grown(before, m, order),
        on_path(m, order, stack, starts),
        !m.contains_key(n),
        level > m[stack.last()].level,
    ensures
        on_path(
            with_leaf(m, stack.last(), n, level, text),
            order.push(n),
            stack.push(n),
            starts.push(order.len() as int),
        ),
{
    let t = stack.last();
    let m2 = with_leaf(m, t, n, level, text);
    let order2 = order.push(n);
    let stack2 = stack.push(n);
    let starts2 = starts.push(order.len() as int);
    assert forall|i: int| 0 <= i < stack2.len() implies 0 <= #[trigger] starts2[i] < order2.len()
        && order2[starts2[i]] == stack2[i] by {
        if i < stack.len() {
            assert(starts2[i] == starts[i]);
        }
    }
    assert forall|i: int, j: int| 0 <= i < j < stack2.len() implies #[trigger] starts2[i]
        < #[trigger] starts2[j] by {
        assert(starts2[i] == starts[i]);
        if j < stack.len() {
            assert(starts2[j] == starts[j]);
        }
    }
    assert(last_child_path(m2, stack2)) by {
        assert forall|i: int| 0 <= i < stack2.len() implies m2.contains_key(
            #[trigger] stack2[i],
        ) by {
            if i < stack.len() {
                assert(m.contains_key(stack[i]));
            }
        }
        assert forall|i: int| 0 <= i < stack2.len() - 1 implies m2[#[trigger] stack2[i]].children.len()
            > 0 && m2[stack2[i]].children.last() == stack2[i + 1] by {
            if i < stack.len() - 1 {
                assert(starts[i] < starts[stack.len() - 1]);
                assert(stack[i] != t);
                assert(m.contains_key(stack[i]));
                assert(m2[stack[i]] == m[stack[i]]);
                assert(m[stack[i]].children.last() == stack[i + 1]);
            }
        }
    }
    assert forall|k: int| 0 <= k < stack.len() implies (#[trigger] subtree(
        m,
        stack[k],
    )).no_duplicates() && subtree(m, stack[k]).contains(t) by {
        let tail = order.skip(starts[k]);
        assert(subtree(m, stack[k]) == tail);
        let at = starts[stack.len() - 1];
        assert(starts[k] <= at);
        assert(tail[at - starts[k]] == t);
    }
    assert forall|k: int, x: NodeId|
        0 <= k < stack.len() && (#[trigger] subtree(m, stack[k])).contains(x) implies #[trigger] ordered_at(
        m,
        x,
    ) by {
        let tail = order.skip(starts[k]);
        assert(subtree(m, stack[k]) == tail);
        let a = choose|a: int| 0 <= a < tail.len() && tail[a] == x;
        assert(order[starts[k] + a] == x);
    }
    assert forall|i: int| 0 <= i < stack2.len() implies #[trigger] subtree(m2, stack2[i])
        == order2.skip(starts2[i]) by {
        if i < stack.len() {
            lemma_leaf_comes_last(m, stack, n, level, text, i);
            assert(subtree(m, stack[i]) == order.skip(starts[i]));
            assert(order.skip(starts[i]).push(n) == order2.skip(starts[i]));
        } else {
            assert(m2[n].children.len() == 0);
            assert(subtree(m2, n) == seq![n]);
            assert(order2.skip(order.len() as int) == seq![n]);
        }
    }
}

proof fn lemma_push_levels(
    before: Forest,
    m: Forest,
    order: Seq<NodeId>,
    stack: Seq<NodeId>,
    starts: Seq<int>,
    n: NodeId,
    level: u16,
    text: Seq<char>,
)
    requires
        grown(before, m, order),
        on_path(m, order, stack, starts),
        levels_fit(m, order, stack, starts, level as int),
        !m.contains_key(n),
        level > m[stack.last()].level,
    ensures
        levels_fit(
            with_leaf(m, stack.last(), n, level, text),
            order.push(n),
            stack.push(n),
            starts.push(order.len() as int),
            0,
        ),
{
    let t = stack.last();
    let m2 = with_leaf(m, t, n, level, text);
    let order2 = order.push(n);
    let stack2 = stack.push(n);
    let starts2 = starts.push(order.len() as int);
    let levels = levels_of(m, order);
    let levels2 = levels_of(m2, order2);
    let last = stack.len() - 1;
    assert(m.contains_key(t));
    assert forall|i: int| 0 <= i < order.len() implies levels2[i] == levels[i] by {
        assert(m.contains_key(order[i]));
        assert(order2[i] == order[i]);
    }
    assert forall|i: int, q: int|
        0 <= i < stack2.len() - 1 && #[trigger] starts2[i] < q < starts2[i + 1] implies #[trigger] level_in(
        m2,
        order2,
        q,
    ) >= m2[stack2[i + 1]].level by {
        assert(starts2[i] == starts[i]);
        assert(m.contains_key(order[q]));
        assert(order2[q] == order[q]);
        if i < last {
            assert(starts2[i + 1] == starts[i + 1]);
            assert(m.contains_key(stack[i + 1]));
            assert(level_in(m, order, q) >= m[stack[i + 1]].level);
        } else {
            assert(level_in(m, order, q) >= level);
        }
    }
    assert forall|q: int| starts2.last() < q < order2.len() implies #[trigger] level_in(
        m2,
        order2,
        q,
    ) >= 0 by {}
    assert(nested_by_level(m2, order2)) by {
        assert forall|k: int| 1 <= k < order2.len() implies nearest_shallower(levels2, k, k - 1)
            >= 0 && #[trigger] parent_at(m2, order2, k) == Some(
            order2[nearest_shallower(levels2, k, k - 1)],
        ) by {
            if k < order.len() {
                lemma_nearest_prefix(levels, levels2, k, k - 1);
                assert(m.contains_key(order[k]));
                assert(order2[k] == order[k]);
                assert(m2[order[k]].parent == m[order[k]].parent);
                let idx = nearest_shallower(levels, k, k - 1);
                assert(parent_at(m, order, k) == Some(order[idx]));
                assert(0 <= idx);
                lemma_nearest_bound(levels, k, k - 1);
                assert(order2[idx] == order[idx]);
                assert(parent_at(m2, order2, k) == parent_at(m, order, k));
            } else {
                assert(order2[k] == n);
                assert(parent_at(m2, order2, k) == Some(t));
                let j = starts[last];
                assert(order[j] == t);
                assert(levels2[j] == m[t].level);
                assert forall|i: int| j < i < k implies levels2[i] >= levels2[k] by {
                    assert(level_in(m, order, i) >= level);
                }
                lemma_nearest_found(levels2, k, j, k - 1);
                assert(order2[j] == t);
            }
        }
    }
}

/// The text of a headline section holds no headline line after its first
/// line.
proof fn lemma_headline_text_is_plain(s: Seq<char>, at: int)
    requires
        0 <= at < s.len(),
        level_at(s, at) > 0,
    ensures
        plain_after_first_line(s.subrange(at, headline_span(s, at).1)),
{
    let span = headline_span(s, at);
    let t = s.subrange(at, span.1);
    lemma_headline_span(s, at);
    lemma_line_end(s, at);
    lemma_line_end_slice(s, at, span.1, at);
    let stop = line_end(s, at);
    lemma_next_headline(s, stop);
    if stop < span.1 {
        lemma_no_headline_in_slice(s, at, span.1, stop);
    }
}

/// The text before the first headline holds no headline line.
proof fn lemma_root_text_is_plain(s: Seq<char>)
    ensures
        plain_after_first_line(root_text(s)),
        level_at(root_text(s), 0) == 0,
{
    let span = section_span(s, 0);
    lemma_next_headline(s, 0);
    lemma_level_of_slice(s, 0, span.1);
    lemma_star_run_bound(root_text(s), 0);
    lemma_no_headline_in_slice(s, 0, span.1, 0);
    lemma_plain_from_start(root_text(s));
}

proof fn lemma_building_push(
    before: Forest,
    m: Forest,
    s: Seq<char>,
    offset: int,
    order: Seq<NodeId>,
    stack: Seq<NodeId>,
    starts: Seq<int>,
    n: NodeId,
)
    requires
        building(before, m, s, offset, order, stack, starts, level_at(s, offset)),
        0 <= offset < s.len(),
        level_at(s, offset) > 0,
        level_at(s, offset) > m[stack.last()].level,
        !m.contains_key(n),
    ensures
        building(
            before,
            with_leaf(
                m,
                stack.last(),
                n,
                level_at(s, offset) as u16,
                s.subrange(offset, headline_span(s, offset).1),
            ),
            s,
            headline_span(s, offset).0,
            order.push(n),
            stack.push(n),
            starts.push(order.len() as int),
            0,
        ),
{
    reveal(building);
    let t = stack.last();
    let level = level_at(s, offset) as u16;
    let span = headline_span(s, offset);
    let text = s.subrange(offset, span.1);
    let m2 = with_leaf(m, t, n, level, text);
    let order2 = order.push(n);
    lemma_headline_span(s, offset);
    lemma_level_of_slice(s, offset, span.1);
    lemma_headline_text_is_plain(s, offset);
    assert(order.contains(t)) by {
        assert(order[starts[stack.len() - 1]] == t);
    }
    lemma_push_grown(before, m, order, t, n, level, text);
    lemma_push_path(before, m, order, stack, starts, n, level, text);
    lemma_push_levels(before, m, order, stack, starts, n, level, text);
    assert(section_texts(s, offset) == seq![text] + section_texts(s, span.0));
    assert(texts_of(m2, order2) == texts_of(m, order).push(text)) by {
        assert forall|k: int| 0 <= k < order.len() implies m2[order[k]].text == m[order[k]].text by {
            assert(m.contains_key(order[k]));
        }
        assert(texts_of(m2, order2) =~= texts_of(m, order).push(text));
    }
    assert(texts_of(m2, order2) + section_texts(s, span.0) == texts_of(m, order) + section_texts(
        s,
        offset,
    ));
}

proof fn lemma_building_start(before: Forest, s: Seq<char>, root: NodeId)
    requires
        forest_wf(before),
        !before.contains_key(root),
    ensures
        building(
            before,
            before.insert(root, loose_node(0, root_text(s))),
            s,
            section_span(s, 0).0,
            seq![root],
            seq![root],
            seq![0int],
            0,
        ),
{
    reveal(building);
    let m = before.insert(root, loose_node(0, root_text(s)));
    let order = seq![root];
    lemma_next_headline(s, 0);
    lemma_level_of_slice(s, 0, section_span(s, 0).1);
    lemma_root_text_is_plain(s);
    assert forall|x: NodeId| m.contains_key(x) implies #[trigger] node_ok(m, x) by {
        if x != root {
            assert(node_ok(before, x));
            assert forall|j: int| 0 <= j < m[x].children.len() implies m.contains_key(
                #[trigger] m[x].children[j],
            ) && m[m[x].children[j]].parent == Some(x) by {
                assert(before.contains_key(before[x].children[j]));
            }
        }
    }
    assert forall|x: NodeId| before.contains_key(x) && ordered_at(before, x) implies #[trigger] ordered_at(
        m,
        x,
    ) by {
        assert(node_ok(before, x));
        assert forall|j: int| 0 <= j < m[x].children.len() implies m[#[trigger] m[x].children[j]].level
            > m[x].level by {
            assert(before.contains_key(before[x].children[j]));
            assert(before[before[x].children[j]].level > before[x].level);
        }
    }
    assert(ordered_at(m, root));
    if ordered(before) {
        assert forall|x: NodeId| m.contains_key(x) implies #[trigger] ordered_at(m, x) by {
            if x != root {
                assert(ordered_at(before, x));
            }
        }
    }
    assert forall|x: NodeId| #[trigger] m.contains_key(x) implies before.contains_key(x)
        || order.contains(x) by {
        if x == root {
            assert(order[0] == root);
        }
    }
    assert(m[root].children.len() == 0);
    assert(subtree(m, root) == seq![root]);
    assert(order.skip(0) == order);
    assert(texts_of(m, order) == seq![root_text(s)]);
}

proof fn lemma_building_done(
    before: Forest,
    m: Forest,
    s: Seq<char>,
    offset: int,
    order: Seq<NodeId>,
    stack: Seq<NodeId>,
    starts: Seq<int>,
    floor: int,
)
    requires
        building(before, m, s, offset, order, stack, starts, floor),
        offset >= s.len() || level_at(s, offset) == 0,
    ensures
        texts_of(m, subtree(m, order[0])) == all_texts(s),
        nested_by_level(m, subtree(m, order[0])),
        sound_below(m, order[0]),
{
    reveal(building);
    assert(section_texts(s, offset).len() == 0);
    assert(order[starts[0]] == stack[0]);
    assert(subtree(m, stack[0]) == order.skip(starts[0]));
    assert(order.skip(0) == order);
    assert(texts_of(m, order) + section_texts(s, offset) == texts_of(m, order));
}

/// Every node of the subtree of `id` is live and sits below its children.
pub open spec fn sound_below(m: Forest, id: NodeId) -> bool {
    forall|k: int|
        0 <= k < subtree(m, id).len() ==> m.contains_key(#[trigger] subtree(m, id)[k])
            && ordered_at(m, subtree(m, id)[k])
}

/// What the parser's state says of the forest and of the top of its stack.
proof fn lemma_building_facts(
    before: Forest,
    m: Forest,
    s: Seq<char>,
    offset: int,
    order: Seq<NodeId>,
    stack: Seq<NodeId>,
    starts: Seq<int>,
    floor: int,
)
    requires
        building(before, m, s, offset, order, stack, starts, floor),
    ensures
        forest_wf(m),
        ordered(before) ==> ordered(m),
        forall|x: NodeId| #[trigger]
            before.contains_key(x) ==> m.contains_key(x) && m[x] == before[x],
        stack.len() >= 1,
        starts.len() == stack.len(),
        order.len() >= 1,
        stack[0] == order[0],
        m.contains_key(stack.last()),
        m.contains_key(order[0]),
        !before.contains_key(order[0]),
        m[order[0]].level == 0,
        m[order[0]].parent is None,
        forall|f: int|
            starts.last() == order.len() - 1 ==> #[trigger] building(
                before,
                m,
                s,
                offset,
                order,
                stack,
                starts,
                f,
            ),
{
    reveal(building);
    assert(order[starts[0]] == stack[0]);
    assert(m.contains_key(stack[stack.len() - 1]));
}

/// What parsing `s` promises of the document and of the forest that holds
/// it: the root is a loose section at level 0, the sections of its subtree
/// hold, in order, the text before the first headline and the texts of the
/// headline sections, each of these hangs under the last section before it
/// that sits at a lower level, and the two flags say how the text started
/// and ended.
pub open spec fn is_parse_of(m: Forest, doc: Document, s: Seq<char>) -> bool {
    &&& m.contains_key(doc.root.id)
    &&& m[doc.root.id].level == 0
    &&& m[doc.root.id].parent is None
    &&& texts_of(m, subtree(m, doc.root.id)) == all_texts(s)
    &&& nested_by_level(m, subtree(m, doc.root.id))
    &&& sound_below(m, doc.root.id)
    &&& doc.empty_root_section == root_is_absent(s)
    &&& doc.terminal_newline == ends_in_line_feed(s)
}

proof fn lemma_fresh_leaf_is_no_ancestor(m: Forest, t: NodeId, n: NodeId)
    requires
        forest_wf(m),
        m.contains_key(t),
        !m.contains_key(n),
    ensures
        !reaches_up(m.insert(n, loose_node(m[n].level, m[n].text)), t, n),
        forall|level: u16, text: Seq<char>| !reaches_up(#[trigger] m.insert(n, loose_node(level, text)), t, n),
{
    assert forall|level: u16, text: Seq<char>| !reaches_up(
        #[trigger] m.insert(n, loose_node(level, text)),
        t,
        n,
    ) by {
        let m1 = m.insert(n, loose_node(level, text));
        if reaches_up(m1, t, n) {
            let path = choose|path: Seq<NodeId>|
                is_chain(m1, path) && path[0] == t && path.last() == n;
            let y = path[path.len() - 2];
            assert(m1.contains_key(y) && m1[y].parent == Some(path[path.len() - 2 + 1]));
            assert(node_ok(m, y));
        }
    }
}

/// Parses `input` into a document whose sections are added to the arena.
pub fn parse_document(arena: &mut Arena, input: &Vec<char>) -> (doc: Document)
    requires
        old(arena).wf(),
    ensures
        final(arena).wf(),
        old(arena).ordered() ==> final(arena).ordered(),
        is_parse_of(final(arena)@, doc, input@),
        !old(arena)@.contains_key(doc.root.id),
        forall|x: NodeId| #[trigger]
            old(arena)@.contains_key(x) ==> final(arena)@.contains_key(x) && final(arena)@[x] == old(arena)@[x],
{
    let ghost before = arena@;
    let ghost s = input@;
    let first = parse_section(input, 0);
    let empty_root_section = first.0 == 0;
    let root_id = pool_new_node(arena, SectionData { level: 0, text: copy_range(input, 0, first.1) });
    let mut stack: Vec<NodeId> = Vec::new();
    stack.push(root_id);
    let mut offset: usize = first.0;
    let mut level: u16 = level_of(input, offset);
    let ghost mut order: Seq<NodeId> = seq![root_id];
    let ghost mut starts: Seq<int> = seq![0int];
    proof {
        lemma_building_start(before, s, root_id);
        lemma_next_headline(s, 0);
        assert(stack@ == seq![root_id]);
    }
    let ghost m0 = arena@;
    while level > 0
        invariant
            s == input@,
            offset <= s.len(),
            level == level_at(s, offset as int),
            forest_wf(before),
            building(before, arena@, s, offset as int, order, stack@, starts, 0),
            starts.last() == order.len() - 1,
            order[0] == root_id,
        decreases s.len() - offset,
    {
        proof {
            lemma_star_run_bound(s, offset as int);
            lemma_headline_span(s, offset as int);
        }
        let stop = line_end_of(input, offset);
        let span = parse_section(input, stop);
        let text = copy_range(input, offset, span.1);
        proof {
            lemma_building_facts(before, arena@, s, offset as int, order, stack@, starts, 0);
        }
        let mut top = stack[stack.len() - 1];
        while level <= pool_data(arena, top).level
            invariant
                building(before, arena@, s, offset as int, order, stack@, starts, level as int),
                top == stack@.last(),
                arena@.contains_key(top),
                stack@.len() >= 1,
                level > 0,
            decreases stack.len(),
        {
            proof {
                lemma_building_facts(
                    before,
                    arena@,
                    s,
                    offset as int,
                    order,
                    stack@,
                    starts,
                    level as int,
                );
                lemma_building_pop(
                    before,
                    arena@,
                    s,
                    offset as int,
                    order,
                    stack@,
                    starts,
                    level as int,
                );
                starts = starts.drop_last();
            }
            stack.pop();
            proof {
                lemma_building_facts(
                    before,
                    arena@,
                    s,
                    offset as int,
                    order,
                    stack@,
                    starts,
                    level as int,
                );
            }
            top = stack[stack.len() - 1];
        }
        let ghost m = arena@;
        proof {
            lemma_building_facts(before, m, s, offset as int, order, stack@, starts, level as int);
        }
        let node_id = pool_new_node(arena, SectionData { level, text });
        proof {
            lemma_fresh_leaf_is_no_ancestor(m, top, node_id);
            let m1 = m.insert(node_id, loose_node(level, text@));
            assert(!reaches_up(m1, top, node_id));
            assert(detached(m1, node_id) == m1);
            assert(hung_last(m1, top, node_id) =~= with_leaf(
                m,
                top,
                node_id,
                level,
                s.subrange(offset as int, span.1 as int),
            ));
        }
        pool_append(arena, top, node_id);
        proof {
            lemma_building_push(before, m, s, offset as int, order, stack@, starts, node_id);
            starts = starts.push(order.len() as int);
            order = order.push(node_id);
        }
        stack.push(node_id);
        offset = span.0;
        level = level_of(input, offset);
    }
    proof {
        lemma_building_facts(before, arena@, s, offset as int, order, stack@, starts, 0);
        lemma_building_done(before, arena@, s, offset as int, order, stack@, starts, 0);
        if level_at(s, 0) > 0 {
            lemma_star_run_bound(s, 0);
        }
    }
    let terminal_newline = input.len() > 0 && input[input.len() - 1] == '\n';
    Document { root: Section { id: root_id }, empty_root_section, terminal_newline }
}

} // verus!
