//! The arena that owns every section of every document parsed into it.

use vstd::prelude::*;
use indextree::NodeId;
use crate::forest::{
    forest,
    no_nodes,
    pool_children,
    pool_contains,
    pool_data,
    pool_new,
    pool_new_node,
    pool_set_data,
    Arena,
    Forest,
    NodeView,
    SectionData,
};

use crate::parse::{is_parse_of, parse_document, Document};
use crate::structure::{
    lemma_plain_with_prefix, lemma_star_run_bound, lemma_star_run_slice, level_at,
    plain_after_first_line, star_run,
};
use crate::text::{chars_of, copy_range, push_all};
use crate::tree_model::{forest_wf, node_ok, ordered, ordered_at};

verus! {

/// A handle on one section of an arena.
#[derive(Clone, Copy, Debug, PartialEq, Eq, Hash)]
pub struct Section {
    pub id: NodeId,
}

impl View for Arena {
    type V = Forest;

    open spec fn view(&self) -> Forest {
        forest(*self)
    }
}

/// `n` stars.
pub open spec fn stars(n: nat) -> Seq<char> {
    Seq::new(n, |i: int| '*')
}

/// The text of a section that moved from the level `from` up to `to`: more
/// stars in front, and a space after them where there were none before.
pub open spec fn raised_text(text: Seq<char>, from: u16, to: u16) -> Seq<char> {
    stars((to - from) as nat) + (if from == 0 {
        seq![' ']
    } else {
        Seq::empty()
    }) + text
}

/// The text of a section that moved from the level `from` down to `to`:
/// fewer stars in front.
pub open spec fn lowered_text(text: Seq<char>, from: u16, to: u16) -> Seq<char> {
    text.skip(from - to)
}

/// The node at another level, its text changed to match.
pub open spec fn at_level(v: NodeView, level: u16) -> NodeView {
    if level > v.level {
        NodeView { level, text: raised_text(v.text, v.level, level), ..v }
    } else if level < v.level {
        NodeView { level, text: lowered_text(v.text, v.level, level), ..v }
    } else {
        v
    }
}

/// The forest with `x` at the level `level`.
pub open spec fn releveled(m: Forest, x: NodeId, level: u16) -> Forest {
    m.insert(x, at_level(m[x], level))
}

/// The forest with `x` raised to the level `min` where it sat below it.
pub open spec fn raised(m: Forest, x: NodeId, min: u16) -> Forest {
    if m[x].level < min {
        releveled(m, x, min)
    } else {
        m
    }
}

/// Every child of `x` sits above the level `level`.
pub open spec fn children_above(m: Forest, x: NodeId, level: int) -> bool {
    forall|j: int| 0 <= j < m[x].children.len() ==> m[#[trigger] m[x].children[j]].level > level
}

pub proof fn lemma_star_run_after(front: Seq<char>, back: Seq<char>)
    ensures
        star_run(front + back, front.len() as int) == star_run(back, 0),
{
    let all = front + back;
    lemma_star_run_slice(all, front.len() as int, all.len() as int, 0);
    lemma_star_run_bound(all, front.len() as int);
    assert(all.subrange(front.len() as int, all.len() as int) == back);
}

pub proof fn lemma_star_run_stars(s: Seq<char>, n: int, k: int)
    requires
        0 <= k <= n <= s.len(),
        forall|i: int| 0 <= i < n ==> s[i] == '*',
    ensures
        star_run(s, k) == (n - k) + star_run(s, n),
    decreases n - k,
{
    if k < n {
        lemma_star_run_stars(s, n, k + 1);
    }
}

/// A raised text starts with as many stars as its new level says, and
/// has a headline line after its first line only where the text had one.
pub proof fn lemma_raised_text(text: Seq<char>, from: u16, to: u16)
    requires
        level_at(text, 0) == from,
        from < to,
    ensures
        level_at(raised_text(text, from, to), 0) == to,
        plain_after_first_line(raised_text(text, from, to)) == plain_after_first_line(text),
{
    let n = (to - from) as nat;
    let r = raised_text(text, from, to);
    let head = stars(n) + (if from == 0 {
        seq![' ']
    } else {
        Seq::empty()
    });
    assert(r == head + text);
    lemma_plain_with_prefix(head, text);
    if from == 0 {
        let front = stars(n);
        assert(r == front + (seq![' '] + text));
        lemma_star_run_stars(r, n as int, 0);
        lemma_star_run_after(front, seq![' '] + text);
        assert((seq![' '] + text)[0] == ' ');
        assert(r[n as int] == ' ');
    } else {
        let front = stars(n);
        assert(r == front + text);
        lemma_star_run_stars(r, n as int, 0);
        lemma_star_run_after(front, text);
        lemma_star_run_bound(text, 0);
        assert(r[n + from] == text[from as int]);
    }
}

/// A lowered text starts with as many stars as its new level says, and
/// has a headline line after its first line only where the text had one.
pub proof fn lemma_lowered_text(text: Seq<char>, from: u16, to: u16)
    requires
        level_at(text, 0) == from,
        1 <= to < from,
    ensures
        level_at(lowered_text(text, from, to), 0) == to,
        plain_after_first_line(lowered_text(text, from, to)) == plain_after_first_line(text),
{
    let cut = (from - to) as int;
    let r = lowered_text(text, from, to);
    lemma_star_run_bound(text, 0);
    assert(text == text.take(cut) + r);
    lemma_plain_with_prefix(text.take(cut), r);
    lemma_star_run_slice(text, cut, text.len() as int, 0);
    lemma_star_run_stars(text, from as int, cut);
    lemma_star_run_stars(text, from as int, from as int);
    assert(r == text.subrange(cut, text.len() as int));
    assert(r[to as int] == text[from as int]);
}

/// Changing what a node stores keeps the forest well formed as long as the
/// new text starts with the stars of the new level and has no headline
/// line after its first line.
pub proof fn lemma_data_changed(m: Forest, x: NodeId, level: u16, text: Seq<char>)
    requires
        forest_wf(m),
        m.contains_key(x),
        level_at(text, 0) == level,
        plain_after_first_line(text),
    ensures
        forest_wf(m.insert(x, NodeView { level, text, ..m[x] })),
{
    let m2 = m.insert(x, NodeView { level, text, ..m[x] });
    assert forall|y: NodeId| m2.contains_key(y) implies #[trigger] node_ok(m2, y) by {
        assert(node_ok(m, y));
        assert forall|j: int| 0 <= j < m2[y].children.len() implies m2.contains_key(
            #[trigger] m2[y].children[j],
        ) && m2[m2[y].children[j]].parent == Some(y) by {
            assert(m.contains_key(m[y].children[j]));
        }
    }
}

/// Moving a node to another level keeps the forest well formed, and ordered
/// where the new level lies between that of its parent and those of its
/// children.
pub proof fn lemma_releveled(m: Forest, x: NodeId, level: u16)
    requires
        forest_wf(m),
        m.contains_key(x),
        level >= 1 || level == m[x].level,
    ensures
        forest_wf(releveled(m, x, level)),
        forall|y: NodeId| #[trigger] releveled(m, x, level).contains_key(y) == m.contains_key(y),
        ordered(m) && children_above(m, x, level as int) && (m[x].parent matches Some(p)
            ==> m[p].level < level) ==> ordered(releveled(m, x, level)),
{
    let v = at_level(m[x], level);
    let m2 = releveled(m, x, level);
    assert(node_ok(m, x));
    if level > m[x].level {
        lemma_raised_text(m[x].text, m[x].level, level);
    } else if level < m[x].level {
        lemma_lowered_text(m[x].text, m[x].level, level);
    }
    lemma_data_changed(m, x, v.level, v.text);
    assert(m2 == m.insert(x, NodeView { level: v.level, text: v.text, ..m[x] }));
    if ordered(m) && children_above(m, x, level as int) && (m[x].parent matches Some(p)
        ==> m[p].level < level) {
        assert forall|y: NodeId| m2.contains_key(y) implies #[trigger] ordered_at(m2, y) by {
            assert(ordered_at(m, y));
            assert(node_ok(m, y));
            assert forall|j: int| 0 <= j < m2[y].children.len() implies m2[#[trigger] m2[y].children[j]].level
                > m2[y].level by {
                let c = m[y].children[j];
                assert(m[m[y].children[j]].level > m[y].level);
                assert(m.contains_key(m[y].children[j]));
                if c == x && y != x {
                    assert(m[m[y].children[j]].parent == Some(y));
                }
            }
        }
    }
}

impl Arena {
    /// Every section is linked consistently with its parent and children,
    /// the text of every section starts with the stars of its level, and no
    /// later line of it is a headline line.
    pub open spec fn wf(&self) -> bool {
        forest_wf(self@)
    }

    /// Every section sits at a greater level than its parent.
    pub open spec fn ordered(&self) -> bool {
        ordered(self@)
    }

    /// An arena without sections.
    pub fn new() -> (arena: Arena)
        ensures
            arena@ == no_nodes(),
            arena.wf(),
            arena.ordered(),
    {
        pool_new()
    }

    /// Whether the handle names a section that is in the arena.
    pub fn contains(&self, section: Section) -> (r: bool)
        ensures
            r == self@.contains_key(section.id),
    {
        pool_contains(self, section.id)
    }

    /// Raises the section to the level `min_level` where it sits below it.
    pub(crate) fn section_min_level(&mut self, section: Section, min_level: u16)
        requires
            old(self).wf(),
            old(self)@.contains_key(section.id),
        ensures
            final(self)@ == raised(old(self)@, section.id, min_level),
            final(self).wf(),
    {
        let data = pool_data(self, section.id);
        let level = data.level;
        if level >= min_level {
            return ;
        }
        let change: u16 = min_level - level;
        let mut text: Vec<char> = Vec::new();
        let mut i: u16 = 0;
        while i < change
            invariant
                i <= change,
                text@ == stars(i as nat),
            decreases change - i,
        {
            text.push('*');
            assert(text@ == stars((i + 1) as nat));
            i += 1;
        }
        if level == 0 {
            text.push(' ');
        }
        push_all(&mut text, &data.text);
        proof {
            assert(text@ == raised_text(old(self)@[section.id].text, level, min_level));
            lemma_releveled(old(self)@, section.id, min_level);
        }
        pool_set_data(self, section.id, SectionData { level: min_level, text });
    }

    /// Lowers the section to the level `max_level` where it sits above it.
    pub(crate) fn section_max_level(&mut self, section: Section, max_level: u16)
        requires
            old(self).wf(),
            old(self)@.contains_key(section.id),
            max_level >= 1,
        ensures
            final(self)@ == (if old(self)@[section.id].level > max_level {
                releveled(old(self)@, section.id, max_level)
            } else {
                old(self)@
            }),
            final(self).wf(),
    {
        let data = pool_data(self, section.id);
        let level = data.level;
        if level <= max_level {
            return ;
        }
        let change: usize = (level - max_level) as usize;
        proof {
            assert(node_ok(self@, section.id));
            lemma_star_run_bound(self@[section.id].text, 0);
            lemma_releveled(old(self)@, section.id, max_level);
        }
        let text = copy_range(&data.text, change, data.text.len());
        pool_set_data(self, section.id, SectionData { level: max_level, text });
    }

    /// Moves the section to the level `level`, which is at least 1.
    pub(crate) fn set_level(&mut self, section: Section, level: u16)
        requires
            old(self).wf(),
            old(self)@.contains_key(section.id),
            level >= 1,
        ensures
            final(self)@ == releveled(old(self)@, section.id, level),
            final(self).wf(),
    {
        let current = pool_data(self, section.id).level;
        if current > level {
            self.section_max_level(section, level);
        } else if current < level {
            self.section_min_level(section, level);
        } else {
            assert(releveled(self@, section.id, level) =~= self@);
        }
    }

    /// Creates a section with the level and text of `section` and without
    /// parent or children.
    pub fn clone_section(&mut self, section: Section) -> (copy: Section)
        requires
            old(self).wf(),
            old(self)@.contains_key(section.id),
        ensures
            !old(self)@.contains_key(copy.id),
            final(self)@ == old(self)@.insert(
                copy.id,
                crate::forest::loose_node(
                    old(self)@[section.id].level,
                    old(self)@[section.id].text,
                ),
            ),
            final(self).wf(),
            old(self).ordered() ==> final(self).ordered(),
    {
        let data = pool_data(self, section.id);
        let level = data.level;
        let text = copy_range(&data.text, 0, data.text.len());
        let ghost m = self@;
        proof {
            assert(node_ok(m, section.id));
            assert(text@ == m[section.id].text);
            assert(plain_after_first_line(text@));
        }
        let id = pool_new_node(self, SectionData { level, text });
        proof {
            lemma_loose_added(m, id, level, m[section.id].text);
        }
        Section { id }
    }

    /// Parses `input` into a document whose sections are added to the arena.
    pub fn parse(&mut self, input: &Vec<char>) -> (doc: Document)
        requires
            old(self).wf(),
        ensures
            final(self).wf(),
            old(self).ordered() ==> final(self).ordered(),
            is_parse_of(final(self)@, doc, input@),
            !old(self)@.contains_key(doc.root.id),
            forall|x: NodeId| #[trigger]
                old(self)@.contains_key(x) ==> final(self)@.contains_key(x) && final(self)@[x]
                    == old(self)@[x],
    {
        parse_document(self, input)
    }

    /// Parses `input` into a document whose sections are added to the arena.
    pub fn parse_str(&mut self, input: &str) -> (doc: Document)
        requires
            old(self).wf(),
        ensures
            final(self).wf(),
            old(self).ordered() ==> final(self).ordered(),
            is_parse_of(final(self)@, doc, input@),
            !old(self)@.contains_key(doc.root.id),
            forall|x: NodeId| #[trigger]
                old(self)@.contains_key(x) ==> final(self)@.contains_key(x) && final(self)@[x]
                    == old(self)@[x],
    {
        let chars = chars_of(input);
        parse_document(self, &chars)
    }

    /// Parses `input` into a document whose sections are added to the arena.
    pub fn parse_string(&mut self, input: String) -> (doc: Document)
        requires
            old(self).wf(),
        ensures
            final(self).wf(),
            old(self).ordered() ==> final(self).ordered(),
            is_parse_of(final(self)@, doc, input@),
            !old(self)@.contains_key(doc.root.id),
            forall|x: NodeId| #[trigger]
                old(self)@.contains_key(x) ==> final(self)@.contains_key(x) && final(self)@[x]
                    == old(self)@[x],
    {
        self.parse_str(input.as_str())
    }

    /// Parses `input` as one section: the root of the parsed document, or
    /// its only child where the root stands for no text. A text with more
    /// than one top headline gives no section.
    pub fn new_section(&mut self, input: &str) -> (r: Option<Section>)
        requires
            old(self).wf(),
        ensures
            final(self).wf(),
            old(self).ordered() ==> final(self).ordered(),
            forall|x: NodeId| #[trigger]
                old(self)@.contains_key(x) ==> final(self)@.contains_key(x) && final(self)@[x]
                    == old(self)@[x],
            exists|doc: Document|
                is_parse_of(final(self)@, doc, input@) && !old(self)@.contains_key(doc.root.id)
                    && r == single_section(final(self)@, doc),
    {
        let doc = self.parse_str(input);
        let kids = pool_children(self, doc.root.id);
        let r = if kids.len() >= 2 {
            None
        } else if kids.len() == 1 && pool_data(self, doc.root.id).text.len() == 0
            && doc.empty_root_section {
            Some(Section { id: kids[0] })
        } else {
            Some(doc.root)
        };
        assert(is_parse_of(self@, doc, input@) && !old(self)@.contains_key(doc.root.id) && r
            == single_section(self@, doc));
        r
    }
}

/// The one section that a parsed document stands for, if it is one: none
/// where the root has several children, its only child where the root
/// itself stands for no text, else the root.
pub open spec fn single_section(m: Forest, doc: Document) -> Option<Section> {
    let kids = m[doc.root.id].children;
    if kids.len() >= 2 {
        None
    } else if kids.len() == 1 && m[doc.root.id].text.len() == 0 && doc.empty_root_section {
        Some(Section { id: kids[0] })
    } else {
        Some(doc.root)
    }
}

/// Adding a loose node keeps the forest well formed and ordered.
pub proof fn lemma_loose_added(m: Forest, n: NodeId, level: u16, text: Seq<char>)
    requires
        forest_wf(m),
        !m.contains_key(n),
        level_at(text, 0) == level,
        plain_after_first_line(text),
    ensures
        forest_wf(m.insert(n, crate::forest::loose_node(level, text))),
        ordered(m) ==> ordered(m.insert(n, crate::forest::loose_node(level, text))),
{
    let m2 = m.insert(n, crate::forest::loose_node(level, text));
    assert forall|y: NodeId| m2.contains_key(y) implies #[trigger] node_ok(m2, y) by {
        if y != n {
            assert(node_ok(m, y));
            assert forall|j: int| 0 <= j < m2[y].children.len() implies m2.contains_key(
                #[trigger] m2[y].children[j],
            ) && m2[m2[y].children[j]].parent == Some(y) by {
                assert(m.contains_key(m[y].children[j]));
            }
        }
    }
    if ordered(m) {
        assert forall|y: NodeId| m2.contains_key(y) implies #[trigger] ordered_at(m2, y) by {
            if y != n {
                assert(ordered_at(m, y));
                assert(node_ok(m, y));
                assert forall|j: int| 0 <= j < m2[y].children.len() implies m2[#[trigger] m2[y].children[j]].level
                    > m2[y].level by {
                    assert(m.contains_key(m[y].children[j]));
                    assert(m[m[y].children[j]].level > m[y].level);
                }
            }
        }
    }
}

impl Default for Arena {
    fn default() -> (arena: Arena)
        ensures
            arena@ == no_nodes(),
            arena.wf(),
            arena.ordered(),
    {
        Arena::new()
    }
}

} // verus!
