//! Reading and changing the headline of a section of the arena.

use vstd::prelude::*;
use indextree::NodeId;
use crate::arena::{children_above, Section};
use crate::errors::HeadlineError;
use crate::forest::{
    dissolved,
    pool_children,
    pool_data,
    pool_remove,
    pool_set_data,
    spliced,
    Arena,
    Forest,
    NodeView,
    SectionData,
};
use crate::forest_laws::lemma_without;
use crate::headline::builder::{
    built,
    flaw_of,
    reads_back,
    tagged,
    with_tag,
    with_tags,
    without_tag,
    without_tags,
    words_of,
    HeadlineBuilder,
};
use crate::headline::tags::{join_with, keep_nonempty, nonempty_parts, split, split_on, views};
use crate::headline::timestamp::Timestamp;
use crate::headline::value::{copy_stamp, stamp_of, Planning};
use crate::text::string_of;
use crate::headline::parser::{
    context_or,
    first_line,
    headline_of,
    keywords_or,
    parse_valid_single_headline,
    Context,
    Headline,
};
use crate::headline::value::{headline_text, HeadlineView};
use crate::outline::{all_texts, root_is_absent};
use crate::parse::{is_parse_of, Document};
use crate::structure::{
    lemma_level_of_slice,
    lemma_line_end,
    lemma_star_run_bound,
    level_at,
    line_end,
};
use crate::text::{chars_of, copy_range};
use crate::tree::level_fits;
use crate::tree_model::{forest_wf, node_ok, ordered, ordered_at, subtree, subtrees, texts_of};

verus! {

/// A text that starts with a headline has that headline in its first
/// line.
pub proof fn lemma_first_line_level(text: Seq<char>)
    requires
        level_at(text, 0) > 0,
    ensures
        level_at(first_line(text), 0) == level_at(text, 0),
{
    let n = level_at(text, 0);
    lemma_star_run_bound(text, 0);
    lemma_line_end(text, 0);
    assert(line_end(text, 0) > n) by {
        if line_end(text, 0) <= n {
            assert(text[line_end(text, 0)] == '\n');
        }
    }
    lemma_level_of_slice(text, 0, line_end(text, 0));
    assert(text.subrange(0, line_end(text, 0)) == first_line(text));
}

/// Every node of `before` but `x` is in `after` as it was.
pub open spec fn others_kept(before: Forest, after: Forest, x: NodeId) -> bool {
    forall|y: NodeId|
        #[trigger] before.contains_key(y) && y != x ==> after.contains_key(y) && after[y]
            == before[y]
}

/// The level and the text of the one section that `s` is, if it is one: a
/// text without a headline, or a text that is one headline with what
/// follows it up to the end.
pub open spec fn lone_section(s: Seq<char>) -> Option<(u16, Seq<char>)> {
    let texts = all_texts(s);
    if texts.len() == 1 {
        Some((0, texts[0]))
    } else if texts.len() == 2 && root_is_absent(s) {
        Some((level_at(s, 0) as u16, texts[1]))
    } else {
        None
    }
}

proof fn lemma_subtrees_len(m: Forest, ids: Seq<NodeId>, above: int)
    requires
        forall|j: int| 0 <= j < ids.len() ==> m[#[trigger] ids[j]].level > above,
    ensures
        subtrees(m, ids, above).len() >= ids.len(),
        ids.len() == 1 ==> subtrees(m, ids, above) == subtree(m, ids[0]),
    decreases ids.len(),
{
    if ids.len() > 0 {
        let front = ids.drop_last();
        assert forall|j: int| 0 <= j < front.len() implies m[#[trigger] front[j]].level
            > above by {
            assert(front[j] == ids[j]);
        }
        lemma_subtrees_len(m, front, above);
        assert(m[ids[ids.len() - 1]].level > above);
        assert(subtree(m, ids.last()).len() >= 1);
        assert(subtrees(m, ids, above) == subtrees(m, front, above) + subtree(m, ids.last()));
        if ids.len() == 1 {
            assert(subtrees(m, front, above).len() == 0);
            assert(ids.last() == ids[0]);
        }
    }
}

/// How the children of the root of a parsed document show in the number of
/// its section texts.
proof fn lemma_parsed_shape(m: Forest, doc: Document, s: Seq<char>)
    requires
        is_parse_of(m, doc, s),
    ensures
        m[doc.root.id].children.len() == 0 <==> all_texts(s).len() == 1,
        m[doc.root.id].text == all_texts(s)[0],
        m[doc.root.id].children.len() == 1 ==> (m[m[doc.root.id].children[0]].children.len() == 0
            <==> all_texts(s).len() == 2),
        m[doc.root.id].children.len() == 1 && all_texts(s).len() == 2 ==> m[m[doc.root.id].children[0]].text
            == all_texts(s)[1] && m.contains_key(m[doc.root.id].children[0]),
        m[doc.root.id].children.len() >= 2 ==> all_texts(s).len() >= 3,
{
    let root = doc.root.id;
    let kids = m[root].children;
    let order = subtree(m, root);
    let below = subtrees(m, kids, m[root].level as int);
    assert(order == seq![root] + below);
    assert(texts_of(m, order).len() == order.len());
    assert(order[0] == root);
    assert(texts_of(m, order)[0] == m[root].text);
    assert(ordered_at(m, order[0]));
    assert forall|j: int| 0 <= j < kids.len() implies m[#[trigger] kids[j]].level > 0 by {
        assert(m[m[root].children[j]].level > m[root].level);
    }
    lemma_subtrees_len(m, kids, 0);
    if kids.len() == 1 {
        let c = kids[0];
        assert(below == subtree(m, c));
        assert(order[1] == c);
        assert(ordered_at(m, order[1]));
        let grand = m[c].children;
        assert forall|j: int| 0 <= j < grand.len() implies m[#[trigger] grand[j]].level
            > m[c].level by {
            assert(m[m[c].children[j]].level > m[c].level);
        }
        lemma_subtrees_len(m, grand, m[c].level as int);
        assert(subtree(m, c) == seq![c] + subtrees(m, grand, m[c].level as int));
        assert(texts_of(m, order)[1] == m[c].text);
    }
}

/// Taking a node without children out keeps the forest well formed and
/// ordered, and changes no node but its parent.
pub proof fn lemma_dissolved_leaf(m: Forest, x: NodeId)
    requires
        forest_wf(m),
        m.contains_key(x),
        m[x].children.len() == 0,
    ensures
        forest_wf(dissolved(m, x)),
        ordered(m) ==> ordered(dissolved(m, x)),
        forall|y: NodeId|
            y != x && m.contains_key(y) && m[x].parent != Some(y) ==> dissolved(m, x).contains_key(y)
                && #[trigger] dissolved(m, x)[y] == m[y],
        forall|y: NodeId| #[trigger] dissolved(m, x).contains_key(y) ==> m.contains_key(y),
{
    let d = dissolved(m, x);
    assert(node_ok(m, x));
    assert(m[x].children =~= Seq::<NodeId>::empty());
    if let Some(p) = m[x].parent {
        assert(node_ok(m, p));
        lemma_spliced_nothing(m[p].children, x);
        lemma_without(m[p].children, x);
        assert(d[p].children == crate::forest::without(m[p].children, x));
    }
    assert forall|y: NodeId| d.contains_key(y) implies #[trigger] node_ok(d, y) by {
        assert(node_ok(m, y));
        assert forall|j: int| 0 <= j < d[y].children.len() implies d.contains_key(
            #[trigger] d[y].children[j],
        ) && d[d[y].children[j]].parent == Some(y) by {
            let c = d[y].children[j];
            if m[x].parent == Some(y) {
                assert(crate::forest::without(m[y].children, x).contains(c));
                let k = choose|k: int| 0 <= k < m[y].children.len() && m[y].children[k] == c;
                assert(m.contains_key(m[y].children[k]));
            } else {
                assert(m.contains_key(m[y].children[j]));
                assert(m[m[y].children[j]].parent == Some(y));
            }
        }
        if let Some(q) = d[y].parent {
            assert(m[q].children.contains(y));
            assert(q != x) by {
                if q == x {
                    let k = choose|k: int| 0 <= k < m[x].children.len() && m[x].children[k] == y;
                }
            }
            if m[x].parent == Some(q) {
                assert(crate::forest::without(m[q].children, x).contains(y));
            }
        }
    }
    if ordered(m) {
        assert forall|y: NodeId| d.contains_key(y) implies #[trigger] ordered_at(d, y) by {
            assert(ordered_at(m, y));
            assert(node_ok(m, y));
            assert(node_ok(d, y));
            assert forall|j: int| 0 <= j < d[y].children.len() implies d[#[trigger] d[y].children[j]].level
                > d[y].level by {
                let c = d[y].children[j];
                assert(d.contains_key(d[y].children[j]));
                assert(d[c].level == m[c].level);
                if m[x].parent == Some(y) {
                    assert(crate::forest::without(m[y].children, x).contains(c));
                    let k = choose|k: int| 0 <= k < m[y].children.len() && m[y].children[k] == c;
                    assert(m[m[y].children[k]].level > m[y].level);
                } else {
                    assert(d[y] == m[y]);
                    assert(m[m[y].children[j]].level > m[y].level);
                }
            }
        }
    }
}

proof fn lemma_spliced_nothing(ids: Seq<NodeId>, x: NodeId)
    ensures
        ids.no_duplicates() ==> spliced(ids, x, Seq::empty()) == crate::forest::without(ids, x),
    decreases ids.len(),
{
    if ids.len() > 0 {
        lemma_spliced_nothing(ids.drop_last(), x);
        if ids.no_duplicates() {
            assert(ids.drop_last().no_duplicates());
            if ids.last() == x {
                assert(!ids.drop_last().contains(x)) by {
                    if ids.drop_last().contains(x) {
                        let k = choose|k: int| 0 <= k < ids.drop_last().len() && ids.drop_last()[k] == x;
                        assert(ids[k] == ids[ids.len() - 1]);
                    }
                }
                lemma_without(ids.drop_last(), x);
                assert(ids.drop_last() + Seq::<NodeId>::empty() == ids.drop_last());
            }
        }
    }
}

/// Changing what a node stores keeps the forest ordered where its new
/// level lies between that of its parent and those of its children.
pub proof fn lemma_data_changed_ordered(m: Forest, x: NodeId, level: u16, text: Seq<char>)
    requires
        forest_wf(m),
        ordered(m),
        m.contains_key(x),
        level_fits(m, x, level),
    ensures
        ordered(m.insert(x, NodeView { level, text, ..m[x] })),
{
    let m2 = m.insert(x, NodeView { level, text, ..m[x] });
    assert(ordered_at(m, x));
    assert(node_ok(m, x));
    assert forall|y: NodeId| m2.contains_key(y) implies #[trigger] ordered_at(m2, y) by {
        assert(ordered_at(m, y));
        assert(node_ok(m, y));
        assert forall|j: int| 0 <= j < m2[y].children.len() implies m2[#[trigger] m2[y].children[j]].level
            > m2[y].level by {
            let c = m[y].children[j];
            assert(m[m[y].children[j]].level > m[y].level);
            assert(m.contains_key(m[y].children[j]));
            if c == x && y != x {
                assert(m[m[y].children[j]].parent == Some(y));
            }
        }
    }
}

impl Section {
    /// Takes the headline of this section apart; a section at level 0 has
    /// none.
    pub fn parse_headline(self, arena: &Arena, context: Option<&Context>) -> (r: Option<Headline>)
        requires
            arena.wf(),
            arena@.contains_key(self.id),
        ensures
            r is Some <==> arena@[self.id].level > 0,
            r matches Some(h) ==> headline_of(arena@[self.id].text, keywords_or(context)) == Some(
                h@,
            ),
    {
        let data = pool_data(arena, self.id);
        if data.level > 0 {
            proof {
                assert(node_ok(arena@, self.id));
                lemma_first_line_level(arena@[self.id].text);
            }
            Some(parse_valid_single_headline(&data.text, &context_or(context)))
        } else {
            None
        }
    }

    /// Replaces the level and the text of this section by those of the one
    /// section that `raw` is. The text must be one section without
    /// children, else its body is invalid; its level must fit between the
    /// levels of the parent and of the children of this section.
    pub fn set_raw(self, arena: &mut Arena, raw: &str) -> (r: Result<(), HeadlineError>)
        requires
            old(arena).wf(),
            old(arena)@.contains_key(self.id),
        ensures
            final(arena).wf(),
            old(arena).ordered() ==> final(arena).ordered(),
            others_kept(old(arena)@, final(arena)@, self.id),
            final(arena)@.contains_key(self.id),
            match lone_section(raw@) {
                None => r == Err::<(), HeadlineError>(HeadlineError::InvalidBodyError)
                    && final(arena)@[self.id] == old(arena)@[self.id],
                Some((level, text)) => if level_fits(old(arena)@, self.id, level) {
                    r is Ok && final(arena)@[self.id] == (NodeView {
                        level,
                        text,
                        ..old(arena)@[self.id]
                    })
                } else {
                    r == Err::<(), HeadlineError>(HeadlineError::InvalidLevelError) && final(arena)@[self.id] == old(arena)@[self.id]
                },
            },
    {
        let ghost before = arena@;
        let doc = arena.parse_str(raw);
        let ghost m1 = arena@;
        proof {
            lemma_parsed_shape(m1, doc, raw@);
            assert(node_ok(before, self.id));
            assert(node_ok(m1, doc.root.id));
            crate::structure::lemma_next_headline(raw@, 0);
        }
        let kids = pool_children(arena, doc.root.id);
        if kids.len() >= 2 {
            return Err(HeadlineError::InvalidBodyError);
        }
        let section = if kids.len() == 1 && pool_data(arena, doc.root.id).text.len() == 0
            && doc.empty_root_section {
            kids[0]
        } else {
            doc.root.id
        };
        proof {
            assert(kids@.len() == 1 ==> m1.contains_key(m1[doc.root.id].children[0]));
        }
        if pool_children(arena, section).len() > 0 {
            return Err(HeadlineError::InvalidBodyError);
        }
        let data = pool_data(arena, section);
        let level = data.level;
        proof {
            assert(node_ok(m1, section));
            assert(lone_section(raw@) == Some((level, m1[section].text))) by {
                if kids@.len() == 1 {
                    crate::structure::lemma_star_run_bound(raw@, 0);
                    lemma_lone_level(raw@);
                }
            }
            assert(level_fits(m1, self.id, level) == level_fits(before, self.id, level)) by {
                assert forall|j: int| 0 <= j < before[self.id].children.len() implies m1[#[trigger] before[self.id].children[j]]
                    == before[before[self.id].children[j]] by {
                    assert(before.contains_key(before[self.id].children[j]));
                }
                if children_above(before, self.id, level as int) {
                    assert forall|j: int| 0 <= j < m1[self.id].children.len() implies m1[#[trigger] m1[self.id].children[j]].level
                        > level by {
                        assert(before[before[self.id].children[j]].level > level);
                    }
                }
                if children_above(m1, self.id, level as int) {
                    assert forall|j: int| 0 <= j < before[self.id].children.len() implies before[#[trigger] before[self.id].children[j]].level
                        > level by {
                        assert(m1[m1[self.id].children[j]].level > level);
                    }
                }
            }
        }
        if !self.level_change_ok(arena, level) {
            return Err(HeadlineError::InvalidLevelError);
        }
        let text = copy_range(&data.text, 0, data.text.len());
        proof {
            assert(text@ == m1[section].text);
            assert(crate::structure::plain_after_first_line(text@));
            crate::arena::lemma_data_changed(m1, self.id, level, text@);
            if ordered(m1) {
                lemma_data_changed_ordered(m1, self.id, level, text@);
            }
        }
        pool_set_data(arena, self.id, SectionData { level, text });
        let ghost m2 = arena@;
        proof {
            lemma_dissolved_leaf(m2, section);
            assert(node_ok(m1, section));
            assert(m2[section].parent == m1[section].parent);
            if section != doc.root.id {
                assert(m1[m1[doc.root.id].children[0]].parent == Some(doc.root.id));
            }
            assert(m2[section].parent is None || m2[section].parent == Some(doc.root.id));
            let m3 = dissolved(m2, section);
            assert(!before.contains_key(section)) by {
                if before.contains_key(section) && section != doc.root.id {
                    assert(node_ok(before, section));
                }
            }
            assert forall|y: NodeId| #[trigger] before.contains_key(y) implies m3.contains_key(y)
                && m3[y] == m2[y] by {
                assert(m1.contains_key(y));
                assert(m2.contains_key(y));
                assert(y != section);
                assert(m2[section].parent != Some(y));
                assert(dissolved(m2, section)[y] == m2[y]);
            }
        }
        pool_remove(arena, section);
        Ok(())
    }

    /// Replaces the level and the text of this section by those of the
    /// headline.
    pub fn set_headline(self, arena: &mut Arena, headline: &Headline) -> (r: Result<
        (),
        HeadlineError,
    >)
        requires
            old(arena).wf(),
            old(arena)@.contains_key(self.id),
        ensures
            final(arena).wf(),
            old(arena).ordered() ==> final(arena).ordered(),
            others_kept(old(arena)@, final(arena)@, self.id),
            final(arena)@.contains_key(self.id),
            match lone_section(headline_text(headline@)) {
                None => r == Err::<(), HeadlineError>(HeadlineError::InvalidBodyError)
                    && final(arena)@[self.id] == old(arena)@[self.id],
                Some((level, text)) => if level_fits(old(arena)@, self.id, level) {
                    r is Ok && final(arena)@[self.id] == (NodeView {
                        level,
                        text,
                        ..old(arena)@[self.id]
                    })
                } else {
                    r == Err::<(), HeadlineError>(HeadlineError::InvalidLevelError) && final(arena)@[self.id] == old(arena)@[self.id]
                },
            },
    {
        let text = crate::text::string_of(&headline.0.to_rope());
        self.set_raw(arena, text.as_str())
    }
}

/// The level of the one headline that a text is.
proof fn lemma_lone_level(s: Seq<char>)
    requires
        all_texts(s).len() == 2,
        root_is_absent(s),
    ensures
        level_at(all_texts(s)[1], 0) == level_at(s, 0),
        1 <= level_at(s, 0) <= u16::MAX,
{
    crate::structure::lemma_next_headline(s, 0);
    crate::structure::lemma_star_run_bound(s, 0);
    if s.len() > 0 {
        crate::outline::lemma_headline_span(s, 0);
        let span = crate::outline::headline_span(s, 0);
        lemma_level_of_slice(s, 0, span.1);
        assert(crate::outline::section_texts(s, 0)[0] == s.subrange(0, span.1));
    }
}

/// The tags of a headline, in their order; empty ones are left out.
#[derive(Clone, Debug, PartialEq, Eq)]
pub struct Tags {
    pub tags: Vec<Vec<char>>,
}

impl View for Tags {
    type V = Seq<Seq<char>>;

    open spec fn view(&self) -> Seq<Seq<char>> {
        views(self.tags@)
    }
}

impl Tags {
    /// The number of tags.
    pub fn len(&self) -> (n: usize)
        ensures
            n == self@.len(),
    {
        self.tags.len()
    }

    /// The tag at position `i`.
    pub fn get(&self, i: usize) -> (tag: String)
        requires
            i < self@.len(),
        ensures
            tag@ == self@[i as int],
    {
        string_of(&self.tags[i])
    }

    /// The tags as strings.
    pub fn to_vec(&self) -> (tags: Vec<String>)
        ensures
            tags@.len() == self@.len(),
            forall|i: int| 0 <= i < tags@.len() ==> (#[trigger] tags@[i])@ == self@[i],
    {
        let mut out: Vec<String> = Vec::new();
        let mut i: usize = 0;
        while i < self.tags.len()
            invariant
                i <= self.tags.len(),
                out@.len() == i,
                forall|k: int| 0 <= k < i ==> (#[trigger] out@[k])@ == self@[k],
            decreases self.tags.len() - i,
        {
            out.push(string_of(&self.tags[i]));
            i += 1;
        }
        out
    }
}

/// A text that may be there, as a string.
fn text_string(v: &Option<Vec<char>>) -> (s: Option<String>)
    ensures
        s is Some <==> *v is Some,
        s matches Some(x) ==> Some(x@) == crate::headline::value::text_of(*v),
{
    match v {
        Some(v) => Some(string_of(v)),
        None => None,
    }
}

impl Headline {
    pub fn level(&self) -> (level: u16)
        ensures
            level == self@.level,
    {
        self.0.level
    }

    pub fn priority(&self) -> (priority: Option<char>)
        ensures
            priority == self@.priority,
    {
        self.0.priority
    }

    /// The tags as they are written, with colons between them.
    pub fn raw_tags(&self) -> (raw_tags: String)
        ensures
            raw_tags@ == self@.raw_tags,
    {
        string_of(&self.0.raw_tags)
    }

    /// The tags that are not empty, in their order.
    pub fn tags(&self) -> (tags: Tags)
        ensures
            tags@ == nonempty_parts(split_on(self@.raw_tags, ':')),
    {
        Tags { tags: keep_nonempty(&split(&self.0.raw_tags, ':')) }
    }

    /// Whether the headline has the tag `needle`.
    pub fn has_tag(&self, needle: &str) -> (r: bool)
        ensures
            r == tagged(self@.raw_tags, needle@),
    {
        let word = chars_of(needle);
        word.len() > 0 && crate::headline::tags::listed(&self.0.raw_tags, &word)
    }

    pub fn keyword(&self) -> (keyword: Option<String>)
        ensures
            keyword is Some <==> self@.keyword is Some,
            keyword matches Some(k) ==> Some(k@) == self@.keyword,
    {
        text_string(&self.0.keyword)
    }

    /// What the planning line says; nothing where there is none.
    pub fn planning(&self) -> (planning: Planning)
        ensures
            planning@ == self@.planning,
    {
        self.0.planning.to_borrowed()
    }

    pub fn scheduled(&self) -> (t: Option<Timestamp>)
        ensures
            stamp_of(t) == self@.planning.scheduled,
    {
        copy_stamp(&self.0.planning.scheduled)
    }

    pub fn deadline(&self) -> (t: Option<Timestamp>)
        ensures
            stamp_of(t) == self@.planning.deadline,
    {
        copy_stamp(&self.0.planning.deadline)
    }

    pub fn closed(&self) -> (t: Option<Timestamp>)
        ensures
            stamp_of(t) == self@.planning.closed,
    {
        copy_stamp(&self.0.planning.closed)
    }

    pub fn title(&self) -> (title: String)
        ensures
            title@ == self@.title,
    {
        string_of(&self.0.title)
    }

    pub fn commented(&self) -> (commented: bool)
        ensures
            commented == self@.commented,
    {
        self.0.commented
    }

    pub fn body(&self) -> (body: String)
        ensures
            body@ == self@.body,
    {
        string_of(&self.0.body)
    }

    /// A builder that starts from the parts of this headline.
    pub fn to_builder(&self) -> (b: HeadlineBuilder)
        ensures
            b@ == self@,
    {
        HeadlineBuilder(self.0.copy())
    }

    /// The written form of the headline.
    pub fn to_rope(&self) -> (text: String)
        ensures
            text@ == headline_text(self@),
    {
        string_of(&self.0.to_rope())
    }
}

impl Default for Headline {
    fn default() -> (h: Headline)
        ensures
            h@ == HeadlineView::bare(),
    {
        Headline(crate::headline::value::HeadlinePod::default())
    }
}

/// The headline of the section `x`; a section at level 0 has none.
pub open spec fn headline_in(m: Forest, x: NodeId, keywords: Seq<char>) -> Option<HeadlineView> {
    if m[x].level == 0 {
        None
    } else {
        headline_of(m[x].text, keywords)
    }
}

/// What comes of replacing the headline of the section `x` by one built
/// from the parts `b`: without a headline to start from the section is no
/// headline; parts with a flaw give that flaw; parts that are not read back
/// as they are written are refused; else the written form is set as by
/// `set_raw`. Whenever an error comes back the section is as it was.
pub open spec fn edited(
    before: Forest,
    after: Forest,
    x: NodeId,
    keywords: Seq<char>,
    b: Option<HeadlineView>,
    r: Result<(), HeadlineError>,
) -> bool {
    match b {
        None => r == Err::<(), HeadlineError>(HeadlineError::InvalidHeadlineError) && after[x]
            == before[x],
        Some(b) => match flaw_of(b, keywords) {
            Some(e) => r == Err::<(), HeadlineError>(e) && after[x] == before[x],
            None => if !reads_back(b, keywords) {
                r == Err::<(), HeadlineError>(HeadlineError::NonEquivalentReparseError) && after[x]
                    == before[x]
            } else {
                match lone_section(headline_text(b)) {
                    None => r == Err::<(), HeadlineError>(HeadlineError::InvalidBodyError)
                        && after[x] == before[x],
                    Some((level, text)) => if level_fits(before, x, level) {
                        r is Ok && after[x] == (NodeView { level, text, ..before[x] })
                    } else {
                        r == Err::<(), HeadlineError>(HeadlineError::InvalidLevelError) && after[x]
                            == before[x]
                    },
                }
            },
        },
    }
}

impl Section {
    /// Builds the headline and sets it as the headline of this section.
    fn rebuild(self, arena: &mut Arena, builder: &HeadlineBuilder, context: Option<&Context>) -> (r:
        Result<(), HeadlineError>)
        requires
            old(arena).wf(),
            old(arena)@.contains_key(self.id),
        ensures
            final(arena).wf(),
            old(arena).ordered() ==> final(arena).ordered(),
            others_kept(old(arena)@, final(arena)@, self.id),
            final(arena)@.contains_key(self.id),
            edited(old(arena)@, final(arena)@, self.id, keywords_or(context), Some(builder@), r),
    {
        match builder.headline(context) {
            Ok(headline) => self.set_headline(arena, &headline),
            Err(e) => Err(e),
        }
    }

    /// The parts of the headline of this section, or the error that the
    /// section is no headline.
    fn headline_parts(self, arena: &Arena, context: Option<&Context>) -> (r: Result<
        Headline,
        HeadlineError,
    >)
        requires
            arena.wf(),
            arena@.contains_key(self.id),
        ensures
            r is Ok <==> headline_in(arena@, self.id, keywords_or(context)) is Some,
            r matches Ok(h) ==> headline_in(arena@, self.id, keywords_or(context)) == Some(h@),
            r matches Err(e) ==> e == HeadlineError::InvalidHeadlineError,
    {
        match self.parse_headline(arena, context) {
            None => Err(HeadlineError::InvalidHeadlineError),
            Some(h) => Ok(h),
        }
    }

    /// The priority of the headline of this section.
    pub fn priority(self, arena: &Arena, context: Option<&Context>) -> (r: Result<Option<char>, HeadlineError>)
        requires
            arena.wf(),
            arena@.contains_key(self.id),
        ensures
            r is Ok <==> headline_in(arena@, self.id, keywords_or(context)) is Some,
            r matches Err(e) ==> e == HeadlineError::InvalidHeadlineError,
            r matches Ok(v) ==> v == (headline_in(arena@, self.id, keywords_or(context))->0).priority,
    {
        match self.headline_parts(arena, context) {
            Err(e) => Err(e),
            Ok(h) => Ok(h.priority()),
        }
    }

    /// The tags of the headline of this section as they are written.
    pub fn raw_tags(self, arena: &Arena, context: Option<&Context>) -> (r: Result<String, HeadlineError>)
        requires
            arena.wf(),
            arena@.contains_key(self.id),
        ensures
            r is Ok <==> headline_in(arena@, self.id, keywords_or(context)) is Some,
            r matches Err(e) ==> e == HeadlineError::InvalidHeadlineError,
            r matches Ok(v) ==> v@ == (headline_in(arena@, self.id, keywords_or(context))->0).raw_tags,
    {
        match self.headline_parts(arena, context) {
            Err(e) => Err(e),
            Ok(h) => Ok(h.raw_tags()),
        }
    }

    /// The tags of the headline of this section.
    pub fn tags(self, arena: &Arena, context: Option<&Context>) -> (r: Result<Vec<String>, HeadlineError>)
        requires
            arena.wf(),
            arena@.contains_key(self.id),
        ensures
            r is Ok <==> headline_in(arena@, self.id, keywords_or(context)) is Some,
            r matches Err(e) ==> e == HeadlineError::InvalidHeadlineError,
            r matches Ok(v) ==> v@.len() == nonempty_parts(split_on((headline_in(arena@, self.id, keywords_or(context))->0).raw_tags, ':')).len() && forall|i: int| 0 <= i < v@.len() ==> (#[trigger] v@[i])@ == nonempty_parts(split_on((headline_in(arena@, self.id, keywords_or(context))->0).raw_tags, ':'))[i],
    {
        match self.headline_parts(arena, context) {
            Err(e) => Err(e),
            Ok(h) => Ok(h.tags().to_vec()),
        }
    }

    /// The keyword of the headline of this section.
    pub fn keyword(self, arena: &Arena, context: Option<&Context>) -> (r: Result<Option<String>, HeadlineError>)
        requires
            arena.wf(),
            arena@.contains_key(self.id),
        ensures
            r is Ok <==> headline_in(arena@, self.id, keywords_or(context)) is Some,
            r matches Err(e) ==> e == HeadlineError::InvalidHeadlineError,
            r matches Ok(v) ==> (v is Some <==> (headline_in(arena@, self.id, keywords_or(context))->0).keyword is Some) && (v matches Some(k) ==> Some(k@) == (headline_in(arena@, self.id, keywords_or(context))->0).keyword),
    {
        match self.headline_parts(arena, context) {
            Err(e) => Err(e),
            Ok(h) => Ok(h.keyword()),
        }
    }

    /// The title of the headline of this section.
    pub fn title(self, arena: &Arena, context: Option<&Context>) -> (r: Result<String, HeadlineError>)
        requires
            arena.wf(),
            arena@.contains_key(self.id),
        ensures
            r is Ok <==> headline_in(arena@, self.id, keywords_or(context)) is Some,
            r matches Err(e) ==> e == HeadlineError::InvalidHeadlineError,
            r matches Ok(v) ==> v@ == (headline_in(arena@, self.id, keywords_or(context))->0).title,
    {
        match self.headline_parts(arena, context) {
            Err(e) => Err(e),
            Ok(h) => Ok(h.title()),
        }
    }

    /// Whether the headline of this section has the `COMMENT` mark.
    pub fn commented(self, arena: &Arena, context: Option<&Context>) -> (r: Result<bool, HeadlineError>)
        requires
            arena.wf(),
            arena@.contains_key(self.id),
        ensures
            r is Ok <==> headline_in(arena@, self.id, keywords_or(context)) is Some,
            r matches Err(e) ==> e == HeadlineError::InvalidHeadlineError,
            r matches Ok(v) ==> v == (headline_in(arena@, self.id, keywords_or(context))->0).commented,
    {
        match self.headline_parts(arena, context) {
            Err(e) => Err(e),
            Ok(h) => Ok(h.commented()),
        }
    }

    /// The body of this section: what follows its headline and its planning line.
    pub fn body(self, arena: &Arena, context: Option<&Context>) -> (r: Result<String, HeadlineError>)
        requires
            arena.wf(),
            arena@.contains_key(self.id),
        ensures
            r is Ok <==> headline_in(arena@, self.id, keywords_or(context)) is Some,
            r matches Err(e) ==> e == HeadlineError::InvalidHeadlineError,
            r matches Ok(v) ==> v@ == (headline_in(arena@, self.id, keywords_or(context))->0).body,
    {
        match self.headline_parts(arena, context) {
            Err(e) => Err(e),
            Ok(h) => Ok(h.body()),
        }
    }

    /// What the planning line of this section says.
    pub fn planning(self, arena: &Arena, context: Option<&Context>) -> (r: Result<Planning, HeadlineError>)
        requires
            arena.wf(),
            arena@.contains_key(self.id),
        ensures
            r is Ok <==> headline_in(arena@, self.id, keywords_or(context)) is Some,
            r matches Err(e) ==> e == HeadlineError::InvalidHeadlineError,
            r matches Ok(v) ==> v@ == (headline_in(arena@, self.id, keywords_or(context))->0).planning,
    {
        match self.headline_parts(arena, context) {
            Err(e) => Err(e),
            Ok(h) => Ok(h.planning()),
        }
    }

    /// The `CLOSED` timestamp of the planning line of this section.
    pub fn get_closed(self, arena: &Arena, context: Option<&Context>) -> (r: Result<Option<Timestamp>, HeadlineError>)
        requires
            arena.wf(),
            arena@.contains_key(self.id),
        ensures
            r is Ok <==> headline_in(arena@, self.id, keywords_or(context)) is Some,
            r matches Err(e) ==> e == HeadlineError::InvalidHeadlineError,
            r matches Ok(v) ==> stamp_of(v) == (headline_in(arena@, self.id, keywords_or(context))->0).planning.closed,
    {
        match self.headline_parts(arena, context) {
            Err(e) => Err(e),
            Ok(h) => Ok(h.closed()),
        }
    }

    /// The `DEADLINE` timestamp of the planning line of this section.
    pub fn get_deadline(self, arena: &Arena, context: Option<&Context>) -> (r: Result<Option<Timestamp>, HeadlineError>)
        requires
            arena.wf(),
            arena@.contains_key(self.id),
        ensures
            r is Ok <==> headline_in(arena@, self.id, keywords_or(context)) is Some,
            r matches Err(e) ==> e == HeadlineError::InvalidHeadlineError,
            r matches Ok(v) ==> stamp_of(v) == (headline_in(arena@, self.id, keywords_or(context))->0).planning.deadline,
    {
        match self.headline_parts(arena, context) {
            Err(e) => Err(e),
            Ok(h) => Ok(h.deadline()),
        }
    }

    /// The `SCHEDULED` timestamp of the planning line of this section.
    pub fn get_scheduled(self, arena: &Arena, context: Option<&Context>) -> (r: Result<Option<Timestamp>, HeadlineError>)
        requires
            arena.wf(),
            arena@.contains_key(self.id),
        ensures
            r is Ok <==> headline_in(arena@, self.id, keywords_or(context)) is Some,
            r matches Err(e) ==> e == HeadlineError::InvalidHeadlineError,
            r matches Ok(v) ==> stamp_of(v) == (headline_in(arena@, self.id, keywords_or(context))->0).planning.scheduled,
    {
        match self.headline_parts(arena, context) {
            Err(e) => Err(e),
            Ok(h) => Ok(h.scheduled()),
        }
    }

    /// Whether the headline of this section has the tag `tag`.
    pub fn has_tag(self, tag: &str, arena: &Arena, context: Option<&Context>) -> (r: Result<
        bool,
        HeadlineError,
    >)
        requires
            arena.wf(),
            arena@.contains_key(self.id),
        ensures
            r is Ok <==> headline_in(arena@, self.id, keywords_or(context)) is Some,
            r matches Err(e) ==> e == HeadlineError::InvalidHeadlineError,
            r matches Ok(v) ==> v == tagged((headline_in(arena@, self.id, keywords_or(context))->0).raw_tags, tag@),
    {
        match self.headline_parts(arena, context) {
            Err(e) => Err(e),
            Ok(h) => Ok(h.has_tag(tag)),
        }
    }

    /// Sets the tags of the headline of this section as they are written.
    pub fn set_raw_tags(self, arena: &mut Arena, raw_tags: &str, context: Option<&Context>) -> (r: Result<
        (),
        HeadlineError,
    >)
        requires
            old(arena).wf(),
            old(arena)@.contains_key(self.id),
        ensures
            final(arena).wf(),
            old(arena).ordered() ==> final(arena).ordered(),
            others_kept(old(arena)@, final(arena)@, self.id),
            final(arena)@.contains_key(self.id),
            edited(
                old(arena)@,
                final(arena)@,
                self.id,
                keywords_or(context),
                match headline_in(old(arena)@, self.id, keywords_or(context)) {
                    Some(h) => Some((HeadlineView { raw_tags: raw_tags@, ..h })),
                    None => None,
                },
                r,
            ),
    {
        match self.parse_headline(arena, context) {
            None => {
                proof {
                    assert(others_kept(arena@, arena@, self.id));
                }
                Err(HeadlineError::InvalidHeadlineError)
            },
            Some(h) => {
                let mut b = h.to_builder();
                b.set_raw_tags(raw_tags);
                self.rebuild(arena, &b, context)
            },
        }
    }

    /// Sets the tags of the headline of this section.
    pub fn set_tags(self, arena: &mut Arena, tags: &[&str], context: Option<&Context>) -> (r: Result<
        (),
        HeadlineError,
    >)
        requires
            old(arena).wf(),
            old(arena)@.contains_key(self.id),
        ensures
            final(arena).wf(),
            old(arena).ordered() ==> final(arena).ordered(),
            others_kept(old(arena)@, final(arena)@, self.id),
            final(arena)@.contains_key(self.id),
            edited(
                old(arena)@,
                final(arena)@,
                self.id,
                keywords_or(context),
                match headline_in(old(arena)@, self.id, keywords_or(context)) {
                    Some(h) => Some((HeadlineView { raw_tags: join_with(words_of(tags@), ':'), ..h })),
                    None => None,
                },
                r,
            ),
    {
        match self.parse_headline(arena, context) {
            None => {
                proof {
                    assert(others_kept(arena@, arena@, self.id));
                }
                Err(HeadlineError::InvalidHeadlineError)
            },
            Some(h) => {
                let mut b = h.to_builder();
                b.set_tags(tags);
                self.rebuild(arena, &b, context)
            },
        }
    }

    /// Adds those of `tags` that the headline of this section does not have yet.
    pub fn update_tags(self, arena: &mut Arena, tags: &[&str], context: Option<&Context>) -> (r: Result<
        (),
        HeadlineError,
    >)
        requires
            old(arena).wf(),
            old(arena)@.contains_key(self.id),
        ensures
            final(arena).wf(),
            old(arena).ordered() ==> final(arena).ordered(),
            others_kept(old(arena)@, final(arena)@, self.id),
            final(arena)@.contains_key(self.id),
            edited(
                old(arena)@,
                final(arena)@,
                self.id,
                keywords_or(context),
                match headline_in(old(arena)@, self.id, keywords_or(context)) {
                    Some(h) => Some((HeadlineView { raw_tags: with_tags(h.raw_tags, words_of(tags@)), ..h })),
                    None => None,
                },
                r,
            ),
    {
        match self.parse_headline(arena, context) {
            None => {
                proof {
                    assert(others_kept(arena@, arena@, self.id));
                }
                Err(HeadlineError::InvalidHeadlineError)
            },
            Some(h) => {
                let mut b = h.to_builder();
                b.update_tags(tags);
                self.rebuild(arena, &b, context)
            },
        }
    }

    /// Removes the tags `tags` from the headline of this section.
    pub fn remove_tags(self, arena: &mut Arena, tags: &[&str], context: Option<&Context>) -> (r: Result<
        (),
        HeadlineError,
    >)
        requires
            old(arena).wf(),
            old(arena)@.contains_key(self.id),
        ensures
            final(arena).wf(),
            old(arena).ordered() ==> final(arena).ordered(),
            others_kept(old(arena)@, final(arena)@, self.id),
            final(arena)@.contains_key(self.id),
            edited(
                old(arena)@,
                final(arena)@,
                self.id,
                keywords_or(context),
                match headline_in(old(arena)@, self.id, keywords_or(context)) {
                    Some(h) => Some((HeadlineView { raw_tags: without_tags(h.raw_tags, words_of(tags@)), ..h })),
                    None => None,
                },
                r,
            ),
    {
        match self.parse_headline(arena, context) {
            None => {
                proof {
                    assert(others_kept(arena@, arena@, self.id));
                }
                Err(HeadlineError::InvalidHeadlineError)
            },
            Some(h) => {
                let mut b = h.to_builder();
                b.remove_tags(tags);
                self.rebuild(arena, &b, context)
            },
        }
    }

    /// Removes all tags from the headline of this section.
    pub fn clear_tags(self, arena: &mut Arena, context: Option<&Context>) -> (r: Result<
        (),
        HeadlineError,
    >)
        requires
            old(arena).wf(),
            old(arena)@.contains_key(self.id),
        ensures
            final(arena).wf(),
            old(arena).ordered() ==> final(arena).ordered(),
            others_kept(old(arena)@, final(arena)@, self.id),
            final(arena)@.contains_key(self.id),
            edited(
                old(arena)@,
                final(arena)@,
                self.id,
                keywords_or(context),
                match headline_in(old(arena)@, self.id, keywords_or(context)) {
                    Some(h) => Some((HeadlineView { raw_tags: Seq::empty(), ..h })),
                    None => None,
                },
                r,
            ),
    {
        match self.parse_headline(arena, context) {
            None => {
                proof {
                    assert(others_kept(arena@, arena@, self.id));
                }
                Err(HeadlineError::InvalidHeadlineError)
            },
            Some(h) => {
                let mut b = h.to_builder();
                b.clear_tags();
                self.rebuild(arena, &b, context)
            },
        }
    }

    /// Adds the tag `tag` to the headline of this section.
    pub fn add_tag(self, arena: &mut Arena, tag: &str, context: Option<&Context>) -> (r: Result<
        (),
        HeadlineError,
    >)
        requires
            old(arena).wf(),
            old(arena)@.contains_key(self.id),
        ensures
            final(arena).wf(),
            old(arena).ordered() ==> final(arena).ordered(),
            others_kept(old(arena)@, final(arena)@, self.id),
            final(arena)@.contains_key(self.id),
            edited(
                old(arena)@,
                final(arena)@,
                self.id,
                keywords_or(context),
                match headline_in(old(arena)@, self.id, keywords_or(context)) {
                    Some(h) => Some((HeadlineView { raw_tags: with_tag(h.raw_tags, tag@), ..h })),
                    None => None,
                },
                r,
            ),
    {
        match self.parse_headline(arena, context) {
            None => {
                proof {
                    assert(others_kept(arena@, arena@, self.id));
                }
                Err(HeadlineError::InvalidHeadlineError)
            },
            Some(h) => {
                let mut b = h.to_builder();
                b.add_tag(tag);
                self.rebuild(arena, &b, context)
            },
        }
    }

    /// Removes the tag `tag` from the headline of this section.
    pub fn clear_tag(self, arena: &mut Arena, tag: &str, context: Option<&Context>) -> (r: Result<
        (),
        HeadlineError,
    >)
        requires
            old(arena).wf(),
            old(arena)@.contains_key(self.id),
        ensures
            final(arena).wf(),
            old(arena).ordered() ==> final(arena).ordered(),
            others_kept(old(arena)@, final(arena)@, self.id),
            final(arena)@.contains_key(self.id),
            edited(
                old(arena)@,
                final(arena)@,
                self.id,
                keywords_or(context),
                match headline_in(old(arena)@, self.id, keywords_or(context)) {
                    Some(h) => Some((HeadlineView { raw_tags: without_tag(h.raw_tags, tag@), ..h })),
                    None => None,
                },
                r,
            ),
    {
        match self.parse_headline(arena, context) {
            None => {
                proof {
                    assert(others_kept(arena@, arena@, self.id));
                }
                Err(HeadlineError::InvalidHeadlineError)
            },
            Some(h) => {
                let mut b = h.to_builder();
                b.clear_tag(tag);
                self.rebuild(arena, &b, context)
            },
        }
    }

    /// Sets the keyword of the headline of this section.
    pub fn set_keyword(self, arena: &mut Arena, keyword: Option<String>, context: Option<&Context>) -> (r: Result<
        (),
        HeadlineError,
    >)
        requires
            old(arena).wf(),
            old(arena)@.contains_key(self.id),
        ensures
            final(arena).wf(),
            old(arena).ordered() ==> final(arena).ordered(),
            others_kept(old(arena)@, final(arena)@, self.id),
            final(arena)@.contains_key(self.id),
            edited(
                old(arena)@,
                final(arena)@,
                self.id,
                keywords_or(context),
                match headline_in(old(arena)@, self.id, keywords_or(context)) {
                    Some(h) => Some((HeadlineView { keyword: match keyword { Some(k) => Some(k@), None => None }, ..h })),
                    None => None,
                },
                r,
            ),
    {
        match self.parse_headline(arena, context) {
            None => {
                proof {
                    assert(others_kept(arena@, arena@, self.id));
                }
                Err(HeadlineError::InvalidHeadlineError)
            },
            Some(h) => {
                let mut b = h.to_builder();
                b.keyword(keyword);
                self.rebuild(arena, &b, context)
            },
        }
    }

    /// Sets the title of the headline of this section.
    pub fn set_title(self, arena: &mut Arena, title: String, context: Option<&Context>) -> (r: Result<
        (),
        HeadlineError,
    >)
        requires
            old(arena).wf(),
            old(arena)@.contains_key(self.id),
        ensures
            final(arena).wf(),
            old(arena).ordered() ==> final(arena).ordered(),
            others_kept(old(arena)@, final(arena)@, self.id),
            final(arena)@.contains_key(self.id),
            edited(
                old(arena)@,
                final(arena)@,
                self.id,
                keywords_or(context),
                match headline_in(old(arena)@, self.id, keywords_or(context)) {
                    Some(h) => Some((HeadlineView { title: title@, ..h })),
                    None => None,
                },
                r,
            ),
    {
        match self.parse_headline(arena, context) {
            None => {
                proof {
                    assert(others_kept(arena@, arena@, self.id));
                }
                Err(HeadlineError::InvalidHeadlineError)
            },
            Some(h) => {
                let mut b = h.to_builder();
                b.title(title);
                self.rebuild(arena, &b, context)
            },
        }
    }

    /// Sets the `COMMENT` mark of the headline of this section.
    pub fn set_commented(self, arena: &mut Arena, commented: bool, context: Option<&Context>) -> (r: Result<
        (),
        HeadlineError,
    >)
        requires
            old(arena).wf(),
            old(arena)@.contains_key(self.id),
        ensures
            final(arena).wf(),
            old(arena).ordered() ==> final(arena).ordered(),
            others_kept(old(arena)@, final(arena)@, self.id),
            final(arena)@.contains_key(self.id),
            edited(
                old(arena)@,
                final(arena)@,
                self.id,
                keywords_or(context),
                match headline_in(old(arena)@, self.id, keywords_or(context)) {
                    Some(h) => Some((HeadlineView { commented: commented, ..h })),
                    None => None,
                },
                r,
            ),
    {
        match self.parse_headline(arena, context) {
            None => {
                proof {
                    assert(others_kept(arena@, arena@, self.id));
                }
                Err(HeadlineError::InvalidHeadlineError)
            },
            Some(h) => {
                let mut b = h.to_builder();
                b.commented(commented);
                self.rebuild(arena, &b, context)
            },
        }
    }

    /// Sets the body of this section.
    pub fn set_body(self, arena: &mut Arena, body: String, context: Option<&Context>) -> (r: Result<
        (),
        HeadlineError,
    >)
        requires
            old(arena).wf(),
            old(arena)@.contains_key(self.id),
        ensures
            final(arena).wf(),
            old(arena).ordered() ==> final(arena).ordered(),
            others_kept(old(arena)@, final(arena)@, self.id),
            final(arena)@.contains_key(self.id),
            edited(
                old(arena)@,
                final(arena)@,
                self.id,
                keywords_or(context),
                match headline_in(old(arena)@, self.id, keywords_or(context)) {
                    Some(h) => Some((HeadlineView { body: body@, ..h })),
                    None => None,
                },
                r,
            ),
    {
        match self.parse_headline(arena, context) {
            None => {
                proof {
                    assert(others_kept(arena@, arena@, self.id));
                }
                Err(HeadlineError::InvalidHeadlineError)
            },
            Some(h) => {
                let mut b = h.to_builder();
                b.body(body);
                self.rebuild(arena, &b, context)
            },
        }
    }
}

} // verus!
