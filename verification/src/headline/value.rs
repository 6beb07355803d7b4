//! The parts of a headline, and its written form.

use vstd::prelude::*;
use crate::arena::stars;

use crate::headline::timestamp::{Stamp, Timestamp};
use crate::text::{push_all, same_chars};

verus! {

/// The keywords that a planning line can hold.
#[derive(Debug, Clone, Copy, PartialEq, Eq, Structural)]
pub enum PlanningKeyword {
    Deadline,
    Scheduled,
    Closed,
}

/// One entry of a planning line: a keyword and its timestamp.
#[derive(Debug, Clone, PartialEq, Eq)]
pub struct InfoPattern {
    pub keyword: PlanningKeyword,
    pub timestamp: Timestamp,
}

/// What a planning line says.
#[derive(Debug, Clone, PartialEq, Eq)]
pub struct Planning {
    pub deadline: Option<Timestamp>,
    pub scheduled: Option<Timestamp>,
    pub closed: Option<Timestamp>,
}

/// What a planning line says, as a value.
pub struct PlanningView {
    pub deadline: Option<Stamp>,
    pub scheduled: Option<Stamp>,
    pub closed: Option<Stamp>,
}

/// A timestamp that may be there, as a value.
pub open spec fn stamp_of(t: Option<Timestamp>) -> Option<Stamp> {
    match t {
        Some(t) => Some(t@),
        None => None,
    }
}

impl View for Planning {
    type V = PlanningView;

    open spec fn view(&self) -> PlanningView {
        PlanningView {
            deadline: stamp_of(self.deadline),
            scheduled: stamp_of(self.scheduled),
            closed: stamp_of(self.closed),
        }
    }
}

impl PlanningView {
    /// A planning line that says nothing.
    pub open spec fn none() -> PlanningView {
        PlanningView { deadline: None, scheduled: None, closed: None }
    }
}

/// A copy of a timestamp that may be there.
pub fn copy_stamp(t: &Option<Timestamp>) -> (copy: Option<Timestamp>)
    ensures
        stamp_of(copy) == stamp_of(*t),
{
    match t {
        Some(t) => Some(t.to_borrowed()),
        None => None,
    }
}

impl Planning {
    pub fn into_owned(self) -> (p: Planning)
        ensures
            p@ == self@,
    {
        self
    }

    pub fn to_borrowed(&self) -> (p: Planning)
        ensures
            p@ == self@,
    {
        Planning {
            deadline: copy_stamp(&self.deadline),
            scheduled: copy_stamp(&self.scheduled),
            closed: copy_stamp(&self.closed),
        }
    }
}

impl Default for Planning {
    fn default() -> (p: Planning)
        ensures
            p@ == PlanningView::none(),
    {
        Planning { deadline: None, scheduled: None, closed: None }
    }
}

/// The parts of a headline, as they are stored.
#[derive(Clone, Debug, PartialEq, Eq)]
pub struct HeadlinePod {
    pub level: u16,
    pub priority: Option<char>,
    pub raw_tags: Vec<char>,
    pub keyword: Option<Vec<char>>,
    pub title: Vec<char>,
    pub commented: bool,
    pub planning: Planning,
    pub body: Vec<char>,
}

/// The parts of a headline, as values.
pub struct HeadlineView {
    pub level: u16,
    pub priority: Option<char>,
    pub raw_tags: Seq<char>,
    pub keyword: Option<Seq<char>>,
    pub title: Seq<char>,
    pub commented: bool,
    pub planning: PlanningView,
    pub body: Seq<char>,
}

/// The text that a vector which may be there holds.
pub open spec fn text_of(v: Option<Vec<char>>) -> Option<Seq<char>> {
    match v {
        Some(v) => Some(v@),
        None => None,
    }
}

impl View for HeadlinePod {
    type V = HeadlineView;

    open spec fn view(&self) -> HeadlineView {
        HeadlineView {
            level: self.level,
            priority: self.priority,
            raw_tags: self.raw_tags@,
            keyword: text_of(self.keyword),
            title: self.title@,
            commented: self.commented,
            planning: self.planning@,
            body: self.body@,
        }
    }
}

/// `COMMENT`.
pub open spec fn comment_word() -> Seq<char> {
    seq!['C', 'O', 'M', 'M', 'E', 'N', 'T']
}

/// The written form of a headline: stars and a space; the keyword and a
/// space; the priority in `[#` and `]` and a space; `COMMENT`, and a space
/// before a title that is not empty; the title; the tags between ` :` and
/// `:`; a line feed and the body. What is not there is left out. The
/// planning is not written.
pub open spec fn headline_text(h: HeadlineView) -> Seq<char> {
    stars(h.level as nat) + seq![' '] + (match h.keyword {
        Some(k) => k + seq![' '],
        None => Seq::empty(),
    }) + (match h.priority {
        Some(p) => seq!['[', '#', p, ']', ' '],
        None => Seq::empty(),
    }) + (if h.commented {
        if h.title.len() == 0 {
            comment_word()
        } else {
            comment_word() + seq![' ']
        }
    } else {
        Seq::empty()
    }) + h.title + (if h.raw_tags.len() > 0 {
        seq![' ', ':'] + h.raw_tags + seq![':']
    } else {
        Seq::empty()
    }) + (if h.body.len() > 0 {
        seq!['\n'] + h.body
    } else {
        Seq::empty()
    })
}

/// Whether the two timestamps that may be there are the same.
pub fn same_stamp(a: &Option<Timestamp>, b: &Option<Timestamp>) -> (r: bool)
    ensures
        r == (stamp_of(*a) == stamp_of(*b)),
{
    match (a, b) {
        (None, None) => true,
        (Some(x), Some(y)) => match (x, y) {
            (Timestamp::Diary(p), Timestamp::Diary(q)) => p.0 == q.0,
            (Timestamp::Point(p), Timestamp::Point(q)) => *p == *q,
            (Timestamp::Range(p), Timestamp::Range(q)) => *p == *q,
            (Timestamp::TimeRange(p), Timestamp::TimeRange(q)) => *p == *q,
            _ => false,
        },
        _ => false,
    }
}

/// Whether the two texts that may be there are the same.
pub fn same_text(a: &Option<Vec<char>>, b: &Option<Vec<char>>) -> (r: bool)
    ensures
        r == (text_of(*a) == text_of(*b)),
{
    match (a, b) {
        (None, None) => true,
        (Some(x), Some(y)) => same_chars(x, y),
        _ => false,
    }
}

impl HeadlinePod {
    /// Writes the headline out.
    pub fn to_rope(&self) -> (text: Vec<char>)
        ensures
            text@ == headline_text(self@),
    {
        let mut out: Vec<char> = Vec::new();
        let mut i: u16 = 0;
        while i < self.level
            invariant
                i <= self.level,
                out@ == stars(i as nat),
            decreases self.level - i,
        {
            out.push('*');
            assert(out@ =~= stars((i + 1) as nat));
            i += 1;
        }
        out.push(' ');
        let ghost with_stars = out@;
        if let Some(k) = &self.keyword {
            push_all(&mut out, k);
            out.push(' ');
        }
        let ghost with_keyword = out@;
        if let Some(p) = self.priority {
            out.push('[');
            out.push('#');
            out.push(p);
            out.push(']');
            out.push(' ');
        }
        let ghost with_priority = out@;
        if self.commented {
            out.push('C');
            out.push('O');
            out.push('M');
            out.push('M');
            out.push('E');
            out.push('N');
            out.push('T');
            if self.title.len() > 0 {
                out.push(' ');
            }
        }
        let ghost with_comment = out@;
        push_all(&mut out, &self.title);
        let ghost with_title = out@;
        if self.raw_tags.len() > 0 {
            out.push(' ');
            out.push(':');
            push_all(&mut out, &self.raw_tags);
            out.push(':');
        }
        let ghost with_tags = out@;
        if self.body.len() > 0 {
            out.push('\n');
            push_all(&mut out, &self.body);
        }
        proof {
            let h = self@;
            assert(with_stars =~= stars(h.level as nat) + seq![' ']);
            assert(with_keyword =~= with_stars + (match h.keyword {
                Some(k) => k + seq![' '],
                None => Seq::empty(),
            }));
            assert(with_priority =~= with_keyword + (match h.priority {
                Some(p) => seq!['[', '#', p, ']', ' '],
                None => Seq::empty(),
            }));
            assert(with_comment =~= with_priority + (if h.commented {
                if h.title.len() == 0 {
                    comment_word()
                } else {
                    comment_word() + seq![' ']
                }
            } else {
                Seq::empty()
            }));
            assert(with_title =~= with_comment + h.title);
            assert(with_tags =~= with_title + (if h.raw_tags.len() > 0 {
                seq![' ', ':'] + h.raw_tags + seq![':']
            } else {
                Seq::empty()
            }));
            assert(out@ =~= with_tags + (if h.body.len() > 0 {
                seq!['\n'] + h.body
            } else {
                Seq::empty()
            }));
        }
        out
    }

    /// Whether two headlines have the same parts.
    pub fn same_as(&self, other: &HeadlinePod) -> (r: bool)
        ensures
            r == (self@ == other@),
    {
        self.level == other.level && self.priority == other.priority && same_chars(
            &self.raw_tags,
            &other.raw_tags,
        ) && same_text(&self.keyword, &other.keyword) && same_chars(&self.title, &other.title)
            && self.commented == other.commented && same_stamp(
            &self.planning.deadline,
            &other.planning.deadline,
        ) && same_stamp(&self.planning.scheduled, &other.planning.scheduled) && same_stamp(
            &self.planning.closed,
            &other.planning.closed,
        ) && same_chars(&self.body, &other.body)
    }

    /// A copy of the headline.
    pub fn copy(&self) -> (pod: HeadlinePod)
        ensures
            pod@ == self@,
    {
        HeadlinePod {
            level: self.level,
            priority: self.priority,
            raw_tags: self.raw_tags.clone(),
            keyword: match &self.keyword {
                Some(k) => Some(k.clone()),
                None => None,
            },
            title: self.title.clone(),
            commented: self.commented,
            planning: self.planning.to_borrowed(),
            body: self.body.clone(),
        }
    }
}

impl HeadlineView {
    /// A headline of level 1 with nothing else.
    pub open spec fn bare() -> HeadlineView {
        HeadlineView {
            level: 1,
            priority: None,
            raw_tags: Seq::empty(),
            keyword: None,
            title: Seq::empty(),
            commented: false,
            planning: PlanningView::none(),
            body: Seq::empty(),
        }
    }
}

impl Default for HeadlinePod {
    fn default() -> (pod: HeadlinePod)
        ensures
            pod@ == HeadlineView::bare(),
    {
        HeadlinePod {
            level: 1,
            priority: None,
            raw_tags: Vec::new(),
            keyword: None,
            title: Vec::new(),
            commented: false,
            planning: Planning { deadline: None, scheduled: None, closed: None },
            body: Vec::new(),
        }
    }
}

} // verus!
