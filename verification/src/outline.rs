//! A document as a flat list of section texts, and the text that such a
//! list is written out as.

use vstd::prelude::*;
use crate::structure::{
    lemma_line_end,
    lemma_next_headline,
    lemma_star_run_bound,
    level_at,
    line_end,
    section_span,
};

verus! {

/// The pieces, each followed by a line feed except the last.
pub open spec fn join_lines(pieces: Seq<Seq<char>>) -> Seq<char>
    decreases pieces.len(),
{
    if pieces.len() == 0 {
        Seq::empty()
    } else if pieces.len() == 1 {
        pieces[0]
    } else {
        join_lines(pieces.drop_last()) + seq!['\n'] + pieces.last()
    }
}

/// A line feed where `cond` holds, nothing otherwise.
pub open spec fn line_feed_if(cond: bool) -> Seq<char> {
    if cond {
        seq!['\n']
    } else {
        Seq::empty()
    }
}

/// The written form of a list of section texts: joined by line feeds, with
/// one more at the end where asked for and anything was written.
pub open spec fn written(pieces: Seq<Seq<char>>, terminal_newline: bool) -> Seq<char> {
    join_lines(pieces) + line_feed_if(terminal_newline && pieces.len() > 0)
}

/// The span of the headline section that starts at `at`: where the next
/// headline starts, and where this section's text ends.
pub open spec fn headline_span(s: Seq<char>, at: int) -> (int, int) {
    section_span(s, line_end(s, at))
}

/// The texts of the headline sections from the headline at `at` on.
pub open spec fn section_texts(s: Seq<char>, at: int) -> Seq<Seq<char>>
    decreases s.len() - at,
{
    if 0 <= at < s.len() && level_at(s, at) > 0 {
        let span = headline_span(s, at);
        proof {
            lemma_headline_span(s, at);
        }
        seq![s.subrange(at, span.1)] + section_texts(s, span.0)
    } else {
        Seq::empty()
    }
}

/// Whether the text starts with a headline or is empty, so that the root
/// section stands for no text at all.
pub open spec fn root_is_absent(s: Seq<char>) -> bool {
    s.len() == 0 || level_at(s, 0) > 0
}

/// The text of the root section: what precedes the first headline.
pub open spec fn root_text(s: Seq<char>) -> Seq<char> {
    s.subrange(0, section_span(s, 0).1)
}

/// Whether the text ends in a line feed.
pub open spec fn ends_in_line_feed(s: Seq<char>) -> bool {
    s.len() > 0 && s.last() == '\n'
}

/// The section texts of a document in order, the root's first.
pub open spec fn all_texts(s: Seq<char>) -> Seq<Seq<char>> {
    seq![root_text(s)] + section_texts(s, section_span(s, 0).0)
}

pub proof fn lemma_headline_span(s: Seq<char>, at: int)
    requires
        0 <= at < s.len(),
    ensures
        at < headline_span(s, at).0 <= s.len(),
        at <= headline_span(s, at).1 <= headline_span(s, at).0,
        headline_span(s, at).0 < s.len() ==> level_at(s, headline_span(s, at).0) > 0,
        level_at(s, at) > 0 ==> at + level_at(s, at) < headline_span(s, at).1,
{
    lemma_line_end(s, at);
    let e = line_end(s, at);
    lemma_next_headline(s, e);
    if e < s.len() {
        lemma_next_headline(s, e + 1);
    }
    if level_at(s, at) > 0 {
        lemma_star_run_bound(s, at);
    }
}

pub proof fn lemma_join_cons(first: Seq<char>, rest: Seq<Seq<char>>)
    ensures
        join_lines(seq![first] + rest) == first + line_feed_if(rest.len() > 0) + join_lines(rest),
    decreases rest.len(),
{
    let all = seq![first] + rest;
    if rest.len() == 0 {
        assert(all == seq![first]);
    } else {
        assert(all.drop_last() == seq![first] + rest.drop_last());
        lemma_join_cons(first, rest.drop_last());
        if rest.len() == 1 {
            assert(rest.drop_last().len() == 0);
        }
    }
}

pub proof fn lemma_join_concat(a: Seq<Seq<char>>, b: Seq<Seq<char>>)
    ensures
        join_lines(a + b) == join_lines(a) + line_feed_if(a.len() > 0 && b.len() > 0) + join_lines(
            b,
        ),
    decreases b.len(),
{
    if b.len() == 0 {
        assert(a + b == a);
    } else if a.len() == 0 {
        assert(a + b == b);
    } else {
        assert((a + b).drop_last() == a + b.drop_last());
        lemma_join_concat(a, b.drop_last());
        if b.len() == 1 {
            assert(b.drop_last().len() == 0);
        }
    }
}

/// Writing out the headline sections from `at` on gives back the text from
/// `at` on.
pub proof fn lemma_sections_written(s: Seq<char>, at: int)
    requires
        0 <= at < s.len(),
        level_at(s, at) > 0,
    ensures
        section_texts(s, at).len() > 0,
        written(section_texts(s, at), ends_in_line_feed(s)) == s.skip(at),
    decreases s.len() - at,
{
    lemma_headline_span(s, at);
    lemma_line_end(s, at);
    let e = line_end(s, at);
    lemma_next_headline(s, e);
    let span = headline_span(s, at);
    let text = s.subrange(at, span.1);
    let rest = section_texts(s, span.0);
    lemma_join_cons(text, rest);
    if span.0 < s.len() {
        lemma_sections_written(s, span.0);
        assert(s.skip(at) == text + seq!['\n'] + s.skip(span.0));
    } else {
        assert(rest.len() == 0);
        if span.1 < span.0 {
            assert(s.skip(at) == text + seq!['\n']);
        } else {
            assert(s.skip(at) == text);
            if e < s.len() {
                lemma_next_headline(s, e + 1);
            }
        }
    }
}

/// Whether the root's text is written out: not when it is empty and the
/// document was seen to start with a headline.
pub open spec fn root_is_written(text: Seq<char>, level: u16, empty_root_section: bool) -> bool {
    level > 0 || text.len() > 0 || !empty_root_section
}

/// The texts that are written out for a document whose sections are
/// `texts`, the root's first.
pub open spec fn written_texts(texts: Seq<Seq<char>>, root_level: u16, empty_root_section: bool) -> Seq<
    Seq<char>,
> {
    if texts.len() > 0 && !root_is_written(texts[0], root_level, empty_root_section) {
        texts.skip(1)
    } else {
        texts
    }
}

/// Cutting a text into sections and writing them out again gives back the
/// text.
pub proof fn lemma_cut_and_written(s: Seq<char>)
    ensures
        written(written_texts(all_texts(s), 0, root_is_absent(s)), ends_in_line_feed(s)) == s,
{
    let span = section_span(s, 0);
    let heads = section_texts(s, span.0);
    let all = all_texts(s);
    assert(all.skip(1) == heads);
    if s.len() == 0 {
        assert(written(Seq::<Seq<char>>::empty(), false) == s);
    } else {
        lemma_next_headline(s, 0);
        if level_at(s, 0) > 0 {
            assert(root_text(s).len() == 0);
            lemma_sections_written(s, 0);
            assert(s.skip(0) == s);
        } else {
            lemma_star_run_bound(s, 0);
            lemma_line_end(s, 0);
            assert(span.0 > 0);
            lemma_join_cons(root_text(s), heads);
            if span.0 < s.len() {
                lemma_sections_written(s, span.0);
                assert(s == root_text(s) + seq!['\n'] + s.skip(span.0));
            } else {
                assert(heads.len() == 0);
                if span.1 < span.0 {
                    assert(s == root_text(s) + seq!['\n']);
                } else {
                    assert(s == root_text(s));
                }
            }
        }
    }
}

} // verus!
