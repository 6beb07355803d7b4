//! Putting a headline together from its parts.

use vstd::prelude::*;
use crate::arena::{lemma_star_run_after, lemma_star_run_stars, stars};
use crate::errors::HeadlineError;
use crate::headline::parser::{
    all_tag_chars,
    context_or,
    first_line,
    headline_of,
    is_tag_character,
    keywords_or,
    parse_valid_single_headline,
    Context,
    Headline,
};
use crate::headline::tags::{
    contains_part,
    drop_part,
    drop_parts,
    is_listed,
    join,
    join_with,
    listed,
    merge_parts,
    merged_parts,
    parts_without,
    parts_without_any,
    split,
    split_on,
    views,
};
use crate::headline::value::{headline_text, HeadlinePod, HeadlineView};
use crate::structure::{
    lemma_level_of_slice,
    lemma_line_end,
    level_at,
    line_end,
    next_headline,
    parse_section,
};
use crate::text::{chars_of, push_all, string_of};

verus! {

/// The parts of a headline in the making.
#[derive(Clone, Debug, PartialEq, Eq)]
pub struct HeadlineBuilder(pub HeadlinePod);

impl View for HeadlineBuilder {
    type V = HeadlineView;

    open spec fn view(&self) -> HeadlineView {
        self.0@
    }
}

/// The texts of the strings `words`.
pub open spec fn words_of(words: Seq<&str>) -> Seq<Seq<char>> {
    Seq::new(words.len(), |i: int| words[i]@)
}

/// Whether a headline has the tag `tag`: the tag is not empty and stands
/// between two colons, or a colon and an end, of the raw tags.
pub open spec fn tagged(raw_tags: Seq<char>, tag: Seq<char>) -> bool {
    tag.len() > 0 && is_listed(raw_tags, tag)
}

/// The raw tags with `tag` added at the end, unless it is among them.
pub open spec fn with_tag(raw_tags: Seq<char>, tag: Seq<char>) -> Seq<char> {
    if is_listed(raw_tags, tag) {
        raw_tags
    } else if raw_tags.len() > 0 {
        raw_tags.push(':') + tag
    } else {
        tag
    }
}

/// The raw tags without every occurrence of `tag`.
pub open spec fn without_tag(raw_tags: Seq<char>, tag: Seq<char>) -> Seq<char> {
    if is_listed(raw_tags, tag) {
        join_with(parts_without(split_on(raw_tags, ':'), tag), ':')
    } else {
        raw_tags
    }
}

/// The raw tags without every occurrence of any of `tags`.
pub open spec fn without_tags(raw_tags: Seq<char>, tags: Seq<Seq<char>>) -> Seq<char> {
    join_with(parts_without_any(split_on(raw_tags, ':'), tags), ':')
}

/// The raw tags with each tag once, in the order of first occurrence, and
/// without empty ones.
pub open spec fn canonical(raw_tags: Seq<char>) -> Seq<char> {
    join_with(merged_parts(Seq::empty(), split_on(raw_tags, ':')), ':')
}

/// The raw tags made canonical and followed by those of `tags` that are not
/// empty and not yet among them; where there were none, `tags` as they are.
pub open spec fn with_tags(raw_tags: Seq<char>, tags: Seq<Seq<char>>) -> Seq<char> {
    if raw_tags.len() == 0 {
        join_with(tags, ':')
    } else {
        join_with(merged_parts(merged_parts(Seq::empty(), split_on(raw_tags, ':')), tags), ':')
    }
}

/// Whether some line of `body` is a headline line.
pub open spec fn has_headline_line(body: Seq<char>) -> bool {
    next_headline(body, 0) < body.len()
}

/// What is wrong with the parts of a headline, the first of: a level of 0;
/// a priority that is no capital letter; raw tags with a character that
/// tags cannot hold; a keyword that the context does not list; a body with
/// a headline line. The title is not looked at.
pub open spec fn flaw_of(h: HeadlineView, keywords: Seq<char>) -> Option<HeadlineError> {
    if h.level == 0 {
        Some(HeadlineError::InvalidLevelError)
    } else if h.priority matches Some(c) && !('A' <= c && c <= 'Z') {
        Some(HeadlineError::InvalidPriorityError)
    } else if !all_tag_chars(h.raw_tags, 0, h.raw_tags.len() as int) {
        Some(HeadlineError::InvalidTagsError)
    } else if h.keyword matches Some(k) && !is_listed(keywords, k) {
        Some(HeadlineError::InvalidKeywordError)
    } else if has_headline_line(h.body) {
        Some(HeadlineError::InvalidBodyError)
    } else {
        None
    }
}

/// Whether the written form of a headline is read back as the same
/// headline.
pub open spec fn reads_back(h: HeadlineView, keywords: Seq<char>) -> bool {
    headline_of(headline_text(h), keywords) == Some(h)
}

/// The written form of a headline of level 1 or more starts with a
/// headline of that level.
pub proof fn lemma_text_starts_with_stars(h: HeadlineView)
    requires
        h.level >= 1,
    ensures
        level_at(first_line(headline_text(h)), 0) == h.level,
{
    let text = headline_text(h);
    let n = h.level as int;
    let tail = text.skip(n);
    assert(text =~= stars(n as nat) + tail);
    assert(tail[0] == ' ');
    lemma_star_run_stars(text, n, 0);
    lemma_star_run_after(stars(n as nat), tail);
    assert(text[n] == ' ');
    assert(level_at(text, 0) == n);
    lemma_line_end(text, 0);
    assert(line_end(text, 0) > n) by {
        if line_end(text, 0) <= n {
            assert(text[line_end(text, 0)] == '\n');
        }
    }
    lemma_level_of_slice(text, 0, line_end(text, 0));
    assert(text.subrange(0, line_end(text, 0)) == first_line(text));
}

/// The characters of the strings `words`.
fn all_chars_of(words: &[&str]) -> (parts: Vec<Vec<char>>)
    ensures
        views(parts@) == words_of(words@),
{
    let mut parts: Vec<Vec<char>> = Vec::new();
    let mut i: usize = 0;
    while i < words.len()
        invariant
            i <= words.len(),
            parts@.len() == i,
            forall|k: int| 0 <= k < i ==> (#[trigger] parts@[k])@ == words@[k]@,
        decreases words.len() - i,
    {
        parts.push(chars_of(words[i]));
        i += 1;
    }
    assert(views(parts@) =~= words_of(words@));
    parts
}

impl HeadlineBuilder {
    /// Sets the level.
    pub fn level(&mut self, level: u16) -> (ret: &mut HeadlineBuilder)
        ensures
            ret@ == (HeadlineView { level, ..old(self)@ }),
            *final(self) == *final(ret),
    {
        self.0.level = level;
        self
    }

    /// Sets the priority.
    pub fn priority(&mut self, priority: Option<char>) -> (ret: &mut HeadlineBuilder)
        ensures
            ret@ == (HeadlineView { priority, ..old(self)@ }),
            *final(self) == *final(ret),
    {
        self.0.priority = priority;
        self
    }

    /// Leaves each tag once, in the order of first occurrence, and drops
    /// empty ones.
    pub fn canonical_tags(&mut self) -> (ret: &mut HeadlineBuilder)
        ensures
            ret@ == (HeadlineView { raw_tags: canonical(old(self)@.raw_tags), ..old(self)@ }),
            *final(self) == *final(ret),
    {
        let parts = split(&self.0.raw_tags, ':');
        let kept = merge_parts(Vec::new(), &parts);
        proof {
            assert(views(Seq::<Vec<char>>::empty()) =~= Seq::<Seq<char>>::empty());
        }
        self.0.raw_tags = join(&kept, ':');
        self
    }

    /// Sets the raw tags: the tags with colons between them.
    pub fn set_raw_tags(&mut self, raw_tags: &str) -> (ret: &mut HeadlineBuilder)
        ensures
            ret@ == (HeadlineView { raw_tags: raw_tags@, ..old(self)@ }),
            *final(self) == *final(ret),
    {
        self.0.raw_tags = chars_of(raw_tags);
        self
    }

    /// Sets the raw tags: the tags with colons between them.
    pub fn set_raw_tags_string(&mut self, raw_tags: String) -> (ret: &mut HeadlineBuilder)
        ensures
            ret@ == (HeadlineView { raw_tags: raw_tags@, ..old(self)@ }),
            *final(self) == *final(ret),
    {
        self.0.raw_tags = chars_of(raw_tags.as_str());
        self
    }

    /// Sets the tags.
    pub fn set_tags(&mut self, tags: &[&str]) -> (ret: &mut HeadlineBuilder)
        ensures
            ret@ == (HeadlineView { raw_tags: join_with(words_of(tags@), ':'), ..old(self)@ }),
            *final(self) == *final(ret),
    {
        let parts = all_chars_of(tags);
        self.0.raw_tags = join(&parts, ':');
        self
    }

    /// Adds those of `tags` that the headline does not have yet, and makes
    /// the tags canonical.
    pub fn update_tags(&mut self, tags: &[&str]) -> (ret: &mut HeadlineBuilder)
        ensures
            ret@ == (HeadlineView {
                raw_tags: with_tags(old(self)@.raw_tags, words_of(tags@)),
                ..old(self)@
            }),
            *final(self) == *final(ret),
    {
        let new_parts = all_chars_of(tags);
        if self.0.raw_tags.len() == 0 {
            self.0.raw_tags = join(&new_parts, ':');
        } else {
            let parts = split(&self.0.raw_tags, ':');
            proof {
                assert(views(Seq::<Vec<char>>::empty()) =~= Seq::<Seq<char>>::empty());
            }
            let kept = merge_parts(Vec::new(), &parts);
            let all = merge_parts(kept, &new_parts);
            self.0.raw_tags = join(&all, ':');
        }
        self
    }

    /// Removes every occurrence of the tag `tag`.
    pub fn clear_tag(&mut self, tag: &str) -> (ret: &mut HeadlineBuilder)
        ensures
            ret@ == (HeadlineView { raw_tags: without_tag(old(self)@.raw_tags, tag@), ..old(self)@ }),
            *final(self) == *final(ret),
    {
        let word = chars_of(tag);
        let parts = split(&self.0.raw_tags, ':');
        if contains_part(&parts, &word) {
            let kept = drop_part(&parts, &word);
            self.0.raw_tags = join(&kept, ':');
        }
        self
    }

    /// Removes every occurrence of each of the tags `tags`.
    pub fn remove_tags(&mut self, tags: &[&str]) -> (ret: &mut HeadlineBuilder)
        ensures
            ret@ == (HeadlineView {
                raw_tags: without_tags(old(self)@.raw_tags, words_of(tags@)),
                ..old(self)@
            }),
            *final(self) == *final(ret),
    {
        let words = all_chars_of(tags);
        let parts = split(&self.0.raw_tags, ':');
        let kept = drop_parts(&parts, &words);
        self.0.raw_tags = join(&kept, ':');
        self
    }

    /// Removes all tags.
    pub fn clear_tags(&mut self) -> (ret: &mut HeadlineBuilder)
        ensures
            ret@ == (HeadlineView { raw_tags: Seq::empty(), ..old(self)@ }),
            *final(self) == *final(ret),
    {
        self.0.raw_tags = Vec::new();
        self
    }

    /// Adds the tag `tag` at the end, unless it is among the tags.
    pub fn add_tag(&mut self, tag: &str) -> (ret: &mut HeadlineBuilder)
        ensures
            ret@ == (HeadlineView { raw_tags: with_tag(old(self)@.raw_tags, tag@), ..old(self)@ }),
            *final(self) == *final(ret),
    {
        let word = chars_of(tag);
        if !listed(&self.0.raw_tags, &word) {
            if self.0.raw_tags.len() > 0 {
                self.0.raw_tags.push(':');
            }
            push_all(&mut self.0.raw_tags, &word);
            assert(self.0.raw_tags@ =~= with_tag(old(self)@.raw_tags, tag@));
        }
        self
    }

    /// Whether the headline has the tag `tag`.
    pub fn has_tag(&self, tag: &str) -> (r: bool)
        ensures
            r == tagged(self@.raw_tags, tag@),
    {
        let word = chars_of(tag);
        word.len() > 0 && listed(&self.0.raw_tags, &word)
    }

    /// Sets the keyword.
    pub fn keyword(&mut self, keyword: Option<String>) -> (ret: &mut HeadlineBuilder)
        ensures
            ret@ == (HeadlineView {
                keyword: match keyword {
                    Some(k) => Some(k@),
                    None => None,
                },
                ..old(self)@
            }),
            *final(self) == *final(ret),
    {
        self.0.keyword = match keyword {
            Some(k) => Some(chars_of(k.as_str())),
            None => None,
        };
        self
    }

    /// Sets the title.
    pub fn title(&mut self, title: String) -> (ret: &mut HeadlineBuilder)
        ensures
            ret@ == (HeadlineView { title: title@, ..old(self)@ }),
            *final(self) == *final(ret),
    {
        self.0.title = chars_of(title.as_str());
        self
    }

    /// Sets the `COMMENT` mark.
    pub fn commented(&mut self, commented: bool) -> (ret: &mut HeadlineBuilder)
        ensures
            ret@ == (HeadlineView { commented, ..old(self)@ }),
            *final(self) == *final(ret),
    {
        self.0.commented = commented;
        self
    }

    /// Sets the body.
    pub fn body(&mut self, body: String) -> (ret: &mut HeadlineBuilder)
        ensures
            ret@ == (HeadlineView { body: body@, ..old(self)@ }),
            *final(self) == *final(ret),
    {
        self.0.body = chars_of(body.as_str());
        self
    }

    /// Looks for what is wrong with the parts; the title is not looked at.
    pub fn validate_partially(&self, context: Option<&Context>) -> (r: Result<(), HeadlineError>)
        ensures
            r is Ok <==> flaw_of(self@, keywords_or(context)) is None,
            r matches Err(e) ==> flaw_of(self@, keywords_or(context)) == Some(e),
    {
        let context = context_or(context);
        if self.0.level == 0 {
            return Err(HeadlineError::InvalidLevelError);
        }
        if let Some(c) = self.0.priority {
            if !('A' <= c && c <= 'Z') {
                return Err(HeadlineError::InvalidPriorityError);
            }
        }
        let mut i: usize = 0;
        while i < self.0.raw_tags.len()
            invariant
                i <= self.0.raw_tags.len(),
                all_tag_chars(self@.raw_tags, 0, i as int),
                self@.level != 0,
                !(self@.priority matches Some(c) && !('A' <= c && c <= 'Z')),
            decreases self.0.raw_tags.len() - i,
        {
            if !is_tag_character(self.0.raw_tags[i]) {
                proof {
                    assert(!crate::headline::parser::is_tag_char(self@.raw_tags[i as int]));
                }
                return Err(HeadlineError::InvalidTagsError);
            }
            i += 1;
        }
        if let Some(keyword) = &self.0.keyword {
            if !listed(&context.keywords, keyword) {
                return Err(HeadlineError::InvalidKeywordError);
            }
        }
        if parse_section(&self.0.body, 0).0 < self.0.body.len() {
            return Err(HeadlineError::InvalidBodyError);
        }
        Ok(())
    }

    /// Builds the headline: its parts must be valid, and its written form
    /// must be read back as the same parts.
    pub fn headline(&self, context: Option<&Context>) -> (r: Result<Headline, HeadlineError>)
        ensures
            match flaw_of(self@, keywords_or(context)) {
                Some(e) => r == Err::<Headline, HeadlineError>(e),
                None => if reads_back(self@, keywords_or(context)) {
                    r matches Ok(h) && h@ == self@
                } else {
                    r == Err::<Headline, HeadlineError>(HeadlineError::NonEquivalentReparseError)
                },
            },
    {
        match self.validate_partially(context) {
            Err(e) => {
                return Err(e);
            },
            Ok(()) => {},
        }
        let text = self.0.to_rope();
        proof {
            lemma_text_starts_with_stars(self@);
        }
        let parsed = parse_valid_single_headline(&text, &context_or(context));
        if !parsed.0.same_as(&self.0) {
            return Err(HeadlineError::NonEquivalentReparseError);
        }
        Ok(Headline(self.0.copy()))
    }

    /// The written form of the headline, whose parts must be valid.
    pub fn to_rope(&self, context: Option<&Context>) -> (r: Result<String, HeadlineError>)
        ensures
            r is Ok <==> flaw_of(self@, keywords_or(context)) is None,
            r matches Err(e) ==> flaw_of(self@, keywords_or(context)) == Some(e),
            r matches Ok(text) ==> text@ == headline_text(self@),
    {
        match self.validate_partially(context) {
            Err(e) => Err(e),
            Ok(()) => Ok(string_of(&self.0.to_rope())),
        }
    }
}

impl Default for HeadlineBuilder {
    fn default() -> (b: HeadlineBuilder)
        ensures
            b@ == HeadlineView::bare(),
    {
        HeadlineBuilder(HeadlinePod::default())
    }
}

/// A headline that can be built is read back from its written form as
/// itself.
pub proof fn lemma_built_headline_reads_back(
    b: HeadlineView,
    keywords: Seq<char>,
    r: Result<Headline, HeadlineError>,
)
    requires
        built(b, keywords, r),
        r is Ok,
    ensures
        headline_of(headline_text(b), keywords) == Some(b),
        r->Ok_0@ == b,
{
}

/// What `HeadlineBuilder::headline` returns for the parts `b`.
pub open spec fn built(b: HeadlineView, keywords: Seq<char>, r: Result<Headline, HeadlineError>) -> bool {
    match flaw_of(b, keywords) {
        Some(e) => r == Err::<Headline, HeadlineError>(e),
        None => if reads_back(b, keywords) {
            r matches Ok(h) && h@ == b
        } else {
            r == Err::<Headline, HeadlineError>(HeadlineError::NonEquivalentReparseError)
        },
    }
}

} // verus!
