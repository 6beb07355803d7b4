//! Taking a headline apart: stars, keyword, priority, title, tags, the
//! `COMMENT` mark, and the planning line that may follow.

use vstd::prelude::*;
use crate::arena::stars;
use crate::headline::tags::{is_listed, listed};
use crate::headline::timestamp::Stamp;
use crate::headline::timestamp_parse::{parse_timestamp, timestamp_at};
use crate::headline::value::{
    comment_word,
    HeadlinePod,
    HeadlineView,
    Planning,
    PlanningKeyword,
    PlanningView,
};
use crate::structure::{lemma_star_run_bound, level_at, level_of, line_end, line_end_of};
use crate::text::{
    copy_range,
    has_at,
    is_ascii_space,
    is_ascii_space_char,
    is_space,
    is_space_char,
    skip_blanks,
    skip_blanks_exec,
    starts_at,
};

verus! {

/// Whether a character is alphabetic or numeric in the sense of Unicode.
pub uninterp spec fn alphanumeric(c: char) -> bool;

/// `char::is_alphanumeric`: whether the character is alphabetic or numeric
/// in the sense of Unicode.
#[verifier::external_body]
fn is_alphanumeric(c: char) -> (r: bool)
    ensures
        r == alphanumeric(c),
{
    c.is_alphanumeric()
}

/// The characters that tags are made of, and the colon between them.
pub open spec fn is_tag_char(c: char) -> bool {
    c == ':' || c == '#' || c == '@' || c == '%' || c == '_' || alphanumeric(c)
}

/// Tests for the characters that tags are made of.
pub fn is_tag_character(c: char) -> (r: bool)
    ensures
        r == is_tag_char(c),
{
    c == ':' || c == '#' || c == '@' || c == '%' || c == '_' || is_alphanumeric(c)
}

/// Whether every character between `lo` and `hi` can stand in tags.
pub open spec fn all_tag_chars(s: Seq<char>, lo: int, hi: int) -> bool {
    forall|k: int| lo <= k < hi ==> is_tag_char(#[trigger] s[k])
}

/// The first position at or after `i` that holds no space.
pub open spec fn skip_spaces(s: Seq<char>, i: int) -> int
    decreases s.len() - i,
{
    if 0 <= i < s.len() && s[i] == ' ' {
        skip_spaces(s, i + 1)
    } else {
        i
    }
}

/// The first position at or after `i` that holds white space, or the
/// length.
pub open spec fn word_end(s: Seq<char>, i: int) -> int
    decreases s.len() - i,
{
    if 0 <= i < s.len() && !is_space(s[i]) {
        word_end(s, i + 1)
    } else {
        i
    }
}

/// The first position at or after `i` that holds no white space.
pub open spec fn skip_space(s: Seq<char>, i: int) -> int
    decreases s.len() - i,
{
    if 0 <= i < s.len() && is_space(s[i]) {
        skip_space(s, i + 1)
    } else {
        i
    }
}

/// The first position at or after `i` and below `hi` that holds no ASCII
/// white space, or `hi`.
pub open spec fn skip_ascii_space(s: Seq<char>, i: int, hi: int) -> int
    decreases hi - i,
{
    if 0 <= i < hi <= s.len() && is_ascii_space(s[i]) {
        skip_ascii_space(s, i + 1, hi)
    } else {
        i
    }
}

/// The end of the text between `lo` and `hi` once the ASCII white space at
/// its end is left off.
pub open spec fn back_ascii_space(s: Seq<char>, lo: int, hi: int) -> int
    decreases hi - lo,
{
    if 0 <= lo < hi <= s.len() && is_ascii_space(s[hi - 1]) {
        back_ascii_space(s, lo, hi - 1)
    } else {
        hi
    }
}

/// The start of the word that ends at `hi`: of the characters before `hi`,
/// down to `lo`, that are no ASCII white space.
pub open spec fn word_start(s: Seq<char>, lo: int, hi: int) -> int
    decreases hi - lo,
{
    if 0 <= lo < hi <= s.len() && !is_ascii_space(s[hi - 1]) {
        word_start(s, lo, hi - 1)
    } else {
        hi
    }
}

/// The keyword at `i`: after spaces, a word that is among the keywords of
/// the context; without one, nothing is taken.
pub open spec fn keyword_at(s: Seq<char>, i: int, keywords: Seq<char>) -> (Option<Seq<char>>, int) {
    let from = skip_spaces(s, i);
    let to = word_end(s, from);
    if is_listed(keywords, s.subrange(from, to)) {
        (Some(s.subrange(from, to)), to)
    } else {
        (None, i)
    }
}

/// The priority at `i`: after spaces and tabs, `[#`, a capital letter and
/// `]`; without one, nothing is taken.
pub open spec fn priority_at(s: Seq<char>, i: int) -> (Option<char>, int) {
    let j = skip_blanks(s, i);
    if 0 <= j && j + 4 <= s.len() && s[j] == '[' && s[j + 1] == '#' && 'A' <= s[j + 2] && s[j + 2]
        <= 'Z' && s[j + 3] == ']' {
        (Some(s[j + 2]), j + 4)
    } else {
        (None, i)
    }
}

/// Where the tags at the end of the text between `lo` and `hi` start and
/// end, the colons around them included; where there are none, `hi` twice.
pub open spec fn tags_span(s: Seq<char>, lo: int, hi: int) -> (int, int) {
    let end = back_ascii_space(s, lo, hi);
    let start = word_start(s, lo, end);
    if end - start >= 2 && s[start] == ':' && s[end - 1] == ':' && all_tag_chars(
        s,
        start + 1,
        end - 1,
    ) {
        (start, end)
    } else {
        (hi, hi)
    }
}

/// The text between `lo` and `hi` without the ASCII white space at its
/// ends.
pub open spec fn ascii_trimmed(s: Seq<char>, lo: int, hi: int) -> Seq<char> {
    let end = back_ascii_space(s, lo, hi);
    let start = skip_ascii_space(s, lo, end);
    s.subrange(start, end)
}

/// Whether a title starts with `COMMENT` as a word of its own.
pub open spec fn is_commented(title: Seq<char>) -> bool {
    has_at(title, 0, comment_word()) && (title.len() == 7 || is_space(title[7]))
}

/// A title without `COMMENT` and the white space after it.
pub open spec fn uncommented(title: Seq<char>) -> Seq<char> {
    if is_commented(title) {
        title.skip(skip_space(title, 7))
    } else {
        title
    }
}

/// The keyword of a planning entry at `i` and the position of its colon.
pub open spec fn planning_keyword_at(s: Seq<char>, i: int) -> Option<(PlanningKeyword, int)> {
    if has_at(s, i, seq!['D', 'E', 'A', 'D', 'L', 'I', 'N', 'E', ':']) {
        Some((PlanningKeyword::Deadline, i + 8))
    } else if has_at(s, i, seq!['S', 'C', 'H', 'E', 'D', 'U', 'L', 'E', 'D', ':']) {
        Some((PlanningKeyword::Scheduled, i + 9))
    } else if has_at(s, i, seq!['C', 'L', 'O', 'S', 'E', 'D', ':']) {
        Some((PlanningKeyword::Closed, i + 6))
    } else {
        None
    }
}

/// A planning entry at `i`: a keyword, a colon, spaces and tabs, and a
/// timestamp.
pub open spec fn info_at(s: Seq<char>, i: int) -> Option<((PlanningKeyword, Stamp), int)> {
    match planning_keyword_at(s, i) {
        Some((keyword, colon)) => match timestamp_at(s, skip_blanks(s, colon + 1)) {
            Some((stamp, e)) => Some(((keyword, stamp), e)),
            None => None,
        },
        None => None,
    }
}

/// The planning entries from `i` on, each followed by spaces and tabs.
pub open spec fn infos_at(s: Seq<char>, i: int) -> Seq<(PlanningKeyword, Stamp)>
    decreases s.len() - i,
{
    match info_at(s, i) {
        Some((info, e)) => if 0 <= i < e <= skip_blanks(s, e) <= s.len() {
            seq![info] + infos_at(s, skip_blanks(s, e))
        } else {
            Seq::empty()
        },
        None => Seq::empty(),
    }
}

/// The timestamp of the last entry with the keyword `keyword`.
pub open spec fn last_with(infos: Seq<(PlanningKeyword, Stamp)>, keyword: PlanningKeyword) -> Option<
    Stamp,
>
    decreases infos.len(),
{
    if infos.len() == 0 {
        None
    } else if infos.last().0 == keyword {
        Some(infos.last().1)
    } else {
        last_with(infos.drop_last(), keyword)
    }
}

/// Of several entries with the same keyword the last one counts: where no
/// entry after position `i` has the keyword of the entry at `i`, the
/// timestamp of that entry is the one that is kept.
pub proof fn lemma_last_entry_wins(infos: Seq<(PlanningKeyword, Stamp)>, i: int)
    requires
        0 <= i < infos.len(),
        forall|j: int| i < j < infos.len() ==> (#[trigger] infos[j]).0 != infos[i].0,
    ensures
        last_with(infos, infos[i].0) == Some(infos[i].1),
    decreases infos.len() - i,
{
    if i < infos.len() - 1 {
        assert(infos.last().0 != infos[i].0);
        assert(infos.drop_last()[i] == infos[i]);
        assert forall|j: int| i < j < infos.drop_last().len() implies (#[trigger] infos.drop_last()[j]).0
            != infos.drop_last()[i].0 by {
            assert(infos.drop_last()[j] == infos[j]);
        }
        lemma_last_entry_wins(infos.drop_last(), i);
    }
}

/// What a line says as a planning line: for each keyword the timestamp of
/// its last entry. A line without an entry at its start, after spaces and
/// tabs, is no planning line.
pub open spec fn planning_of(line: Seq<char>) -> Option<PlanningView> {
    let infos = infos_at(line, skip_blanks(line, 0));
    if infos.len() > 0 {
        Some(
            PlanningView {
                deadline: last_with(infos, PlanningKeyword::Deadline),
                scheduled: last_with(infos, PlanningKeyword::Scheduled),
                closed: last_with(infos, PlanningKeyword::Closed),
            },
        )
    } else {
        None
    }
}

/// The text after the first line of `s`.
pub open spec fn after_first_line(s: Seq<char>) -> Seq<char> {
    if line_end(s, 0) < s.len() {
        s.skip(line_end(s, 0) + 1)
    } else {
        Seq::empty()
    }
}

/// The first line of `s`, without its line feed.
pub open spec fn first_line(s: Seq<char>) -> Seq<char> {
    s.take(line_end(s, 0))
}

/// The parts of the headline that `text` starts with, or nothing where it
/// starts with no headline. The first line gives level, keyword, priority,
/// title, tags and the `COMMENT` mark; where the next line is a planning
/// line it gives the planning, and the body is what follows it.
pub open spec fn headline_of(text: Seq<char>, keywords: Seq<char>) -> Option<HeadlineView> {
    let line = first_line(text);
    let rest = after_first_line(text);
    let level = level_at(line, 0);
    if level == 0 {
        None
    } else {
        let (keyword, k) = keyword_at(line, level, keywords);
        let (priority, p) = priority_at(line, k);
        let span = tags_span(line, p, line.len() as int);
        let title = ascii_trimmed(line, p, span.0);
        let raw_tags = if span.0 < span.1 {
            line.subrange(span.0 + 1, span.1 - 1)
        } else {
            Seq::empty()
        };
        let planning = planning_of(first_line(rest));
        Some(
            HeadlineView {
                level: level as u16,
                priority,
                raw_tags,
                keyword,
                title: uncommented(title),
                commented: is_commented(title),
                planning: match planning {
                    Some(p) => p,
                    None => PlanningView::none(),
                },
                body: match planning {
                    Some(_) => after_first_line(rest),
                    None => rest,
                },
            },
        )
    }
}

/// The keywords that headlines may start with.
#[derive(Debug, Clone)]
pub struct Context {
    /// The keywords, with colons between them.
    pub keywords: Vec<char>,
}

impl View for Context {
    type V = Seq<char>;

    open spec fn view(&self) -> Seq<char> {
        self.keywords@
    }
}

/// `TODO:DONE`.
pub open spec fn default_keywords() -> Seq<char> {
    seq!['T', 'O', 'D', 'O', ':', 'D', 'O', 'N', 'E']
}

impl Context {
    /// The context with the keywords `TODO` and `DONE`.
    pub fn default() -> (context: Context)
        ensures
            context@ == default_keywords(),
    {
        let mut keywords: Vec<char> = Vec::new();
        keywords.push('T');
        keywords.push('O');
        keywords.push('D');
        keywords.push('O');
        keywords.push(':');
        keywords.push('D');
        keywords.push('O');
        keywords.push('N');
        keywords.push('E');
        assert(keywords@ =~= default_keywords());
        Context { keywords }
    }

    /// The context with the keywords of `keywords`, which holds them with
    /// colons between them.
    pub fn new(keywords: &str) -> (context: Context)
        ensures
            context@ == keywords@,
    {
        Context { keywords: crate::text::chars_of(keywords) }
    }

    /// The context with the keywords `keywords`.
    pub fn from_keywords(keywords: &[&str]) -> (context: Context)
        ensures
            context@ == crate::headline::tags::join_with(
                Seq::new(keywords@.len(), |i: int| keywords@[i]@),
                ':',
            ),
    {
        let mut parts: Vec<Vec<char>> = Vec::new();
        let mut i: usize = 0;
        while i < keywords.len()
            invariant
                i <= keywords.len(),
                parts@.len() == i,
                forall|k: int| 0 <= k < i ==> (#[trigger] parts@[k])@ == keywords@[k]@,
            decreases keywords.len() - i,
        {
            parts.push(crate::text::chars_of(keywords[i]));
            i += 1;
        }
        assert(crate::headline::tags::views(parts@) =~= Seq::new(
            keywords@.len(),
            |i: int| keywords@[i]@,
        ));
        Context { keywords: crate::headline::tags::join(&parts, ':') }
    }
}

/// The context that is given, or the one with `TODO` and `DONE`.
pub fn context_or(context: Option<&Context>) -> (r: Context)
    ensures
        r@ == keywords_or(context),
{
    match context {
        Some(context) => Context { keywords: context.keywords.clone() },
        None => Context::default(),
    }
}

/// The keywords of the context that is given, or `TODO:DONE`.
pub open spec fn keywords_or(context: Option<&Context>) -> Seq<char> {
    match context {
        Some(context) => context@,
        None => default_keywords(),
    }
}

fn skip_spaces_exec(s: &Vec<char>, i: usize) -> (r: usize)
    requires
        i <= s.len(),
    ensures
        r == skip_spaces(s@, i as int),
        i <= r <= s.len(),
{
    let mut j: usize = i;
    while j < s.len() && s[j] == ' '
        invariant
            i <= j <= s.len(),
            skip_spaces(s@, j as int) == skip_spaces(s@, i as int),
        decreases s.len() - j,
    {
        j += 1;
    }
    j
}

fn word_end_exec(s: &Vec<char>, i: usize) -> (r: usize)
    requires
        i <= s.len(),
    ensures
        r == word_end(s@, i as int),
        i <= r <= s.len(),
{
    let mut j: usize = i;
    while j < s.len() && !is_space_char(s[j])
        invariant
            i <= j <= s.len(),
            word_end(s@, j as int) == word_end(s@, i as int),
        decreases s.len() - j,
    {
        j += 1;
    }
    j
}

fn skip_space_exec(s: &Vec<char>, i: usize) -> (r: usize)
    requires
        i <= s.len(),
    ensures
        r == skip_space(s@, i as int),
        i <= r <= s.len(),
{
    let mut j: usize = i;
    while j < s.len() && is_space_char(s[j])
        invariant
            i <= j <= s.len(),
            skip_space(s@, j as int) == skip_space(s@, i as int),
        decreases s.len() - j,
    {
        j += 1;
    }
    j
}

fn skip_ascii_space_exec(s: &Vec<char>, i: usize, hi: usize) -> (r: usize)
    requires
        i <= hi <= s.len(),
    ensures
        r == skip_ascii_space(s@, i as int, hi as int),
        i <= r <= hi,
{
    let mut j: usize = i;
    while j < hi && is_ascii_space_char(s[j])
        invariant
            i <= j <= hi <= s.len(),
            skip_ascii_space(s@, j as int, hi as int) == skip_ascii_space(s@, i as int, hi as int),
        decreases hi - j,
    {
        j += 1;
    }
    j
}

fn back_ascii_space_exec(s: &Vec<char>, lo: usize, hi: usize) -> (r: usize)
    requires
        lo <= hi <= s.len(),
    ensures
        r == back_ascii_space(s@, lo as int, hi as int),
        lo <= r <= hi,
{
    let mut j: usize = hi;
    while j > lo && is_ascii_space_char(s[j - 1])
        invariant
            lo <= j <= hi <= s.len(),
            back_ascii_space(s@, lo as int, j as int) == back_ascii_space(s@, lo as int, hi as int),
        decreases j - lo,
    {
        j -= 1;
    }
    j
}

fn word_start_exec(s: &Vec<char>, lo: usize, hi: usize) -> (r: usize)
    requires
        lo <= hi <= s.len(),
    ensures
        r == word_start(s@, lo as int, hi as int),
        lo <= r <= hi,
{
    let mut j: usize = hi;
    while j > lo && !is_ascii_space_char(s[j - 1])
        invariant
            lo <= j <= hi <= s.len(),
            word_start(s@, lo as int, j as int) == word_start(s@, lo as int, hi as int),
        decreases j - lo,
    {
        j -= 1;
    }
    j
}

/// Counts the stars of the headline that `line` starts with.
pub fn parse_level(line: &Vec<char>) -> (r: Option<u16>)
    ensures
        r is Some <==> level_at(line@, 0) > 0,
        r matches Some(level) ==> level == level_at(line@, 0),
{
    let level = level_of(line, 0);
    if level == 0 {
        None
    } else {
        Some(level)
    }
}

/// Takes the keyword at `i`, if there is one.
pub fn parse_keyword(line: &Vec<char>, i: usize, context: &Context) -> (r: (Option<Vec<char>>, usize))
    requires
        i <= line.len(),
    ensures
        crate::headline::value::text_of(r.0) == keyword_at(line@, i as int, context@).0,
        r.1 == keyword_at(line@, i as int, context@).1,
        i <= r.1 <= line.len(),
{
    let from = skip_spaces_exec(line, i);
    let to = word_end_exec(line, from);
    let word = copy_range(line, from, to);
    if listed(&context.keywords, &word) {
        (Some(word), to)
    } else {
        (None, i)
    }
}

/// Takes the priority at `i`, if there is one.
pub fn parse_priority(line: &Vec<char>, i: usize) -> (r: (Option<char>, usize))
    requires
        i <= line.len(),
    ensures
        r.0 == priority_at(line@, i as int).0,
        r.1 == priority_at(line@, i as int).1,
        i <= r.1 <= line.len(),
{
    let j = skip_blanks_exec(line, i);
    if line.len() - j >= 4 && line[j] == '[' && line[j + 1] == '#' && 'A' <= line[j + 2] && line[j
        + 2] <= 'Z' && line[j + 3] == ']' {
        (Some(line[j + 2]), j + 4)
    } else {
        (None, i)
    }
}

/// Finds the tags at the end of the text between `lo` and `hi`.
pub fn parse_tags(line: &Vec<char>, lo: usize, hi: usize) -> (r: (usize, usize))
    requires
        lo <= hi <= line.len(),
    ensures
        r.0 == tags_span(line@, lo as int, hi as int).0,
        r.1 == tags_span(line@, lo as int, hi as int).1,
        lo <= r.0 <= r.1 <= hi,
        r.0 < r.1 ==> r.0 + 2 <= r.1,
{
    let end = back_ascii_space_exec(line, lo, hi);
    let start = word_start_exec(line, lo, end);
    if end - start < 2 || line[start] != ':' || line[end - 1] != ':' {
        return (hi, hi);
    }
    let mut k: usize = start + 1;
    while k < end - 1
        invariant
            start + 1 <= k <= end - 1,
            lo <= start,
            end <= hi <= line.len(),
            end == back_ascii_space(line@, lo as int, hi as int),
            start == word_start(line@, lo as int, end as int),
            line@[start as int] == ':',
            line@[end - 1] == ':',
            all_tag_chars(line@, start + 1, k as int),
        decreases end - k,
    {
        if !is_tag_character(line[k]) {
            proof {
                assert(!is_tag_char(line@[k as int]));
            }
            return (hi, hi);
        }
        k += 1;
    }
    (start, end)
}

/// Takes the keyword of a planning entry at `i`; the position that comes
/// back is that of its colon.
pub fn parse_planning_keyword(s: &Vec<char>, i: usize) -> (r: Option<(PlanningKeyword, usize)>)
    requires
        i <= s.len(),
    ensures
        crate::headline::timestamp_parse::agrees(r, planning_keyword_at(s@, i as int)),
        r matches Some(v) ==> i < v.1 < s.len(),
{
    let mut deadline: Vec<char> = Vec::new();
    deadline.push('D');
    deadline.push('E');
    deadline.push('A');
    deadline.push('D');
    deadline.push('L');
    deadline.push('I');
    deadline.push('N');
    deadline.push('E');
    deadline.push(':');
    assert(deadline@ =~= seq!['D', 'E', 'A', 'D', 'L', 'I', 'N', 'E', ':']);
    if starts_at(s, i, &deadline) {
        return Some((PlanningKeyword::Deadline, i + 8));
    }
    let mut scheduled: Vec<char> = Vec::new();
    scheduled.push('S');
    scheduled.push('C');
    scheduled.push('H');
    scheduled.push('E');
    scheduled.push('D');
    scheduled.push('U');
    scheduled.push('L');
    scheduled.push('E');
    scheduled.push('D');
    scheduled.push(':');
    assert(scheduled@ =~= seq!['S', 'C', 'H', 'E', 'D', 'U', 'L', 'E', 'D', ':']);
    if starts_at(s, i, &scheduled) {
        return Some((PlanningKeyword::Scheduled, i + 9));
    }
    let mut closed: Vec<char> = Vec::new();
    closed.push('C');
    closed.push('L');
    closed.push('O');
    closed.push('S');
    closed.push('E');
    closed.push('D');
    closed.push(':');
    assert(closed@ =~= seq!['C', 'L', 'O', 'S', 'E', 'D', ':']);
    if starts_at(s, i, &closed) {
        return Some((PlanningKeyword::Closed, i + 6));
    }
    None
}

/// Takes a planning entry at `i`.
pub fn parse_info_pattern(s: &Vec<char>, i: usize) -> (r: Option<
    (crate::headline::value::InfoPattern, usize),
>)
    requires
        i <= s.len(),
    ensures
        r is Some <==> info_at(s@, i as int) is Some,
        r matches Some(v) ==> info_at(s@, i as int) == Some(
            ((v.0.keyword, v.0.timestamp@), v.1 as int),
        ) && i < v.1 <= s.len(),
{
    match parse_planning_keyword(s, i) {
        Some((keyword, colon)) => {
            let at = skip_blanks_exec(s, colon + 1);
            match parse_timestamp(s, at) {
                Some((timestamp, e)) => Some(
                    (crate::headline::value::InfoPattern { keyword, timestamp }, e),
                ),
                None => None,
            }
        },
        None => None,
    }
}

/// Reads a line as a planning line.
pub fn parse_planning_line(line: &Vec<char>) -> (r: Option<Planning>)
    ensures
        r is Some <==> planning_of(line@) is Some,
        r matches Some(p) ==> planning_of(line@) == Some(p@),
{
    let start = skip_blanks_exec(line, 0);
    let mut i: usize = start;
    let mut planning = Planning { deadline: None, scheduled: None, closed: None };
    let mut count: usize = 0;
    let ghost mut done: Seq<(PlanningKeyword, Stamp)> = Seq::empty();
    let mut more = true;
    while more
        invariant
            i <= line.len(),
            done + infos_at(line@, i as int) == infos_at(line@, start as int),
            !more ==> infos_at(line@, i as int).len() == 0,
            (count == 0) == (done.len() == 0),
            planning@.deadline == last_with(done, PlanningKeyword::Deadline),
            planning@.scheduled == last_with(done, PlanningKeyword::Scheduled),
            planning@.closed == last_with(done, PlanningKeyword::Closed),
        decreases line.len() - i, if more { 1int } else { 0int },
    {
        match parse_info_pattern(line, i) {
            Some((info, e)) => {
                let next = skip_blanks_exec(line, e);
                proof {
                    let item = (info.keyword, info.timestamp@);
                    assert(infos_at(line@, i as int) == seq![item] + infos_at(line@, next as int));
                    assert(done.push(item) + infos_at(line@, next as int) =~= done + infos_at(
                        line@,
                        i as int,
                    ));
                    assert(done.push(item).drop_last() =~= done);
                    done = done.push(item);
                }
                match info.keyword {
                    PlanningKeyword::Closed => {
                        planning.closed = Some(info.timestamp);
                    },
                    PlanningKeyword::Scheduled => {
                        planning.scheduled = Some(info.timestamp);
                    },
                    PlanningKeyword::Deadline => {
                        planning.deadline = Some(info.timestamp);
                    },
                }
                if count == 0 {
                    count = 1;
                }
                i = next;
            },
            None => {
                more = false;
            },
        }
    }
    proof {
        assert(done + infos_at(line@, i as int) =~= done);
    }
    if count > 0 {
        Some(planning)
    } else {
        None
    }
}

/// A headline that was parsed or built.
#[derive(Clone, Debug, PartialEq, Eq)]
pub struct Headline(pub HeadlinePod);

impl View for Headline {
    type V = HeadlineView;

    open spec fn view(&self) -> HeadlineView {
        self.0@
    }
}

/// Takes apart the headline that `text` starts with.
pub fn parse_headline(text: &Vec<char>, context: &Context) -> (r: Option<Headline>)
    ensures
        r is Some <==> headline_of(text@, context@) is Some,
        r matches Some(h) ==> headline_of(text@, context@) == Some(h@),
{
    let e = line_end_of(text, 0);
    let line = copy_range(text, 0, e);
    let rest = if e < text.len() {
        copy_range(text, e + 1, text.len())
    } else {
        Vec::new()
    };
    proof {
        assert(line@ == first_line(text@));
        assert(rest@ =~= after_first_line(text@));
        lemma_star_run_bound(line@, 0);
    }
    let level = level_of(&line, 0);
    if level == 0 {
        return None;
    }
    let (keyword, k) = parse_keyword(&line, level as usize, context);
    let (priority, p) = parse_priority(&line, k);
    let span = parse_tags(&line, p, line.len());
    let end = back_ascii_space_exec(&line, p, span.0);
    let start = skip_ascii_space_exec(&line, p, end);
    let title = copy_range(&line, start, end);
    let raw_tags = if span.0 < span.1 {
        copy_range(&line, span.0 + 1, span.1 - 1)
    } else {
        Vec::new()
    };
    let mut comment: Vec<char> = Vec::new();
    comment.push('C');
    comment.push('O');
    comment.push('M');
    comment.push('M');
    comment.push('E');
    comment.push('N');
    comment.push('T');
    assert(comment@ =~= comment_word());
    let commented = starts_at(&title, 0, &comment) && (title.len() == 7 || is_space_char(title[7]));
    let title = if commented {
        let from = skip_space_exec(&title, 7);
        copy_range(&title, from, title.len())
    } else {
        title
    };
    let pe = line_end_of(&rest, 0);
    let planning_line = copy_range(&rest, 0, pe);
    let (planning, body) = match parse_planning_line(&planning_line) {
        Some(planning) => {
            let body = if pe < rest.len() {
                copy_range(&rest, pe + 1, rest.len())
            } else {
                Vec::new()
            };
            (planning, body)
        },
        None => (Planning { deadline: None, scheduled: None, closed: None }, rest),
    };
    Some(Headline(HeadlinePod { level, commented, keyword, priority, title, raw_tags, planning, body }))
}

/// Takes apart the headline that `text` starts with; it starts with one.
pub fn parse_valid_single_headline(text: &Vec<char>, context: &Context) -> (h: Headline)
    requires
        level_at(first_line(text@), 0) > 0,
    ensures
        headline_of(text@, context@) == Some(h@),
{
    match parse_headline(text, context) {
        Some(h) => h,
        None => {
            proof {
                assert(false);
            }
            Headline(HeadlinePod::default())
        },
    }
}

} // verus!
