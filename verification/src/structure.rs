//! Recognising headline lines and cutting a text into section spans.
//!
//! A headline line starts, in its first column, with one or more `*`
//! followed by exactly one ASCII space. A run of more than `u16::MAX`
//! stars is not a headline: no level could name it.

use vstd::prelude::*;
use vstd::string::StringSliceAdditionalSpecFns;

verus! {

/// The number of consecutive `*` that start at `from`.
pub open spec fn star_run(s: Seq<char>, from: int) -> nat
    decreases s.len() - from,
{
    if 0 <= from < s.len() && s[from] == '*' {
        1 + star_run(s, from + 1)
    } else {
        0
    }
}

/// The level of the headline that starts at `at`, or 0 where none starts.
pub open spec fn level_at(s: Seq<char>, at: int) -> int {
    let n = star_run(s, at);
    if 1 <= n <= u16::MAX && at + n < s.len() && s[at + n] == ' ' {
        n as int
    } else {
        0
    }
}

/// The position of the first line feed at or after `from`, or the length.
pub open spec fn line_end(s: Seq<char>, from: int) -> int
    decreases s.len() - from,
{
    if 0 <= from < s.len() && s[from] != '\n' {
        line_end(s, from + 1)
    } else if from < 0 {
        0
    } else if from > s.len() {
        s.len() as int
    } else {
        from
    }
}

/// The start of the first headline line at or after the line start `from`,
/// or the length where no headline follows.
pub open spec fn next_headline(s: Seq<char>, from: int) -> int
    decreases s.len() - from,
{
    if from < 0 || from >= s.len() {
        s.len() as int
    } else if level_at(s, from) > 0 {
        from
    } else {
        let e = line_end(s, from);
        if e >= s.len() {
            s.len() as int
        } else {
            proof {
                lemma_line_end(s, from);
            }
            next_headline(s, e + 1)
        }
    }
}

/// The span of text that runs from `from` to the next headline: where the
/// text after it starts, and where the span's own text ends (one short of
/// that when a line feed separates them).
pub open spec fn section_span(s: Seq<char>, from: int) -> (int, int) {
    let next = next_headline(s, from);
    if next > from && s[next - 1] == '\n' {
        (next, next - 1)
    } else {
        (next, next)
    }
}

pub proof fn lemma_star_run_bound(s: Seq<char>, from: int)
    requires
        0 <= from <= s.len(),
    ensures
        from + star_run(s, from) <= s.len(),
        forall|k: int| from <= k < from + star_run(s, from) ==> s[k] == '*',
        from + star_run(s, from) < s.len() ==> s[from + star_run(s, from)] != '*',
    decreases s.len() - from,
{
    if from < s.len() && s[from] == '*' {
        lemma_star_run_bound(s, from + 1);
    }
}

pub proof fn lemma_line_end(s: Seq<char>, from: int)
    requires
        0 <= from <= s.len(),
    ensures
        from <= line_end(s, from) <= s.len(),
        forall|k: int| from <= k < line_end(s, from) ==> s[k] != '\n',
        line_end(s, from) < s.len() ==> s[line_end(s, from)] == '\n',
    decreases s.len() - from,
{
    if from < s.len() && s[from] != '\n' {
        lemma_line_end(s, from + 1);
    }
}

/// `next_headline` lands on a headline line or on the end of the text, and
/// whatever it lands on past its start follows a line feed unless it is the
/// end.
pub proof fn lemma_next_headline(s: Seq<char>, from: int)
    requires
        0 <= from <= s.len(),
    ensures
        from <= next_headline(s, from) <= s.len(),
        next_headline(s, from) < s.len() ==> level_at(s, next_headline(s, from)) > 0,
        from < next_headline(s, from) < s.len() ==> s[next_headline(s, from) - 1] == '\n',
        level_at(s, from) > 0 ==> next_headline(s, from) == from,
    decreases s.len() - from,
{
    if from < s.len() && level_at(s, from) == 0 {
        lemma_line_end(s, from);
        let e = line_end(s, from);
        if e < s.len() {
            lemma_next_headline(s, e + 1);
        }
    } else if from < s.len() {
        lemma_star_run_bound(s, from);
    }
}

pub proof fn lemma_star_run_slice(s: Seq<char>, from: int, to: int, k: int)
    requires
        0 <= from <= to <= s.len(),
        0 <= k <= to - from,
    ensures
        star_run(s.subrange(from, to), k) == if star_run(s, from + k) <= to - from - k {
            star_run(s, from + k)
        } else {
            (to - from - k) as nat
        },
    decreases to - from - k,
{
    let part = s.subrange(from, to);
    if k < to - from {
        assert(part[k] == s[from + k]);
        if s[from + k] == '*' {
            lemma_star_run_slice(s, from, to, k + 1);
        }
    }
}

/// A headline keeps its level in a slice that holds its stars and the
/// space after them, and a slice that starts where no headline starts holds
/// none at its start.
pub proof fn lemma_level_of_slice(s: Seq<char>, from: int, to: int)
    requires
        0 <= from <= to <= s.len(),
    ensures
        level_at(s, from) > 0 && from + level_at(s, from) < to ==> level_at(
            s.subrange(from, to),
            0,
        ) == level_at(s, from),
        level_at(s, from) == 0 ==> level_at(s.subrange(from, to), 0) == 0,
{
    lemma_star_run_slice(s, from, to, 0);
    lemma_star_run_bound(s, from);
    let part = s.subrange(from, to);
    let n = star_run(part, 0);
    if n < part.len() {
        assert(part[n as int] == s[from + n]);
    }
}

/// Counts the headline stars at `at`; 0 where no headline starts there.
pub fn level_of(s: &Vec<char>, at: usize) -> (level: u16)
    requires
        at <= s.len(),
    ensures
        level == level_at(s@, at as int),
{
    let mut i: usize = at;
    while i < s.len() && s[i] == '*'
        invariant
            at <= i <= s.len(),
            star_run(s@, at as int) == (i - at) + star_run(s@, i as int),
        decreases s.len() - i,
    {
        i += 1;
    }
    let n: usize = i - at;
    if n >= 1 && n <= 65535 && i < s.len() && s[i] == ' ' {
        n as u16
    } else {
        0
    }
}

/// Finds the first line feed at or after `from`.
pub fn line_end_of(s: &Vec<char>, from: usize) -> (end: usize)
    requires
        from <= s.len(),
    ensures
        end == line_end(s@, from as int),
        from <= end <= s.len(),
{
    let mut i: usize = from;
    while i < s.len() && s[i] != '\n'
        invariant
            from <= i <= s.len(),
            line_end(s@, from as int) == line_end(s@, i as int),
        decreases s.len() - i,
    {
        i += 1;
    }
    i
}

/// Walks line by line from `from` to the next headline line or the end of
/// the text, and reports the span of text before it.
pub fn parse_section(s: &Vec<char>, from: usize) -> (r: (usize, usize))
    requires
        from <= s.len(),
    ensures
        (r.0 as int, r.1 as int) == section_span(s@, from as int),
        from <= r.1 <= r.0 <= s.len(),
        r.0 < s.len() ==> level_at(s@, r.0 as int) > 0,
{
    let mut last: usize = from;
    let mut found: bool = false;
    proof {
        lemma_next_headline(s@, from as int);
    }
    while !found && last < s.len()
        invariant
            from <= last <= s.len(),
            next_headline(s@, last as int) == next_headline(s@, from as int),
            found ==> next_headline(s@, last as int) == last,
        decreases s.len() - last, if found { 0int } else { 1int },
    {
        if level_of(s, last) != 0 {
            found = true;
        } else {
            let e = line_end_of(s, last);
            if e >= s.len() {
                last = s.len();
            } else {
                last = e + 1;
            }
        }
    }
    if last > from && s[last - 1] == '\n' {
        (last, last - 1)
    } else {
        (last, last)
    }
}

/// Whether no line of `s` after the first is a headline line.
pub open spec fn plain_after_first_line(s: Seq<char>) -> bool {
    next_headline(s, line_end(s, 0)) == s.len()
}

/// A text without any headline line has none after its first line.
pub proof fn lemma_plain_from_start(s: Seq<char>)
    requires
        next_headline(s, 0) == s.len(),
    ensures
        plain_after_first_line(s),
{
    lemma_line_end(s, 0);
    lemma_star_run_bound(s, 0);
}

pub proof fn lemma_star_run_shift(front: Seq<char>, back: Seq<char>, i: int)
    requires
        0 <= i <= back.len(),
    ensures
        star_run(front + back, front.len() + i) == star_run(back, i),
    decreases back.len() - i,
{
    let all = front + back;
    if i < back.len() {
        assert(all[front.len() + i] == back[i]);
        if back[i] == '*' {
            lemma_star_run_shift(front, back, i + 1);
        }
    }
}

pub proof fn lemma_level_shift(front: Seq<char>, back: Seq<char>, i: int)
    requires
        0 <= i <= back.len(),
    ensures
        level_at(front + back, front.len() + i) == level_at(back, i),
{
    let all = front + back;
    lemma_star_run_shift(front, back, i);
    lemma_star_run_bound(back, i);
    let n = star_run(back, i);
    if i + n < back.len() {
        assert(all[front.len() + i + n] == back[i + n]);
    }
}

pub proof fn lemma_line_end_shift(front: Seq<char>, back: Seq<char>, i: int)
    requires
        0 <= i <= back.len(),
    ensures
        line_end(front + back, front.len() + i) == front.len() + line_end(back, i),
    decreases back.len() - i,
{
    let all = front + back;
    if i < back.len() {
        assert(all[front.len() + i] == back[i]);
        if back[i] != '\n' {
            lemma_line_end_shift(front, back, i + 1);
        }
    }
}

/// Where the next headline starts depends only on what follows.
pub proof fn lemma_next_headline_shift(front: Seq<char>, back: Seq<char>, i: int)
    requires
        0 <= i <= back.len(),
    ensures
        next_headline(front + back, front.len() + i) == front.len() + next_headline(back, i),
    decreases back.len() - i,
{
    let all = front + back;
    if i < back.len() {
        lemma_level_shift(front, back, i);
        if level_at(back, i) == 0 {
            lemma_line_end_shift(front, back, i);
            lemma_line_end(back, i);
            let e = line_end(back, i);
            if e < back.len() {
                lemma_next_headline_shift(front, back, e + 1);
            }
        }
    }
}

/// A text has no headline line after its first line exactly if the same
/// holds of the text with something put before it that holds no line feed.
pub proof fn lemma_plain_with_prefix(front: Seq<char>, back: Seq<char>)
    requires
        forall|k: int| 0 <= k < front.len() ==> front[k] != '\n',
    ensures
        plain_after_first_line(front + back) == plain_after_first_line(back),
{
    let all = front + back;
    lemma_line_end_start(front, back, 0);
    lemma_line_end_shift(front, back, 0);
    lemma_line_end(back, 0);
    lemma_next_headline_shift(front, back, line_end(back, 0));
}

proof fn lemma_line_end_start(front: Seq<char>, back: Seq<char>, k: int)
    requires
        0 <= k <= front.len(),
        forall|j: int| 0 <= j < front.len() ==> front[j] != '\n',
    ensures
        line_end(front + back, k) == line_end(front + back, front.len() as int),
    decreases front.len() - k,
{
    if k < front.len() {
        assert((front + back)[k] == front[k]);
        lemma_line_end_start(front, back, k + 1);
    }
}

/// A slice that ends at or before the next headline line holds no headline
/// line from the line start `i` on.
pub proof fn lemma_no_headline_in_slice(s: Seq<char>, from: int, to: int, i: int)
    requires
        0 <= from <= i <= to <= s.len(),
        next_headline(s, i) >= to,
    ensures
        next_headline(s.subrange(from, to), i - from) == to - from,
    decreases to - i,
{
    let t = s.subrange(from, to);
    if i < to {
        lemma_next_headline(s, i);
        assert(level_at(s, i) == 0);
        lemma_level_of_slice(s, i, to);
        lemma_star_run_bound(t, i - from);
        lemma_level_of_slice(t, i - from, to - from);
        assert(t.subrange(i - from, to - from) == s.subrange(i, to));
        assert(level_at(t, i - from) == 0);
        lemma_line_end(s, i);
        lemma_line_end_slice(s, from, to, i);
        let e = line_end(s, i);
        if e < to {
            lemma_no_headline_in_slice(s, from, to, e + 1);
        }
    }
}

pub proof fn lemma_line_end_slice(s: Seq<char>, from: int, to: int, i: int)
    requires
        0 <= from <= i <= to <= s.len(),
    ensures
        line_end(s.subrange(from, to), i - from) == (if line_end(s, i) < to {
            line_end(s, i) - from
        } else {
            to - from
        }),
    decreases to - i,
{
    let t = s.subrange(from, to);
    if i < to {
        assert(t[i - from] == s[i]);
        if s[i] != '\n' {
            lemma_line_end_slice(s, from, to, i + 1);
        }
    } else {
        lemma_line_end(s, i);
    }
}

/// The level of the headline line that `line` is, or 0.
pub fn lex_level(line: &Vec<char>) -> (level: u16)
    ensures
        level == level_at(line@, 0),
{
    level_of(line, 0)
}

/// The level of the headline that starts at `offset`, or 0.
pub fn headline_level(input: &Vec<char>, offset: usize) -> (level: u16)
    requires
        offset <= input.len(),
    ensures
        level == level_at(input@, offset as int),
{
    level_of(input, offset)
}

/// The position of the first line feed at or after `offset`, or the
/// length.
pub fn next_line(input: &Vec<char>, offset: usize) -> (end: usize)
    requires
        offset <= input.len(),
    ensures
        end == line_end(input@, offset as int),
        offset <= end <= input.len(),
{
    line_end_of(input, offset)
}

/// The first line of `input`, and the rest from its line feed on.
pub fn line(input: &Vec<char>) -> (r: (Vec<char>, Vec<char>))
    ensures
        r.0@ == input@.take(line_end(input@, 0)),
        r.1@ == input@.skip(line_end(input@, 0)),
{
    let split = line_end_of(input, 0);
    let first = crate::text::copy_range(input, 0, split);
    let rest = crate::text::copy_range(input, split, input.len());
    (first, rest)
}

/// The number of consecutive bytes `*` that start at `from`.
pub open spec fn star_run_bytes(s: Seq<u8>, from: int) -> nat
    decreases s.len() - from,
{
    if 0 <= from < s.len() && s[from] == 42 {
        1 + star_run_bytes(s, from + 1)
    } else {
        0
    }
}

/// The level of the headline that starts at the byte `at`, or 0 where none
/// starts: one or more `*`, at most `u16::MAX` of them, and a space.
pub open spec fn level_at_bytes(s: Seq<u8>, at: int) -> int {
    let n = star_run_bytes(s, at);
    if 1 <= n <= u16::MAX && at + n < s.len() && s[at + n] == 32 {
        n as int
    } else {
        0
    }
}

/// The level of the headline that starts at the byte `offset` of `input`,
/// or 0.
pub fn headline_level_str(input: &str, offset: usize) -> (level: u16)
    requires
        offset <= input.spec_bytes().len(),
    ensures
        level == level_at_bytes(input.spec_bytes(), offset as int),
{
    let bytes = input.as_bytes();
    let mut i: usize = offset;
    while i < bytes.len() && bytes[i] == 42u8
        invariant
            offset <= i <= bytes@.len(),
            bytes@ == input.spec_bytes(),
            star_run_bytes(bytes@, offset as int) == (i - offset) + star_run_bytes(bytes@, i as int),
        decreases bytes@.len() - i,
    {
        i += 1;
    }
    let n: usize = i - offset;
    if n >= 1 && n <= 65535 && i < bytes.len() && bytes[i] == 32u8 {
        n as u16
    } else {
        0
    }
}

/// The level of the headline line that `line` is, or 0.
pub fn lex_level_str(line: &str) -> (level: u16)
    ensures
        level == level_at_bytes(line.spec_bytes(), 0),
{
    headline_level_str(line, 0)
}

} // verus!
