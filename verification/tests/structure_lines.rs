use starsector::structure::{
    headline_level, headline_level_str, lex_level_str, next_line, parse_section,
};
use starsector::util::lex_level;

fn chars(s: &str) -> Vec<char> {
    s.chars().collect()
}

fn next_line_of(s: &str, offset: usize) -> usize {
    next_line(&chars(s), offset)
}

fn parse_section_of(s: &str, offset: usize) -> (usize, usize) {
    parse_section(&chars(s), offset)
}

fn headline_level_of(s: &str, offset: usize) -> u16 {
    let by_chars = headline_level(&chars(s), offset);
    assert_eq!(by_chars, headline_level_str(s, offset));
    by_chars
}

#[test]
fn test_next_line() {
    assert_eq!(0, next_line_of("", 0));
    assert_eq!(1, next_line_of(" ", 0));
    assert_eq!(1, next_line_of(" ", 1));
    assert_eq!(0, next_line_of("\n", 0));
    assert_eq!(1, next_line_of("\n", 1));
    assert_eq!(1, next_line_of(" \n", 0));
    assert_eq!(1, next_line_of(" \n", 1));
    assert_eq!(0, next_line_of("\n ", 0));
    assert_eq!(2, next_line_of("\n ", 1));
    assert_eq!(0, next_line_of("\ntest\n", 0));
    assert_eq!(5, next_line_of("\ntest\n", 1));
    assert_eq!(0, next_line_of("\n\na\n", 0));
    assert_eq!(1, next_line_of("\n\na\n", 1));
    assert_eq!(3, next_line_of("\n\na\n", 2));
    assert_eq!(3, next_line_of("\n\na\n", 3));
}

#[test]
fn structure_test_parse_section() {
    assert_eq!((0, 0), parse_section_of("", 0));
    assert_eq!((1, 1), parse_section_of("*", 0));
    assert_eq!((1, 1), parse_section_of("*", 1));
    assert_eq!((0, 0), parse_section_of("* ", 0));
    assert_eq!((2, 2), parse_section_of("* ", 1));
    assert_eq!((2, 2), parse_section_of("* ", 2));
    assert_eq!((1, 0), parse_section_of("\n", 0));
    assert_eq!((1, 1), parse_section_of("\n", 1));
    assert_eq!((0, 0), parse_section_of("* \n", 0));
    assert_eq!((3, 2), parse_section_of("* \n", 1));
    assert_eq!((3, 2), parse_section_of("* \n", 2));
    assert_eq!((1, 0), parse_section_of("\n*** \n", 0));
    assert_eq!((1, 1), parse_section_of("\n*** \n", 1));
    assert_eq!((2, 2), parse_section_of("\n*** \n", 2));
    assert_eq!((3, 3), parse_section_of("\n*** \n", 3));
    assert_eq!((6, 5), parse_section_of("\n*** \n", 4));
    assert_eq!((3, 2), parse_section_of("Hi\n*** \n", 0));
}

#[test]
fn test_headline_level() {
    assert_eq!(0, headline_level_of("", 0));

    assert_eq!(0, headline_level_of(" ", 0));
    assert_eq!(0, headline_level_of("*", 0));
    assert_eq!(0, headline_level_of("a", 0));

    assert_eq!(0, headline_level_of("  ", 0));
    assert_eq!(1, headline_level_of("* ", 0));
    assert_eq!(0, headline_level_of("a ", 0));
    assert_eq!(0, headline_level_of(" *", 0));
    assert_eq!(0, headline_level_of("**", 0));
    assert_eq!(0, headline_level_of("a*", 0));
    assert_eq!(0, headline_level_of(" a", 0));
    assert_eq!(0, headline_level_of("*a", 0));
    assert_eq!(0, headline_level_of("aa", 0));

    assert_eq!(0, headline_level_of("   ", 0));
    assert_eq!(1, headline_level_of("*  ", 0));
    assert_eq!(0, headline_level_of("a  ", 0));
    assert_eq!(0, headline_level_of(" * ", 0));
    assert_eq!(2, headline_level_of("** ", 0));
    assert_eq!(0, headline_level_of("a* ", 0));
    assert_eq!(0, headline_level_of(" a ", 0));
    assert_eq!(0, headline_level_of("*a ", 0));
    assert_eq!(0, headline_level_of("aa ", 0));

    assert_eq!(0, headline_level_of("  *", 0));
    assert_eq!(1, headline_level_of("* *", 0));
    assert_eq!(0, headline_level_of("a *", 0));
    assert_eq!(0, headline_level_of(" **", 0));
    assert_eq!(0, headline_level_of("***", 0));
    assert_eq!(0, headline_level_of("a**", 0));
    assert_eq!(0, headline_level_of(" a*", 0));
    assert_eq!(0, headline_level_of("*a*", 0));
    assert_eq!(0, headline_level_of("aa*", 0));

    assert_eq!(0, headline_level_of("  a", 0));
    assert_eq!(1, headline_level_of("* a", 0));
    assert_eq!(0, headline_level_of("a a", 0));
    assert_eq!(0, headline_level_of(" *a", 0));
    assert_eq!(0, headline_level_of("**a", 0));
    assert_eq!(0, headline_level_of("a*a", 0));
    assert_eq!(0, headline_level_of(" aa", 0));
    assert_eq!(0, headline_level_of("*aa", 0));
    assert_eq!(0, headline_level_of("aaa", 0));

    assert_eq!(0, headline_level_of("***", 0));
    assert_eq!(3, headline_level_of("*** ", 0));
    assert_eq!(3, headline_level_of("***  ", 0));
    assert_eq!(0, headline_level_of("***a", 0));
    assert_eq!(3, headline_level_of("*** a", 0));
    assert_eq!(3, headline_level_of("*** aaaaa", 0));
}

#[test]
fn only_an_ascii_space_ends_the_stars() {
    for blank in ["\t", "\r", "\u{a0}", "\u{2003}", "\u{3000}", "\n"] {
        let text = format!("**{}x", blank);
        assert_eq!(0, headline_level_of(&text, 0));
        assert_eq!(0, lex_level_str(&text));
    }
    assert_eq!(2, lex_level(&chars("** x")));
    assert_eq!(2, lex_level_str("** x"));
    assert_eq!(3, headline_level_of("a\n*** b", 2));
}

#[test]
fn more_stars_than_a_level_can_count_are_no_headline() {
    let mut text = "*".repeat(65535);
    text.push(' ');
    assert_eq!(65535, lex_level_str(&text));
    assert_eq!(65535, lex_level(&chars(&text)));
    let mut text = "*".repeat(65536);
    text.push(' ');
    assert_eq!(0, lex_level_str(&text));
    assert_eq!(0, lex_level(&chars(&text)));
}

#[test]
fn line_cuts_before_the_line_feed() {
    let (first, rest) = starsector::util::line(&chars("ab\ncd\n"));
    assert_eq!(first, chars("ab"));
    assert_eq!(rest, chars("\ncd\n"));
    let (first, rest) = starsector::util::line(&chars("ab"));
    assert_eq!(first, chars("ab"));
    assert_eq!(rest, chars(""));
}
