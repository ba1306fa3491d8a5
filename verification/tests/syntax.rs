use maki_selection::lines::{
    chars_of, digit, find_line_end, find_line_start, push_chars, trim_trailing_spaces, white_space,
};
use maki_selection::syntax::{scan_closing_syntax, scan_opening_syntax};

fn closing(s: &str, pos: usize) -> usize {
    let raw: Vec<char> = s.chars().collect();
    scan_closing_syntax(&raw, pos, raw.len())
}

fn opening(s: &str, pos: usize) -> usize {
    let raw: Vec<char> = s.chars().collect();
    scan_opening_syntax(&raw, pos, raw.len())
}

#[test]
fn closing_tokens() {
    assert_eq!(closing("a** b", 1), 3);
    assert_eq!(closing("a__ b", 1), 3);
    assert_eq!(closing("a~~ b", 1), 3);
    assert_eq!(closing("a`", 1), 2);
    assert_eq!(closing("a*", 1), 2);
    assert_eq!(closing("a_", 1), 2);
    assert_eq!(closing("a```", 1), 4);
    assert_eq!(closing("a***`", 1), 5);
    assert_eq!(closing("a~ b", 1), 1);
    assert_eq!(closing("a b", 1), 1);
    assert_eq!(closing("a", 1), 1);
}

#[test]
fn closing_passes_one_newline_but_no_paragraph_break() {
    assert_eq!(closing("a\n**b", 1), 4);
    assert_eq!(closing("a**\n*b", 1), 5);
    assert_eq!(closing("a\n\n**", 1), 1);
    assert_eq!(closing("a*\n\n**", 1), 2);
    assert_eq!(closing("a\n", 1), 1);
}

#[test]
fn closing_stays_within_its_bound() {
    let raw: Vec<char> = "a****".chars().collect();
    assert_eq!(scan_closing_syntax(&raw, 1, 2), 2);
    assert_eq!(scan_closing_syntax(&raw, 1, 4), 4);
    assert_eq!(scan_closing_syntax(&raw, 3, 2), 3);
}

#[test]
fn opening_tokens() {
    assert_eq!(opening("**a", 0), 2);
    assert_eq!(opening("__a", 0), 2);
    assert_eq!(opening("~~a", 0), 2);
    assert_eq!(opening("`a", 0), 1);
    assert_eq!(opening("```a", 0), 3);
    assert_eq!(opening("*a", 0), 1);
    assert_eq!(opening("_a", 0), 1);
    assert_eq!(opening("# a", 0), 2);
    assert_eq!(opening("- a", 0), 2);
    assert_eq!(opening("+ a", 0), 2);
    assert_eq!(opening("* a", 0), 2);
    assert_eq!(opening("12. a", 0), 4);
    assert_eq!(opening("- **a", 0), 4);
}

#[test]
fn no_opening_token() {
    assert_eq!(opening("a", 0), 0);
    assert_eq!(opening("## a", 0), 0);
    assert_eq!(opening("-a", 0), 0);
    assert_eq!(opening("12.a", 0), 0);
    assert_eq!(opening("12", 0), 0);
    assert_eq!(opening("~a", 0), 0);
    assert_eq!(opening("", 0), 0);
}

#[test]
fn opening_passes_newlines_and_the_indent_behind_them() {
    assert_eq!(opening("\n\n- a", 0), 4);
    assert_eq!(opening("\n    - a", 0), 7);
    assert_eq!(opening("    - a", 0), 0);
    assert_eq!(opening("\n  a", 0), 0);
    assert_eq!(opening("x\n```\na", 1), 5);
}

#[test]
fn scanning_again_finds_nothing_more() {
    for s in ["**`a", "- **x", "\n\n1. y", "``` a", "*_`~~"] {
        let end = opening(s, 0);
        assert_eq!(opening(s, end), end, "{s:?}");
        let end = closing(s, 0);
        assert_eq!(closing(s, end), end, "{s:?}");
    }
}

#[test]
fn white_space_and_digits_are_those_of_the_standard_library() {
    for c in '\0'..=char::MAX {
        assert_eq!(white_space(c), c.is_whitespace(), "{c:?}");
        assert_eq!(digit(c), c.is_ascii_digit(), "{c:?}");
    }
}

#[test]
fn lines_around_a_position() {
    let raw: Vec<char> = "ab\ncd".chars().collect();
    assert_eq!(find_line_end(&raw, 0), 2);
    assert_eq!(find_line_end(&raw, 2), 2);
    assert_eq!(find_line_end(&raw, 3), 5);
    assert_eq!(find_line_end(&raw, 5), 5);
    assert_eq!(find_line_start(&raw, 0), 0);
    assert_eq!(find_line_start(&raw, 2), 0);
    assert_eq!(find_line_start(&raw, 3), 3);
    assert_eq!(find_line_start(&raw, 5), 3);
}

#[test]
fn text_is_pushed_and_trimmed() {
    let mut out = String::from("é");
    push_chars(&mut out, &['x', '日', ' ', ' ']);
    assert_eq!(out, "éx日  ");
    trim_trailing_spaces(&mut out);
    assert_eq!(out, "éx日");
    trim_trailing_spaces(&mut out);
    assert_eq!(out, "éx日");
    let mut blank = String::from("   ");
    trim_trailing_spaces(&mut blank);
    assert_eq!(blank, "");
    assert_eq!(chars_of("a日\n"), vec!['a', '日', '\n']);
}
