use maki_selection::extract::{
    copy_row, extract_via_source_map, try_extract_via_source_map, Clipping,
};
use maki_selection::screen::{Buffer, Cell, Rect, Theme};
use maki_selection::selection::ScreenSelection;
use maki_selection::source_map::{build_row_source_maps, RowSourceMap};
use ratatui::style::Color;

const GUTTER: Color = Color::Green;
const BORDER: Color = Color::Yellow;

fn buffer(rows: &[(&str, Color)]) -> Buffer {
    let width = rows.iter().map(|(text, _)| text.chars().count()).max().unwrap_or(0);
    let cells = |text: &str, fg: Color| -> Vec<Cell> {
        let padding = std::iter::repeat(' ').take(width - text.chars().count());
        text.chars().chain(padding).map(|c| Cell { symbol: c.to_string(), fg }).collect()
    };
    Buffer {
        area: Rect { x: 0, y: 0, width: width as u16, height: rows.len() as u16 },
        rows: rows.iter().map(|(text, fg)| cells(text, *fg)).collect(),
    }
}

fn plain(rows: &[&str]) -> Buffer {
    let rows: Vec<(&str, Color)> = rows.iter().map(|text| (*text, Color::Reset)).collect();
    buffer(&rows)
}

fn maps(buf: &Buffer, raw: &[char]) -> Vec<RowSourceMap> {
    let theme = Theme { code_gutter: Some(GUTTER), table_border: Some(BORDER) };
    build_row_source_maps(buf, buf.area, 0, raw, &theme)
}

/// The text from `(start_row, start_col)` to `(end_row, end_col)`.
fn copy(buf: &Buffer, raw: &str, start: (u16, u16), end: (u16, u16)) -> String {
    let raw: Vec<char> = raw.chars().collect();
    let ss =
        ScreenSelection { start_row: start.0, start_col: start.1, end_row: end.0, end_col: end.1 };
    extract_via_source_map(buf, buf.area, &ss, &raw, 0, &maps(buf, &raw))
}

fn copy_rows(buf: &Buffer, raw: &str, first: u16, last: u16) -> String {
    copy(buf, raw, (first, 0), (last, buf.area.width - 1))
}

const MESSAGE: &str = "**bold** text\n\n- item\n---\nend";

fn message() -> Buffer {
    plain(&["bold text", "", "• item", "─────────", "end"])
}

#[test]
fn whole_message_gives_its_markdown_back() {
    assert_eq!(copy_rows(&message(), MESSAGE, 0, 4), MESSAGE);
}

#[test]
fn rows_above_the_selection_are_left_out() {
    assert_eq!(copy_rows(&message(), MESSAGE, 2, 4), "- item\n---\nend");
    assert_eq!(copy_rows(&message(), MESSAGE, 1, 2), "- item");
    assert_eq!(copy_rows(&message(), MESSAGE, 4, 4), "end");
}

#[test]
fn part_of_a_row_takes_the_markdown_in_between() {
    assert_eq!(copy(&message(), MESSAGE, (0, 2), (0, 6)), "ld** te");
    assert_eq!(copy(&message(), MESSAGE, (0, 1), (2, 8)), "old** text\n\n- item");
    assert_eq!(copy(&message(), MESSAGE, (0, 0), (2, 3)), "**bold** text\nit");
}

#[test]
fn part_of_a_row_without_characters_copies_nothing() {
    assert_eq!(copy(&message(), MESSAGE, (2, 0), (2, 1)), "");
    assert_eq!(copy(&message(), MESSAGE, (2, 7), (4, 2)), "\n---\nend");
}

#[test]
fn part_of_a_rule_is_copied_as_drawn() {
    assert_eq!(copy(&message(), MESSAGE, (3, 0), (3, 3)), "────");
    assert_eq!(copy(&message(), MESSAGE, (3, 1), (4, 8)), "────────\nend");
    assert_eq!(copy(&message(), MESSAGE, (2, 0), (3, 1)), "- item\n──");
}

#[test]
fn code_fences_are_not_copied() {
    let raw = "```\nlet a;\nb\n```\nend";
    let buf = buffer(&[("│ let a;", GUTTER), ("│ b", GUTTER), ("end", Color::Reset)]);
    assert_eq!(copy_rows(&buf, raw, 0, 2), "let a;\nb\nend");
    assert_eq!(copy_rows(&buf, raw, 1, 2), "b\nend");
    assert_eq!(copy_rows(&buf, raw, 0, 1), "let a;\nb");
}

#[test]
fn closing_syntax_of_a_partly_selected_row_does_not_leak() {
    let buf = plain(&["ab", "cd"]);
    assert_eq!(copy(&buf, "**ab**\ncd", (0, 0), (1, 1)), "**ab**\ncd");
    assert_eq!(copy(&buf, "**ab**\ncd", (0, 1), (1, 1)), "b\ncd");
}

#[test]
fn wrapped_lines_break_where_they_are_drawn() {
    let buf = plain(&["hello", "world"]);
    assert_eq!(copy_rows(&buf, "hello world", 0, 1), "hello\nworld");
    assert_eq!(copy_rows(&buf, "hello\n\nworld", 0, 1), "hello\n\nworld");
    assert_eq!(copy_rows(&buf, "hello **world**", 0, 1), "hello **world**");
}

#[test]
fn table_rows_take_their_lines() {
    let raw = "| a | b |\n|---|---|\n| c | d |\n";
    let buf = buffer(&[
        ("╭───┬───╮", BORDER),
        ("│ a │ b │", BORDER),
        ("├───┼───┤", BORDER),
        ("│ c │ d │", BORDER),
        ("╰───┴───╯", BORDER),
    ]);
    assert_eq!(copy_rows(&buf, raw, 1, 3), "| a | b |\n|---|---|\n| c | d |");
    assert_eq!(copy_rows(&buf, raw, 3, 3), "| c | d |");
    assert_eq!(copy_rows(&buf, raw, 0, 1), "╭───┬───╮\n| a | b |");
    assert_eq!(copy(&buf, raw, (1, 0), (1, 4)), "a");
    assert_eq!(copy(&buf, raw, (1, 4), (3, 8)), "b\n|---|---|\n| c | d |");
}

#[test]
fn synthetic_rows_are_copied_as_drawn_without_trailing_spaces() {
    let buf = plain(&["a", "no such text", "b"]);
    assert_eq!(copy_rows(&buf, "a\nb", 0, 2), "a\nno such text\nb");
    assert_eq!(copy(&buf, "a\nb", (1, 0), (1, 2)), "no");
    let wide = plain(&["日 本", "x"]);
    assert_eq!(copy_rows(&wide, "x", 0, 1), "日本\nx");
}

#[test]
fn row_in_text_that_a_table_row_has_taken_cannot_be_copied() {
    let raw: Vec<char> = "| a | b".chars().collect();
    let buf = buffer(&[("│ a │", BORDER), ("b", Color::Reset)]);
    let maps = maps(&buf, &raw);
    let rows = |start_row: u16, end_row: u16| {
        let ss = ScreenSelection { start_row, start_col: 0, end_row, end_col: 4 };
        try_extract_via_source_map(&buf, buf.area, &ss, &raw, 0, &maps)
    };
    assert_eq!(rows(0, 1), None);
    assert_eq!(rows(1, 1), None);
    assert_eq!(rows(0, 0), Some(String::from("| a | b")));
}

#[test]
fn rows_without_a_map_are_copied_as_drawn() {
    let buf = plain(&["ab ", "cd "]);
    let ss = ScreenSelection { start_row: 0, start_col: 0, end_row: 1, end_col: 2 };
    assert_eq!(extract_via_source_map(&buf, buf.area, &ss, &[], 0, &[]), "ab \ncd ");
}

#[test]
fn selection_that_ends_before_it_begins_is_empty() {
    assert_eq!(copy(&message(), MESSAGE, (3, 0), (2, 8)), "");
}

#[test]
fn one_row_adds_to_what_was_copied() {
    let buf = plain(&["xy"]);
    let raw: Vec<char> = "a\nxy".chars().collect();
    let maps = vec![RowSourceMap::Matched {
        matches: vec![(0, 0, 2), (1, 1, 3)],
        leading_skip_start: 1,
        raw_end: 4,
        is_table_row: false,
    }];
    let mut clip = Clipping { out: String::from("a"), first_non_blank: false, claimed_end: 1 };
    assert!(copy_row(&mut clip, &buf, 0, (0, 1), true, &raw, &maps, 0));
    assert_eq!((clip.out.as_str(), clip.first_non_blank, clip.claimed_end), ("a\nxy", false, 4));
    let mut late = Clipping { out: String::from("a"), first_non_blank: false, claimed_end: 3 };
    assert!(!copy_row(&mut late, &buf, 0, (0, 1), true, &raw, &maps, 0));
    assert_eq!((late.out.as_str(), late.claimed_end), ("a", 3));
    assert!(copy_row(&mut late, &buf, 0, (1, 1), false, &raw, &maps, 0));
    assert_eq!((late.out.as_str(), late.claimed_end), ("a\ny", 4));
}

#[test]
fn what_is_copied_keeps_every_character_of_the_message() {
    let ink = |s: &str| -> String { s.chars().filter(|c| !c.is_whitespace()).collect() };
    let raw = "# Head\n\n1. one **two**\n   three\n\n`x` and ~~y~~";
    let buf = plain(&["Head", "", "1. one two", "   three", "", "x and y"]);
    let all = copy_rows(&buf, raw, 0, 5);
    assert_eq!(ink(&all), ink(raw));
}

#[test]
fn text_below_a_table_is_copied() {
    let raw = "| a | b |\n|---|---|\n| c | d |\n\ntext";
    let buf = buffer(&[
        ("│ a │ b │", BORDER),
        ("├───┼───┤", BORDER),
        ("│ c │ d │", BORDER),
        ("", Color::Reset),
        ("text", Color::Reset),
    ]);
    assert_eq!(copy_rows(&buf, raw, 0, 4), raw);
    assert_eq!(copy(&buf, raw, (2, 5), (4, 1)), "d\nte");
}

#[test]
fn rows_between_the_first_and_the_last_are_copied_whole() {
    let raw = "one\n**two**\nthree";
    let buf = plain(&["one", "two", "three"]);
    assert_eq!(copy(&buf, raw, (0, 2), (2, 0)), "e\n**two**\nt");
}

#[test]
fn row_of_which_only_padding_is_selected_does_not_leak() {
    let buf = plain(&["ab ", "cd "]);
    assert_eq!(copy(&buf, "ab cd", (0, 2), (1, 2)), "\ncd");
    assert_eq!(copy(&buf, "**ab** cd", (0, 2), (1, 2)), "\ncd");
    assert_eq!(copy(&buf, "ab\n\ncd", (0, 2), (1, 2)), "\n\ncd");
}

#[test]
fn table_row_of_which_only_padding_is_selected_leaves_its_line_to_the_rows_below() {
    let buf = buffer(&[("│ a │", BORDER), ("ab", Color::Reset)]);
    assert_eq!(copy(&buf, "| a | ab", (0, 4), (1, 4)), " | ab");
    let rows = buffer(&[("│ a │ b │", BORDER), ("│ c │ d │", BORDER)]);
    assert_eq!(copy(&rows, "| a | b |\n| c | d |", (0, 8), (1, 8)), "\n| c | d |");
}

#[test]
fn copied_text_stands_in_the_raw_text_in_order() {
    let raw = "# Head\n\n- one **two** three\n---\n`x` and ~~y~~ end";
    let buf = plain(&["Head", "", "• one two", "three", "─────────", "x and y", "end"]);
    let places: Vec<char> = raw.chars().collect();
    for start in 0..7u16 {
        for end in start..7 {
            for (first, last) in [(0, 8), (1, 2), (3, 1), (8, 0), (2, 8)] {
                let from = if start == 4 { 0 } else { first };
                let to = if end == 4 { 8 } else { last };
                let text = copy(&buf, raw, (start, from), (end, to));
                let mut at = 0;
                for c in text.chars().filter(|c| *c != '\n') {
                    while at < places.len() && places[at] != c {
                        at += 1;
                    }
                    assert!(at < places.len(), "{text:?}");
                    at += 1;
                }
            }
        }
    }
}
