use maki_selection::screen::{Buffer, Cell, Rect, Theme};
use maki_selection::selection::{col_range, is_row_fully_selected, ScreenSelection};
use maki_selection::source_map::{
    build_row_source_maps, matched_claim_end, next_row_bound, RowSourceMap,
};
use ratatui::style::Color;

const GUTTER: Color = Color::Green;
const BORDER: Color = Color::Yellow;

fn theme() -> Theme {
    Theme { code_gutter: Some(GUTTER), table_border: Some(BORDER) }
}

/// A buffer of the given rows, padded with blanks, each drawn in one colour.
fn buffer(rows: &[(&str, Color)]) -> Buffer {
    let width = rows.iter().map(|(text, _)| text.chars().count()).max().unwrap_or(0);
    let cells = |text: &str, fg: Color| -> Vec<Cell> {
        let padding = std::iter::repeat(' ').take(width - text.chars().count());
        text.chars().chain(padding).map(|c| Cell { symbol: c.to_string(), fg }).collect()
    };
    Buffer {
        area: Rect { x: 0, y: 0, width: width as u16, height: rows.len() as u16 },
        rows: rows.iter().map(|(text, fg)| cells(text, *fg)).collect(),
    }
}

fn plain(rows: &[&str]) -> Buffer {
    let rows: Vec<(&str, Color)> = rows.iter().map(|text| (*text, Color::Reset)).collect();
    buffer(&rows)
}

fn chars(s: &str) -> Vec<char> {
    s.chars().collect()
}

/// One line per map: the kind, and the positions that it points to.
fn told(maps: &[RowSourceMap]) -> Vec<String> {
    maps.iter()
        .map(|map| match map {
            RowSourceMap::Matched { matches, leading_skip_start, raw_end, is_table_row } => {
                let places: Vec<String> = matches.iter().map(|m| m.2.to_string()).collect();
                let kind = if *is_table_row { "table" } else { "text" };
                format!("{kind} {leading_skip_start} [{}] {raw_end}", places.join(" "))
            }
            RowSourceMap::PatternMatched { raw_range } => {
                format!("line {} {}", raw_range.0, raw_range.1)
            }
            RowSourceMap::Synthetic => String::from("none"),
        })
        .collect()
}

fn map(buf: &Buffer, prefix_width: u16, raw: &str) -> Vec<String> {
    told(&build_row_source_maps(buf, buf.area, prefix_width, &chars(raw), &theme()))
}

#[test]
fn rows_of_a_message_are_mapped_in_order() {
    let buf = plain(&["bold text", "", "• item", "─────────", "end"]);
    assert_eq!(
        map(&buf, 0, "**bold** text\n\n- item\n---\nend"),
        vec![
            "text 0 [2 3 4 5 8 9 10 11 12] 13",
            "none",
            "text 13 [17 18 19 20] 21",
            "line 22 25",
            "text 26 [26 27 28] 29",
        ]
    );
}

#[test]
fn closing_syntax_belongs_to_the_row_above() {
    let buf = plain(&["a", "b"]);
    assert_eq!(map(&buf, 0, "**a** **b**"), vec!["text 0 [2] 3", "text 5 [8] 9"]);
}

#[test]
fn table_rows_are_mapped_to_their_lines() {
    let buf = buffer(&[
        ("╭───┬───╮", BORDER),
        ("│ a │ b │", BORDER),
        ("├───┼───┤", BORDER),
        ("│ c │ d │", BORDER),
        ("╰───┴───╯", BORDER),
    ]);
    assert_eq!(
        map(&buf, 0, "| a | b |\n|---|---|\n| c | d |\n"),
        vec!["none", "table 0 [2 6] 7", "line 10 19", "table 20 [22 26] 27", "none"]
    );
}

#[test]
fn code_rows_are_mapped_behind_their_bar() {
    let buf = buffer(&[("│ let a", GUTTER), ("│b", GUTTER)]);
    assert_eq!(map(&buf, 0, "```\nlet ab\n```"), vec!["text 0 [4 5 6 7 8] 9", "text 9 [9] 10"]);
}

#[test]
fn prefix_of_the_first_row_is_left_out() {
    let buf = plain(&["you> hi", "you> ho"]);
    assert_eq!(map(&buf, 5, "hi"), vec!["text 0 [0 1] 2", "none"]);
    assert_eq!(map(&buf, 7, "hi"), vec!["none", "none"]);
}

#[test]
fn text_that_is_not_in_the_raw_text_is_synthetic() {
    let buf = plain(&["x", "b", "    ", "•"]);
    assert_eq!(map(&buf, 0, "abc"), vec!["none", "text 0 [1] 2", "none", "none"]);
}

#[test]
fn rule_without_a_line_is_synthetic() {
    let buf = plain(&["───", "abc"]);
    assert_eq!(map(&buf, 0, "abc\n"), vec!["none", "text 0 [0 1 2] 3"]);
}

#[test]
fn every_row_has_a_map_also_below_the_end_of_the_raw_text() {
    let buf = plain(&["───", "───"]);
    assert_eq!(map(&buf, 0, "---"), vec!["line 0 3", "none"]);
    assert_eq!(map(&buf, 0, "---\n"), vec!["line 0 3", "none"]);
    let buf = buffer(&[("───", Color::Reset), ("├─┤", BORDER), ("abc", Color::Reset)]);
    assert_eq!(map(&buf, 0, "---"), vec!["line 0 3", "none", "none"]);
}

#[test]
fn cells_with_several_words_are_found() {
    let buf = buffer(&[("│ a b │ c │", BORDER)]);
    assert_eq!(map(&buf, 0, "| a b | c |"), vec!["table 0 [2 3 4 8] 9"]);
}

fn text_map(leading: usize, places: &[(u16, usize)]) -> RowSourceMap {
    RowSourceMap::Matched {
        matches: places.iter().enumerate().map(|(i, (col, at))| (*col, i, *at)).collect(),
        leading_skip_start: leading,
        raw_end: places[places.len() - 1].1 + 1,
        is_table_row: false,
    }
}

#[test]
fn bound_is_the_next_row_that_comes_from_the_raw_text() {
    let maps = vec![
        text_map(0, &[(0, 0)]),
        RowSourceMap::Synthetic,
        text_map(4, &[(0, 6)]),
        RowSourceMap::PatternMatched { raw_range: (8, 11) },
        RowSourceMap::Synthetic,
    ];
    assert_eq!(next_row_bound(&maps, 0, 20), 4);
    assert_eq!(next_row_bound(&maps, 1, 20), 4);
    assert_eq!(next_row_bound(&maps, 2, 20), 8);
    assert_eq!(next_row_bound(&maps, 3, 20), 20);
    assert_eq!(next_row_bound(&maps, 9, 20), 20);
}

#[test]
fn claim_takes_closing_syntax_on_the_same_line() {
    let raw = chars("**a**\n```");
    assert_eq!(matched_claim_end(3, false, &[text_map(0, &[(0, 2)])], 0, &raw), 5);
    let maps = vec![text_map(0, &[(0, 2)]), text_map(4, &[(0, 4)])];
    assert_eq!(matched_claim_end(3, false, &maps, 0, &raw), 4);
    assert_eq!(matched_claim_end(5, false, &[], 0, &raw), 5);
    assert_eq!(matched_claim_end(9, false, &[], 0, &raw), 9);
}

#[test]
fn claim_of_a_table_row_takes_the_line() {
    let raw = chars("| a | b |\nc");
    assert_eq!(matched_claim_end(3, true, &[], 0, &raw), 9);
    assert_eq!(matched_claim_end(11, true, &[], 0, &raw), 11);
}

#[test]
fn selected_columns_of_a_row() {
    let ss = ScreenSelection { start_row: 2, start_col: 3, end_row: 4, end_col: 5 };
    assert_eq!(col_range(&ss, 0, 9, 2), (3, 9));
    assert_eq!(col_range(&ss, 0, 9, 3), (0, 9));
    assert_eq!(col_range(&ss, 0, 9, 4), (0, 5));
    let wide = ScreenSelection { start_row: 2, start_col: 1, end_row: 2, end_col: 50 };
    assert_eq!(col_range(&wide, 2, 9, 2), (2, 9));
}

#[test]
fn row_is_taken_when_all_its_characters_are() {
    let maps = vec![
        text_map(0, &[(2, 0), (5, 1)]),
        RowSourceMap::PatternMatched { raw_range: (3, 6) },
        RowSourceMap::Synthetic,
    ];
    let on = |start_col: u16, end_col: u16, idx: usize| {
        let ss = ScreenSelection { start_row: 0, start_col, end_row: 0, end_col };
        is_row_fully_selected(&ss, 0, 0, 9, &maps, idx)
    };
    assert!(on(2, 5, 0));
    assert!(on(0, 9, 0));
    assert!(!on(3, 9, 0));
    assert!(!on(0, 4, 0));
    for idx in 1..4 {
        assert!(on(0, 9, idx));
        assert!(!on(1, 9, idx));
        assert!(!on(0, 8, idx));
    }
}

#[test]
fn claim_of_a_table_row_does_not_depend_on_its_index() {
    assert_eq!(matched_claim_end(1, true, &[], usize::MAX, &chars("a|\nb")), 2);
}

#[test]
fn area_may_end_in_the_last_column_of_the_terminal() {
    let mut buf = plain(&["a•", "•x", "1.", "•b"]);
    buf.area.x = 65533;
    assert_eq!(
        map(&buf, 65533, "a•\nx"),
        vec!["text 0 [0 1] 2", "none", "none", "none"]
    );
    assert_eq!(map(&buf, 65534, "x"), vec!["none", "none", "none", "none"]);
}
