use maki_selection::matching::match_subsequence;
use maki_selection::scrape::{
    find_inked, is_blank_row, is_table_border_row, scrape_row_chars, scrape_table_content, shows,
    strip_synthetic_prefix, trim_trailing, CODE_BAR_COLS, CODE_BAR_WRAP_COLS,
};
use maki_selection::screen::{drawn_in, Buffer, Cell, Rect, Theme};
use ratatui::style::Color;
use unicode_width::UnicodeWidthStr;

const GUTTER: Color = Color::Green;
const BORDER: Color = Color::Rgb(1, 2, 3);

fn theme() -> Theme {
    Theme { code_gutter: Some(GUTTER), table_border: Some(BORDER) }
}

/// A buffer of one row; every cell holds one character, drawn in `fg`.
fn row(text: &str, fg: Color) -> Buffer {
    let cells: Vec<Cell> = text.chars().map(|c| Cell { symbol: c.to_string(), fg }).collect();
    Buffer {
        area: Rect { x: 0, y: 0, width: cells.len() as u16, height: 1 },
        rows: vec![cells],
    }
}

fn text(chars: &[(u16, char)]) -> String {
    chars.iter().map(|(_, c)| *c).collect()
}

fn strip(buf: &Buffer) -> (String, u16, bool, bool) {
    let (chars, border, table) =
        strip_synthetic_prefix(buf, 0, 0, buf.area.width - 1, &theme());
    let first = chars.first().map(|(col, _)| *col).unwrap_or(u16::MAX);
    (text(&chars).trim_end().to_string(), first, border, table)
}

#[test]
fn cells_hidden_by_wide_characters_are_passed_over() {
    let buf = row("日 本 x", Color::Reset);
    assert_eq!(scrape_row_chars(&buf, 0, 0, 4), vec![(0, '日'), (2, '本'), (4, 'x')]);
    assert_eq!(scrape_row_chars(&buf, 0, 1, 4), vec![(1, ' '), (2, '本'), (4, 'x')]);
    assert_eq!(scrape_row_chars(&buf, 0, 0, 0), vec![(0, '日')]);
    assert_eq!(scrape_row_chars(&buf, 0, 3, 2), Vec::new());
}

#[test]
fn cells_of_several_characters_and_empty_cells() {
    let mut buf = row("ab", Color::Reset);
    buf.rows[0][0].symbol = String::from("e\u{301}");
    assert_eq!(scrape_row_chars(&buf, 0, 0, 1), vec![(0, 'e'), (0, '\u{301}'), (1, 'b')]);
    buf.rows[0][0].symbol = String::new();
    assert_eq!(scrape_row_chars(&buf, 0, 0, 1), vec![(1, 'b')]);
}

#[test]
fn cell_of_an_offset_buffer() {
    let mut buf = row("ab", Color::Reset);
    buf.area.x = 5;
    buf.area.y = 7;
    assert_eq!(buf.cell(6, 7).symbol, "b");
    assert_eq!(scrape_row_chars(&buf, 7, 5, 6), vec![(5, 'a'), (6, 'b')]);
}

#[test]
fn code_bar_is_stripped() {
    assert_eq!(strip(&row("│ let x", GUTTER)), (String::from("let x"), 2, false, false));
    assert_eq!(strip(&row("│let x", GUTTER)), (String::from("let x"), 1, false, false));
    assert_eq!(strip(&row("│", GUTTER)), (String::new(), u16::MAX, false, false));
}

#[test]
fn bar_in_another_colour_is_text() {
    assert_eq!(strip(&row("│ let x", Color::Reset)), (String::from("│ let x"), 0, false, false));
    assert!(drawn_in(BORDER, Some(Color::Rgb(1, 2, 3))));
    assert!(!drawn_in(BORDER, Some(Color::Rgb(1, 2, 4))));
    assert!(!drawn_in(Color::Reset, None));
}

#[test]
fn border_rows_hold_no_text() {
    assert_eq!(strip(&row("├──┼──┤", BORDER)), (String::new(), u16::MAX, true, false));
    assert_eq!(strip(&row("  ─── ", Color::Reset)), (String::new(), u16::MAX, true, false));
    assert_eq!(strip(&row("│  │", BORDER)), (String::new(), u16::MAX, true, false));
    assert!(is_table_border_row(&row("╭┬╮╰┴╯", BORDER), 0, 0, 5));
    assert!(!is_table_border_row(&row("╭┬╮a┴╯", BORDER), 0, 0, 5));
    let mut empty = row("─", BORDER);
    empty.rows[0][0].symbol = String::new();
    assert!(!is_table_border_row(&empty, 0, 0, 0));
}

#[test]
fn table_cells_are_read_without_padding() {
    let mut buf = row("│ a b │ cd │", BORDER);
    assert_eq!(
        scrape_table_content(&buf, 0, 0, 11, &theme()),
        vec![(2, 'a'), (3, ' '), (4, 'b'), (8, 'c'), (9, 'd')]
    );
    assert_eq!(strip(&buf), (String::from("a bcd"), 2, false, true));
    buf.rows[0][6].fg = Color::Reset;
    assert_eq!(text(&scrape_table_content(&buf, 0, 0, 11, &theme())), "a b │ cd");
    let one = row("│ a b │", BORDER);
    assert_eq!(
        scrape_table_content(&one, 0, 0, 6, &theme()),
        vec![(2, 'a'), (3, ' '), (4, 'b')]
    );
    assert_eq!(scrape_table_content(&one, 0, 3, 2, &theme()), Vec::new());
    assert_eq!(scrape_table_content(&one, 0, 2, 4, &theme()), vec![(2, 'a'), (3, ' '), (4, 'b')]);
}

#[test]
fn table_cells_pass_over_what_wide_characters_hide() {
    let buf = row("│ 日 x 本 │   │", BORDER);
    assert_eq!(
        scrape_table_content(&buf, 0, 0, 12, &theme()),
        vec![(2, '日'), (4, 'x'), (5, ' '), (6, '本')]
    );
}

#[test]
fn list_markers_are_stripped() {
    assert_eq!(strip(&row("• item", Color::Reset)), (String::from("item"), 2, false, false));
    assert_eq!(strip(&row("   • item", Color::Reset)), (String::from("item"), 5, false, false));
    assert_eq!(strip(&row("12. go", Color::Reset)), (String::from("go"), 4, false, false));
    assert_eq!(strip(&row("  7. go", Color::Reset)), (String::from("go"), 5, false, false));
}

#[test]
fn what_only_looks_like_a_marker_stays() {
    assert_eq!(strip(&row("12.x", Color::Reset)).0, "12.x");
    assert_eq!(strip(&row("12", Color::Reset)).0, "12");
    assert_eq!(strip(&row("12.", Color::Reset)).0, "12.");
    assert_eq!(strip(&row("- item", Color::Reset)).0, "- item");
    assert_eq!(strip(&row(" text", Color::Reset)), (String::from(" text"), 0, false, false));
}

#[test]
fn blank_rows_and_first_inked_column() {
    let buf = row("   x ", Color::Reset);
    assert!(is_blank_row(&buf, 0, 0, 2));
    assert!(!is_blank_row(&buf, 0, 0, 3));
    assert!(is_blank_row(&buf, 0, 4, 3));
    assert_eq!(find_inked(&buf, 0, 0, 4), 3);
    assert_eq!(find_inked(&buf, 0, 4, 4), 5);
    assert!(shows(buf.cell(3, 0), 'x'));
    assert!(!shows(buf.cell(3, 0), 'y'));
}

#[test]
fn trailing_spaces_are_trimmed() {
    let mut chars = vec![(0, 'a'), (1, ' '), (2, ' ')];
    trim_trailing(&mut chars);
    assert_eq!(chars, vec![(0, 'a')]);
    let mut none = vec![(0, ' ')];
    trim_trailing(&mut none);
    assert!(none.is_empty());
}

#[test]
fn drawn_text_is_found_behind_syntax() {
    let raw: Vec<char> = "a**b** c".chars().collect();
    let drawn = [(0u16, 'a'), (1, 'b'), (2, ' '), (3, 'c')];
    assert_eq!(
        match_subsequence(&raw, 0, &drawn),
        (vec![(0, 0, 0), (1, 1, 3), (2, 2, 6), (3, 3, 7)], 8)
    );
}

#[test]
fn drawn_text_is_found_at_the_first_place() {
    let raw: Vec<char> = "aabab".chars().collect();
    assert_eq!(match_subsequence(&raw, 1, &[(4, 'a'), (5, 'b')]), (vec![(4, 0, 1), (5, 1, 2)], 3));
}

#[test]
fn matching_is_all_or_nothing() {
    let raw: Vec<char> = "abc".chars().collect();
    assert_eq!(match_subsequence(&raw, 1, &[(0, 'b'), (1, 'x')]), (Vec::new(), 1));
    assert_eq!(match_subsequence(&raw, 2, &[]), (Vec::new(), 2));
    assert_eq!(match_subsequence(&raw, 4, &[(0, 'a')]), (Vec::new(), 4));
}

#[test]
fn code_bars_are_as_wide_as_they_are_drawn() {
    assert_eq!(UnicodeWidthStr::width("│ "), CODE_BAR_COLS as usize);
    assert_eq!(UnicodeWidthStr::width("│"), CODE_BAR_WRAP_COLS as usize);
}

#[test]
fn marker_in_the_last_columns_of_the_terminal() {
    let mut buf = row(" •", Color::Reset);
    buf.area.x = 65533;
    let (chars, border, table) = strip_synthetic_prefix(&buf, 0, 65533, 65534, &theme());
    assert_eq!((chars, border, table), (Vec::new(), false, false));
    assert_eq!(find_inked(&buf, 0, 65533, 65533), 65534);
    let mut bar = row("│", GUTTER);
    bar.area.x = 65534;
    assert!(strip_synthetic_prefix(&bar, 0, 65534, 65534, &theme()).0.is_empty());
}
