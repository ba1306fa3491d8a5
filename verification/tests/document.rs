use maki_selection::document::{
    extract_drawn_segment, extract_selection_text, segment_plan, DocPos, Segment, SegmentPlan,
    Selection, Window,
};
use maki_selection::screen::{draw_message, Rect, Theme};
use maki_selection::selection::ScreenSelection;
use ratatui::style::{Color, Style};
use ratatui::text::{Line, Span};

const AREA: Rect = Rect { x: 4, y: 2, width: 20, height: 10 };
const WIDTH: u16 = 20;

fn theme() -> Theme {
    Theme { code_gutter: Some(Color::Green), table_border: Some(Color::Yellow) }
}

fn lines(texts: &[&str]) -> Vec<Line<'static>> {
    texts.iter().map(|text| Line::from(text.to_string())).collect()
}

fn segment(texts: &[&str], raw: &str) -> Segment {
    Segment {
        height: texts.len() as u16,
        lines: lines(texts),
        raw_text: Some(raw.to_string()),
        has_source_map: true,
        prefix_width: 0,
    }
}

/// A selection from column `start.1` of the message in row `start.0` to column `end.1` in row
/// `end.0`.
fn select(start: (u32, u16), end: (u32, u16)) -> Selection {
    Selection {
        start: DocPos { row: start.0, col: AREA.x + start.1 },
        end: DocPos { row: end.0, col: AREA.x + end.1 },
    }
}

fn copy_drawn(segments: &[Segment], width: u16, sel: Selection, markdown: bool) -> Option<String> {
    let rendered: Vec<String> =
        (0..segments.len()).map(|i| format!("<drawn {i}>")).collect();
    extract_selection_text(segments, width, &sel, AREA, markdown, &theme(), &rendered)
}

fn copy(segments: &[Segment], sel: Selection) -> String {
    copy_drawn(segments, WIDTH, sel, true).unwrap()
}

const RAW: &str = "**bold** text\n\n- item";

fn message() -> Segment {
    segment(&["bold text", "", "• item"], RAW)
}

#[test]
fn whole_segment_is_copied_verbatim() {
    let mut seg = segment(&["anything", "at all"], "no *such* text  ");
    assert_eq!(copy(&[seg], select((0, 0), (1, 19))), "no *such* text  ");
    seg = segment(&["anything", "at all"], "no *such* text  ");
    seg.has_source_map = false;
    assert_eq!(copy(&[seg], select((0, 0), (5, 60))), "no *such* text  ");
}

#[test]
fn part_of_a_segment_is_copied_as_markdown() {
    assert_eq!(copy(&[message()], select((0, 1), (2, 19))), "old** text\n\n- item");
    assert_eq!(copy(&[message()], select((0, 0), (0, 19))), "**bold** text");
    assert_eq!(copy(&[message()], select((2, 0), (2, 19))), "- item");
    assert_eq!(copy(&[message()], select((0, 0), (2, 18))), RAW);
}

#[test]
fn rendered_rows_are_copied_where_markdown_is_not_asked_for_or_not_there() {
    let whole = select((0, 0), (2, 19));
    let part = select((0, 1), (2, 19));
    assert_eq!(copy_drawn(&[message()], WIDTH, whole, false).unwrap(), "<drawn 0>");
    let mut seg = message();
    seg.raw_text = None;
    assert_eq!(copy(&[seg], whole), "<drawn 0>");
    let mut seg = message();
    seg.has_source_map = false;
    assert_eq!(copy(&[seg], part), "<drawn 0>");
    let mut seg = message();
    seg.prefix_width = WIDTH;
    assert_eq!(copy(&[seg], part), "<drawn 0>");
}

#[test]
fn segments_are_copied_below_each_other() {
    let all = [message(), segment(&["next"], "_next_"), segment(&["last"], "last")];
    assert_eq!(copy(&all, select((2, 0), (4, 2))), "- item\n_next_\nlas");
    assert_eq!(copy(&all, select((3, 0), (3, 19))), "_next_");
    assert_eq!(copy(&all, select((0, 0), (4, 19))), format!("{RAW}\n_next_\nlast"));
    assert_eq!(copy(&all, select((9, 0), (12, 19))), "");
    assert_eq!(copy(&[], select((0, 0), (4, 19))), "");
}

#[test]
fn segment_without_lines_only_breaks_the_line() {
    let mut hollow = segment(&["x"], "x");
    hollow.lines = Vec::new();
    let all = [segment(&["a"], "a"), hollow, segment(&["b"], "b")];
    assert_eq!(copy(&all, select((0, 0), (2, 19))), "a\n\nb");
    assert_eq!(copy(&all[1..], select((0, 0), (1, 19))), "b");
}

#[test]
fn segment_without_rows_cannot_be_traced() {
    let mut flat = segment(&["x"], "x");
    flat.height = 0;
    let all = [segment(&["a"], "a"), flat];
    assert_eq!(copy_drawn(&all, WIDTH, select((0, 1), (1, 19)), true), None);
    assert_eq!(copy_drawn(&all[..1], WIDTH, select((0, 1), (1, 19)), true), Some(String::new()));
}

#[test]
fn rule_below_the_end_of_the_markdown_is_copied_as_drawn() {
    let all = [segment(&["───", "───"], "---")];
    let padding = " ".repeat(17);
    assert_eq!(copy(&all, select((0, 1), (1, 19))), format!("──{padding}\n───"));
    assert_eq!(copy(&all, select((1, 0), (1, 19))), "───");
}

#[test]
fn row_in_the_line_of_a_table_row_cannot_be_traced() {
    let border = Style::default().fg(Color::Yellow);
    let mut seg = segment(&["", "b"], "| a | b");
    seg.lines[0] = Line::from(vec![
        Span::styled("│", border),
        Span::raw(" a "),
        Span::styled("│", border),
    ]);
    assert_eq!(copy_drawn(&[seg], WIDTH, select((0, 0), (1, 18)), true), None);
}

#[test]
fn wide_characters_take_two_columns() {
    let all = [segment(&["日本語"], "**日本語**")];
    assert_eq!(copy(&all, select((0, 2), (0, 19))), "本語");
    assert_eq!(copy(&all, select((0, 2), (0, 3))), "本");
    assert_eq!(copy(&all, select((0, 0), (0, 10))), "**日本語**");
}

#[test]
fn wrapped_message_is_traced() {
    let mut seg = segment(&["hello world"], "hello world");
    seg.height = 2;
    let sel = select((0, 1), (1, 5));
    assert_eq!(copy_drawn(&[seg], 6, sel, true).unwrap(), "ello\nworld");
}

#[test]
fn code_bar_is_told_by_its_colour() {
    let code = |colour: Color| {
        let mut seg = segment(&["", ""], "```\nlet\nx\n```");
        let bar = Style::default().fg(colour);
        seg.lines = vec![
            Line::from(vec![Span::styled("│ ", bar), Span::raw("let")]),
            Line::from(vec![Span::styled("│ ", bar), Span::raw("x")]),
        ];
        seg
    };
    assert_eq!(copy(&[code(Color::Green)], select((0, 0), (1, 18))), "let\nx");
    assert_eq!(copy(&[code(Color::Red)], select((0, 0), (1, 18))), "│ let\n│ x");
}

#[test]
fn line_that_comes_out_too_wide_is_drawn() {
    let mut seg = segment(&["a日b"], "a日b");
    seg.height = 2;
    assert_eq!(copy_drawn(&[seg], 2, select((0, 1), (1, 1)), true).unwrap(), "\n日");
}

#[test]
fn drawn_message_has_the_cells_of_its_lines() {
    let line = Line::from(vec![
        Span::styled("ab", Style::default().fg(Color::Red)),
        Span::raw(" 日"),
    ]);
    let buf = draw_message(&vec![line], 8, 2);
    assert_eq!((buf.area.width, buf.area.height), (24, 2));
    assert_eq!(buf.rows.len(), 2);
    let symbols: Vec<&str> = (0..7).map(|col| buf.cell(col, 0).symbol.as_str()).collect();
    assert_eq!(symbols, vec!["a", "b", " ", "日", " ", " ", " "]);
    assert!(buf.cell(1, 0).fg == Color::Red);
    assert!(buf.cell(3, 0).fg == Color::Reset);
    assert_eq!(buf.cell(0, 1).symbol, " ");
}

#[test]
fn drawn_segment_is_traced() {
    let buf = draw_message(&lines(&["bold text", "", "• item"]), WIDTH, 3);
    let ss = ScreenSelection { start_row: 0, start_col: 0, end_row: 2, end_col: 19 };
    assert_eq!(
        extract_drawn_segment(&buf, WIDTH, &ss, RAW, 0, &theme()),
        Some(String::from(RAW))
    );
    let prefixed = draw_message(&lines(&["> hi"]), WIDTH, 1);
    let ss = ScreenSelection { start_row: 0, start_col: 0, end_row: 0, end_col: 19 };
    assert_eq!(
        extract_drawn_segment(&prefixed, WIDTH, &ss, "hi", 2, &theme()),
        Some(String::from("hi"))
    );
}

fn plan(seg: &Segment, seg_start: u32, sel: Selection) -> SegmentPlan {
    segment_plan(seg, seg_start, WIDTH, &sel, AREA, true)
}

#[test]
fn plan_of_a_segment() {
    let seg = message();
    assert_eq!(plan(&seg, 5, select((0, 0), (4, 19))), SegmentPlan::Outside);
    assert_eq!(plan(&seg, 5, select((8, 0), (9, 19))), SegmentPlan::Outside);
    assert_eq!(plan(&seg, 5, select((5, 0), (7, 19))), SegmentPlan::Raw);
    assert_eq!(plan(&seg, 5, select((0, 0), (20, 19))), SegmentPlan::Raw);
    let mut hollow = message();
    hollow.lines = Vec::new();
    assert_eq!(plan(&hollow, 5, select((5, 0), (7, 19))), SegmentPlan::Empty);
}

#[test]
fn window_of_a_segment() {
    let window = |sel: Selection| match plan(&message(), 5, sel) {
        SegmentPlan::SourceMapped { window } => window,
        other => panic!("{other:?}"),
    };
    assert_eq!(
        window(select((6, 3), (6, 7))),
        Window {
            rel_start: 1,
            rel_end: 2,
            ss: ScreenSelection { start_row: 1, start_col: 3, end_row: 1, end_col: 7 },
        }
    );
    assert_eq!(
        window(select((0, 3), (20, 7))),
        Window {
            rel_start: 0,
            rel_end: 3,
            ss: ScreenSelection { start_row: 0, start_col: 0, end_row: 2, end_col: 19 },
        }
    );
    let mut left = select((5, 0), (7, 0));
    left.start.col = 0;
    left.end.col = 1;
    assert_eq!(
        window(left).ss,
        ScreenSelection { start_row: 0, start_col: 0, end_row: 2, end_col: 0 }
    );
}

#[test]
fn selection_may_end_far_below_a_segment() {
    let ends = |row: u32| match plan(&message(), 0, select((0, 3), (row, 7))) {
        SegmentPlan::SourceMapped { window } => (window.rel_end, window.ss.end_row),
        other => panic!("{other:?}"),
    };
    assert_eq!(ends(1), (2, 1));
    for row in [65534, 65535, 65536, 65538, 131071, u32::MAX - 1] {
        assert_eq!(ends(row), (3, 2));
    }
}

#[test]
fn selection_dragged_upwards_is_the_same_selection() {
    let all = [message(), segment(&["next"], "_next_"), segment(&["last"], "last")];
    for (a, b) in [((2, 0), (4, 2)), ((0, 1), (2, 19)), ((0, 2), (0, 6)), ((3, 3), (3, 3))] {
        assert_eq!(copy(&all, select(b, a)), copy(&all, select(a, b)));
        assert_eq!(select(b, a).normalized(), select(a, b).normalized());
    }
    assert_eq!(copy(&all, select((4, 2), (2, 0))), "- item\n_next_\nlas");
    assert_eq!(copy(&all, select((0, 6), (0, 2))), "ld** te");
    let sel = select((4, 2), (2, 9));
    assert_eq!(sel.normalized(), (sel.end, sel.start));
    assert_eq!(plan(&message(), 5, select((7, 19), (5, 0))), SegmentPlan::Raw);
}

#[test]
fn rendered_copy_does_not_look_at_the_markdown() {
    let mut other = message();
    other.raw_text = None;
    other.has_source_map = false;
    other.prefix_width = 7;
    for sel in [select((0, 0), (2, 19)), select((0, 3), (1, 4)), select((1, 0), (2, 2))] {
        assert_eq!(
            copy_drawn(&[message()], WIDTH, sel, false),
            copy_drawn(&[segment(&["bold text", "", "• item"], "else")], WIDTH, sel, false)
        );
    }
    let sel = select((0, 3), (1, 4));
    assert_eq!(
        copy_drawn(&[message()], WIDTH, sel, false),
        copy_drawn(&[other], WIDTH, sel, false)
    );
}

#[test]
fn segments_that_are_not_selected_make_no_difference() {
    let sel = select((3, 1), (3, 2));
    let a = [message(), segment(&["next"], "_next_"), segment(&["last"], "last")];
    let b = [
        segment(&["x", "y", "z"], "quite **else**"),
        segment(&["next"], "_next_"),
        segment(&["tail"], "tail"),
    ];
    assert_eq!(copy(&a, sel), "ex");
    assert_eq!(copy(&b, sel), "ex");
}

#[test]
fn rendered_copy_takes_any_width() {
    let sel = select((0, 1), (2, 19));
    assert_eq!(copy_drawn(&[message()], u16::MAX, sel, false).unwrap(), "<drawn 0>");
    assert_eq!(copy_drawn(&[message()], 0, sel, false).unwrap(), "<drawn 0>");
}

#[test]
fn whole_segments_are_copied_at_any_width() {
    let all = [message(), segment(&["next"], "_next_")];
    let mut sel = select((0, 0), (3, 0));
    sel.end.col = u16::MAX;
    let text = copy_drawn(&all, u16::MAX - AREA.x, sel, true);
    assert_eq!(text, Some(format!("{RAW}\n_next_")));
    assert_eq!(copy_drawn(&all, u16::MAX, select((9, 0), (9, 9)), true), Some(String::new()));
}
