use maki_selection::gap::{emit_gap, emit_inter_gap};

fn plain(gap: &str, first: bool) -> String {
    let chars: Vec<char> = gap.chars().collect();
    let mut out = String::from("<");
    emit_gap(&mut out, &chars, first);
    out
}

fn inter(gap: &str, first: bool) -> String {
    let chars: Vec<char> = gap.chars().collect();
    let mut out = String::from("<");
    emit_inter_gap(&mut out, &chars, first);
    out
}

#[test]
fn empty_gap() {
    assert_eq!(plain("", false), "<\n");
    assert_eq!(plain("", true), "<");
}

#[test]
fn wrap_points_become_newlines() {
    assert_eq!(plain(" ", false), "<\n");
    assert_eq!(plain("  \n ", false), "<\n");
    assert_eq!(plain("\n", false), "<\n");
    assert_eq!(plain("\u{3000}", false), "<\n");
    assert_eq!(plain(" \n", true), "<");
}

#[test]
fn paragraph_breaks_stay() {
    assert_eq!(plain("\n\n", false), "<\n\n");
    assert_eq!(plain(" \n\n  ", false), "< \n\n  ");
    assert_eq!(plain("\n \n", false), "<\n");
    assert_eq!(plain("\n\n", true), "<");
}

#[test]
fn leading_syntax_stays() {
    assert_eq!(plain("**", false), "<**");
    assert_eq!(plain(" `", true), "< `");
    assert_eq!(plain("\n- ", false), "<\n- ");
}

#[test]
fn gap_on_one_line_is_kept_whole() {
    assert_eq!(inter(" # ", false), "< # ");
    assert_eq!(inter("  ", false), "<\n");
    assert_eq!(inter("", true), "<");
}

#[test]
fn gap_across_lines_keeps_its_last_white_space() {
    assert_eq!(inter("\n```rust\n", false), "<\n");
    assert_eq!(inter("\n```\n\n", false), "<\n\n");
    assert_eq!(inter("```\n", true), "<");
    assert_eq!(inter("a\nb", false), "<\n");
    assert_eq!(inter("a\nb", true), "<");
    assert_eq!(inter("\n\n", false), "<\n\n");
}

#[test]
fn rows_are_never_run_together() {
    for gap in ["", " ", "\n", "\n\n", "x", "a\nb", "\n```\n"] {
        assert!(plain(gap, false).len() > 1, "{gap:?}");
        assert!(inter(gap, false).len() > 1, "{gap:?}");
    }
}
