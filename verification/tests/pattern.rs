use maki_selection::pattern::{find_hr_pattern, find_table_sep_pattern};

fn chars(s: &str) -> Vec<char> {
    s.chars().collect()
}

#[test]
fn hr_pattern_full_line_only() {
    let cases: [(&str, usize, Option<(usize, usize)>); 7] = [
        ("before\n---\nafter", 0, Some((7, 10))),
        ("before\n***\nafter", 0, Some((7, 10))),
        ("a --- b\n---\n", 0, Some((8, 11))),
        ("x --- y\n***\n", 6, Some((8, 11))),
        ("a --- b\n", 0, None),
        ("--- x\n", 0, None),
        ("--\n", 0, None),
    ];
    for (raw, pos, expected) in cases {
        assert_eq!(find_hr_pattern(&chars(raw), pos), expected, "{raw:?}");
    }
}

#[test]
fn table_sep_full_line_only() {
    let cases: [(&str, usize, Option<(usize, usize)>); 7] = [
        ("| a |\n|---|---|\n| b |", 0, Some((6, 15))),
        ("x |---|---|\n|---|---|\n", 0, Some((12, 21))),
        ("|---|---| extra\n", 0, None),
        ("x |---|---|\n", 0, None),
        ("| a |\n|---|---|\n", 4, Some((6, 15))),
        ("| a |\n|---|---|", 0, Some((6, 15))),
        ("|:---:|\n", 0, Some((0, 7))),
    ];
    for (raw, pos, expected) in cases {
        assert_eq!(find_table_sep_pattern(&chars(raw), pos), expected, "{raw:?}");
    }
}

#[test]
fn rule_at_the_very_end() {
    assert_eq!(find_hr_pattern(&chars("_____"), 0), Some((0, 5)));
    assert_eq!(find_hr_pattern(&chars("a\n---"), 1), Some((2, 5)));
    assert_eq!(find_hr_pattern(&chars("---"), 3), None);
    assert_eq!(find_hr_pattern(&chars(""), 0), None);
}

#[test]
fn rule_of_mixed_characters_is_no_rule() {
    assert_eq!(find_hr_pattern(&chars("-*-\n-_-\n**-\n"), 0), None);
}

#[test]
fn first_of_several_rules_is_found() {
    assert_eq!(find_hr_pattern(&chars("---\n***\n"), 0), Some((0, 3)));
    assert_eq!(find_hr_pattern(&chars("---\n***\n"), 1), Some((4, 7)));
}

#[test]
fn separator_needs_both_bars_and_something_between() {
    assert_eq!(find_table_sep_pattern(&chars("|:|:|\n"), 0), Some((0, 5)));
    assert_eq!(find_table_sep_pattern(&chars("| : |\n"), 0), Some((0, 5)));
    assert_eq!(find_table_sep_pattern(&chars("|-|"), 0), Some((0, 3)));
    assert_eq!(find_table_sep_pattern(&chars("|"), 0), None);
    assert_eq!(find_table_sep_pattern(&chars("|---\n"), 0), None);
    assert_eq!(find_table_sep_pattern(&chars("---|\n"), 0), None);
    assert_eq!(find_table_sep_pattern(&chars("||\n"), 0), None);
}

#[test]
fn separator_ends_at_its_last_bar() {
    assert_eq!(find_table_sep_pattern(&chars("|--|  \n"), 0), Some((0, 4)));
    assert_eq!(find_table_sep_pattern(&chars("| - | : |\t"), 0), Some((0, 9)));
}
