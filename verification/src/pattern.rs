//! Lines of markdown that are drawn as borders: horizontal rules and table separators.
use crate::lines;
use crate::lines::{find_line_end, white_space};
use vstd::prelude::*;

verus! {

/// Whether a line from `start` to `end` is a horizontal rule: three or more of the same character
/// out of `-`, `*` and `_`, and nothing else.
pub open spec fn is_rule(raw: Seq<char>, start: int, end: int) -> bool {
    &&& lines::at_line_start(raw, start)
    &&& end == lines::line_end(raw, start)
    &&& end - start >= 3
    &&& raw[start] == '-' || raw[start] == '*' || raw[start] == '_'
    &&& forall|i: int| start <= i < end ==> raw[i] == raw[start]
}

/// The first horizontal rule that begins at or behind `pos`.
pub open spec fn next_rule(raw: Seq<char>, pos: int) -> Option<(int, int)>
    decreases raw.len() - pos,
{
    if pos >= raw.len() {
        None
    } else if is_rule(raw, pos, lines::line_end(raw, pos)) {
        Some((pos, lines::line_end(raw, pos)))
    } else {
        next_rule(raw, pos + 1)
    }
}

/// `end`, moved back over white space, but not before `start`.
pub open spec fn trim_white(raw: Seq<char>, start: int, end: int) -> int
    decreases end - start,
{
    if start < end && lines::is_white_space(raw[end - 1]) {
        trim_white(raw, start, end - 1)
    } else {
        end
    }
}

/// Whether `c` may stand inside a table separator.
pub open spec fn separator_char(c: char) -> bool {
    lines::is_white_space(c) || c == '-' || c == ':' || c == '|'
}

/// Whether a line from `start` holds a table separator up to `end`: dashes, colons, bars and white
/// space, at least one of them, between an opening and a closing bar. White space may follow the
/// closing bar; `end` stands before it.
pub open spec fn is_separator(raw: Seq<char>, start: int, end: int) -> bool {
    let line = lines::line_end(raw, start);
    &&& lines::at_line_start(raw, start)
    &&& start < line
    &&& raw[start] == '|'
    &&& forall|i: int| start < i < line ==> separator_char(#[trigger] raw[i])
    &&& end == trim_white(raw, start + 1, line)
    &&& end - start >= 3
    &&& raw[end - 1] == '|'
}

/// The first table separator that begins at or behind `pos`.
pub open spec fn next_separator(raw: Seq<char>, pos: int) -> Option<(int, int)>
    decreases raw.len() - pos,
{
    let end = trim_white(raw, pos + 1, lines::line_end(raw, pos));
    if pos >= raw.len() {
        None
    } else if is_separator(raw, pos, end) {
        Some((pos, end))
    } else {
        next_separator(raw, pos + 1)
    }
}

proof fn lemma_trim_white(raw: Seq<char>, start: int, end: int)
    requires
        start <= end,
    ensures
        start <= trim_white(raw, start, end) <= end,
        forall|i: int| trim_white(raw, start, end) <= i < end ==> lines::is_white_space(raw[i]),
    decreases end - start,
{
    if start < end && lines::is_white_space(raw[end - 1]) {
        lemma_trim_white(raw, start, end - 1);
    }
}

/// A separator ends on its own line.
pub proof fn lemma_separator_end(raw: Seq<char>, start: int, end: int)
    ensures
        is_separator(raw, start, end) ==> end <= lines::line_end(raw, start),
{
    if is_separator(raw, start, end) {
        lemma_trim_white(raw, start + 1, lines::line_end(raw, start));
    }
}

/// A rule that is found is a rule, begins at or behind `pos`, and no rule begins in between; where
/// none is found, no line from `pos` on is a rule.
pub proof fn law_next_rule(raw: Seq<char>, pos: int)
    requires
        0 <= pos,
    ensures
        match next_rule(raw, pos) {
            Some((start, end)) => {
                &&& pos <= start
                &&& start < end <= raw.len()
                &&& is_rule(raw, start, end)
                &&& forall|s: int, e: int| pos <= s < start ==> !is_rule(raw, s, e)
            },
            None => forall|s: int, e: int| pos <= s < raw.len() ==> !is_rule(raw, s, e),
        },
    decreases raw.len() - pos,
{
    if pos < raw.len() {
        lines::lemma_line_end(raw, pos);
        if !is_rule(raw, pos, lines::line_end(raw, pos)) {
            law_next_rule(raw, pos + 1);
            assert forall|s: int, e: int|
                pos <= s < raw.len() && (next_rule(raw, pos) matches Some((start, _)) ==> s
                    < start) implies !is_rule(raw, s, e) by {
                if s > pos {
                    assert(pos + 1 <= s);
                }
            }
        }
    }
}

/// A separator that is found is a separator, begins at or behind `pos`, and none begins in
/// between; where none is found, no line from `pos` on is a separator.
pub proof fn law_next_separator(raw: Seq<char>, pos: int)
    requires
        0 <= pos,
    ensures
        match next_separator(raw, pos) {
            Some((start, end)) => {
                &&& pos <= start
                &&& start < end <= raw.len()
                &&& is_separator(raw, start, end)
                &&& forall|s: int, e: int| pos <= s < start ==> !is_separator(raw, s, e)
            },
            None => forall|s: int, e: int| pos <= s < raw.len() ==> !is_separator(raw, s, e),
        },
    decreases raw.len() - pos,
{
    if pos < raw.len() {
        lines::lemma_line_end(raw, pos);
        let end = trim_white(raw, pos + 1, lines::line_end(raw, pos));
        if is_separator(raw, pos, end) {
            lemma_trim_white(raw, pos + 1, lines::line_end(raw, pos));
        } else {
            law_next_separator(raw, pos + 1);
            assert forall|s: int, e: int|
                pos <= s < raw.len() && (next_separator(raw, pos) matches Some((start, _)) ==> s
                    < start) implies !is_separator(raw, s, e) by {
                if s > pos {
                    assert(pos + 1 <= s);
                }
            }
        }
    }
}

/// The end of the horizontal rule that begins at `start`, if the line is one.
fn rule_at(raw: &[char], start: usize) -> (r: Option<usize>)
    requires
        start < raw.len(),
    ensures
        match r {
            Some(end) => is_rule(raw@, start as int, end as int),
            None => !is_rule(raw@, start as int, lines::line_end(raw@, start as int)),
        },
{
    proof {
        lines::lemma_line_end(raw@, start as int);
    }
    if start > 0 && raw[start - 1] != '\n' {
        return None;
    }
    let ch: char = raw[start];
    if ch != '-' && ch != '*' && ch != '_' {
        return None;
    }
    let mut end: usize = start + 1;
    while end < raw.len() && raw[end] == ch
        invariant
            start < end <= raw.len(),
            ch != '\n',
            ch == raw@[start as int],
            forall|i: int| start <= i < end ==> raw@[i] == ch,
        decreases raw.len() - end,
    {
        end += 1;
    }
    let ghost line = lines::line_end(raw@, start as int);
    assert(end <= line) by {
        if line < end {
            assert(raw@[line] == ch);
        }
    }
    if end - start >= 3 && (end == raw.len() || raw[end] == '\n') {
        assert(end == line);
        Some(end)
    } else {
        proof {
            if end < line {
                assert(raw@[end as int] != ch);
            }
        }
        None
    }
}

/// Looks from `pos` on for a line that is a horizontal rule, and returns where it begins and ends.
pub fn find_hr_pattern(raw: &[char], pos: usize) -> (r: Option<(usize, usize)>)
    requires
        pos <= raw.len(),
    ensures
        match r {
            Some(found) => next_rule(raw@, pos as int) == Some((found.0 as int, found.1 as int)),
            None => next_rule(raw@, pos as int) is None,
        },
{
    let mut start: usize = pos;
    while start < raw.len()
        invariant
            pos <= start <= raw.len(),
            next_rule(raw@, pos as int) == next_rule(raw@, start as int),
        decreases raw.len() - start,
    {
        match rule_at(raw, start) {
            Some(end) => {
                return Some((start, end));
            },
            None => {},
        }
        start += 1;
    }
    None
}

/// Where the table separator that begins at `start` ends, if the line holds one.
fn separator_at(raw: &[char], start: usize) -> (r: Option<usize>)
    requires
        start < raw.len(),
    ensures
        match r {
            Some(end) => is_separator(raw@, start as int, end as int),
            None => forall|end: int| !is_separator(raw@, start as int, end),
        },
{
    proof {
        lines::lemma_line_end(raw@, start as int);
    }
    if start > 0 && raw[start - 1] != '\n' {
        return None;
    }
    if raw[start] != '|' {
        return None;
    }
    let line: usize = find_line_end(raw, start);
    let mut i: usize = start + 1;
    while i < line
        invariant
            start < i <= line <= raw.len(),
            line == lines::line_end(raw@, start as int),
            forall|j: int| start < j < i ==> separator_char(#[trigger] raw@[j]),
        decreases line - i,
    {
        let c: char = raw[i];
        if !white_space(c) && c != '-' && c != ':' && c != '|' {
            assert(!separator_char(raw@[i as int]));
            return None;
        }
        i += 1;
    }
    let mut end: usize = line;
    while end > start + 1 && white_space(raw[end - 1])
        invariant
            start < end <= line <= raw.len(),
            trim_white(raw@, start + 1, line as int) == trim_white(raw@, start + 1, end as int),
        decreases end - start,
    {
        end -= 1;
    }
    if end - start >= 3 && raw[end - 1] == '|' {
        Some(end)
    } else {
        None
    }
}

/// Looks from `pos` on for a line that is a table separator, and returns where it begins and ends.
pub fn find_table_sep_pattern(raw: &[char], pos: usize) -> (r: Option<(usize, usize)>)
    requires
        pos <= raw.len(),
    ensures
        match r {
            Some(found) => next_separator(raw@, pos as int) == Some(
                (found.0 as int, found.1 as int),
            ),
            None => next_separator(raw@, pos as int) is None,
        },
{
    let mut start: usize = pos;
    while start < raw.len()
        invariant
            pos <= start <= raw.len(),
            next_separator(raw@, pos as int) == next_separator(raw@, start as int),
        decreases raw.len() - start,
    {
        match separator_at(raw, start) {
            Some(end) => {
                return Some((start, end));
            },
            None => {},
        }
        start += 1;
    }
    None
}

} // verus!
