//! What holds of scanning raw markdown: tokens, rules, separators and the gaps between rows.
use crate::gap;
use crate::lines;
use crate::pattern;
use crate::syntax;
use vstd::prelude::*;

verus! {

/// Whether a closing token begins at `i`, before `bound`.
pub open spec fn closes(raw: Seq<char>, i: int, bound: int) -> bool {
    ||| i < bound && (raw[i] == '`' || raw[i] == '*' || raw[i] == '_')
    ||| i + 1 < bound && raw[i] == '~' && raw[i + 1] == '~'
}

/// How a run of closing tokens goes on, one step at a time: over every backtick, star and
/// underscore, over tildes two by two, and over a newline that a token follows. Anything else ends
/// it, a paragraph break and a single tilde included.
pub proof fn law_closing_run(raw: Seq<char>, pos: int, bound: int)
    ensures
        ({
            let end = syntax::closing_end(raw, pos, bound);
            &&& pos < bound && (raw[pos] == '`' || raw[pos] == '*' || raw[pos] == '_') ==> end
                == syntax::closing_end(raw, pos + 1, bound)
            &&& pos + 1 < bound && raw[pos] == '~' && raw[pos + 1] == '~' ==> end
                == syntax::closing_end(raw, pos + 2, bound)
            &&& pos < bound && raw[pos] == '\n' && closes(raw, pos + 1, bound) ==> end
                == syntax::closing_end(raw, pos + 1, bound)
            &&& !closes(raw, pos, bound) && !(pos < bound && raw[pos] == '\n' && closes(
                raw,
                pos + 1,
                bound,
            )) ==> end == pos
        }),
{
    if pos < bound && (raw[pos] == '`' || raw[pos] == '*' || raw[pos] == '_') {
        lemma_same_run(raw, pos, bound);
    }
}

/// Tokens of several equal characters end where as many tokens of one would.
proof fn lemma_same_run(raw: Seq<char>, pos: int, bound: int)
    requires
        pos < bound,
        raw[pos] == '`' || raw[pos] == '*' || raw[pos] == '_',
    ensures
        syntax::closing_end(raw, pos, bound) == syntax::closing_end(raw, pos + 1, bound),
    decreases bound - pos,
{
    let n = syntax::closing_token(raw, pos, bound);
    if n == 2 {
        lemma_same_run(raw, pos + 1, bound);
    } else if n == 3 {
        lemma_same_run(raw, pos + 1, bound);
        lemma_same_run(raw, pos + 2, bound);
    }
}

/// Whether an opening token begins at `i`, before `bound`, and how long it is.
pub open spec fn opens(raw: Seq<char>, i: int, bound: int, n: int) -> bool {
    let one = i < bound;
    let two = i + 1 < bound;
    let a = raw[i];
    let b = raw[i + 1];
    if one && a == '`' {
        n == 1
    } else if two && a == b && (a == '*' || a == '_' || a == '~') {
        n == 2
    } else if two && b == ' ' && (a == '#' || a == '-' || a == '*' || a == '+') {
        n == 2
    } else if one && (a == '*' || a == '_') {
        n == 1
    } else {
        &&& 3 <= n <= bound - i
        &&& raw[i + n - 2] == '.'
        &&& raw[i + n - 1] == ' '
        &&& forall|j: int| i <= j < i + n - 2 ==> '0' <= #[trigger] raw[j] && raw[j] <= '9'
    }
}

/// A run of digits ends at the first character that is none.
proof fn lemma_digits_run(raw: Seq<char>, i: int, bound: int)
    requires
        i <= bound,
    ensures
        ({
            let j = syntax::skip_digits(raw, i, bound);
            &&& i <= j <= bound
            &&& forall|k: int| i <= k < j ==> '0' <= #[trigger] raw[k] && raw[k] <= '9'
            &&& j < bound ==> !('0' <= raw[j] && raw[j] <= '9')
        }),
    decreases bound - i,
{
    if i < bound && lines::is_digit(raw[i]) {
        lemma_digits_run(raw, i + 1, bound);
    }
}

/// Backticks, three at a time, end where they would one at a time.
proof fn lemma_fence_run(raw: Seq<char>, pos: int, bound: int)
    requires
        pos < bound,
        raw[pos] == '`',
    ensures
        syntax::opening_end(raw, pos, bound) == syntax::opening_end(raw, pos + 1, bound),
    decreases bound - pos,
{
    assert(syntax::token_start(raw, pos, bound) == pos);
    if syntax::fence(raw, pos, bound) {
        lemma_fence_run(raw, pos + 1, bound);
        lemma_fence_run(raw, pos + 2, bound);
    }
}

/// An opening token does not begin at or behind the bound, nor a run of newlines and spaces that
/// reaches it.
pub proof fn law_opening_run_stops_at_its_bound(raw: Seq<char>, pos: int, nl: int, bound: int)
    requires
        pos <= nl <= bound || bound <= pos,
        forall|k: int| pos <= k < nl ==> raw[k] == '\n',
        forall|k: int| nl <= k < bound ==> raw[k] == ' ',
        pos < nl || bound <= pos,
    ensures
        syntax::opening_end(raw, pos, bound) == pos,
{
    if pos < bound {
        lemma_skips(raw, pos, nl, bound, '\n');
        lemma_skips(raw, nl, bound, bound, ' ');
    }
}

/// How a run of opening tokens goes on: over a token at the position, and nothing that is no token.
pub proof fn law_opening_run(raw: Seq<char>, pos: int, bound: int, n: int)
    requires
        pos < bound,
        raw[pos] != '\n',
    ensures
        opens(raw, pos, bound, n) ==> syntax::opening_end(raw, pos, bound) == syntax::opening_end(
            raw,
            pos + n,
            bound,
        ),
        (forall|k: int| !opens(raw, pos, bound, k)) ==> syntax::opening_end(raw, pos, bound) == pos,
{
    assert(syntax::token_start(raw, pos, bound) == pos);
    lemma_digits_run(raw, pos, bound);
    let j = syntax::skip_digits(raw, pos, bound);
    let token = syntax::opening_token(raw, pos, bound);
    if raw[pos] == '`' {
        lemma_fence_run(raw, pos, bound);
        assert(opens(raw, pos, bound, 1));
    } else {
        if opens(raw, pos, bound, n) {
            if j < pos + n - 2 {
                assert('0' <= raw[j] && raw[j] <= '9');
            }
            assert(token == n);
        }
        if token != 0 {
            assert(opens(raw, pos, bound, token));
        }
    }
}

/// Newlines are passed over, and the spaces behind them, where a token follows; otherwise the run
/// ends before them. `i` is the first position behind the newlines and spaces.
pub proof fn law_opening_run_passes_lines(raw: Seq<char>, pos: int, nl: int, i: int, bound: int)
    requires
        0 <= pos < nl <= i < bound <= raw.len(),
        forall|k: int| pos <= k < nl ==> raw[k] == '\n',
        forall|k: int| nl <= k < i ==> raw[k] == ' ',
        raw[i] != '\n' || nl < i,
        raw[i] != ' ',
    ensures
        (exists|n: int| opens(raw, i, bound, n)) ==> syntax::opening_end(raw, pos, bound)
            == syntax::opening_end(raw, i, bound),
        !(exists|n: int| opens(raw, i, bound, n)) ==> syntax::opening_end(raw, pos, bound) == pos,
{
    lemma_skips(raw, pos, nl, bound, '\n');
    lemma_skips(raw, nl, i, bound, ' ');
    assert(syntax::token_start(raw, pos, bound) == i);
    lemma_digits_run(raw, i, bound);
    let token = syntax::opening_token(raw, i, bound);
    if raw[i] == '\n' {
        assert(token == 0);
        assert forall|n: int| !opens(raw, i, bound, n) by {
            if opens(raw, i, bound, n) {
                assert('0' <= raw[i] && raw[i] <= '9');
            }
        }
    } else {
        assert(syntax::token_start(raw, i, bound) == i);
        if token != 0 {
            if raw[i] == '`' {
                assert(opens(raw, i, bound, 1));
            } else {
                assert(opens(raw, i, bound, token));
            }
        } else {
            assert forall|n: int| !opens(raw, i, bound, n) by {
                if opens(raw, i, bound, n) {
                    let j = syntax::skip_digits(raw, i, bound);
                    if j < i + n - 2 {
                        assert('0' <= raw[j] && raw[j] <= '9');
                    }
                }
            }
        }
    }
}

/// A run of one character ends at the first that is another.
proof fn lemma_skips(raw: Seq<char>, pos: int, to: int, bound: int, c: char)
    requires
        pos <= to <= bound,
        forall|k: int| pos <= k < to ==> raw[k] == c,
        to == bound || raw[to] != c,
    ensures
        syntax::skip_over(raw, pos, bound, c) == to,
    decreases to - pos,
{
    if pos < to {
        lemma_skips(raw, pos + 1, to, bound, c);
    }
}

/// Whether the line from `s` to `e` is three or more of one of `-`, `*` and `_`.
pub open spec fn rule_line(raw: Seq<char>, s: int, e: int) -> bool {
    &&& 0 <= s && e <= raw.len() && e - s >= 3
    &&& s == 0 || raw[s - 1] == '\n'
    &&& e == raw.len() || raw[e] == '\n'
    &&& (forall|i: int| s <= i < e ==> raw[i] == '-') || (forall|i: int|
        s <= i < e ==> raw[i] == '*') || (forall|i: int| s <= i < e ==> raw[i] == '_')
}

/// Whether a line from `s` holds a bar, one or more dashes, colons, bars and white space, a bar
/// behind which `e` stands, and nothing but white space from there to the line's end `l`.
pub open spec fn separator_line(raw: Seq<char>, s: int, e: int, l: int) -> bool {
    &&& 0 <= s && e <= l <= raw.len() && e - s >= 3
    &&& s == 0 || raw[s - 1] == '\n'
    &&& l == raw.len() || raw[l] == '\n'
    &&& raw[s] == '|' && raw[e - 1] == '|'
    &&& forall|i: int|
        s <= i < e ==> raw[i] != '\n' && (lines::is_white_space(#[trigger] raw[i]) || raw[i] == '-'
            || raw[i] == ':' || raw[i] == '|')
    &&& forall|i: int| e <= i < l ==> raw[i] != '\n' && lines::is_white_space(#[trigger] raw[i])
}

/// The end of a line is found.
proof fn lemma_line_end_is(raw: Seq<char>, s: int, e: int)
    requires
        0 <= s <= e <= raw.len(),
        e == raw.len() || raw[e] == '\n',
        forall|i: int| s <= i < e ==> raw[i] != '\n',
    ensures
        lines::line_end(raw, s) == e,
{
    lines::lemma_line_end(raw, s);
    let l = lines::line_end(raw, s);
    if l < e {
        assert(raw[l] == '\n');
    }
}

/// A rule is a line of one character.
proof fn lemma_rule_line(raw: Seq<char>, s: int, e: int)
    requires
        0 <= s < raw.len(),
    ensures
        rule_line(raw, s, e) == pattern::is_rule(raw, s, e),
{
    lines::lemma_line_end(raw, s);
    if rule_line(raw, s, e) {
        lemma_line_end_is(raw, s, e);
        assert(raw[s] == '-' || raw[s] == '*' || raw[s] == '_');
    }
    if pattern::is_rule(raw, s, e) {
        if raw[s] == '-' {
            assert(forall|i: int| s <= i < e ==> raw[i] == '-');
        } else if raw[s] == '*' {
            assert(forall|i: int| s <= i < e ==> raw[i] == '*');
        } else {
            assert(forall|i: int| s <= i < e ==> raw[i] == '_');
        }
    }
}

/// What is found for a rule is the first line at or behind `pos` that is one, from its start to its
/// end; nothing is found only where there is none.
pub proof fn law_first_rule_is_found(raw: Seq<char>, pos: int, s: int, e: int)
    requires
        0 <= pos <= raw.len(),
    ensures
        pattern::next_rule(raw, pos) matches Some((start, end)) ==> pos <= start && rule_line(
            raw,
            start,
            end,
        ),
        pos <= s && rule_line(raw, s, e) ==> (pattern::next_rule(raw, pos) matches Some((start, _))
            && start <= s),
{
    pattern::law_next_rule(raw, pos);
    if let Some((start, end)) = pattern::next_rule(raw, pos) {
        lemma_rule_line(raw, start, end);
    }
    if pos <= s && rule_line(raw, s, e) {
        lemma_rule_line(raw, s, e);
    }
}

/// White space is trimmed up to the last character that is none.
proof fn lemma_trim_white_is(raw: Seq<char>, start: int, end: int, e: int)
    requires
        start <= e <= end,
        forall|i: int| e <= i < end ==> lines::is_white_space(#[trigger] raw[i]),
        e == start || !lines::is_white_space(raw[e - 1]),
    ensures
        pattern::trim_white(raw, start, end) == e,
    decreases end - start,
{
    if e < end {
        assert(lines::is_white_space(raw[end - 1]));
        lemma_trim_white_is(raw, start, end - 1, e);
    }
}

/// What is trimmed is white space.
proof fn lemma_trim_white_tail(raw: Seq<char>, start: int, end: int)
    requires
        start <= end,
    ensures
        start <= pattern::trim_white(raw, start, end) <= end,
        forall|i: int|
            pattern::trim_white(raw, start, end) <= i < end ==> lines::is_white_space(
                #[trigger] raw[i],
            ),
    decreases end - start,
{
    if start < end && lines::is_white_space(raw[end - 1]) {
        lemma_trim_white_tail(raw, start, end - 1);
    }
}

/// A separator is a line of bars and what may stand between them.
proof fn lemma_separator_line(raw: Seq<char>, s: int, e: int)
    requires
        0 <= s < raw.len(),
    ensures
        pattern::is_separator(raw, s, e) ==> separator_line(raw, s, e, lines::line_end(raw, s)),
        forall|l: int| #[trigger] separator_line(raw, s, e, l) ==> pattern::is_separator(raw, s, e),
{
    lines::lemma_line_end(raw, s);
    let line = lines::line_end(raw, s);
    if pattern::is_separator(raw, s, e) {
        lemma_trim_white_tail(raw, s + 1, line);
        assert forall|i: int| s <= i < e implies raw[i] != '\n' && (lines::is_white_space(
            #[trigger] raw[i],
        ) || raw[i] == '-' || raw[i] == ':' || raw[i] == '|') by {
            if i > s {
                assert(pattern::separator_char(raw[i]));
            }
        }
    }
    assert forall|l: int| #[trigger] separator_line(raw, s, e, l) implies pattern::is_separator(
        raw,
        s,
        e,
    ) by {
        assert forall|i: int| s <= i < l implies raw[i] != '\n' by {
            if i < e {
                assert(raw[i] != '\n');
            } else {
                assert(lines::is_white_space(raw[i]) && raw[i] != '\n');
            }
        }
        lemma_line_end_is(raw, s, l);
        lemma_trim_white_is(raw, s + 1, l, e);
        assert forall|i: int| s < i < l implies pattern::separator_char(#[trigger] raw[i]) by {
            if i >= e {
                assert(lines::is_white_space(raw[i]));
            }
        }
    }
}

/// What is found for a separator is the first line at or behind `pos` that is one, up to its last
/// bar; nothing is found only where there is none.
pub proof fn law_first_separator_is_found(raw: Seq<char>, pos: int, s: int, e: int, l: int)
    requires
        0 <= pos <= raw.len(),
    ensures
        pattern::next_separator(raw, pos) matches Some((start, end)) ==> pos <= start && exists|
            line: int,
        | #[trigger] separator_line(raw, start, end, line),
        pos <= s && separator_line(raw, s, e, l) ==> (pattern::next_separator(raw, pos) matches Some(
            (start, _),
        ) && start <= s),
{
    pattern::law_next_separator(raw, pos);
    if let Some((start, end)) = pattern::next_separator(raw, pos) {
        lemma_separator_line(raw, start, end);
        assert(separator_line(raw, start, end, lines::line_end(raw, start)));
    }
    if pos <= s && separator_line(raw, s, e, l) {
        lemma_separator_line(raw, s, e);
    }
}

/// What stands for a gap that is white space: nothing before the first row, else the gap itself
/// where it holds a paragraph break, and one newline where it does not. A gap with text in it is
/// kept.
pub proof fn law_gap_is_kept_or_broken(gap: Seq<char>, first: bool)
    ensures
        ({
            let text = gap::gap_text(gap, first);
            let white = forall|i: int|
                0 <= i < gap.len() ==> lines::is_white_space(#[trigger] gap[i]);
            let paragraph = exists|i: int|
                0 <= i < gap.len() - 1 && #[trigger] gap[i] == '\n' && gap[i + 1] == '\n';
            &&& !white ==> text == gap
            &&& white && first ==> text == Seq::<char>::empty()
            &&& white && !first && paragraph ==> text == gap
            &&& white && !first && !paragraph ==> text == seq!['\n']
        }),
{
    assert(gap::inked(gap) == !(forall|i: int|
        0 <= i < gap.len() ==> lines::is_white_space(#[trigger] gap[i])));
}

/// What stands for a gap between rows: of a gap that crosses a line only the white space at its end
/// counts, which begins at `t`; of any other all of it.
pub proof fn law_gap_between_rows(gap: Seq<char>, first: bool, t: int)
    requires
        0 <= t <= gap.len(),
        forall|i: int| t <= i < gap.len() ==> lines::is_white_space(#[trigger] gap[i]),
        t > 0 ==> !lines::is_white_space(gap[t - 1]),
    ensures
        (exists|i: int| 0 <= i < gap.len() && gap[i] == '\n') ==> gap::inter_gap_text(gap, first)
            == gap::gap_text(gap.subrange(t, gap.len() as int), first),
        (forall|i: int| 0 <= i < gap.len() ==> gap[i] != '\n') ==> gap::inter_gap_text(gap, first)
            == gap::gap_text(gap, first),
{
    gap::lemma_tail_start(gap, gap.len() as int);
    let tail = gap::tail_start(gap, gap.len() as int);
    if tail < t {
        assert(lines::is_white_space(gap[t - 1]));
    }
    if t < tail {
        assert(lines::is_white_space(gap[tail - 1]));
    }
}

/// A gap of white space that holds a paragraph break is copied as it is between two rows.
pub proof fn law_paragraph_break_is_kept(gap: Seq<char>, i: int)
    requires
        0 <= i < gap.len() - 1,
        gap[i] == '\n',
        gap[i + 1] == '\n',
        forall|j: int| 0 <= j < gap.len() ==> lines::is_white_space(#[trigger] gap[j]),
    ensures
        gap::inter_gap_text(gap, false) == gap,
        gap::inter_gap_text(gap, true) == Seq::<char>::empty(),
{
    law_gap_between_rows(gap, false, 0);
    law_gap_between_rows(gap, true, 0);
    assert(gap.subrange(0, gap.len() as int) =~= gap);
    law_gap_is_kept_or_broken(gap, false);
    law_gap_is_kept_or_broken(gap, true);
}

/// Trimming a text takes away the spaces at its end, all of them and nothing else.
pub proof fn law_trimmed_text(s: Seq<char>)
    ensures
        ({
            let kept = lines::trim_spaces(s);
            &&& kept.len() <= s.len()
            &&& kept == s.take(kept.len() as int)
            &&& kept.len() > 0 ==> kept.last() != ' '
            &&& forall|i: int| kept.len() <= i < s.len() ==> #[trigger] s[i] == ' '
        }),
    decreases s.len(),
{
    if s.len() > 0 && s.last() == ' ' {
        law_trimmed_text(s.drop_last());
        let kept = lines::trim_spaces(s);
        assert(s.take(kept.len() as int) =~= s.drop_last().take(kept.len() as int));
        assert forall|i: int| kept.len() <= i < s.len() implies #[trigger] s[i] == ' ' by {
            if i < s.len() - 1 {
                assert(s.drop_last()[i] == ' ');
            }
        }
    } else {
        assert(s.take(s.len() as int) =~= s);
    }
}

} // verus!
