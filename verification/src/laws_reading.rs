//! What holds of reading a drawn row: which cells are read, and which are left out.
use crate::laws;
use crate::matching;
use crate::scrape;
use crate::screen;
use crate::screen::{Grid, Theme};
use vstd::prelude::*;

verus! {

/// The characters of `chars` that have the column `c`, in order.
pub open spec fn at_column(chars: Seq<(u16, char)>, c: int) -> Seq<char>
    decreases chars.len(),
{
    if chars.len() == 0 {
        Seq::empty()
    } else if chars.last().0 == c {
        at_column(chars.drop_last(), c).push(chars.last().1)
    } else {
        at_column(chars.drop_last(), c)
    }
}

/// The characters of `chars` whose column lies from `lo` up to, not including, `hi`, in order.
pub open spec fn between(chars: Seq<(u16, char)>, lo: int, hi: int) -> Seq<(u16, char)>
    decreases chars.len(),
{
    if chars.len() == 0 {
        Seq::empty()
    } else if lo <= chars.last().0 < hi {
        between(chars.drop_last(), lo, hi).push(chars.last())
    } else {
        between(chars.drop_last(), lo, hi)
    }
}

/// Columns of two pieces are those of each.
proof fn lemma_at_column_add(a: Seq<(u16, char)>, b: Seq<(u16, char)>, c: int)
    ensures
        at_column(a + b, c) == at_column(a, c) + at_column(b, c),
    decreases b.len(),
{
    if b.len() == 0 {
        assert(a + b =~= a);
    } else {
        assert((a + b).drop_last() =~= a + b.drop_last());
        lemma_at_column_add(a, b.drop_last(), c);
    }
}

/// A column that no character has holds nothing.
proof fn lemma_at_column_none(a: Seq<(u16, char)>, c: int)
    requires
        forall|i: int| 0 <= i < a.len() ==> (#[trigger] a[i]).0 != c,
    ensures
        at_column(a, c) == Seq::<char>::empty(),
    decreases a.len(),
{
    if a.len() > 0 {
        assert(a[a.len() - 1].0 != c);
        assert forall|i: int| 0 <= i < a.drop_last().len() implies (#[trigger] a.drop_last()[i]).0
            != c by {
            assert(a[i].0 != c);
        }
        lemma_at_column_none(a.drop_last(), c);
    }
}

/// A column that every character has holds them all.
proof fn lemma_at_column_all(a: Seq<(u16, char)>, c: int)
    requires
        forall|i: int| 0 <= i < a.len() ==> (#[trigger] a[i]).0 == c,
    ensures
        at_column(a, c) == matching::bare(a),
    decreases a.len(),
{
    if a.len() > 0 {
        let head = a.drop_last();
        assert(a[a.len() - 1].0 == c);
        assert forall|i: int| 0 <= i < head.len() implies (#[trigger] head[i]).0 == c by {
            assert(a[i].0 == c);
        }
        lemma_at_column_all(head, c);
        assert(matching::bare(a) =~= matching::bare(head).push(a.last().1));
    } else {
        assert(matching::bare(a) =~= Seq::empty());
    }
}

/// Stretches of two pieces are those of each.
proof fn lemma_between_add(a: Seq<(u16, char)>, b: Seq<(u16, char)>, lo: int, hi: int)
    ensures
        between(a + b, lo, hi) == between(a, lo, hi) + between(b, lo, hi),
    decreases b.len(),
{
    if b.len() == 0 {
        assert(a + b =~= a);
    } else {
        assert((a + b).drop_last() =~= a + b.drop_last());
        lemma_between_add(a, b.drop_last(), lo, hi);
    }
}

/// A stretch that no character lies in holds nothing.
proof fn lemma_between_none(a: Seq<(u16, char)>, lo: int, hi: int)
    requires
        forall|i: int| 0 <= i < a.len() ==> !(lo <= (#[trigger] a[i]).0 < hi),
    ensures
        between(a, lo, hi) == Seq::<(u16, char)>::empty(),
    decreases a.len(),
{
    if a.len() > 0 {
        let head = a.drop_last();
        assert(!(lo <= a[a.len() - 1].0 < hi));
        assert forall|i: int| 0 <= i < head.len() implies !(lo <= (#[trigger] head[i]).0 < hi) by {
            assert(!(lo <= a[i].0 < hi));
        }
        lemma_between_none(head, lo, hi);
    }
}

/// A stretch that every character lies in holds them all.
proof fn lemma_between_all(a: Seq<(u16, char)>, lo: int, hi: int)
    requires
        forall|i: int| 0 <= i < a.len() ==> lo <= (#[trigger] a[i]).0 < hi,
    ensures
        between(a, lo, hi) == a,
    decreases a.len(),
{
    if a.len() > 0 {
        let head = a.drop_last();
        assert(lo <= a[a.len() - 1].0 < hi);
        assert forall|i: int| 0 <= i < head.len() implies lo <= (#[trigger] head[i]).0 < hi by {
            assert(lo <= a[i].0 < hi);
        }
        lemma_between_all(head, lo, hi);
    }
}

/// The characters behind the first cell of a row.
proof fn lemma_row_head(g: Grid, row: int, col: int, end: int, c: int)
    requires
        0 <= col <= end <= u16::MAX,
    ensures
        ({
            let sym = g.sym(col, row);
            let next = scrape::next_column(col, sym);
            let rest = scrape::row_chars(g, row, next, end);
            &&& at_column(scrape::row_chars(g, row, col, end), c) == (if c == col {
                sym
            } else {
                at_column(rest, c)
            })
            &&& c < next ==> at_column(rest, c) == Seq::<char>::empty()
            &&& col < next
        }),
{
    let sym = g.sym(col, row);
    let next = scrape::next_column(col, sym);
    let head = scrape::tagged(col, sym);
    let rest = scrape::row_chars(g, row, next, end);
    lemma_at_column_add(head, rest, c);
    if c < next {
        assert forall|i: int| 0 <= i < rest.len() implies (#[trigger] rest[i]).0 != c by {
            laws::lemma_row_chars_columns(g, row, next, end, i);
        }
        lemma_at_column_none(rest, c);
    }
    if c == col {
        lemma_at_column_all(head, c);
        assert(matching::bare(head) =~= sym);
        assert(sym + Seq::<char>::empty() =~= sym);
    } else {
        lemma_at_column_none(head, c);
        assert(Seq::<char>::empty() + at_column(rest, c) =~= at_column(rest, c));
    }
}

/// Every cell of a row is read with its whole text, but for those that a wide text in a cell before
/// them hides: of those nothing is read. The first cell is read.
pub proof fn law_row_is_read_cell_by_cell(g: Grid, row: int, col: int, end: int, c: int)
    requires
        0 <= col <= c <= end <= u16::MAX,
    ensures
        ({
            let read = scrape::row_chars(g, row, col, end);
            &&& c == col ==> at_column(read, c) == g.sym(c, row)
            &&& at_column(read, c) == g.sym(c, row) || exists|d: int|
                col <= d < c && at_column(read, d) == #[trigger] g.sym(d, row) && c < d
                    + screen::display_width(g.sym(d, row))
            &&& forall|d: int|
                col <= d < c < d + screen::display_width(#[trigger] g.sym(d, row)) && at_column(
                    read,
                    d,
                ).len() > 0 ==> at_column(read, c) == Seq::<char>::empty()
        }),
    decreases end - col,
{
    let read = scrape::row_chars(g, row, col, end);
    let next = scrape::next_column(col, g.sym(col, row));
    let rest = scrape::row_chars(g, row, next, end);
    lemma_row_head(g, row, col, end, c);
    lemma_row_head(g, row, col, end, col);
    if c >= next {
        law_row_is_read_cell_by_cell(g, row, next, end, c);
        if at_column(read, c) != g.sym(c, row) {
            let d = choose|d: int|
                next <= d < c && at_column(rest, d) == #[trigger] g.sym(d, row) && c < d
                    + screen::display_width(g.sym(d, row));
            lemma_row_head(g, row, col, end, d);
            assert(at_column(read, d) == g.sym(d, row));
        }
    } else if c > col {
        assert(at_column(read, col) == g.sym(col, row));
        assert(c < col + screen::display_width(g.sym(col, row)));
    }
    assert forall|d: int|
        col <= d < c < d + screen::display_width(#[trigger] g.sym(d, row)) && at_column(
            read,
            d,
        ).len() > 0 implies at_column(read, c) == Seq::<char>::empty() by {
        lemma_row_head(g, row, col, end, d);
        if next <= d {
            law_row_is_read_cell_by_cell(g, row, next, end, c);
        }
    }
}

/// A row is read from left to right.
pub proof fn law_row_is_read_in_order(g: Grid, row: int, col: int, end: int, i: int, j: int)
    requires
        0 <= col,
        end <= u16::MAX,
        0 <= i < j < scrape::row_chars(g, row, col, end).len(),
    ensures
        scrape::row_chars(g, row, col, end)[i].0 <= scrape::row_chars(g, row, col, end)[j].0,
    decreases
            if col > end {
                0
            } else {
                end + 1 - col
            },
{
    if col <= end {
        let sym = g.sym(col, row);
        let next = scrape::next_column(col, sym);
        if i >= sym.len() {
            law_row_is_read_in_order(g, row, next, end, i - sym.len(), j - sym.len());
        } else if j >= sym.len() {
            laws::lemma_row_chars_columns(g, row, next, end, j - sym.len());
        }
    }
}

/// Whether the first cell of a row is a bar of the code gutter.
pub open spec fn behind_code_bar(g: Grid, row: int, start: int, theme: Theme) -> bool {
    g.sym(start, row) == seq!['│'] && theme.code_gutter == Some(g.at(start, row).fg)
}

/// Whether the first cell of a row is a border of a table.
pub open spec fn behind_border(g: Grid, row: int, start: int, theme: Theme) -> bool {
    g.sym(start, row) == seq!['│'] && theme.table_border == Some(g.at(start, row).fg)
}

/// Whether a cell is blank or drawn with a line of a border.
pub open spec fn ruled(s: Seq<char>) -> bool {
    s == seq![' '] || (s.len() > 0 && (s[0] == '│' || s[0] == '╭' || s[0] == '╮' || s[0] == '├'
        || s[0] == '┤' || s[0] == '┼' || s[0] == '╰' || s[0] == '╯' || s[0] == '─' || s[0] == '┬'
        || s[0] == '┴'))
}

/// Of a code row only the bar is left out, with one space behind it where there is one: the text is
/// all that is drawn from there on, the code's own indent included.
pub proof fn law_code_row_keeps_its_indent(
    g: Grid,
    row: int,
    start: int,
    end: int,
    theme: Theme,
    first: int,
    c: int,
)
    requires
        0 <= start <= end <= u16::MAX,
        behind_code_bar(g, row, start, theme),
        first == (if start < end && g.sym(start + 1, row) == seq![' '] {
            start + 2
        } else {
            start + 1
        }),
    ensures
        ({
            let text = scrape::row_content(g, row, start, end, theme);
            &&& scrape::row_kind(g, row, start, end, theme) is Text
            &&& text == scrape::row_chars(g, row, first, end)
            &&& first <= end ==> at_column(text, first) == g.sym(first, row)
            &&& c < first ==> at_column(text, c) == Seq::<char>::empty()
        }),
{
    let text = scrape::row_chars(g, row, first, end);
    if first <= end {
        law_row_is_read_cell_by_cell(g, row, first, end, first);
    }
    if c < first {
        assert forall|i: int| 0 <= i < text.len() implies (#[trigger] text[i]).0 != c by {
            laws::lemma_row_chars_columns(g, row, first, end, i);
        }
        lemma_at_column_none(text, c);
    }
}

/// A row of nothing but blanks and border lines holds no text; a row with anything else in it is
/// read.
pub proof fn law_border_rows_hold_no_text(g: Grid, row: int, start: int, end: int, theme: Theme)
    requires
        !behind_code_bar(g, row, start, theme),
    ensures
        scrape::row_kind(g, row, start, end, theme) is Border <==> (forall|c: int|
            start <= c <= end ==> ruled(#[trigger] g.sym(c, row))),
        scrape::row_kind(g, row, start, end, theme) is Border ==> scrape::row_content(
            g,
            row,
            start,
            end,
            theme,
        ) == Seq::<(u16, char)>::empty(),
{
    assert forall|c: int| start <= c <= end implies ruled(#[trigger] g.sym(c, row))
        == scrape::border_cell(g.sym(c, row)) by {}
    if scrape::border_row(g, row, start, end) {
        assert forall|c: int| start <= c <= end implies ruled(#[trigger] g.sym(c, row)) by {
            assert(scrape::border_cell(g.sym(c, row)));
        }
    } else {
        let c = choose|c: int|
            start <= c <= end && !scrape::border_cell(#[trigger] g.sym(c, row));
        assert(!ruled(g.sym(c, row)));
    }
}

/// A row that begins with a border of a table and holds anything but borders is read as a row of a
/// table; one that begins otherwise is not.
pub proof fn law_table_rows_begin_with_a_border(
    g: Grid,
    row: int,
    start: int,
    end: int,
    theme: Theme,
    other: int,
)
    requires
        !behind_code_bar(g, row, start, theme),
        start <= other <= end,
        !ruled(g.sym(other, row)),
    ensures
        (scrape::row_kind(g, row, start, end, theme) is Table) == behind_border(
            g,
            row,
            start,
            theme,
        ),
        behind_border(g, row, start, theme) ==> scrape::row_content(g, row, start, end, theme)
            == scrape::table_content(g, row, start, end, theme),
{
    assert(!scrape::border_cell(g.sym(other, row)));
}

/// The first column that is not blank is found.
proof fn lemma_first_inked_is(g: Grid, row: int, col: int, end: int, m: int)
    requires
        col <= m <= end,
        g.sym(m, row) != seq![' '],
        forall|c: int| col <= c < m ==> #[trigger] g.sym(c, row) == seq![' '],
    ensures
        scrape::first_inked(g, row, col, end) == m,
    decreases m - col,
{
    if col < m {
        assert(g.sym(col, row) == seq![' ']);
        lemma_first_inked_is(g, row, col + 1, end, m);
    }
}

/// Whether `s` is one decimal digit.
pub open spec fn one_digit(s: Seq<char>) -> bool {
    s.len() == 1 && '0' <= s[0] && s[0] <= '9'
}

/// A run of digits ends at the first cell that is none.
proof fn lemma_digits_end(g: Grid, row: int, col: int, end: int)
    requires
        col <= end + 1,
    ensures
        ({
            let d = scrape::digits_end(g, row, col, end);
            &&& col <= d <= end + 1
            &&& forall|c: int| col <= c < d ==> one_digit(#[trigger] g.sym(c, row))
            &&& d <= end ==> !one_digit(g.sym(d, row))
        }),
    decreases end + 1 - col,
{
    if col <= end && scrape::digit_cell(g.sym(col, row)) {
        lemma_digits_end(g, row, col + 1, end);
        let d = scrape::digits_end(g, row, col, end);
        assert forall|c: int| col <= c < d implies one_digit(#[trigger] g.sym(c, row)) by {
            if c > col {
                assert(col + 1 <= c);
            }
        }
    }
}

/// The text of a list item begins behind its marker and the space after it: behind a bullet, or
/// behind a number with a dot. A row that begins with neither is read from its first column on.
/// `m` is the first column that is not blank.
pub proof fn law_list_marker_is_left_out(
    g: Grid,
    row: int,
    start: int,
    end: int,
    theme: Theme,
    m: int,
    other: int,
)
    requires
        !behind_code_bar(g, row, start, theme),
        !behind_border(g, row, start, theme),
        start <= m <= end,
        g.sym(m, row) != seq![' '],
        forall|c: int| start <= c < m ==> #[trigger] g.sym(c, row) == seq![' '],
        start <= other <= end,
        !ruled(g.sym(other, row)),
    ensures
        ({
            let text = scrape::row_content(g, row, start, end, theme);
            &&& g.sym(m, row) == seq!['•'] ==> text == scrape::row_chars(g, row, m + 2, end)
            &&& forall|d: int|
                m < d < end && (forall|c: int| m <= c < d ==> one_digit(#[trigger] g.sym(c, row)))
                    && #[trigger] g.sym(d, row) == seq!['.'] && g.sym(d + 1, row) == seq![' ']
                    ==> text == scrape::row_chars(g, row, d + 2, end)
            &&& g.sym(m, row) != seq!['•'] && !(exists|d: int|
                m < d < end && (forall|c: int| m <= c < d ==> one_digit(#[trigger] g.sym(c, row)))
                    && #[trigger] g.sym(d, row) == seq!['.'] && g.sym(d + 1, row) == seq![' '])
                ==> text == scrape::row_chars(g, row, start, end)
        }),
{
    assert(!scrape::border_cell(g.sym(other, row)));
    lemma_first_inked_is(g, row, start, end, m);
    lemma_digits_end(g, row, m, end);
    let dot = scrape::digits_end(g, row, m, end);
    assert(seq!['•'][0] == '•' && seq!['.'][0] == '.' && seq!['•'].len() == 1 && seq!['.'].len()
        == 1);
    let text = scrape::row_content(g, row, start, end, theme);
    assert forall|d: int|
        m < d < end && (forall|c: int| m <= c < d ==> one_digit(#[trigger] g.sym(c, row)))
            && #[trigger] g.sym(d, row) == seq!['.'] && g.sym(d + 1, row) == seq![
            ' ',
        ] implies text == scrape::row_chars(g, row, d + 2, end) by {
        assert(one_digit(g.sym(m, row)));
        assert(!one_digit(g.sym(d, row)));
        if dot < d {
            assert(one_digit(g.sym(dot, row)));
        }
        if d < dot {
            assert(one_digit(g.sym(d, row)));
        }
        assert(d == dot);
    }
    if m < dot < end && g.sym(dot, row) == seq!['.'] && g.sym(dot + 1, row) == seq![' '] {
        assert(one_digit(g.sym(m, row)));
    }
}

/// Whether a cell is a border of a table.
pub open spec fn bar(g: Grid, row: int, c: int, theme: Theme) -> bool {
    g.sym(c, row) == seq!['│'] && theme.table_border == Some(g.at(c, row).fg)
}

/// The first border is found.
proof fn lemma_next_bar_first(g: Grid, row: int, col: int, end: int, theme: Theme)
    requires
        col <= end + 1,
    ensures
        ({
            let next = scrape::next_bar(g, row, col, end, theme);
            &&& col <= next <= end + 1
            &&& next <= end ==> bar(g, row, next, theme)
            &&& forall|c: int| col <= c < next ==> !#[trigger] bar(g, row, c, theme)
        }),
    decreases end + 1 - col,
{
    if col <= end && !scrape::table_bar(g.at(col, row), theme) {
        lemma_next_bar_first(g, row, col + 1, end, theme);
        assert(!bar(g, row, col, theme));
    }
}

/// A row of a table is read cell by cell to its end, the cells behind an empty one included. The
/// cell between two borders that follow each other, the one before column `a` and the one at column
/// `b`, or between a border and an end of the row, gives the text drawn in it without the spaces
/// around it: nothing else of it is left out, and every character in it that is no space is read.
pub proof fn law_every_table_cell_is_read(
    g: Grid,
    row: int,
    start: int,
    end: int,
    theme: Theme,
    a: int,
    b: int,
)
    requires
        0 <= start <= a <= b <= end + 1,
        end <= u16::MAX,
        a == start || bar(g, row, a - 1, theme),
        b == end + 1 || bar(g, row, b, theme),
        forall|c: int| a <= c < b ==> !#[trigger] bar(g, row, c, theme),
    ensures
        ({
            let drawn = scrape::row_chars(g, row, a, b - 1);
            let text = scrape::table_content(g, row, start, end, theme);
            let cell = between(text, a, b);
            &&& exists|from: int, to: int|
                0 <= from <= to <= drawn.len() && cell == #[trigger] drawn.subrange(from, to) && (
                forall|i: int|
                    0 <= i < from || to <= i < drawn.len() ==> (#[trigger] drawn[i]).1 == ' ')
            &&& cell.len() > 0 ==> cell[0].1 != ' ' && cell.last().1 != ' '
            &&& forall|i: int|
                0 <= i < drawn.len() && (#[trigger] drawn[i]).1 != ' ' ==> text.contains(drawn[i])
        }),
    decreases end + 1 - start,
{
    let text = scrape::table_content(g, row, start, end, theme);
    let drawn = scrape::row_chars(g, row, a, b - 1);
    if start > end {
        assert(between(text, a, b) =~= drawn.subrange(0, 0));
    } else {
        lemma_next_bar_first(g, row, start, end, theme);
        let next = scrape::next_bar(g, row, start, end, theme);
        let head = scrape::cell_text(g, row, start, next);
        let rest = scrape::table_content(g, row, next + 1, end, theme);
        lemma_between_add(head, rest, a, b);
        lemma_cell_columns(g, row, start, next);
        assert forall|i: int| 0 <= i < rest.len() implies next < (#[trigger] rest[i]).0 <= end by {
            laws::lemma_table_content_columns(g, row, next + 1, end, theme, i);
        }
        if a == start {
            if b < next {
                assert(bar(g, row, b, theme));
            }
            if next < b {
                assert(bar(g, row, next, theme));
            }
            assert(b == next);
            lemma_between_all(head, a, b);
            lemma_between_none(rest, a, b);
            assert(head + Seq::<(u16, char)>::empty() =~= head);
            laws::law_cells_are_trimmed(g, row, start, next);
            let (from, to) = choose|from: int, to: int|
                0 <= from <= to <= drawn.len() && head == #[trigger] drawn.subrange(from, to) && (
                forall|i: int|
                    0 <= i < from || to <= i < drawn.len() ==> (#[trigger] drawn[i]).1 == ' ');
            assert forall|i: int|
                0 <= i < drawn.len() && (#[trigger] drawn[i]).1 != ' ' implies text.contains(
                drawn[i],
            ) by {
                assert(head[i - from] == drawn[i]);
                assert(text[i - from] == drawn[i]);
            }
        } else {
            assert(next <= a - 1) by {
                if a - 1 < next {
                    assert(!bar(g, row, a - 1, theme));
                }
            }
            lemma_between_none(head, a, b);
            assert(Seq::<(u16, char)>::empty() + between(rest, a, b) =~= between(rest, a, b));
            law_every_table_cell_is_read(g, row, next + 1, end, theme, a, b);
            assert forall|i: int|
                0 <= i < drawn.len() && (#[trigger] drawn[i]).1 != ' ' implies text.contains(
                drawn[i],
            ) by {
                assert(rest.contains(drawn[i]));
                let j = choose|j: int| 0 <= j < rest.len() && rest[j] == drawn[i];
                assert(text[head.len() + j] == drawn[i]);
            }
        }
    }
}

/// Borders are not part of the text of a table row, and the text is in the order of the columns.
pub proof fn law_table_borders_are_left_out(
    g: Grid,
    row: int,
    start: int,
    end: int,
    theme: Theme,
    i: int,
    j: int,
)
    requires
        0 <= start,
        end <= u16::MAX,
        0 <= i < j < scrape::table_content(g, row, start, end, theme).len(),
    ensures
        ({
            let text = scrape::table_content(g, row, start, end, theme);
            &&& !bar(g, row, text[i].0 as int, theme)
            &&& !bar(g, row, text[j].0 as int, theme)
            &&& text[i].0 <= text[j].0
        }),
    decreases end + 1 - start,
{
    if start <= end {
        lemma_next_bar_first(g, row, start, end, theme);
        let next = scrape::next_bar(g, row, start, end, theme);
        let head = scrape::cell_text(g, row, start, next);
        let rest = scrape::table_content(g, row, next + 1, end, theme);
        lemma_cell_columns(g, row, start, next);
        if i < head.len() {
            assert(start <= head[i].0 < next);
        }
        if j < head.len() {
            assert(start <= head[j].0 < next);
            lemma_cell_in_order(g, row, start, next, i, j);
        } else {
            laws::lemma_table_content_columns(g, row, next + 1, end, theme, j - head.len());
            lemma_not_bar(g, row, next + 1, end, theme, j - head.len());
            if i >= head.len() {
                law_table_borders_are_left_out(
                    g,
                    row,
                    next + 1,
                    end,
                    theme,
                    i - head.len(),
                    j - head.len(),
                );
            }
        }
    }
}

/// No character of a table row stands in the column of a border.
proof fn lemma_not_bar(g: Grid, row: int, start: int, end: int, theme: Theme, i: int)
    requires
        0 <= start,
        end <= u16::MAX,
        0 <= i < scrape::table_content(g, row, start, end, theme).len(),
    ensures
        !bar(g, row, scrape::table_content(g, row, start, end, theme)[i].0 as int, theme),
    decreases
            if start > end {
                0
            } else {
                end + 1 - start
            },
{
    if start <= end {
        lemma_next_bar_first(g, row, start, end, theme);
        let next = scrape::next_bar(g, row, start, end, theme);
        let head = scrape::cell_text(g, row, start, next);
        lemma_cell_columns(g, row, start, next);
        if i < head.len() {
            assert(start <= head[i].0 < next);
        } else {
            lemma_not_bar(g, row, next + 1, end, theme, i - head.len());
        }
    }
}

/// The text of a cell lies between its borders.
proof fn lemma_cell_columns(g: Grid, row: int, start: int, next: int)
    requires
        0 <= start,
        next <= u16::MAX + 1,
    ensures
        forall|i: int|
            0 <= i < scrape::cell_text(g, row, start, next).len() ==> start <= (
            #[trigger] scrape::cell_text(g, row, start, next)[i]).0 < next,
{
    let drawn = scrape::row_chars(g, row, start, next - 1);
    let head = scrape::trim_tagged(drawn);
    let cell = scrape::cell_text(g, row, start, next);
    laws::lemma_trim_tagged_end(drawn);
    laws::lemma_trim_front_start(head);
    assert forall|i: int| 0 <= i < cell.len() implies start <= (#[trigger] cell[i]).0 < next by {
        let k = i + head.len() - cell.len();
        assert(cell[i] == drawn[k]);
        laws::lemma_row_chars_columns(g, row, start, next - 1, k);
    }
}

/// The text of a cell is in the order of its columns.
proof fn lemma_cell_in_order(g: Grid, row: int, start: int, next: int, i: int, j: int)
    requires
        0 <= start,
        next <= u16::MAX + 1,
        0 <= i < j < scrape::cell_text(g, row, start, next).len(),
    ensures
        scrape::cell_text(g, row, start, next)[i].0 <= scrape::cell_text(g, row, start, next)[j].0,
{
    let drawn = scrape::row_chars(g, row, start, next - 1);
    let head = scrape::trim_tagged(drawn);
    let cell = scrape::cell_text(g, row, start, next);
    laws::lemma_trim_tagged_end(drawn);
    laws::lemma_trim_front_start(head);
    let k = head.len() - cell.len();
    assert(cell[i] == drawn[i + k] && cell[j] == drawn[j + k]);
    law_row_is_read_in_order(g, row, start, next - 1, i + k, j + k);
}

/// A match tells the column, the index and the place of its character, and the search ends behind
/// the last place, or where it began where there is none.
pub proof fn law_matches_tell_where(
    text: Seq<(u16, char)>,
    found: Seq<int>,
    pos: int,
    i: int,
)
    requires
        0 <= i < text.len(),
        found.len() == text.len(),
    ensures
        matching::match_triples(text, found).len() == text.len(),
        matching::match_triples(text, found)[i] == (text[i].0 as int, i, found[i]),
        matching::bare(text).len() == text.len(),
        matching::bare(text)[i] == text[i].1,
        matching::behind(found, pos) == found[found.len() - 1] + 1,
        matching::behind(Seq::empty(), pos) == pos,
{
}

} // verus!
