//! Reading the text of a drawn row back out of its cells.
use crate::screen;
use crate::screen::{drawn_in, text_width, Buffer, Cell, CellView, Grid, Theme};
use crate::lines;
use crate::lines::digit;
use vstd::prelude::*;

verus! {

/// Columns taken by the bar in front of the first row of a code line, with the space behind it.
pub const CODE_BAR_COLS: u16 = 2;

/// Columns taken by the bar in front of a wrapped row of a code line.
pub const CODE_BAR_WRAP_COLS: u16 = 1;

/// The characters of `s`, each with the column they were drawn in.
pub open spec fn tagged(col: int, s: Seq<char>) -> Seq<(u16, char)> {
    Seq::new(s.len(), |i: int| (col as u16, s[i]))
}

/// The column behind the text `s` that is drawn at `col`: a wide text hides the cells it covers.
pub open spec fn next_column(col: int, s: Seq<char>) -> int {
    if screen::display_width(s) > 1 {
        col + screen::display_width(s)
    } else {
        col + 1
    }
}

/// The text drawn in the columns from `col` to `end` of a row, each character with its column.
pub open spec fn row_chars(g: Grid, row: int, col: int, end: int) -> Seq<(u16, char)>
    decreases
            if col > end {
                0
            } else {
                end + 1 - col
            },
{
    if col > end {
        Seq::empty()
    } else {
        tagged(col, g.sym(col, row)) + row_chars(g, row, next_column(col, g.sym(col, row)), end)
    }
}

/// Whether the buffer has every cell in the columns from `col` to `end` of a row.
pub open spec fn has_columns(g: Grid, row: int, col: int, end: int) -> bool {
    forall|c: int| col <= c <= end ==> #[trigger] g.has(c, row)
}

/// Appends the characters of `sym`, each with `col`.
fn push_tagged(chars: &mut Vec<(u16, char)>, col: u16, sym: &str)
    ensures
        final(chars)@ == old(chars)@ + tagged(col as int, sym@),
{
    for c in it: sym.chars()
        invariant
            it.seq() == sym@,
            chars@ == old(chars)@ + tagged(col as int, sym@.subrange(0, it.index())),
    {
        chars.push((col, c));
        assert(chars@ =~= old(chars)@ + tagged(col as int, sym@.subrange(0, it.index() + 1)));
    }
    assert(sym@.subrange(0, sym@.len() as int) =~= sym@);
}

/// Reads the characters drawn in a row from `col_start` to `col_end`, passing over the cells that
/// a wide character hides.
pub fn scrape_row_chars(buf: &Buffer, row: u16, col_start: u16, col_end: u16) -> (r: Vec<(u16, char)>)
    requires
        buf.wf(),
        has_columns(buf@, row as int, col_start as int, col_end as int),
    ensures
        r@ == row_chars(buf@, row as int, col_start as int, col_end as int),
{
    let mut chars: Vec<(u16, char)> = Vec::new();
    if col_start > col_end {
        return chars;
    }
    let mut col: u16 = col_start;
    loop
        invariant
            buf.wf(),
            col_start <= col <= col_end,
            has_columns(buf@, row as int, col_start as int, col_end as int),
            row_chars(buf@, row as int, col_start as int, col_end as int) == chars@ + row_chars(
                buf@,
                row as int,
                col as int,
                col_end as int,
            ),
        decreases col_end - col,
    {
        assert(buf@.has(col as int, row as int));
        let cell = buf.cell(col, row);
        let ghost before = chars@;
        push_tagged(&mut chars, col, cell.symbol.as_str());
        let width: usize = text_width(cell.symbol.as_str());
        let step: usize = if width > 1 {
            width
        } else {
            1
        };
        let ghost next = next_column(col as int, cell.symbol@);
        assert(before + row_chars(buf@, row as int, col as int, col_end as int) =~= chars@
            + row_chars(buf@, row as int, next, col_end as int));
        if step > (col_end - col) as usize {
            assert(chars@ + row_chars(buf@, row as int, next, col_end as int) =~= chars@);
            return chars;
        }
        col = col + step as u16;
    }
}

/// Whether the cell shows the single character `c`.
pub fn shows(cell: &Cell, c: char) -> (r: bool)
    ensures
        r == (cell@.symbol == seq![c]),
{
    let sym = cell.symbol.as_str();
    let r: bool = sym.unicode_len() == 1 && sym.get_char(0) == c;
    proof {
        assert(seq![c][0] == c);
        if r {
            assert(sym@ =~= seq![c]);
        }
    }
    r
}

/// Whether a cell shows a single decimal digit.
pub open spec fn digit_cell(s: Seq<char>) -> bool {
    s.len() == 1 && lines::is_digit(s[0])
}

/// Whether the cell shows a single decimal digit.
fn shows_digit(cell: &Cell) -> (r: bool)
    ensures
        r == digit_cell(cell@.symbol),
{
    let sym = cell.symbol.as_str();
    sym.unicode_len() == 1 && digit(sym.get_char(0))
}

/// The characters that table borders and rules are drawn with.
pub open spec fn is_border_char(c: char) -> bool {
    ||| c == '│'
    ||| c == '╭'
    ||| c == '╮'
    ||| c == '├'
    ||| c == '┤'
    ||| c == '┼'
    ||| c == '╰'
    ||| c == '╯'
    ||| c == '─'
    ||| c == '┬'
    ||| c == '┴'
}

/// Whether a cell is blank or begins with a border character.
pub open spec fn border_cell(s: Seq<char>) -> bool {
    s == seq![' '] || (s.len() > 0 && is_border_char(s[0]))
}

/// Whether the columns from `start` to `end` hold nothing but borders and blanks.
pub open spec fn border_row(g: Grid, row: int, start: int, end: int) -> bool {
    forall|c: int| start <= c <= end ==> border_cell(#[trigger] g.sym(c, row))
}

/// Whether the cell is blank or begins with a border character.
fn shows_border(cell: &Cell) -> (r: bool)
    ensures
        r == border_cell(cell@.symbol),
{
    if shows(cell, ' ') {
        return true;
    }
    let sym = cell.symbol.as_str();
    if sym.unicode_len() == 0 {
        return false;
    }
    matches!(
        sym.get_char(0),
        '│' | '╭' | '╮' | '├' | '┤' | '┼' | '╰' | '╯' | '─' | '┬' | '┴'
    )
}

/// Whether a row holds nothing but table borders, rules and blanks.
pub fn is_table_border_row(buf: &Buffer, row: u16, col_start: u16, col_end: u16) -> (r: bool)
    requires
        buf.wf(),
        has_columns(buf@, row as int, col_start as int, col_end as int),
    ensures
        r == border_row(buf@, row as int, col_start as int, col_end as int),
{
    let mut col: u32 = col_start as u32;
    while col <= col_end as u32
        invariant
            buf.wf(),
            col_start <= col,
            col <= col_end + 1 || col == col_start,
            has_columns(buf@, row as int, col_start as int, col_end as int),
            forall|c: int| col_start <= c < col ==> border_cell(#[trigger] buf@.sym(c, row as int)),
        decreases col_end + 1 - col,
    {
        assert(buf@.has(col as int, row as int));
        if !shows_border(buf.cell(col as u16, row)) {
            assert(!border_cell(buf@.sym(col as int, row as int)));
            return false;
        }
        col += 1;
    }
    true
}

/// `s` without the spaces at its end.
pub open spec fn trim_tagged(s: Seq<(u16, char)>) -> Seq<(u16, char)>
    decreases s.len(),
{
    if s.len() > 0 && s.last().1 == ' ' {
        trim_tagged(s.drop_last())
    } else {
        s
    }
}

/// Takes the spaces off the end of `chars`.
pub fn trim_trailing(chars: &mut Vec<(u16, char)>)
    ensures
        final(chars)@ == trim_tagged(old(chars)@),
{
    while chars.len() > 0 && chars[chars.len() - 1].1 == ' '
        invariant
            trim_tagged(chars@) == trim_tagged(old(chars)@),
        decreases chars.len(),
    {
        chars.pop();
    }
}

/// Whether a cell is a vertical border of a table.
pub open spec fn table_bar(c: CellView, theme: Theme) -> bool {
    c.symbol == seq!['│'] && theme.table_border == Some(c.fg)
}

/// The first column from `col` to `end` that holds a vertical border of a table, or the one behind
/// `end`.
pub open spec fn next_bar(g: Grid, row: int, col: int, end: int, theme: Theme) -> int
    decreases end + 1 - col,
{
    if col > end {
        end + 1
    } else if table_bar(g.at(col, row), theme) {
        col
    } else {
        next_bar(g, row, col + 1, end, theme)
    }
}

/// `s` without the spaces at its start.
pub open spec fn trim_front(s: Seq<(u16, char)>) -> Seq<(u16, char)>
    decreases s.len(),
{
    if s.len() > 0 && s[0].1 == ' ' {
        trim_front(s.skip(1))
    } else {
        s
    }
}

/// The text in the columns from `col` up to, not including, `bar`, without the spaces around it.
pub open spec fn cell_text(g: Grid, row: int, col: int, bar: int) -> Seq<(u16, char)> {
    trim_front(trim_tagged(row_chars(g, row, col, bar - 1)))
}

/// The text of a table row from column `start` to `end`: that of the cells between the borders, one
/// behind the other, each without the spaces around it.
pub open spec fn table_content(g: Grid, row: int, start: int, end: int, theme: Theme) -> Seq<
    (u16, char),
>
    decreases
            if start > end {
                0
            } else {
                end + 1 - start
            },
{
    if start > end {
        Seq::empty()
    } else {
        proof {
            lemma_next_bar(g, row, start, end, theme);
        }
        let bar = next_bar(g, row, start, end, theme);
        cell_text(g, row, start, bar) + table_content(g, row, bar + 1, end, theme)
    }
}

/// A border is found at or behind where it is looked for.
pub proof fn lemma_next_bar(g: Grid, row: int, col: int, end: int, theme: Theme)
    requires
        col <= end + 1,
    ensures
        col <= next_bar(g, row, col, end, theme) <= end + 1,
    decreases end + 1 - col,
{
    if col <= end && !table_bar(g.at(col, row), theme) {
        lemma_next_bar(g, row, col + 1, end, theme);
    }
}

/// The first column from `col` to `col_end` that holds a vertical border of a table, or the one
/// behind `col_end`.
fn find_bar(buf: &Buffer, row: u16, col: u32, col_end: u16, theme: &Theme) -> (r: u32)
    requires
        buf.wf(),
        col <= col_end,
        has_columns(buf@, row as int, col as int, col_end as int),
    ensures
        r == next_bar(buf@, row as int, col as int, col_end as int, *theme),
        col <= r <= col_end + 1,
{
    let mut bar: u32 = col;
    while bar <= col_end as u32
        invariant
            buf.wf(),
            col <= bar <= col_end + 1,
            has_columns(buf@, row as int, col as int, col_end as int),
            next_bar(buf@, row as int, bar as int, col_end as int, *theme) == next_bar(
                buf@,
                row as int,
                col as int,
                col_end as int,
                *theme,
            ),
        decreases col_end + 1 - bar,
    {
        assert(buf@.has(bar as int, row as int));
        let cell = buf.cell(bar as u16, row);
        if shows(cell, '│') && drawn_in(cell.fg, theme.table_border) {
            return bar;
        }
        bar += 1;
    }
    bar
}

/// Appends `text` without the spaces around it.
fn push_trimmed(chars: &mut Vec<(u16, char)>, text: Vec<(u16, char)>)
    ensures
        final(chars)@ == old(chars)@ + trim_front(trim_tagged(text@)),
{
    let mut cell: Vec<(u16, char)> = text;
    trim_trailing(&mut cell);
    let ghost trimmed = trim_front(trim_tagged(text@));
    let mut i: usize = 0;
    assert(cell@.skip(0) =~= cell@);
    while i < cell.len() && cell[i].1 == ' '
        invariant
            i <= cell.len(),
            trim_front(cell@.skip(i as int)) == trimmed,
        decreases cell.len() - i,
    {
        assert(cell@.skip(i as int).skip(1) =~= cell@.skip(i + 1));
        i += 1;
    }
    let ghost kept = cell@.skip(i as int);
    let ghost first = i;
    assert(kept == trimmed);
    while i < cell.len()
        invariant
            first <= i <= cell.len(),
            kept == cell@.skip(first as int),
            chars@ == old(chars)@ + kept.take(i - first),
        decreases cell.len() - i,
    {
        chars.push(cell[i]);
        i += 1;
        assert(kept.take(i - first) =~= kept.take(i - first - 1).push(kept[i - first - 1]));
    }
    assert(kept.take(i - first) =~= kept);
}

/// Reads the text of a table row: what stands between the borders, cell by cell, without the spaces
/// around it. Cells that a wide character hides are passed over.
pub fn scrape_table_content(
    buf: &Buffer,
    row: u16,
    col_start: u16,
    col_end: u16,
    theme: &Theme,
) -> (r: Vec<(u16, char)>)
    requires
        buf.wf(),
        has_columns(buf@, row as int, col_start as int, col_end as int),
    ensures
        r@ == table_content(buf@, row as int, col_start as int, col_end as int, *theme),
{
    let mut chars: Vec<(u16, char)> = Vec::new();
    let mut col: u32 = col_start as u32;
    while col <= col_end as u32
        invariant
            buf.wf(),
            col_start <= col <= u16::MAX + 2,
            has_columns(buf@, row as int, col_start as int, col_end as int),
            table_content(buf@, row as int, col_start as int, col_end as int, *theme) == chars@
                + table_content(buf@, row as int, col as int, col_end as int, *theme),
        decreases col_end + 2 - col,
    {
        let ghost before = chars@;
        let bar: u32 = find_bar(buf, row, col, col_end, theme);
        if bar > col {
            push_trimmed(
                &mut chars,
                scrape_row_chars(buf, row, col as u16, (bar - 1) as u16),
            );
        } else {
            assert(chars@ =~= before + cell_text(buf@, row as int, col as int, bar as int));
        }
        assert(chars@ == before + cell_text(buf@, row as int, col as int, bar as int));
        assert(before + table_content(buf@, row as int, col as int, col_end as int, *theme)
            =~= chars@ + table_content(buf@, row as int, bar + 1, col_end as int, *theme));
        col = bar + 1;
    }
    chars
}

/// How a drawn row is to be read.
pub enum RowKind {
    /// Text, from this column on.
    Text { start: int },
    /// Only borders: nothing of the row is text.
    Border,
    /// The text of table cells between borders.
    Table,
}

/// The first column from `col` to `end` that is not blank, or the one behind `end`.
pub open spec fn first_inked(g: Grid, row: int, col: int, end: int) -> int
    decreases end + 1 - col,
{
    if col > end {
        end + 1
    } else if g.sym(col, row) != seq![' '] {
        col
    } else {
        first_inked(g, row, col + 1, end)
    }
}

/// The column behind the digits that begin at `col`, at most the one behind `end`.
pub open spec fn digits_end(g: Grid, row: int, col: int, end: int) -> int
    decreases end + 1 - col,
{
    if col <= end && digit_cell(g.sym(col, row)) {
        digits_end(g, row, col + 1, end)
    } else {
        col
    }
}

/// The column in which the text of a row begins: behind a bullet and its space, behind a number
/// with a dot and its space, or else where the row begins.
pub open spec fn text_start(g: Grid, row: int, start: int, end: int) -> int {
    let marker = first_inked(g, row, start, end);
    let dot = digits_end(g, row, marker, end);
    if marker <= end && g.sym(marker, row) == seq!['•'] {
        marker + 2
    } else if marker < dot < end && g.sym(dot, row) == seq!['.'] && g.sym(dot + 1, row) == seq![
        ' ',
    ] {
        dot + 2
    } else {
        start
    }
}

/// What a row from column `start` to `end` holds: code behind its bar, borders only, the cells of
/// a table, or text with or without a list marker.
pub open spec fn row_kind(g: Grid, row: int, start: int, end: int, theme: Theme) -> RowKind {
    let first = g.at(start, row);
    if first.symbol == seq!['│'] && theme.code_gutter == Some(first.fg) {
        if start < end && g.sym(start + 1, row) == seq![' '] {
            RowKind::Text { start: start + CODE_BAR_COLS }
        } else {
            RowKind::Text { start: start + CODE_BAR_WRAP_COLS }
        }
    } else if border_row(g, row, start, end) {
        RowKind::Border
    } else if table_bar(first, theme) {
        RowKind::Table
    } else {
        RowKind::Text { start: text_start(g, row, start, end) }
    }
}

/// The text of a row without what the renderer put in front of it.
pub open spec fn row_content(g: Grid, row: int, start: int, end: int, theme: Theme) -> Seq<
    (u16, char),
> {
    match row_kind(g, row, start, end, theme) {
        RowKind::Text { start: text } => row_chars(g, row, text, end),
        RowKind::Border => Seq::empty(),
        RowKind::Table => table_content(g, row, start, end, theme),
    }
}

/// The first column from `col_start` to `col_end` that is not blank, or the one behind `col_end`.
pub fn find_inked(buf: &Buffer, row: u16, col_start: u16, col_end: u16) -> (r: u32)
    requires
        buf.wf(),
        has_columns(buf@, row as int, col_start as int, col_end as int),
    ensures
        r == first_inked(buf@, row as int, col_start as int, col_end as int),
        r <= col_end + 1,
        r <= col_end ==> col_start <= r,
{
    if col_start > col_end {
        return col_end as u32 + 1;
    }
    let mut col: u32 = col_start as u32;
    while col <= col_end as u32
        invariant
            buf.wf(),
            col_start <= col <= col_end + 1,
            has_columns(buf@, row as int, col_start as int, col_end as int),
            first_inked(buf@, row as int, col_start as int, col_end as int) == first_inked(
                buf@,
                row as int,
                col as int,
                col_end as int,
            ),
        decreases col_end + 1 - col,
    {
        assert(buf@.has(col as int, row as int));
        if !shows(buf.cell(col as u16, row), ' ') {
            return col;
        }
        col += 1;
    }
    col
}

/// A row that is not blank has a first column that is not.
pub proof fn lemma_first_inked(g: Grid, row: int, col: int, end: int)
    requires
        !blank(g, row, col, end),
    ensures
        col <= first_inked(g, row, col, end) <= end,
        g.sym(first_inked(g, row, col, end), row) != seq![' '],
    decreases end + 1 - col,
{
    if col <= end && g.sym(col, row) == seq![' '] {
        lemma_first_inked(g, row, col + 1, end);
    }
}

/// The column in which the text of a row begins, behind any list marker.
fn find_text_start(buf: &Buffer, row: u16, col_start: u16, col_end: u16) -> (r: u32)
    requires
        buf.wf(),
        has_columns(buf@, row as int, col_start as int, col_end as int),
    ensures
        r == text_start(buf@, row as int, col_start as int, col_end as int),
        col_start <= r,
{
    let marker: u32 = find_inked(buf, row, col_start, col_end);
    let end: u32 = col_end as u32;
    if marker > end {
        return col_start as u32;
    }
    assert(buf@.has(marker as int, row as int));
    if shows(buf.cell(marker as u16, row), '•') {
        return marker + 2;
    }
    let mut dot: u32 = marker;
    loop
        invariant_except_break
            dot <= end + 1,
        invariant
            buf.wf(),
            end == col_end,
            col_start <= marker <= dot,
            has_columns(buf@, row as int, col_start as int, col_end as int),
            digits_end(buf@, row as int, marker as int, end as int) == digits_end(
                buf@,
                row as int,
                dot as int,
                end as int,
            ),
        ensures
            dot == digits_end(buf@, row as int, marker as int, end as int),
        decreases end + 1 - dot,
    {
        if dot > end {
            break ;
        }
        assert(buf@.has(dot as int, row as int));
        if !shows_digit(buf.cell(dot as u16, row)) {
            break ;
        }
        dot += 1;
    }
    if marker < dot && dot < end {
        assert(buf@.has(dot as int, row as int));
        assert(buf@.has(dot + 1, row as int));
        if shows(buf.cell(dot as u16, row), '.') && shows(buf.cell((dot + 1) as u16, row), ' ') {
            return dot + 2;
        }
    }
    col_start as u32
}

/// Reads the characters of a row from the column `start` on, which may lie behind the row.
fn scrape_from(buf: &Buffer, row: u16, start: u32, col_end: u16) -> (r: Vec<(u16, char)>)
    requires
        buf.wf(),
        has_columns(buf@, row as int, start as int, col_end as int),
    ensures
        r@ == row_chars(buf@, row as int, start as int, col_end as int),
{
    if start > col_end as u32 {
        Vec::new()
    } else {
        scrape_row_chars(buf, row, start as u16, col_end)
    }
}

/// Reads a row without what the renderer put in front of it: the bar of a code block, the borders
/// of a table, a list marker. Returns the text with its columns, whether the row is all borders,
/// and whether it is a row of a table.
pub fn strip_synthetic_prefix(
    buf: &Buffer,
    row: u16,
    col_start: u16,
    col_end: u16,
    theme: &Theme,
) -> (r: (Vec<(u16, char)>, bool, bool))
    requires
        buf.wf(),
        buf@.has(col_start as int, row as int),
        has_columns(buf@, row as int, col_start as int, col_end as int),
    ensures
        r.0@ == row_content(buf@, row as int, col_start as int, col_end as int, *theme),
        r.1 == (row_kind(buf@, row as int, col_start as int, col_end as int, *theme) is Border),
        r.2 == (row_kind(buf@, row as int, col_start as int, col_end as int, *theme) is Table),
{
    let first = buf.cell(col_start, row);
    let bar: bool = shows(first, '│');
    if bar && drawn_in(first.fg, theme.code_gutter) {
        let mut cols: u16 = CODE_BAR_WRAP_COLS;
        if col_start < col_end {
            assert(buf@.has(col_start + 1, row as int));
            if shows(buf.cell(col_start + 1, row), ' ') {
                cols = CODE_BAR_COLS;
            }
        }
        return (scrape_from(buf, row, col_start as u32 + cols as u32, col_end), false, false);
    }
    if is_table_border_row(buf, row, col_start, col_end) {
        return (Vec::new(), true, false);
    }
    if bar && drawn_in(first.fg, theme.table_border) {
        return (scrape_table_content(buf, row, col_start, col_end, theme), false, true);
    }
    let start: u32 = find_text_start(buf, row, col_start, col_end);
    (scrape_from(buf, row, start, col_end), false, false)
}

/// Whether the columns from `start` to `end` of a row are all blank.
pub open spec fn blank(g: Grid, row: int, start: int, end: int) -> bool {
    forall|c: int| start <= c <= end ==> #[trigger] g.sym(c, row) == seq![' ']
}

/// Whether the columns from `col_start` to `col_end` of a row are all blank.
pub fn is_blank_row(buf: &Buffer, row: u16, col_start: u16, col_end: u16) -> (r: bool)
    requires
        buf.wf(),
        has_columns(buf@, row as int, col_start as int, col_end as int),
    ensures
        r == blank(buf@, row as int, col_start as int, col_end as int),
{
    let mut col: u32 = col_start as u32;
    while col <= col_end as u32
        invariant
            buf.wf(),
            col_start <= col,
            col <= col_end + 1 || col == col_start,
            has_columns(buf@, row as int, col_start as int, col_end as int),
            forall|c: int| col_start <= c < col ==> #[trigger] buf@.sym(c, row as int) == seq![' '],
        decreases col_end + 1 - col,
    {
        assert(buf@.has(col as int, row as int));
        if !shows(buf.cell(col as u16, row), ' ') {
            assert(buf@.sym(col as int, row as int) != seq![' ']);
            return false;
        }
        col += 1;
    }
    true
}

} // verus!
