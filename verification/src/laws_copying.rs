//! What holds of mapping rows to the raw text and of copying them out of it, row by row.
use crate::extract;
use crate::extract::Clip;
use crate::gap;
use crate::laws;
use crate::laws_markdown;
use crate::lines;
use crate::matching;
use crate::pattern;
use crate::scrape;
use crate::screen::{Grid, Rect, Theme};
use crate::selection;
use crate::selection::ScreenSelection;
use crate::source_map;
use crate::source_map::RowMap;
use crate::syntax;
use vstd::prelude::*;

verus! {

/// The first column of the `k`-th row that is read: behind the prefix in the first row.
pub open spec fn first_column(area: Rect, prefix_width: u16, k: int) -> int {
    if k == 0 {
        prefix_width as int
    } else {
        area.x as int
    }
}

/// The last column of an area; that of its left edge where it has no width.
pub open spec fn last_column(area: Rect) -> int {
    if area.width > 0 {
        area.x + area.width - 1
    } else {
        area.x as int
    }
}

/// Every row of a message is mapped, one after the other, each from where the row above leaves off;
/// the first from the start of the raw text.
pub proof fn law_rows_are_mapped_one_by_one(
    g: Grid,
    area: Rect,
    prefix_width: u16,
    raw: Seq<char>,
    theme: Theme,
    n: int,
    k: int,
)
    requires
        0 <= k < n,
    ensures
        ({
            let (maps, _) = source_map::map_rows(g, area, prefix_width, raw, theme, n);
            let (above, pos) = source_map::map_rows(g, area, prefix_width, raw, theme, k);
            let (here, next) = source_map::map_rows(g, area, prefix_width, raw, theme, k + 1);
            &&& maps.len() == n
            &&& above == maps.take(k)
            &&& (maps[k], next) == source_map::map_row(
                g,
                area,
                prefix_width,
                raw,
                theme,
                k,
                pos,
            )
            &&& k == 0 ==> pos == 0
        }),
    decreases n,
{
    source_map::law_maps_in_order(g, area, prefix_width, raw, theme, n);
    source_map::law_maps_in_order(g, area, prefix_width, raw, theme, n - 1);
    source_map::law_maps_in_order(g, area, prefix_width, raw, theme, k);
    let maps = source_map::map_rows(g, area, prefix_width, raw, theme, n).0;
    let shorter = source_map::map_rows(g, area, prefix_width, raw, theme, n - 1).0;
    if k < n - 1 {
        law_rows_are_mapped_one_by_one(g, area, prefix_width, raw, theme, n - 1, k);
        assert(maps.take(k) =~= shorter.take(k));
    } else {
        assert(maps.take(k) =~= shorter);
    }
}

/// A blank row comes from nowhere, and the row below is looked for from the same position.
pub proof fn law_blank_row_is_synthetic(
    g: Grid,
    area: Rect,
    prefix_width: u16,
    raw: Seq<char>,
    theme: Theme,
    k: int,
    pos: int,
)
    requires
        forall|c: int|
            first_column(area, prefix_width, k) <= c <= last_column(area) ==> #[trigger] g.sym(
                c,
                area.y + k,
            ) == seq![' '],
    ensures
        source_map::map_row(g, area, prefix_width, raw, theme, k, pos) == (
            RowMap::Synthetic,
            pos,
        ),
{
    let start = source_map::row_first(area, prefix_width, k);
    let end = source_map::row_last(area);
    assert forall|c: int| start <= c <= end implies #[trigger] g.sym(c, area.y + k) == seq![
        ' ',
    ] by {
        assert(first_column(area, prefix_width, k) <= c <= last_column(area));
    }
}

/// A row of borders stands for a line of the raw text by the border it begins with, at the column
/// `m`: a `─` for the next rule, a `├` for the next separator, anything else, or a line that is not
/// there, for nothing. Behind a line and its newline the row below is looked for.
pub proof fn law_border_row_stands_for_a_line(
    g: Grid,
    area: Rect,
    prefix_width: u16,
    raw: Seq<char>,
    theme: Theme,
    k: int,
    pos: int,
    m: int,
)
    requires
        first_column(area, prefix_width, k) <= m <= last_column(area),
        g.sym(m, area.y + k) != seq![' '],
        forall|c: int|
            first_column(area, prefix_width, k) <= c < m ==> #[trigger] g.sym(c, area.y + k)
                == seq![' '],
        scrape::row_kind(
            g,
            area.y + k,
            first_column(area, prefix_width, k),
            last_column(area),
            theme,
        ) is Border,
    ensures
        ({
            let found = if g.sym(m, area.y + k) == seq!['─'] {
                pattern::next_rule(raw, pos)
            } else if g.sym(m, area.y + k) == seq!['├'] {
                pattern::next_separator(raw, pos)
            } else {
                None
            };
            source_map::map_row(g, area, prefix_width, raw, theme, k, pos) == match found {
                Some((s, e)) => (RowMap::PatternMatched { start: s, end: e }, e + 1),
                None => (RowMap::Synthetic, pos),
            }
        }),
{
    let start = source_map::row_first(area, prefix_width, k);
    let end = source_map::row_last(area);
    assert(start == first_column(area, prefix_width, k) && end == last_column(area));
    lemma_first(g, area.y + k, start, end, m);
    assert(!scrape::blank(g, area.y + k, start, end)) by {
        assert(g.sym(m, area.y + k) != seq![' ']);
    }
}

/// The first column that is not blank is found.
proof fn lemma_first(g: Grid, row: int, col: int, end: int, m: int)
    requires
        col <= m <= end,
        g.sym(m, row) != seq![' '],
        forall|c: int| col <= c < m ==> #[trigger] g.sym(c, row) == seq![' '],
    ensures
        scrape::first_inked(g, row, col, end) == m,
    decreases m - col,
{
    if col < m {
        assert(g.sym(col, row) == seq![' ']);
        lemma_first(g, row, col + 1, end, m);
    }
}

/// What is left of a text without the spaces at its end is found.
proof fn lemma_trimmed(s: Seq<(u16, char)>, text: Seq<(u16, char)>)
    requires
        text.is_prefix_of(s),
        forall|i: int| text.len() <= i < s.len() ==> (#[trigger] s[i]).1 == ' ',
        text.len() > 0 ==> text.last().1 != ' ',
    ensures
        scrape::trim_tagged(s) == text,
    decreases s.len(),
{
    if text.len() < s.len() {
        assert(s[s.len() - 1].1 == ' ');
        let head = s.drop_last();
        assert forall|i: int| text.len() <= i < head.len() implies (#[trigger] head[i]).1 == ' ' by {
            assert(s[i].1 == ' ');
        }
        lemma_trimmed(head, text);
    } else {
        assert(text =~= s);
    }
}

/// A row of text is found in the raw text from `pos` on, character for character and in order, where
/// it can be found there at all, as the places `other` show: at places no later than those. `text`
/// is what the row holds without the spaces at its end. The row below is looked for behind the
/// closing tokens on the line on which the row's text ends, which itself ends at `line`.
pub proof fn law_text_row_is_found(
    g: Grid,
    area: Rect,
    prefix_width: u16,
    raw: Seq<char>,
    theme: Theme,
    k: int,
    pos: int,
    m: int,
    text: Seq<(u16, char)>,
    other: Seq<int>,
    line: int,
)
    requires
        0 <= pos,
        first_column(area, prefix_width, k) <= m <= last_column(area),
        g.sym(m, area.y + k) != seq![' '],
        ({
            let start = first_column(area, prefix_width, k);
            let content = scrape::row_content(g, area.y + k, start, last_column(area), theme);
            &&& !(scrape::row_kind(g, area.y + k, start, last_column(area), theme) is Border)
            &&& text.is_prefix_of(content)
            &&& forall|i: int| text.len() <= i < content.len() ==> (#[trigger] content[i]).1 == ' '
        }),
        text.len() > 0,
        text.last().1 != ' ',
        other.len() == text.len(),
        forall|i: int|
            0 <= i < other.len() ==> pos <= #[trigger] other[i] < raw.len() && raw[other[i]]
                == text[i].1,
        forall|i: int, j: int| 0 <= i < j < other.len() ==> other[i] < other[j],
    ensures
        ({
            let (map, next) = source_map::map_row(g, area, prefix_width, raw, theme, k, pos);
            &&& map is Matched
            &&& map->matches.len() == text.len()
            &&& forall|i: int|
                0 <= i < text.len() ==> {
                    let (col, index, place) = #[trigger] map->matches[i];
                    &&& col == text[i].0
                    &&& index == i
                    &&& pos <= place <= other[i]
                    &&& raw[place] == text[i].1
                }
            &&& forall|i: int, j: int|
                0 <= i < j < text.len() ==> (#[trigger] map->matches[i]).2 < (
                #[trigger] map->matches[j]).2
            &&& map->leading == pos
            &&& map->raw_end == map->matches[text.len() - 1].2 + 1
            &&& map->table == (scrape::row_kind(
                g,
                area.y + k,
                first_column(area, prefix_width, k),
                last_column(area),
                theme,
            ) is Table)
            &&& map->raw_end <= line <= raw.len() && (line == raw.len() || raw[line] == '\n') && (
            forall|i: int| map->raw_end <= i < line ==> raw[i] != '\n') ==> next
                == syntax::closing_end(raw, map->raw_end, line)
        }),
{
    let start = source_map::row_first(area, prefix_width, k);
    let end = source_map::row_last(area);
    assert(start == first_column(area, prefix_width, k) && end == last_column(area));
    assert(!scrape::blank(g, area.y + k, start, end)) by {
        assert(g.sym(m, area.y + k) != seq![' ']);
    }
    let content = scrape::row_content(g, area.y + k, start, end, theme);
    lemma_trimmed(content, text);
    let chars = matching::bare(text);
    assert(matching::is_embedding(raw, pos, chars, other)) by {
        assert forall|i: int| 0 <= i < other.len() implies pos <= #[trigger] other[i] < raw.len()
            && raw[other[i]] == chars[i] by {}
    }
    matching::law_places_least(raw, pos, chars, other);
    let found = matching::places(raw, pos, chars).unwrap();
    assert(matching::is_embedding(raw, pos, chars, found));
    let map = source_map::map_row(g, area, prefix_width, raw, theme, k, pos).0;
    assert forall|i: int| 0 <= i < text.len() implies {
        let (col, index, place) = #[trigger] map->matches[i];
        &&& col == text[i].0
        &&& index == i
        &&& pos <= place <= other[i]
        &&& raw[place] == text[i].1
    } by {
        assert(found[i] <= other[i]);
        assert(raw[found[i]] == chars[i]);
    }
    assert(found.last() == found[text.len() - 1]);
    assert(map->matches[text.len() - 1].2 == found[text.len() - 1]);
    let raw_end = map->raw_end;
    assert(pos <= found[text.len() - 1] < raw.len());
    if raw_end <= line <= raw.len() && (line == raw.len() || raw[line] == '\n') && (forall|i: int|
        raw_end <= i < line ==> raw[i] != '\n') {
        lines::lemma_line_end(raw, raw_end);
        let l = lines::line_end(raw, raw_end);
        if l < line {
            assert(raw[l] == '\n');
        }
        assert(l == line);
    }
}

/// A row whose text is nowhere in the raw text from `pos` on, or that holds no text, comes from
/// nowhere.
pub proof fn law_lost_row_is_synthetic(
    g: Grid,
    area: Rect,
    prefix_width: u16,
    raw: Seq<char>,
    theme: Theme,
    k: int,
    pos: int,
    text: Seq<(u16, char)>,
)
    requires
        0 <= pos,
        ({
            let start = first_column(area, prefix_width, k);
            let content = scrape::row_content(g, area.y + k, start, last_column(area), theme);
            &&& !(scrape::row_kind(g, area.y + k, start, last_column(area), theme) is Border)
            &&& text.is_prefix_of(content)
            &&& forall|i: int| text.len() <= i < content.len() ==> (#[trigger] content[i]).1 == ' '
        }),
        text.len() > 0 ==> text.last().1 != ' ',
        text.len() == 0 || !exists|found: Seq<int>| #[trigger]
            matching::is_embedding(raw, pos, matching::bare(text), found),
    ensures
        source_map::map_row(g, area, prefix_width, raw, theme, k, pos) == (
            RowMap::Synthetic,
            pos,
        ),
{
    let start = source_map::row_first(area, prefix_width, k);
    let end = source_map::row_last(area);
    assert(start == first_column(area, prefix_width, k) && end == last_column(area));
    let content = scrape::row_content(g, area.y + k, start, end, theme);
    lemma_trimmed(content, text);
    matching::law_places_least(raw, pos, matching::bare(text), Seq::empty());
}

/// The raw text of the next row that comes from it, the `j`-th, begins where that row was looked
/// for, or where its line begins; behind the last such row the raw text ends.
pub proof fn law_next_row_bounds_a_row(maps: Seq<RowMap>, k: int, len: int, j: int)
    requires
        k < j <= maps.len(),
        forall|i: int| k < i < j ==> (#[trigger] maps[i]) is Synthetic,
    ensures
        j == maps.len() ==> source_map::next_bound(maps, k, len) == len,
        j < maps.len() && maps[j] is Matched ==> source_map::next_bound(maps, k, len)
            == maps[j]->leading,
        j < maps.len() && maps[j] is PatternMatched ==> source_map::next_bound(maps, k, len)
            == maps[j]->start,
    decreases j - k,
{
    if k + 1 < j {
        assert(maps[k + 1] is Synthetic);
        law_next_row_bounds_a_row(maps, k + 1, len, j);
    }
}

/// The raw text of a row of a table ends with its line, at `line`; that of another row behind the
/// closing tokens on its line, and no further than where the next row begins.
pub proof fn law_row_claims_its_closing_tokens(
    raw_end: int,
    table: bool,
    maps: Seq<RowMap>,
    k: int,
    raw: Seq<char>,
    line: int,
)
    requires
        0 <= raw_end <= line <= raw.len(),
        line == raw.len() || raw[line] == '\n',
        forall|i: int| raw_end <= i < line ==> raw[i] != '\n',
    ensures
        table ==> source_map::claim_end(raw_end, table, maps, k, raw) == line,
        !table && line <= source_map::next_bound(maps, k, raw.len() as int)
            ==> source_map::claim_end(raw_end, table, maps, k, raw) == syntax::closing_end(
            raw,
            raw_end,
            line,
        ),
        !table && source_map::next_bound(maps, k, raw.len() as int) <= line
            ==> source_map::claim_end(raw_end, table, maps, k, raw) == syntax::closing_end(
            raw,
            raw_end,
            source_map::next_bound(maps, k, raw.len() as int),
        ),
{
    lines::lemma_line_end(raw, raw_end);
    let l = lines::line_end(raw, raw_end);
    if l < line {
        assert(raw[l] == '\n');
    }
}

/// Only the first and the last row of a selection are selected from or up to a column of theirs.
pub proof fn law_other_rows_are_selected_whole(
    ss: ScreenSelection,
    left: int,
    right: int,
    row: int,
)
    ensures
        row != ss.start_row ==> selection::selected_columns(ss, left, right, row).0 == left,
        row != ss.end_row ==> selection::selected_columns(ss, left, right, row).1 == right,
{
}

/// A column of a selected row is selected exactly where it does not lie before the selection's first
/// place nor behind its last.
pub proof fn law_selected_columns(ss: ScreenSelection, left: int, right: int, row: int, c: int)
    requires
        ss.start_row <= row <= ss.end_row,
        left <= c <= right,
    ensures
        ({
            let (from, to) = selection::selected_columns(ss, left, right, row);
            &&& left <= from
            &&& to <= right
            &&& (from <= c <= to) == ((row > ss.start_row || c >= ss.start_col) && (row < ss.end_row
                || c <= ss.end_col))
        }),
{
}

/// Whether the column `c` is one of `cols`.
pub open spec fn picks(cols: (int, int), c: int) -> bool {
    cols.0 <= c <= cols.1
}

/// A row of text is selected whole where all its characters are; any other row where all its columns
/// are.
pub proof fn law_row_is_taken_with_all_its_characters(
    cols: (int, int),
    left: int,
    right: int,
    maps: Seq<RowMap>,
    k: int,
)
    requires
        left <= right,
        0 <= k < maps.len() && maps[k] is Matched ==> maps[k]->matches.len() > 0 && forall|
            i: int,
            j: int,
        |
            0 <= i <= j < maps[k]->matches.len() ==> (#[trigger] maps[k]->matches[i]).0 <= (
            #[trigger] maps[k]->matches[j]).0,
    ensures
        0 <= k < maps.len() && maps[k] is Matched ==> selection::row_taken(
            cols,
            left,
            right,
            maps,
            k,
        ) == (forall|i: int|
            0 <= i < maps[k]->matches.len() ==> cols.0 <= (#[trigger] maps[k]->matches[i]).0
                <= cols.1),
        !(0 <= k < maps.len() && maps[k] is Matched) ==> selection::row_taken(
            cols,
            left,
            right,
            maps,
            k,
        ) == (forall|c: int| left <= c <= right ==> #[trigger] picks(cols, c)),
{
    if 0 <= k < maps.len() && maps[k] is Matched {
        let matches = maps[k]->matches;
        let last = matches.len() - 1;
        if selection::row_taken(cols, left, right, maps, k) {
            assert forall|i: int| 0 <= i < matches.len() implies cols.0 <= (
            #[trigger] matches[i]).0 <= cols.1 by {
                assert(matches[0].0 <= matches[i].0);
                assert(matches[i].0 <= matches[last].0);
            }
        } else {
            assert(!(cols.0 <= matches[0].0) || !(matches[last].0 <= cols.1));
            assert(matches[0].0 <= matches[last].0);
        }
    } else {
        if !(cols.0 <= left && right <= cols.1) {
            assert(!picks(cols, left) || !picks(cols, right));
        }
    }
}

/// Whether `s` is white space.
pub open spec fn white(s: Seq<char>) -> bool {
    forall|i: int| 0 <= i < s.len() ==> lines::is_white_space(#[trigger] s[i])
}

/// Whether `s` holds two newlines in a row.
pub open spec fn paragraph(s: Seq<char>) -> bool {
    exists|i: int| 0 <= i < s.len() - 1 && #[trigger] s[i] == '\n' && s[i + 1] == '\n'
}

/// Whether `s` holds a newline.
pub open spec fn crosses(s: Seq<char>) -> bool {
    exists|i: int| 0 <= i < s.len() && #[trigger] s[i] == '\n'
}

/// Whether a gap between two rows is copied as it is: a newline, white space with a paragraph break,
/// or text on one line.
pub open spec fn kept(gap: Seq<char>) -> bool {
    gap == seq!['\n'] || (white(gap) && paragraph(gap)) || (!white(gap) && !crosses(gap))
}

/// What is copied of a gap between rows: all of it where it is a newline, a paragraph break or text
/// on one line, a newline where it is other white space; before the first row no white space.
pub proof fn law_gap_before_a_row(gap: Seq<char>)
    ensures
        kept(gap) ==> gap::inter_gap_text(gap, false) == gap,
        white(gap) && !paragraph(gap) ==> gap::inter_gap_text(gap, false) == seq!['\n'],
        white(gap) || crosses(gap) ==> gap::inter_gap_text(gap, true) == Seq::<char>::empty(),
        !white(gap) && !crosses(gap) ==> gap::inter_gap_text(gap, true) == gap,
{
    let n = gap.len() as int;
    gap::lemma_tail_start(gap, n);
    let t = gap::tail_start(gap, n);
    laws_markdown::law_gap_between_rows(gap, false, t);
    laws_markdown::law_gap_between_rows(gap, true, t);
    laws_markdown::law_gap_is_kept_or_broken(gap, false);
    laws_markdown::law_gap_is_kept_or_broken(gap, true);
    let tail = gap.subrange(t, n);
    assert forall|i: int| 0 <= i < tail.len() implies lines::is_white_space(#[trigger] tail[i]) by {
        assert(tail[i] == gap[t + i]);
    }
    laws_markdown::law_gap_is_kept_or_broken(tail, false);
    laws_markdown::law_gap_is_kept_or_broken(tail, true);
    if gap == seq!['\n'] {
        assert(gap[0] == '\n' && gap.len() == 1);
        assert(white(gap));
        assert(!paragraph(gap));
    }
    if white(gap) {
        if t > 0 {
            assert(lines::is_white_space(gap[t - 1]));
        }
        assert(tail =~= gap);
    }
    if !crosses(gap) {
        assert(forall|i: int| 0 <= i < gap.len() ==> gap[i] != '\n');
    }
}

/// A rule or a separator that is selected whole is copied as its line of the raw text, behind what
/// stands for the gap before it. A gap that is a paragraph break is copied with it as it is.
pub proof fn law_whole_rule_is_copied_with_its_gap(
    g: Grid,
    row: int,
    cols: (int, int),
    raw: Seq<char>,
    maps: Seq<RowMap>,
    k: int,
    st: Clip,
    next: Clip,
)
    requires
        0 <= k < maps.len(),
        maps[k] is PatternMatched,
        0 <= st.claimed,
        maps[k]->start <= maps[k]->end <= raw.len(),
        extract::copy_row_of(g, row, cols, true, raw, maps, k, st) == Some(next),
    ensures
        st.claimed <= maps[k]->start,
        next.claimed == maps[k]->end,
        !next.first,
        ({
            let gap = raw.subrange(st.claimed, maps[k]->start);
            let line = raw.subrange(maps[k]->start, maps[k]->end);
            &&& !st.first && kept(gap) ==> next.out == st.out + raw.subrange(
                st.claimed,
                maps[k]->end,
            )
            &&& !st.first && white(gap) && !paragraph(gap) ==> next.out == st.out + seq!['\n']
                + line
            &&& st.first && (white(gap) || crosses(gap)) ==> next.out == st.out + line
            &&& next.out == st.out + gap::inter_gap_text(gap, st.first) + line
        }),
{
    let gap = raw.subrange(st.claimed, maps[k]->start);
    let line = raw.subrange(maps[k]->start, maps[k]->end);
    law_gap_before_a_row(gap);
    assert(raw.subrange(st.claimed, maps[k]->end) =~= gap + line);
    assert(st.out + gap + line =~= st.out + (gap + line));
    assert(st.out + Seq::<char>::empty() =~= st.out);
}

/// A rule or a separator can be copied whole unless its line begins in raw text that the rows above
/// have taken.
pub proof fn law_whole_rule_can_be_copied(
    g: Grid,
    row: int,
    cols: (int, int),
    raw: Seq<char>,
    maps: Seq<RowMap>,
    k: int,
    st: Clip,
)
    requires
        0 <= k < maps.len(),
        maps[k] is PatternMatched,
    ensures
        (extract::copy_row_of(g, row, cols, true, raw, maps, k, st) is Some) == (st.claimed
            <= maps[k]->start),
{
}

/// Where the raw text of a row of text begins once it is copied whole. `first` is the place of its
/// first character and `line` the start of the line it stands on. A row of a table takes its line,
/// as far as it is left. Another row begins at its first character where no opening token precedes
/// it, and else at the start of its line, as far as that is left.
pub open spec fn whole_from(
    first: int,
    line: int,
    leading: int,
    raw_end: int,
    table: bool,
    raw: Seq<char>,
    claimed: int,
) -> int {
    let left = if line < claimed {
        claimed
    } else {
        line
    };
    let from = if leading < claimed {
        claimed
    } else {
        leading
    };
    if !table && syntax::opening_end(raw, from, raw_end) == from {
        first
    } else {
        left
    }
}

/// A row of text that is selected whole is copied from where its raw text begins to behind its
/// closing tokens, or to the end of its line in a table, behind what stands for the gap before it.
/// A gap that is a newline, a paragraph break or text on one line is copied with it as it is.
pub proof fn law_whole_row_is_copied_with_its_gap(
    g: Grid,
    row: int,
    cols: (int, int),
    raw: Seq<char>,
    maps: Seq<RowMap>,
    k: int,
    st: Clip,
    line: int,
)
    requires
        0 <= k < maps.len(),
        maps[k] is Matched,
        maps[k].wf(raw.len() as int),
        0 <= st.claimed,
        0 <= line <= maps[k]->matches[0].2,
        line == 0 || raw[line - 1] == '\n',
        forall|i: int| line <= i < maps[k]->matches[0].2 ==> raw[i] != '\n',
    ensures
        ({
            let begin = whole_from(
                maps[k]->matches[0].2,
                line,
                maps[k]->leading,
                maps[k]->raw_end,
                maps[k]->table,
                raw,
                st.claimed,
            );
            let claim = source_map::claim_end(maps[k]->raw_end, maps[k]->table, maps, k, raw);
            let gap = raw.subrange(st.claimed, begin);
            let own = raw.subrange(begin, claim);
            match extract::copy_row_of(g, row, cols, true, raw, maps, k, st) {
                Some(next) => {
                    &&& st.claimed <= begin <= claim
                    &&& next.claimed == claim
                    &&& !next.first
                    &&& !st.first && kept(gap) ==> next.out == st.out + raw.subrange(
                        st.claimed,
                        claim,
                    )
                    &&& !st.first && white(gap) && !paragraph(gap) ==> next.out == st.out + seq![
                        '\n',
                    ] + own
                    &&& st.first && (white(gap) || crosses(gap)) ==> next.out == st.out + own
                    &&& next.out == st.out + gap::inter_gap_text(gap, st.first) + own
                },
                None => st.claimed > begin || begin > claim,
            }
        }),
{
    let first = maps[k]->matches[0].2;
    let matches = maps[k]->matches;
    if matches.len() > 1 {
        assert(matches[0].2 < matches[matches.len() - 1].2);
    }
    lemma_line_start_is(raw, line, first);
    let span = extract::row_span(
        maps[k]->matches,
        maps[k]->leading,
        maps[k]->raw_end,
        maps[k]->table,
        maps,
        k,
        raw,
        st.claimed,
    );
    let begin = whole_from(
        first,
        line,
        maps[k]->leading,
        maps[k]->raw_end,
        maps[k]->table,
        raw,
        st.claimed,
    );
    let claim = source_map::claim_end(maps[k]->raw_end, maps[k]->table, maps, k, raw);
    let from = if maps[k]->leading < st.claimed {
        st.claimed
    } else {
        maps[k]->leading
    };
    syntax::law_opening_end(raw, from, maps[k]->raw_end);
    extract::lemma_row_span(
        maps[k]->matches,
        maps[k]->leading,
        maps[k]->raw_end,
        maps[k]->table,
        maps,
        k,
        raw,
        st.claimed,
    );
    assert(span.inter_end == begin);
    let gap = raw.subrange(st.claimed, begin);
    let own = raw.subrange(begin, claim);
    law_gap_before_a_row(gap);
    if st.claimed <= begin <= claim {
        assert(raw.subrange(st.claimed, claim) =~= gap + own);
        assert(st.out + gap + own =~= st.out + (gap + own));
        assert(st.out + Seq::<char>::empty() =~= st.out);
    }
}

/// The start of a line is found.
proof fn lemma_line_start_is(raw: Seq<char>, line: int, pos: int)
    requires
        0 <= line <= pos <= raw.len(),
        line == 0 || raw[line - 1] == '\n',
        forall|i: int| line <= i < pos ==> raw[i] != '\n',
    ensures
        lines::line_start(raw, pos) == line,
{
    lines::lemma_line_start(raw, pos);
    let l = lines::line_start(raw, pos);
    if line < l {
        assert(raw[l - 1] == '\n');
    }
    if l < line {
        assert(raw[line - 1] == '\n');
    }
}

/// Of a row of text that is selected in part, the raw text from its first selected character, the
/// `i`-th, to its last, the `j`-th, is copied, on a new line unless it is the first. Then the row is
/// done with.
pub proof fn law_part_of_a_row_is_copied(
    g: Grid,
    row: int,
    cols: (int, int),
    raw: Seq<char>,
    maps: Seq<RowMap>,
    k: int,
    st: Clip,
    i: int,
    j: int,
)
    requires
        0 <= k < maps.len(),
        maps[k] is Matched,
        0 <= i <= j < maps[k]->matches.len(),
        cols.0 <= maps[k]->matches[i].0 <= cols.1,
        cols.0 <= maps[k]->matches[j].0 <= cols.1,
        forall|l: int|
            0 <= l < maps[k]->matches.len() && cols.0 <= (#[trigger] maps[k]->matches[l]).0
                <= cols.1 ==> i <= l <= j,
    ensures
        extract::copy_row_of(g, row, cols, false, raw, maps, k, st) == Some(
            Clip {
                out: st.out + (if st.first {
                    Seq::empty()
                } else {
                    seq!['\n']
                }) + raw.subrange(maps[k]->matches[i].2, maps[k]->matches[j].2 + 1),
                first: false,
                claimed: source_map::claim_end(maps[k]->raw_end, maps[k]->table, maps, k, raw),
            },
        ),
{
    lemma_picked_is(maps[k]->matches, cols, i, j, maps[k]->matches.len() as int);
}

/// The first and the last selected character are found.
proof fn lemma_picked_is(
    matches: Seq<(int, int, int)>,
    cols: (int, int),
    i: int,
    j: int,
    n: int,
)
    requires
        0 <= i <= j < matches.len(),
        n <= matches.len(),
        cols.0 <= matches[i].0 <= cols.1,
        cols.0 <= matches[j].0 <= cols.1,
        forall|l: int|
            0 <= l < matches.len() && cols.0 <= (#[trigger] matches[l]).0 <= cols.1 ==> i <= l <= j,
    ensures
        n <= i ==> extract::picked(matches, cols, n) is None,
        i < n ==> (extract::picked(matches, cols, n) matches Some((from, _)) && from
            == matches[i].2),
        j < n ==> extract::picked(matches, cols, n) == Some((matches[i].2, matches[j].2)),
    decreases n,
{
    if n > 0 {
        lemma_picked_is(matches, cols, i, j, n - 1);
        if cols.0 <= matches[n - 1].0 <= cols.1 {
            assert(i <= n - 1 <= j);
        }
    }
}

/// Of a row of which no character is selected nothing is copied, but it is passed: the raw text of
/// its characters and closing tokens is done with, up to where the next row begins.
pub proof fn law_row_without_selected_characters_is_passed(
    g: Grid,
    row: int,
    cols: (int, int),
    raw: Seq<char>,
    maps: Seq<RowMap>,
    k: int,
    st: Clip,
)
    requires
        0 <= k < maps.len(),
        maps[k] is Matched,
        forall|l: int|
            0 <= l < maps[k]->matches.len() ==> !(cols.0 <= (#[trigger] maps[k]->matches[l]).0
                <= cols.1),
    ensures
        ({
            let end = source_map::claim_end(maps[k]->raw_end, false, maps, k, raw);
            let bound = source_map::next_bound(maps, k, raw.len() as int);
            &&& extract::copy_row_of(g, row, cols, false, raw, maps, k, st) matches Some(next)
            &&& next.out == st.out
            &&& !next.first
            &&& next.claimed >= st.claimed
            &&& next.claimed >= end || next.claimed >= bound
            &&& next.claimed == st.claimed || (next.claimed <= end && next.claimed <= bound)
        }),
{
    lemma_picked_none(maps[k]->matches, cols, maps[k]->matches.len() as int);
}

/// Where no character is selected none is found.
proof fn lemma_picked_none(matches: Seq<(int, int, int)>, cols: (int, int), n: int)
    requires
        n <= matches.len(),
        forall|l: int|
            0 <= l < matches.len() ==> !(cols.0 <= (#[trigger] matches[l]).0 <= cols.1),
    ensures
        extract::picked(matches, cols, n) is None,
    decreases n,
{
    if n > 0 {
        lemma_picked_none(matches, cols, n - 1);
        assert(!(cols.0 <= matches[n - 1].0 <= cols.1));
    }
}

/// A row that has no raw text, a rule or separator that is selected in part, and a row without a map
/// are copied as they are drawn in the selected columns, on a new line unless they are the first.
/// `text` is what is drawn there. A row that has no raw text loses the spaces at its end.
pub proof fn law_drawn_row_is_copied(
    g: Grid,
    row: int,
    cols: (int, int),
    taken: bool,
    raw: Seq<char>,
    maps: Seq<RowMap>,
    k: int,
    st: Clip,
    text: Seq<char>,
)
    requires
        ({
            let drawn = scrape::row_chars(g, row, cols.0, cols.1);
            &&& text.len() == drawn.len()
            &&& forall|i: int| 0 <= i < text.len() ==> #[trigger] text[i] == drawn[i].1
        }),
    ensures
        ({
            let copied = extract::copy_row_of(g, row, cols, taken, raw, maps, k, st);
            let all = st.out + (if st.first {
                Seq::empty()
            } else {
                seq!['\n']
            }) + text;
            &&& !(0 <= k < maps.len()) ==> copied == Some(
                Clip { out: all, first: false, claimed: st.claimed },
            )
            &&& 0 <= k < maps.len() && maps[k] is Synthetic ==> copied == Some(
                Clip { out: lines::trim_spaces(all), first: false, claimed: st.claimed },
            )
            &&& 0 <= k < maps.len() && maps[k] is PatternMatched && !taken ==> copied == Some(
                Clip { out: all, first: false, claimed: maps[k]->end },
            )
        }),
{
    assert(extract::shown(g, row, cols) =~= text);
}

/// Rows are copied one after the other: a blank one is passed over, any other is copied in the
/// columns that are selected of it.
pub proof fn law_rows_are_copied_one_by_one(
    g: Grid,
    area: Rect,
    ss: ScreenSelection,
    raw: Seq<char>,
    prefix_width: u16,
    maps: Seq<RowMap>,
    k: int,
    st: Clip,
)
    ensures
        ({
            let row = area.y + k;
            let left = area.x as int;
            let right = last_column(area);
            let cols = selection::selected_columns(ss, left, right, row);
            let copied = extract::copy_rows(g, area, ss, raw, prefix_width, maps, k, k, st);
            let blank = forall|c: int|
                first_column(area, prefix_width, k) <= c <= right ==> #[trigger] g.sym(c, row)
                    == seq![' '];
            &&& blank ==> copied == Some(st)
            &&& !blank ==> copied == extract::copy_row_of(
                g,
                row,
                cols,
                selection::row_taken(cols, left, right, maps, k),
                raw,
                maps,
                k,
                st,
            )
        }),
{
    reveal_with_fuel(extract::copy_rows, 2);
    let row = area.y + k;
    let right = last_column(area);
    assert(source_map::row_last(area) == right);
    assert(source_map::row_first(area, prefix_width, k) == first_column(area, prefix_width, k));
    assert(scrape::blank(g, row, first_column(area, prefix_width, k), right) == (forall|c: int|
        first_column(area, prefix_width, k) <= c <= right ==> #[trigger] g.sym(c, row) == seq![
            ' ',
        ]));
}

/// Copying rows can be split at any row: first the rows up to `mid`, then, from what was copied, the
/// others.
pub proof fn law_copying_rows_can_be_split(
    g: Grid,
    area: Rect,
    ss: ScreenSelection,
    raw: Seq<char>,
    prefix_width: u16,
    maps: Seq<RowMap>,
    from: int,
    mid: int,
    to: int,
    st: Clip,
)
    requires
        from <= mid + 1 <= to + 1,
    ensures
        extract::copy_rows(g, area, ss, raw, prefix_width, maps, from, to, st)
            == match extract::copy_rows(g, area, ss, raw, prefix_width, maps, from, mid, st) {
            Some(half) => extract::copy_rows(
                g,
                area,
                ss,
                raw,
                prefix_width,
                maps,
                mid + 1,
                to,
                half,
            ),
            None => None,
        },
    decreases mid + 1 - from,
{
    if from <= mid {
        if let Some(next) = extract::copy_row_at(g, area, ss, raw, prefix_width, maps, from, st) {
            law_copying_rows_can_be_split(
                g,
                area,
                ss,
                raw,
                prefix_width,
                maps,
                from + 1,
                mid,
                to,
                next,
            );
        }
    }
}

/// The copy of a selection is that of its rows, from the first to the last, behind the raw text of
/// the rows above it.
pub proof fn law_selection_is_its_rows(
    g: Grid,
    area: Rect,
    ss: ScreenSelection,
    raw: Seq<char>,
    prefix_width: u16,
    maps: Seq<RowMap>,
)
    ensures
        extract::extracted(g, area, ss, raw, prefix_width, maps) == match extract::copy_rows(
            g,
            area,
            ss,
            raw,
            prefix_width,
            maps,
            ss.start_row as int,
            ss.end_row as int,
            Clip {
                out: Seq::empty(),
                first: true,
                claimed: extract::claimed_before(maps, raw, ss.start_row as int),
            },
        ) {
            Some(done) => Some(done.out),
            None => None,
        },
{
}

/// The raw text of the rows above the `n`-th ends with that of the last of them that comes from it,
/// the `j`-th; where none does, at the start.
pub proof fn law_rows_above_end_with_the_last(maps: Seq<RowMap>, raw: Seq<char>, n: int, j: int)
    requires
        -1 <= j < n,
        j < maps.len(),
        forall|i: int| j < i < n && i < maps.len() ==> (#[trigger] maps[i]) is Synthetic,
        j >= 0 ==> !(maps[j] is Synthetic),
    ensures
        j == -1 ==> extract::claimed_before(maps, raw, n) == 0,
        j >= 0 && maps[j] is PatternMatched ==> extract::claimed_before(maps, raw, n)
            == maps[j]->end,
        j >= 0 && maps[j] is Matched ==> extract::claimed_before(maps, raw, n)
            == source_map::claim_end(maps[j]->raw_end, maps[j]->table, maps, j, raw),
    decreases n,
{
    if n - 1 > j {
        if n <= maps.len() {
            assert(maps[n - 1] is Synthetic);
        }
        law_rows_above_end_with_the_last(maps, raw, n - 1, j);
    }
}

/// Whether every row from `from` to `to` that is not blank comes from the raw text, is selected
/// whole and can be copied, and every gap before one of them is copied as it is.
pub open spec fn verbatim_rows(
    g: Grid,
    area: Rect,
    ss: ScreenSelection,
    raw: Seq<char>,
    prefix_width: u16,
    maps: Seq<RowMap>,
    from: int,
    to: int,
    st: Clip,
) -> bool
    decreases to + 1 - from,
{
    let row = area.y + from;
    let left = area.x as int;
    let right = source_map::row_last(area);
    let cols = selection::selected_columns(ss, left, right, row);
    let first = source_map::row_first(area, prefix_width, from);
    from <= to ==> {
        &&& !scrape::blank(g, row, first, right) ==> {
            &&& 0 <= from < maps.len()
            &&& !(maps[from] is Synthetic)
            &&& selection::row_taken(cols, left, right, maps, from)
            &&& kept(raw.subrange(st.claimed, laws::row_begin(maps, raw, from, st.claimed)))
        }
        &&& extract::copy_row_at(g, area, ss, raw, prefix_width, maps, from, st) matches Some(next)
            && verbatim_rows(g, area, ss, raw, prefix_width, maps, from + 1, to, next)
    }
}

/// Rows below others that are copied whole give back the raw text character for character, where the
/// gaps between them are newlines, paragraph breaks or text on one line.
pub proof fn law_whole_rows_are_verbatim(
    g: Grid,
    area: Rect,
    ss: ScreenSelection,
    raw: Seq<char>,
    prefix_width: u16,
    maps: Seq<RowMap>,
    from: int,
    to: int,
    st: Clip,
)
    requires
        source_map::maps_wf(maps, raw.len() as int),
        0 <= st.claimed <= raw.len(),
        !st.first,
        verbatim_rows(g, area, ss, raw, prefix_width, maps, from, to, st),
    ensures
        extract::copy_rows(g, area, ss, raw, prefix_width, maps, from, to, st) matches Some(done)
            && st.claimed <= done.claimed <= raw.len() && done.out == st.out + raw.subrange(
            st.claimed,
            done.claimed,
        ),
    decreases to + 1 - from,
{
    if from > to {
        assert(st.out + raw.subrange(st.claimed, st.claimed) =~= st.out);
    } else {
        let row = area.y + from;
        let left = area.x as int;
        let right = source_map::row_last(area);
        let cols = selection::selected_columns(ss, left, right, row);
        let next = extract::copy_row_at(
            g,
            area,
            ss,
            raw,
            prefix_width,
            maps,
            from,
            st,
        ).unwrap();
        if !scrape::blank(g, row, source_map::row_first(area, prefix_width, from), right) {
            assert(maps[from].wf(raw.len() as int));
            if maps[from] is Matched {
                let first = maps[from]->matches[0].2;
                let matches = maps[from]->matches;
                if matches.len() > 1 {
                    assert(matches[0].2 < matches[matches.len() - 1].2);
                }
                lines::lemma_line_start(raw, first);
                lemma_begin(maps, raw, from, st.claimed);
                source_map::law_claim_on_own_line(
                    maps[from]->raw_end,
                    maps[from]->table,
                    maps,
                    from,
                    raw,
                );
                lines::lemma_line_end(raw, maps[from]->raw_end);
                law_whole_row_is_copied_with_its_gap(
                    g,
                    row,
                    cols,
                    raw,
                    maps,
                    from,
                    st,
                    lines::line_start(raw, first),
                );
            } else {
                law_whole_rule_is_copied_with_its_gap(g, row, cols, raw, maps, from, st, next);
            }
            assert(next.out == st.out + raw.subrange(st.claimed, next.claimed));
        } else {
            assert(next.out =~= st.out + raw.subrange(st.claimed, next.claimed));
        }
        law_whole_rows_are_verbatim(g, area, ss, raw, prefix_width, maps, from + 1, to, next);
        let done = extract::copy_rows(
            g,
            area,
            ss,
            raw,
            prefix_width,
            maps,
            from + 1,
            to,
            next,
        ).unwrap();
        assert(st.out + raw.subrange(st.claimed, next.claimed) + raw.subrange(
            next.claimed,
            done.claimed,
        ) =~= st.out + raw.subrange(st.claimed, done.claimed));
    }
}

/// A row of text begins where its raw text does.
proof fn lemma_begin(maps: Seq<RowMap>, raw: Seq<char>, k: int, claimed: int)
    requires
        0 <= k < maps.len(),
        maps[k] is Matched,
        maps[k].wf(raw.len() as int),
        0 <= claimed,
    ensures
        laws::row_begin(maps, raw, k, claimed) == whole_from(
            maps[k]->matches[0].2,
            lines::line_start(raw, maps[k]->matches[0].2),
            maps[k]->leading,
            maps[k]->raw_end,
            maps[k]->table,
            raw,
            claimed,
        ),
{
    let from = if maps[k]->leading < claimed {
        claimed
    } else {
        maps[k]->leading
    };
    syntax::law_opening_end(raw, from, maps[k]->raw_end);
}

/// A selection of whole rows gives back the raw text character for character, from where the first
/// of them begins to where the last of them ends, where the gaps between them are newlines,
/// paragraph breaks or text on one line, and the gap before the first is white space or crosses a
/// line.
pub proof fn law_whole_selection_is_verbatim(
    g: Grid,
    area: Rect,
    ss: ScreenSelection,
    raw: Seq<char>,
    prefix_width: u16,
    maps: Seq<RowMap>,
    begin: int,
    line: int,
)
    requires
        source_map::maps_wf(maps, raw.len() as int),
        ss.start_row <= ss.end_row,
        ss.start_row < maps.len(),
        ({
            let k = ss.start_row as int;
            let row = area.y + k;
            let left = area.x as int;
            let right = last_column(area);
            let cols = selection::selected_columns(ss, left, right, row);
            let claimed = extract::claimed_before(maps, raw, k);
            let st = Clip { out: Seq::empty(), first: true, claimed };
            &&& !(forall|c: int|
                first_column(area, prefix_width, k) <= c <= right ==> #[trigger] g.sym(c, row)
                    == seq![' '])
            &&& selection::row_taken(cols, left, right, maps, k)
            &&& claimed <= begin
            &&& white(raw.subrange(claimed, begin)) || crosses(raw.subrange(claimed, begin))
            &&& match maps[k] {
                RowMap::Matched { matches, leading, raw_end, table } => {
                    &&& 0 <= line <= matches[0].2
                    &&& line == 0 || raw[line - 1] == '\n'
                    &&& forall|i: int| line <= i < matches[0].2 ==> raw[i] != '\n'
                    &&& begin == whole_from(
                        matches[0].2,
                        line,
                        leading,
                        raw_end,
                        table,
                        raw,
                        claimed,
                    )
                    &&& begin <= source_map::claim_end(raw_end, table, maps, k, raw)
                },
                RowMap::PatternMatched { start, end } => begin == start,
                RowMap::Synthetic => false,
            }
            &&& extract::copy_row_of(g, row, cols, true, raw, maps, k, st) matches Some(next)
                ==> verbatim_rows(
                g,
                area,
                ss,
                raw,
                prefix_width,
                maps,
                k + 1,
                ss.end_row as int,
                next,
            )
        }),
    ensures
        exists|end: int|
            begin <= end <= raw.len() && extract::extracted(
                g,
                area,
                ss,
                raw,
                prefix_width,
                maps,
            ) == Some(#[trigger] raw.subrange(begin, end)),
{
    let k = ss.start_row as int;
    let to = ss.end_row as int;
    let row = area.y + k;
    let left = area.x as int;
    let right = last_column(area);
    let cols = selection::selected_columns(ss, left, right, row);
    let claimed = extract::claimed_before(maps, raw, k);
    let st = Clip { out: Seq::empty(), first: true, claimed };
    laws::lemma_claimed_before(maps, raw, k);
    assert(maps[k].wf(raw.len() as int));
    law_copying_rows_can_be_split(g, area, ss, raw, prefix_width, maps, k, k, to, st);
    law_rows_are_copied_one_by_one(g, area, ss, raw, prefix_width, maps, k, st);
    if maps[k] is Matched {
        source_map::law_claim_on_own_line(maps[k]->raw_end, maps[k]->table, maps, k, raw);
        lines::lemma_line_end(raw, maps[k]->raw_end);
        law_whole_row_is_copied_with_its_gap(g, row, cols, raw, maps, k, st, line);
    } else {
        law_whole_rule_can_be_copied(g, row, cols, raw, maps, k, st);
        let next = extract::copy_row_of(g, row, cols, true, raw, maps, k, st).unwrap();
        law_whole_rule_is_copied_with_its_gap(g, row, cols, raw, maps, k, st, next);
    }
    let next = extract::copy_row_of(g, row, cols, true, raw, maps, k, st).unwrap();
    assert(next.out =~= raw.subrange(begin, next.claimed));
    law_whole_rows_are_verbatim(g, area, ss, raw, prefix_width, maps, k + 1, to, next);
    let done = extract::copy_rows(g, area, ss, raw, prefix_width, maps, k + 1, to, next).unwrap();
    assert(done.out =~= raw.subrange(begin, done.claimed));
    law_selection_is_its_rows(g, area, ss, raw, prefix_width, maps);
}

} // verus!
