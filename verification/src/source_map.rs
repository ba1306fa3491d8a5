//! The map from drawn rows back to the markdown they show.
use crate::lines;
use crate::lines::find_line_end;
use crate::matching;
use crate::matching::match_subsequence;
use crate::pattern;
use crate::pattern::{find_hr_pattern, find_table_sep_pattern};
use crate::scrape;
use crate::scrape::{
    find_inked, is_blank_row, shows, strip_synthetic_prefix, trim_trailing, RowKind,
};
use crate::screen::{Buffer, Grid, Rect, Theme};
use crate::syntax;
use crate::syntax::scan_closing_syntax;
use vstd::prelude::*;

verus! {

/// Where in the raw text a drawn row comes from.
pub enum RowSourceMap {
    /// The characters of the row were found in the raw text.
    Matched {
        /// Column, index in the row and raw position of each character.
        matches: Vec<(u16, usize, usize)>,
        /// The raw position from which the row's characters were looked for.
        leading_skip_start: usize,
        /// The raw position behind the last character.
        raw_end: usize,
        /// Whether the row is a row of a table.
        is_table_row: bool,
    },
    /// The row is drawn for a whole line: a horizontal rule or a table separator.
    PatternMatched {
        /// The raw range of the line.
        raw_range: (usize, usize),
    },
    /// The row comes from nowhere in the raw text.
    Synthetic,
}

/// A `RowSourceMap` as mathematics.
pub enum RowMap {
    Matched { matches: Seq<(int, int, int)>, leading: int, raw_end: int, table: bool },
    PatternMatched { start: int, end: int },
    Synthetic,
}

impl View for RowSourceMap {
    type V = RowMap;

    open spec fn view(&self) -> RowMap {
        match *self {
            RowSourceMap::Matched { matches, leading_skip_start, raw_end, is_table_row } => {
                RowMap::Matched {
                    matches: matching::triples(matches@),
                    leading: leading_skip_start as int,
                    raw_end: raw_end as int,
                    table: is_table_row,
                }
            },
            RowSourceMap::PatternMatched { raw_range } => {
                RowMap::PatternMatched { start: raw_range.0 as int, end: raw_range.1 as int }
            },
            RowSourceMap::Synthetic => RowMap::Synthetic,
        }
    }
}

impl RowMap {
    /// The map points into a raw text of `len` characters: the matches ascend, begin at or behind
    /// where they were looked for and end at `raw_end`; a line has its end behind its start.
    pub open spec fn wf(self, len: int) -> bool {
        match self {
            RowMap::Matched { matches, leading, raw_end, table } => {
                &&& matches.len() > 0
                &&& 0 <= leading <= matches[0].2
                &&& forall|i: int, j: int|
                    0 <= i < j < matches.len() ==> (#[trigger] matches[i]).2 < (
                    #[trigger] matches[j]).2
                &&& matches.last().2 + 1 == raw_end
                &&& raw_end <= len
            },
            RowMap::PatternMatched { start, end } => 0 <= start <= end <= len,
            RowMap::Synthetic => true,
        }
    }
}

/// What a list of row maps says.
pub open spec fn row_maps(maps: Seq<RowSourceMap>) -> Seq<RowMap> {
    Seq::new(maps.len(), |i: int| maps[i]@)
}

/// Every map of the list points into a raw text of `len` characters.
pub open spec fn maps_wf(maps: Seq<RowMap>, len: int) -> bool {
    forall|i: int| 0 <= i < maps.len() ==> (#[trigger] maps[i]).wf(len)
}

/// The first column of the `k`-th row of a message: behind the prefix on the first row.
pub open spec fn row_first(area: Rect, prefix_width: u16, k: int) -> int {
    if k == 0 {
        prefix_width as int
    } else {
        area.x as int
    }
}

/// The last column of every row of a message.
pub open spec fn row_last(area: Rect) -> int {
    if area.width == 0 {
        area.x as int
    } else {
        area.x + area.width - 1
    }
}

/// The map of the `k`-th row, where the raw text before `pos` belongs to earlier rows, and the
/// position from which later rows are looked for.
pub open spec fn map_row(
    g: Grid,
    area: Rect,
    prefix_width: u16,
    raw: Seq<char>,
    theme: Theme,
    k: int,
    pos: int,
) -> (RowMap, int) {
    let row = area.y + k;
    let start = row_first(area, prefix_width, k);
    let end = row_last(area);
    if scrape::blank(g, row, start, end) {
        (RowMap::Synthetic, pos)
    } else if scrape::row_kind(g, row, start, end, theme) is Border {
        let lead = g.sym(scrape::first_inked(g, row, start, end), row);
        if lead == seq!['─'] {
            line_map(pattern::next_rule(raw, pos), pos)
        } else if lead == seq!['├'] {
            line_map(pattern::next_separator(raw, pos), pos)
        } else {
            (RowMap::Synthetic, pos)
        }
    } else {
        let table = scrape::row_kind(g, row, start, end, theme) is Table;
        let content = scrape::trim_tagged(scrape::row_content(g, row, start, end, theme));
        match matching::places(raw, pos, matching::bare(content)) {
            Some(found) => if content.len() == 0 {
                (RowMap::Synthetic, pos)
            } else {
                let raw_end = matching::behind(found, pos);
                (
                    RowMap::Matched {
                        matches: matching::match_triples(content, found),
                        leading: pos,
                        raw_end,
                        table,
                    },
                    syntax::closing_end(raw, raw_end, lines::line_end(raw, raw_end)),
                )
            },
            None => (RowMap::Synthetic, pos),
        }
    }
}

/// The map of a row that is drawn for the line `found`, looked for from `pos`. Where there is no
/// such line, the row comes from nowhere in the raw text.
pub open spec fn line_map(found: Option<(int, int)>, pos: int) -> (RowMap, int) {
    match found {
        Some((start, end)) => (RowMap::PatternMatched { start, end }, end + 1),
        None => (RowMap::Synthetic, pos),
    }
}

/// The maps of the first `n` rows, and the position from which the next row is looked for.
pub open spec fn map_rows(
    g: Grid,
    area: Rect,
    prefix_width: u16,
    raw: Seq<char>,
    theme: Theme,
    n: int,
) -> (Seq<RowMap>, int)
    decreases n,
{
    if n <= 0 {
        (Seq::empty(), 0)
    } else {
        let (maps, pos) = map_rows(g, area, prefix_width, raw, theme, n - 1);
        let (map, next) = map_row(g, area, prefix_width, raw, theme, n - 1, pos);
        (maps.push(map), next)
    }
}

/// The area ends within the terminal's coordinates.
pub open spec fn area_wf(area: Rect) -> bool {
    &&& area.x + area.width <= u16::MAX
    &&& area.y + area.height <= u16::MAX
}

/// The buffer has the cells of the rows from the `from`-th up to, not including, the `to`-th.
pub open spec fn has_rows(g: Grid, area: Rect, prefix_width: u16, from: int, to: int) -> bool {
    forall|k: int|
        from <= k < to ==> #[trigger] scrape::has_columns(
            g,
            area.y + k,
            row_first(area, prefix_width, k),
            row_last(area),
        )
}

/// Where the first row behind the `k`-th that comes from the raw text begins in it, or the end of
/// the raw text.
pub open spec fn next_bound(maps: Seq<RowMap>, k: int, raw_len: int) -> int
    decreases maps.len() - k,
{
    if k + 1 >= maps.len() {
        raw_len
    } else {
        match maps[k + 1] {
            RowMap::Matched { matches, leading, raw_end, table } => leading,
            RowMap::PatternMatched { start, end } => start,
            RowMap::Synthetic => next_bound(maps, k + 1, raw_len),
        }
    }
}

/// Where the raw text that belongs to the `k`-th row ends, given where its characters end: at the
/// end of the line for a row of a table, else behind the closing tokens on that line.
pub open spec fn claim_end(
    raw_end: int,
    table: bool,
    maps: Seq<RowMap>,
    k: int,
    raw: Seq<char>,
) -> int {
    let line = lines::line_end(raw, raw_end);
    let next = next_bound(maps, k, raw.len() as int);
    if table {
        line
    } else {
        syntax::closing_end(
            raw,
            raw_end,
            if next < line {
                next
            } else {
                line
            },
        )
    }
}

/// Where the first row behind `row_idx` that comes from the raw text begins in it, or `raw_len`.
pub fn next_row_bound(maps: &[RowSourceMap], row_idx: usize, raw_len: usize) -> (r: usize)
    requires
        row_idx < usize::MAX,
    ensures
        r == next_bound(row_maps(maps@), row_idx as int, raw_len as int),
{
    let mut i: usize = row_idx + 1;
    while i < maps.len()
        invariant
            row_idx < i,
            i <= maps.len() || i == row_idx + 1,
            next_bound(row_maps(maps@), i - 1, raw_len as int) == next_bound(
                row_maps(maps@),
                row_idx as int,
                raw_len as int,
            ),
        decreases maps.len() - i,
    {
        assert(row_maps(maps@)[i as int] == maps@[i as int]@);
        match &maps[i] {
            RowSourceMap::Matched { leading_skip_start, .. } => {
                return *leading_skip_start;
            },
            RowSourceMap::PatternMatched { raw_range } => {
                return raw_range.0;
            },
            RowSourceMap::Synthetic => {},
        }
        i += 1;
    }
    raw_len
}

/// Where the raw text that belongs to a row ends, once the row is copied whole: at the end of the
/// line for a row of a table, else behind the closing tokens on the row's own line.
pub fn matched_claim_end(
    raw_end: usize,
    is_table_row: bool,
    maps: &[RowSourceMap],
    row_idx: usize,
    raw_chars: &[char],
) -> (r: usize)
    requires
        raw_end <= raw_chars.len(),
        !is_table_row ==> row_idx < usize::MAX,
    ensures
        r == claim_end(
            raw_end as int,
            is_table_row,
            row_maps(maps@),
            row_idx as int,
            raw_chars@,
        ),
{
    let line: usize = find_line_end(raw_chars, raw_end);
    if is_table_row {
        return line;
    }
    let next: usize = next_row_bound(maps, row_idx, raw_chars.len());
    let bound: usize = if next < line {
        next
    } else {
        line
    };
    proof {
        lines::lemma_line_end(raw_chars@, raw_end as int);
    }
    scan_closing_syntax(raw_chars, raw_end, bound)
}

/// What the map of a row is worth: it points into the raw text, at or behind `pos`, and the next
/// row is looked for behind it. A matched row hands on the position behind its closing tokens, a
/// line the one behind its newline, a synthetic row the one it was given.
pub proof fn lemma_map_row(
    g: Grid,
    area: Rect,
    prefix_width: u16,
    raw: Seq<char>,
    theme: Theme,
    k: int,
    pos: int,
)
    requires
        0 <= pos <= raw.len() + 1,
    ensures
        ({
            let (map, next) = map_row(g, area, prefix_width, raw, theme, k, pos);
            &&& map.wf(raw.len() as int)
            &&& pos <= next <= raw.len() + 1
            &&& match map {
                RowMap::Matched { matches, leading, raw_end, table } => {
                    &&& leading == pos
                    &&& next == syntax::closing_end(raw, raw_end, lines::line_end(raw, raw_end))
                    &&& raw_end <= next <= lines::line_end(raw, raw_end)
                },
                RowMap::PatternMatched { start, end } => {
                    &&& pos <= start < end
                    &&& next == end + 1
                    &&& lines::at_line_start(raw, start)
                    &&& end <= lines::line_end(raw, start)
                },
                RowMap::Synthetic => next == pos,
            }
        }),
{
    let row = area.y + k;
    let start = row_first(area, prefix_width, k);
    let end = row_last(area);
    pattern::law_next_rule(raw, pos);
    pattern::law_next_separator(raw, pos);
    if !scrape::blank(g, row, start, end) && !(scrape::row_kind(g, row, start, end, theme)
        is Border) {
        let content = scrape::trim_tagged(scrape::row_content(g, row, start, end, theme));
        let text = matching::bare(content);
        if let Some(found) = matching::places(raw, pos, text) {
            if content.len() > 0 {
                matching::law_places_least(raw, pos, text, found);
                let raw_end = matching::behind(found, pos);
                assert(found.last() == found[found.len() - 1]);
                lines::lemma_line_end(raw, raw_end);
                syntax::law_closing_end(raw, raw_end, lines::line_end(raw, raw_end));
            }
        }
    }
    if let RowMap::PatternMatched { start: s, end: e } = map_row(
        g,
        area,
        prefix_width,
        raw,
        theme,
        k,
        pos,
    ).0 {
        pattern::lemma_separator_end(raw, s, e);
    }
}

/// Maps the row `row_idx`, whose characters are looked for from `raw_pos` on. Returns the map and
/// the position from which the next row is looked for.
fn map_one_row(
    buf: &Buffer,
    area: Rect,
    prefix_width: u16,
    raw_chars: &[char],
    theme: &Theme,
    row_idx: u16,
    raw_pos: usize,
) -> (r: (RowSourceMap, usize))
    requires
        buf.wf(),
        area_wf(area),
        row_idx < area.height,
        has_rows(buf@, area, prefix_width, 0, area.height as int),
        raw_chars.len() < usize::MAX,
        raw_pos <= raw_chars.len() + 1,
    ensures
        (r.0@, r.1 as int) == map_row(
            buf@,
            area,
            prefix_width,
            raw_chars@,
            *theme,
            row_idx as int,
            raw_pos as int,
        ),
{
    let row: u16 = area.y + row_idx;
    let col_start: u16 = if row_idx == 0 {
        prefix_width
    } else {
        area.x
    };
    let col_end: u16 = if area.width == 0 {
        area.x
    } else {
        area.x + (area.width - 1)
    };
    proof {
        lemma_map_row(
            buf@,
            area,
            prefix_width,
            raw_chars@,
            *theme,
            row_idx as int,
            raw_pos as int,
        );
    }
    assert(scrape::has_columns(buf@, row as int, col_start as int, col_end as int));
    if is_blank_row(buf, row, col_start, col_end) {
        return (RowSourceMap::Synthetic, raw_pos);
    }
    assert(col_start <= col_end);
    assert(buf@.has(col_start as int, row as int));
    let (mut content, is_border, is_table_row) = strip_synthetic_prefix(
        buf,
        row,
        col_start,
        col_end,
        theme,
    );
    if is_border {
        let lead: u16 = find_inked(buf, row, col_start, col_end) as u16;
        proof {
            scrape::lemma_first_inked(buf@, row as int, col_start as int, col_end as int);
        }
        assert(buf@.has(lead as int, row as int));
        let cell = buf.cell(lead, row);
        let rule: bool = shows(cell, '─');
        let separator: bool = shows(cell, '├');
        proof {
            assert(seq!['─'][0] == '─');
            assert(seq!['├'][0] == '├');
        }
        if raw_pos > raw_chars.len() || (!rule && !separator) {
            return (RowSourceMap::Synthetic, raw_pos);
        }
        let found: Option<(usize, usize)> = if rule {
            find_hr_pattern(raw_chars, raw_pos)
        } else {
            find_table_sep_pattern(raw_chars, raw_pos)
        };
        return match found {
            Some(raw_range) => {
                (RowSourceMap::PatternMatched { raw_range }, raw_range.1 + 1)
            },
            None => (RowSourceMap::Synthetic, raw_pos),
        };
    }
    trim_trailing(&mut content);
    if content.len() == 0 {
        assert(matching::bare(content@) =~= Seq::empty());
        return (RowSourceMap::Synthetic, raw_pos);
    }
    let (matches, raw_end) = match_subsequence(raw_chars, raw_pos, &content);
    if matches.len() == 0 {
        proof {
            if let Some(found) = matching::places(
                raw_chars@,
                raw_pos as int,
                matching::bare(content@),
            ) {
                assert(matching::triples(matches@).len() == matching::match_triples(
                    content@,
                    found,
                ).len());
            }
        }
        return (RowSourceMap::Synthetic, raw_pos);
    }
    let line: usize = find_line_end(raw_chars, raw_end);
    proof {
        lines::lemma_line_end(raw_chars@, raw_end as int);
    }
    let next: usize = scan_closing_syntax(raw_chars, raw_end, line);
    (RowSourceMap::Matched { matches, leading_skip_start: raw_pos, raw_end, is_table_row }, next)
}

/// Maps every row of a drawn message to the raw text it shows: one map for each row.
pub fn build_row_source_maps(
    buf: &Buffer,
    area: Rect,
    prefix_width: u16,
    raw_chars: &[char],
    theme: &Theme,
) -> (r: Vec<RowSourceMap>)
    requires
        buf.wf(),
        area_wf(area),
        has_rows(buf@, area, prefix_width, 0, area.height as int),
        raw_chars.len() < usize::MAX,
    ensures
        row_maps(r@) == map_rows(
            buf@,
            area,
            prefix_width,
            raw_chars@,
            *theme,
            area.height as int,
        ).0,
        r@.len() == area.height,
{
    let mut maps: Vec<RowSourceMap> = Vec::with_capacity(area.height as usize);
    let mut raw_pos: usize = 0;
    let mut row_idx: u16 = 0;
    assert(row_maps(maps@) =~= Seq::empty());
    while row_idx < area.height
        invariant
            buf.wf(),
            area_wf(area),
            has_rows(buf@, area, prefix_width, 0, area.height as int),
            raw_chars.len() < usize::MAX,
            row_idx <= area.height,
            raw_pos <= raw_chars.len() + 1,
            maps@.len() == row_idx,
            map_rows(buf@, area, prefix_width, raw_chars@, *theme, row_idx as int) == (
                row_maps(maps@),
                raw_pos as int,
            ),
        decreases area.height - row_idx,
    {
        let ghost before = maps@;
        proof {
            lemma_map_row(
                buf@,
                area,
                prefix_width,
                raw_chars@,
                *theme,
                row_idx as int,
                raw_pos as int,
            );
        }
        let (map, next) = map_one_row(
            buf,
            area,
            prefix_width,
            raw_chars,
            theme,
            row_idx,
            raw_pos,
        );
        let ghost seen = map@;
        maps.push(map);
        raw_pos = next;
        assert(row_maps(maps@) =~= row_maps(before).push(seen));
        row_idx += 1;
    }
    maps
}

/// The position from which the `n`-th row is looked for, as the rows above it tell.
pub open spec fn row_position(maps: Seq<RowMap>, raw: Seq<char>, n: int) -> int
    decreases n,
{
    if n <= 0 {
        0
    } else {
        match maps[n - 1] {
            RowMap::Matched { matches, leading, raw_end, table } => syntax::closing_end(
                raw,
                raw_end,
                lines::line_end(raw, raw_end),
            ),
            RowMap::PatternMatched { start, end } => end + 1,
            RowMap::Synthetic => row_position(maps, raw, n - 1),
        }
    }
}

/// A row begins in the raw text where the rows above it left off: a matched row is looked for
/// exactly there, a line begins there or later.
pub open spec fn follows(map: RowMap, raw: Seq<char>, pos: int) -> bool {
    match map {
        RowMap::Matched { matches, leading, raw_end, table } => leading == pos,
        RowMap::PatternMatched { start, end } => {
            &&& pos <= start < end
            &&& lines::at_line_start(raw, start)
            &&& end <= lines::line_end(raw, start)
        },
        RowMap::Synthetic => true,
    }
}

/// The maps point into the raw text, and each row follows the rows above it.
pub open spec fn in_order(maps: Seq<RowMap>, raw: Seq<char>) -> bool {
    &&& maps_wf(maps, raw.len() as int)
    &&& forall|i: int|
        0 <= i < maps.len() ==> follows(#[trigger] maps[i], raw, row_position(maps, raw, i))
}

/// A row's position depends on the rows above it alone.
proof fn lemma_row_position_prefix(maps: Seq<RowMap>, raw: Seq<char>, m: RowMap, n: int)
    requires
        n <= maps.len(),
    ensures
        row_position(maps.push(m), raw, n) == row_position(maps, raw, n),
    decreases n,
{
    if n > 0 {
        lemma_row_position_prefix(maps, raw, m, n - 1);
    }
}

/// The maps of a drawn message: one for every row, all pointing into the raw text, each row behind
/// the rows above it.
pub proof fn law_maps_in_order(
    g: Grid,
    area: Rect,
    prefix_width: u16,
    raw: Seq<char>,
    theme: Theme,
    n: int,
)
    requires
        0 <= n,
    ensures
        ({
            let (maps, pos) = map_rows(g, area, prefix_width, raw, theme, n);
            &&& maps.len() == n
            &&& in_order(maps, raw)
            &&& pos == row_position(maps, raw, n)
            &&& 0 <= pos <= raw.len() + 1
        }),
    decreases n,
{
    if n > 0 {
        law_maps_in_order(g, area, prefix_width, raw, theme, n - 1);
        let (maps, pos) = map_rows(g, area, prefix_width, raw, theme, n - 1);
        lemma_map_row(g, area, prefix_width, raw, theme, n - 1, pos);
        let map = map_row(g, area, prefix_width, raw, theme, n - 1, pos).0;
        let longer = maps.push(map);
        assert forall|i: int| 0 <= i < longer.len() implies follows(
            #[trigger] longer[i],
            raw,
            row_position(longer, raw, i),
        ) by {
            lemma_row_position_prefix(maps, raw, map, i);
            if i < maps.len() {
                assert(follows(maps[i], raw, row_position(maps, raw, i)));
            }
        }
        lemma_row_position_prefix(maps, raw, map, n - 1);
    }
}

/// The raw text of a copied row ends behind its characters, on their own line, whatever the rows
/// around it are.
pub proof fn law_claim_on_own_line(
    raw_end: int,
    table: bool,
    maps: Seq<RowMap>,
    k: int,
    raw: Seq<char>,
)
    requires
        0 <= raw_end <= raw.len(),
    ensures
        raw_end <= claim_end(raw_end, table, maps, k, raw) <= lines::line_end(raw, raw_end),
{
    let line = lines::line_end(raw, raw_end);
    let next = next_bound(maps, k, raw.len() as int);
    lines::lemma_line_end(raw, raw_end);
    syntax::law_closing_end(
        raw,
        raw_end,
        if next < line {
            next
        } else {
            line
        },
    );
}

} // verus!
