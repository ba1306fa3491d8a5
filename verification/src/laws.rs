//! What holds of copying as a whole: of every message, every selection and every run of rows.
use crate::document;
use crate::document::{DocPos, Segment, Selection};
use crate::extract;
use crate::extract::Clip;
use crate::gap;
use crate::lines;
use crate::matching;
use crate::scrape;
use crate::screen::{Grid, Rect, Theme};
use crate::selection;
use crate::selection::ScreenSelection;
use crate::source_map;
use crate::source_map::RowMap;
use crate::syntax;
use vstd::prelude::*;

verus! {

/// Where rows below `k` that come from the raw text begin, seen from the rows in order: never
/// before the position that the rows up to `k` have reached.
pub proof fn lemma_next_bound(maps: Seq<RowMap>, raw: Seq<char>, k: int)
    requires
        source_map::in_order(maps, raw),
        0 <= k < maps.len(),
    ensures
        ({
            let next = source_map::next_bound(maps, k, raw.len() as int);
            next == raw.len() || source_map::row_position(maps, raw, k + 1) <= next
        }),
    decreases maps.len() - k,
{
    if k + 1 < maps.len() {
        assert(source_map::follows(
            maps[k + 1],
            raw,
            source_map::row_position(maps, raw, k + 1),
        ));
        if maps[k + 1] is Synthetic {
            lemma_next_bound(maps, raw, k + 1);
        }
    }
}

/// The raw text that a row outside tables takes when it is copied ends exactly where the row below
/// is looked for: nothing lies between the two, and neither reaches into the other.
pub proof fn law_claim_meets_next_row(maps: Seq<RowMap>, raw: Seq<char>, k: int)
    requires
        source_map::in_order(maps, raw),
        0 <= k < maps.len(),
        maps[k] is Matched,
        !maps[k]->table,
    ensures
        source_map::claim_end(maps[k]->raw_end, false, maps, k, raw) == source_map::row_position(
            maps,
            raw,
            k + 1,
        ),
{
    assert(maps[k].wf(raw.len() as int));
    let raw_end = maps[k]->raw_end;
    let line = lines::line_end(raw, raw_end);
    let next = source_map::next_bound(maps, k, raw.len() as int);
    let bound = if next < line {
        next
    } else {
        line
    };
    lemma_next_bound(maps, raw, k);
    lines::lemma_line_end(raw, raw_end);
    syntax::law_closing_end(raw, raw_end, line);
    syntax::law_closing_end_bound(raw, raw_end, line, bound);
}

/// The rows of a message are looked for at positions that never go back.
pub proof fn law_positions_ascend(maps: Seq<RowMap>, raw: Seq<char>, m: int, n: int)
    requires
        source_map::in_order(maps, raw),
        0 <= m <= n <= maps.len(),
    ensures
        0 <= source_map::row_position(maps, raw, m) <= source_map::row_position(maps, raw, n)
            <= raw.len() + 1,
    decreases n,
{
    if n > 0 {
        if m < n {
            law_positions_ascend(maps, raw, m, n - 1);
        } else {
            law_positions_ascend(maps, raw, n - 1, n - 1);
        }
        let map = maps[n - 1];
        assert(map.wf(raw.len() as int));
        assert(source_map::follows(map, raw, source_map::row_position(maps, raw, n - 1)));
        if let RowMap::Matched { matches, leading, raw_end, table } = map {
            if matches.len() > 1 {
                assert(matches[0].2 < matches[matches.len() - 1].2);
            }
            lines::lemma_line_end(raw, raw_end);
            syntax::law_closing_end(raw, raw_end, lines::line_end(raw, raw_end));
        }
    }
}

/// Where the raw text that the `k`-th row takes ends, however it is copied.
pub open spec fn row_claim(maps: Seq<RowMap>, raw: Seq<char>, k: int) -> int {
    match maps[k] {
        RowMap::Matched { matches, leading, raw_end, table } => source_map::claim_end(
            raw_end,
            table,
            maps,
            k,
            raw,
        ),
        RowMap::PatternMatched { start, end } => end,
        RowMap::Synthetic => 0,
    }
}

/// The furthest that any of the first `n` rows reaches into the raw text.
pub open spec fn front(maps: Seq<RowMap>, raw: Seq<char>, n: int) -> int
    decreases n,
{
    if n <= 0 {
        0
    } else {
        let before = front(maps, raw, n - 1);
        if n <= maps.len() && before < row_claim(maps, raw, n - 1) {
            row_claim(maps, raw, n - 1)
        } else {
            before
        }
    }
}

/// Whether the text of the `k`-th row begins behind all the raw text that rows above it take. A row
/// of a table may share its line with the rows above it.
pub open spec fn begins_clear(maps: Seq<RowMap>, raw: Seq<char>, k: int) -> bool {
    match maps[k] {
        RowMap::Matched { matches, leading, raw_end, table } => if table {
            front(maps, raw, k) <= lines::line_end(raw, raw_end)
        } else {
            front(maps, raw, k) <= matches[0].2
        },
        RowMap::PatternMatched { start, end } => front(maps, raw, k) <= start,
        RowMap::Synthetic => true,
    }
}

/// The maps point into the raw text and every row begins behind the raw text of the rows above it.
pub open spec fn clear(maps: Seq<RowMap>, raw: Seq<char>) -> bool {
    &&& source_map::maps_wf(maps, raw.len() as int)
    &&& forall|k: int| 0 <= k < maps.len() ==> #[trigger] begins_clear(maps, raw, k)
}

/// Rows of tables reach to the end of their line, other rows no further than the position from
/// which the row below is looked for.
proof fn lemma_front(maps: Seq<RowMap>, raw: Seq<char>, n: int, limit: int)
    requires
        source_map::in_order(maps, raw),
        0 <= n <= maps.len(),
        source_map::row_position(maps, raw, n) <= limit,
        forall|i: int|
            0 <= i < n && #[trigger] maps[i] is Matched && maps[i]->table ==> lines::line_end(
                raw,
                maps[i]->raw_end,
            ) <= limit,
    ensures
        front(maps, raw, n) <= limit,
    decreases n,
{
    law_positions_ascend(maps, raw, 0, n);
    if n > 0 {
        law_positions_ascend(maps, raw, n - 1, n);
        lemma_front(maps, raw, n - 1, limit);
        if maps[n - 1] is Matched && !maps[n - 1]->table {
            law_claim_meets_next_row(maps, raw, n - 1);
        }
    }
}

/// A row begins behind the text of the rows above it.
proof fn lemma_row_behind(maps: Seq<RowMap>, raw: Seq<char>, i: int, k: int)
    requires
        source_map::in_order(maps, raw),
        0 <= i < k < maps.len(),
        maps[i] is Matched,
    ensures
        0 < maps[i]->raw_end <= source_map::row_position(maps, raw, k),
{
    assert(maps[i].wf(raw.len() as int));
    let matches = maps[i]->matches;
    if matches.len() > 1 {
        assert(matches[0].2 < matches[matches.len() - 1].2);
    }
    let line = lines::line_end(raw, maps[i]->raw_end);
    syntax::law_closing_end(raw, maps[i]->raw_end, line);
    law_positions_ascend(maps, raw, i + 1, k);
}

/// The rows of a message are clear, unless the text of a row begins on the line of a table row
/// above it. Where the text of table rows does not end in a newline, a rule, a separator or another
/// row of a table never does.
pub proof fn law_rows_are_clear(maps: Seq<RowMap>, raw: Seq<char>)
    requires
        source_map::in_order(maps, raw),
        forall|i: int|
            0 <= i < maps.len() && #[trigger] maps[i] is Matched && maps[i]->table
                ==> raw[maps[i]->raw_end - 1] != '\n',
        forall|i: int, k: int|
            0 <= i < k < maps.len() && #[trigger] maps[i] is Matched && maps[i]->table
                && #[trigger] maps[k] is Matched && !maps[k]->table ==> lines::line_end(
                raw,
                maps[i]->raw_end,
            ) <= maps[k]->matches[0].2,
    ensures
        clear(maps, raw),
{
    assert forall|k: int| 0 <= k < maps.len() implies #[trigger] begins_clear(maps, raw, k) by {
        let pos = source_map::row_position(maps, raw, k);
        assert(maps[k].wf(raw.len() as int));
        assert(source_map::follows(maps[k], raw, pos));
        let limit = match maps[k] {
            RowMap::Matched { matches, leading, raw_end, table } => if table {
                lines::line_end(raw, raw_end)
            } else {
                matches[0].2
            },
            RowMap::PatternMatched { start, end } => start,
            RowMap::Synthetic => raw.len() as int + 1,
        };
        if let RowMap::Matched { matches, leading, raw_end, table } = maps[k] {
            if matches.len() > 1 {
                assert(matches[0].2 < matches[matches.len() - 1].2);
            }
            lines::lemma_line_end(raw, raw_end);
        }
        law_positions_ascend(maps, raw, 0, k);
        assert forall|i: int|
            0 <= i < k && #[trigger] maps[i] is Matched
                && maps[i]->table implies lines::line_end(raw, maps[i]->raw_end) <= limit by {
            assert(maps[i].wf(raw.len() as int));
            lemma_row_behind(maps, raw, i, k);
            lines::lemma_line_end(raw, maps[i]->raw_end);
            if maps[k] is Matched && maps[k]->table {
                lines::lemma_line_end_monotone(raw, maps[i]->raw_end, maps[k]->raw_end);
            }
        }
        lemma_front(maps, raw, k, limit);
    }
}

/// In a message without tables every row begins behind the raw text of the rows above it.
pub proof fn law_tableless_rows_are_clear(maps: Seq<RowMap>, raw: Seq<char>)
    requires
        source_map::in_order(maps, raw),
        forall|k: int| 0 <= k < maps.len() && #[trigger] maps[k] is Matched ==> !maps[k]->table,
    ensures
        clear(maps, raw),
{
    law_rows_are_clear(maps, raw);
}

/// A whole row keeps all its text: the raw text that is copied for it reaches from at or before its
/// first drawn character to behind its last.
pub proof fn law_whole_row_keeps_its_text(
    matches: Seq<(int, int, int)>,
    leading: int,
    raw_end: int,
    maps: Seq<RowMap>,
    k: int,
    raw: Seq<char>,
    claimed: int,
    i: int,
)
    requires
        (RowMap::Matched { matches, leading, raw_end, table: false }).wf(raw.len() as int),
        0 <= claimed <= matches[0].2,
        0 <= i < matches.len(),
    ensures
        ({
            let span = extract::row_span(matches, leading, raw_end, false, maps, k, raw, claimed);
            &&& claimed <= span.inter_end <= matches[i].2
            &&& matches[i].2 < span.claim <= lines::line_end(raw, raw_end)
        }),
{
    extract::lemma_row_span(matches, leading, raw_end, false, maps, k, raw, claimed);
    source_map::law_claim_on_own_line(raw_end, false, maps, k, raw);
    lines::lemma_line_start(raw, matches[0].2);
    if i > 0 {
        assert(matches[0].2 < matches[i].2);
    }
    if i < matches.len() - 1 {
        assert(matches[i].2 < matches[matches.len() - 1].2);
    }
}

/// Of a row that is copied in part, exactly the stretch from the first selected character to the
/// last is copied: both ends are selected characters, and every selected one lies between them.
pub proof fn law_partial_row_takes_the_selected(
    matches: Seq<(int, int, int)>,
    cols: (int, int),
    n: int,
)
    requires
        0 <= n <= matches.len(),
        forall|i: int, j: int|
            0 <= i < j < matches.len() ==> (#[trigger] matches[i]).2 < (#[trigger] matches[j]).2,
    ensures
        match extract::picked(matches, cols, n) {
            Some((first, last)) => {
                &&& first <= last
                &&& exists|i: int|
                    0 <= i < n && cols.0 <= (#[trigger] matches[i]).0 <= cols.1 && matches[i].2
                        == first
                &&& exists|i: int|
                    0 <= i < n && cols.0 <= (#[trigger] matches[i]).0 <= cols.1 && matches[i].2
                        == last
                &&& forall|i: int|
                    0 <= i < n && cols.0 <= (#[trigger] matches[i]).0 <= cols.1 ==> first
                        <= matches[i].2 <= last
            },
            None => forall|i: int|
                0 <= i < n ==> !(cols.0 <= (#[trigger] matches[i]).0 <= cols.1),
        },
    decreases n,
{
    if n > 0 {
        law_partial_row_takes_the_selected(matches, cols, n - 1);
        let m = matches[n - 1];
        if let Some((first, last)) = extract::picked(matches, cols, n - 1) {
            let i = choose|i: int|
                0 <= i < n - 1 && cols.0 <= (#[trigger] matches[i]).0 <= cols.1 && matches[i].2
                    == first;
            let j = choose|j: int|
                0 <= j < n - 1 && cols.0 <= (#[trigger] matches[j]).0 <= cols.1 && matches[j].2
                    == last;
            assert(matches[i].2 < m.2);
            assert(matches[j].2 < m.2);
            assert(0 <= i < n && cols.0 <= matches[i].0 <= cols.1 && matches[i].2 == first);
        }
        if cols.0 <= m.0 <= cols.1 {
            assert(0 <= n - 1 < n && cols.0 <= matches[n - 1].0 <= cols.1);
        }
    }
}

/// Copying a row of clear maps always succeeds, goes forward in the raw text, and goes no further
/// than the row reaches.
pub proof fn law_clear_row_is_copied(
    g: Grid,
    row: int,
    cols: (int, int),
    taken: bool,
    raw: Seq<char>,
    maps: Seq<RowMap>,
    k: int,
    st: Clip,
)
    requires
        clear(maps, raw),
        0 <= k,
        0 <= st.claimed <= front(maps, raw, k),
    ensures
        extract::copy_row_of(g, row, cols, taken, raw, maps, k, st) matches Some(next)
            && st.claimed <= next.claimed <= front(maps, raw, k + 1) && !next.first,
{
    if k < maps.len() {
        assert(maps[k].wf(raw.len() as int));
        assert(begins_clear(maps, raw, k));
        if let RowMap::Matched { matches, leading, raw_end, table } = maps[k] {
            if matches.len() > 1 {
                assert(matches[0].2 < matches[matches.len() - 1].2);
            }
            source_map::law_claim_on_own_line(raw_end, table, maps, k, raw);
            source_map::law_claim_on_own_line(raw_end, false, maps, k, raw);
            extract::lemma_row_span(matches, leading, raw_end, table, maps, k, raw, st.claimed);
            lines::lemma_line_start(raw, matches[0].2);
            lines::lemma_line_end(raw, raw_end);
        }
    }
}

/// A run of clear rows can be copied.
proof fn lemma_clear_rows_are_copied(
    g: Grid,
    area: Rect,
    ss: ScreenSelection,
    raw: Seq<char>,
    prefix_width: u16,
    maps: Seq<RowMap>,
    from: int,
    to: int,
    st: Clip,
)
    requires
        clear(maps, raw),
        0 <= from,
        0 <= st.claimed <= front(maps, raw, from),
    ensures
        extract::copy_rows(g, area, ss, raw, prefix_width, maps, from, to, st) is Some,
    decreases to + 1 - from,
{
    if from <= to {
        let row = area.y + from;
        let left = area.x as int;
        let right = source_map::row_last(area);
        let cols = selection::selected_columns(ss, left, right, row);
        law_clear_row_is_copied(
            g,
            row,
            cols,
            selection::row_taken(cols, left, right, maps, from),
            raw,
            maps,
            from,
            st,
        );
        let next = extract::copy_row_at(
            g,
            area,
            ss,
            raw,
            prefix_width,
            maps,
            from,
            st,
        ).unwrap();
        lemma_clear_rows_are_copied(
            g,
            area,
            ss,
            raw,
            prefix_width,
            maps,
            from + 1,
            to,
            next,
        );
    }
}

/// The raw text above the first selected row ends where the rows above it end, so that none of it
/// is copied with the selection: no further than they reach, and behind the text of each of them.
pub proof fn law_rows_above_are_left_out(maps: Seq<RowMap>, raw: Seq<char>, n: int, k: int)
    requires
        clear(maps, raw),
        0 <= k < n,
        k < maps.len(),
    ensures
        0 <= extract::claimed_before(maps, raw, n) <= front(maps, raw, n),
        maps[k] is Matched ==> maps[k]->raw_end <= extract::claimed_before(maps, raw, n),
        maps[k] is PatternMatched ==> maps[k]->end <= extract::claimed_before(maps, raw, n),
    decreases n,
{
    lemma_claimed_before(maps, raw, n);
    if n - 1 >= maps.len() {
        law_rows_above_are_left_out(maps, raw, n - 1, k);
    } else {
        assert(maps[n - 1].wf(raw.len() as int));
        assert(maps[k].wf(raw.len() as int));
        assert(begins_clear(maps, raw, n - 1));
        if let RowMap::Matched { matches, leading, raw_end, table } = maps[n - 1] {
            source_map::law_claim_on_own_line(raw_end, table, maps, n - 1, raw);
            if matches.len() > 1 {
                assert(matches[0].2 < matches[matches.len() - 1].2);
            }
        }
        if k < n - 1 {
            lemma_front_behind(maps, raw, n - 1, k);
            law_rows_above_are_left_out(maps, raw, n - 1, k);
        }
    }
}

/// The rows above reach at least as far as each of them.
proof fn lemma_front_behind(maps: Seq<RowMap>, raw: Seq<char>, n: int, k: int)
    requires
        source_map::maps_wf(maps, raw.len() as int),
        0 <= k < n,
        k < maps.len(),
    ensures
        maps[k] is Matched ==> maps[k]->raw_end <= front(maps, raw, n),
        maps[k] is PatternMatched ==> maps[k]->end <= front(maps, raw, n),
    decreases n,
{
    if k < n - 1 {
        lemma_front_behind(maps, raw, n - 1, k);
    } else {
        assert(maps[k].wf(raw.len() as int));
        if let RowMap::Matched { matches, leading, raw_end, table } = maps[k] {
            source_map::law_claim_on_own_line(raw_end, table, maps, k, raw);
        }
    }
}

/// The rows above the selection are done with no further than they reach.
pub proof fn lemma_claimed_before(maps: Seq<RowMap>, raw: Seq<char>, n: int)
    requires
        source_map::maps_wf(maps, raw.len() as int),
        0 <= n,
    ensures
        0 <= extract::claimed_before(maps, raw, n) <= front(maps, raw, n),
        extract::claimed_before(maps, raw, n) <= raw.len(),
    decreases n,
{
    if n > 0 {
        lemma_claimed_before(maps, raw, n - 1);
        if n <= maps.len() {
            assert(maps[n - 1].wf(raw.len() as int));
            if let RowMap::Matched { matches, leading, raw_end, table } = maps[n - 1] {
                source_map::law_claim_on_own_line(raw_end, table, maps, n - 1, raw);
                lines::lemma_line_end(raw, raw_end);
            }
        }
    }
}

/// Where every row begins behind the raw text of the rows above it, as in every message without
/// tables, any selection can be copied.
pub proof fn law_clear_selection_is_copied(
    g: Grid,
    area: Rect,
    ss: ScreenSelection,
    raw: Seq<char>,
    prefix_width: u16,
    maps: Seq<RowMap>,
)
    requires
        clear(maps, raw),
    ensures
        extract::extracted(g, area, ss, raw, prefix_width, maps) is Some,
{
    lemma_claimed_before(maps, raw, ss.start_row as int);
    lemma_clear_rows_are_copied(
        g,
        area,
        ss,
        raw,
        prefix_width,
        maps,
        ss.start_row as int,
        ss.end_row as int,
        Clip {
            out: Seq::empty(),
            first: true,
            claimed: extract::claimed_before(maps, raw, ss.start_row as int),
        },
    );
}

/// A selected row is done with once it has been passed, whether all, part or none of its characters
/// are selected: the raw text that is left for the rows below begins behind the row's characters, so
/// that none of them is copied with the row below. A row that is copied, in part or whole, is done
/// with up to where its raw text ends.
pub proof fn law_passed_row_is_done_with(
    g: Grid,
    row: int,
    cols: (int, int),
    taken: bool,
    raw: Seq<char>,
    maps: Seq<RowMap>,
    k: int,
    st: Clip,
)
    requires
        source_map::in_order(maps, raw),
        0 <= k < maps.len(),
    ensures
        extract::copy_row_of(g, row, cols, taken, raw, maps, k, st) matches Some(next) ==> {
            &&& maps[k] is PatternMatched ==> next.claimed == maps[k]->end
            &&& maps[k] is Matched ==> maps[k]->raw_end <= next.claimed
            &&& maps[k] is Matched && (taken || extract::picked(
                maps[k]->matches,
                cols,
                maps[k]->matches.len() as int,
            ) is Some) ==> next.claimed == row_claim(maps, raw, k)
        },
{
    assert(maps[k].wf(raw.len() as int));
    if maps[k] is Matched {
        let raw_end = maps[k]->raw_end;
        source_map::law_claim_on_own_line(raw_end, maps[k]->table, maps, k, raw);
        source_map::law_claim_on_own_line(raw_end, false, maps, k, raw);
        lemma_next_bound(maps, raw, k);
        syntax::law_closing_end(raw, raw_end, lines::line_end(raw, raw_end));
    }
}

/// Trimming spaces stops at a newline.
proof fn lemma_trim_stops(a: Seq<char>, b: Seq<char>)
    ensures
        a.push('\n').is_prefix_of(lines::trim_spaces(a.push('\n') + b)),
    decreases b.len(),
{
    let whole = a.push('\n') + b;
    if b.len() > 0 && b.last() == ' ' {
        assert(whole.drop_last() =~= a.push('\n') + b.drop_last());
        lemma_trim_stops(a, b.drop_last());
    } else {
        assert(whole.last() == (if b.len() > 0 {
            b.last()
        } else {
            '\n'
        }));
    }
}

/// What has been copied stays: a row only ever adds to the text of the rows above it.
pub proof fn law_copied_text_stays(
    g: Grid,
    row: int,
    cols: (int, int),
    taken: bool,
    raw: Seq<char>,
    maps: Seq<RowMap>,
    k: int,
    st: Clip,
)
    requires
        st.first ==> st.out.len() == 0,
    ensures
        extract::copy_row_of(g, row, cols, taken, raw, maps, k, st) matches Some(next)
            ==> st.out.is_prefix_of(next.out),
{
    if 0 <= k < maps.len() && maps[k] is Synthetic && !st.first {
        let drawn = extract::shown(g, row, cols);
        assert(st.out + extract::row_break(st.first) + drawn =~= st.out.push('\n') + drawn);
        lemma_trim_stops(st.out, drawn);
    }
}

/// The columns of the characters of a row lie between those it was read from.
pub proof fn lemma_row_chars_columns(g: Grid, row: int, col: int, end: int, i: int)
    requires
        0 <= col,
        end <= u16::MAX,
        0 <= i < scrape::row_chars(g, row, col, end).len(),
    ensures
        col <= scrape::row_chars(g, row, col, end)[i].0 <= end,
    decreases
            if col > end {
                0
            } else {
                end + 1 - col
            },
{
    let cell = g.sym(col, row);
    if col <= end && i >= cell.len() {
        lemma_row_chars_columns(
            g,
            row,
            scrape::next_column(col, cell),
            end,
            i - cell.len(),
        );
    }
}

/// A cell of a table is read without the spaces around it: its text neither begins nor ends with
/// one, and is a stretch of what is drawn between the borders, with the spaces inside it kept.
pub proof fn law_cells_are_trimmed(g: Grid, row: int, col: int, bar: int)
    ensures
        ({
            let drawn = scrape::row_chars(g, row, col, bar - 1);
            let cell = scrape::cell_text(g, row, col, bar);
            &&& cell.len() > 0 ==> cell[0].1 != ' ' && cell.last().1 != ' '
            &&& exists|from: int, to: int|
                0 <= from <= to <= drawn.len() && cell == #[trigger] drawn.subrange(from, to) && (
                forall|i: int|
                    0 <= i < from || to <= i < drawn.len() ==> (#[trigger] drawn[i]).1 == ' ')
        }),
{
    let drawn = scrape::row_chars(g, row, col, bar - 1);
    let head = scrape::trim_tagged(drawn);
    let cell = scrape::cell_text(g, row, col, bar);
    lemma_trim_tagged_end(drawn);
    lemma_trim_front_start(head);
    let from = head.len() - cell.len();
    assert(cell =~= drawn.subrange(from, head.len() as int));
    assert forall|i: int| 0 <= i < from implies (#[trigger] drawn[i]).1 == ' ' by {
        assert(head[i].1 == ' ');
    }
}

/// What is trimmed off the end are spaces, and all of them.
pub proof fn lemma_trim_tagged_end(s: Seq<(u16, char)>)
    ensures
        ({
            let kept = scrape::trim_tagged(s);
            &&& kept.len() <= s.len()
            &&& kept == s.take(kept.len() as int)
            &&& kept.len() > 0 ==> kept.last().1 != ' '
            &&& forall|i: int| kept.len() <= i < s.len() ==> (#[trigger] s[i]).1 == ' '
        }),
    decreases s.len(),
{
    if s.len() > 0 && s.last().1 == ' ' {
        lemma_trim_tagged_end(s.drop_last());
        let kept = scrape::trim_tagged(s);
        assert(s.take(kept.len() as int) =~= s.drop_last().take(kept.len() as int));
        assert forall|i: int| kept.len() <= i < s.len() implies (#[trigger] s[i]).1 == ' ' by {
            if i < s.len() - 1 {
                assert(s.drop_last()[i].1 == ' ');
            }
        }
    } else {
        assert(s.take(s.len() as int) =~= s);
    }
}

/// What is trimmed off the front are spaces, and all of them.
pub proof fn lemma_trim_front_start(s: Seq<(u16, char)>)
    ensures
        ({
            let kept = scrape::trim_front(s);
            &&& kept.len() <= s.len()
            &&& kept == s.skip(s.len() - kept.len())
            &&& kept.len() > 0 ==> kept[0].1 != ' '
            &&& forall|i: int| 0 <= i < s.len() - kept.len() ==> (#[trigger] s[i]).1 == ' '
        }),
    decreases s.len(),
{
    if s.len() > 0 && s[0].1 == ' ' {
        let rest = s.skip(1);
        lemma_trim_front_start(rest);
        let kept = scrape::trim_front(s);
        assert(s.skip(s.len() - kept.len()) =~= rest.skip(rest.len() - kept.len()));
        assert forall|i: int| 0 <= i < s.len() - kept.len() implies (#[trigger] s[i]).1 == ' ' by {
            if i > 0 {
                assert(rest[i - 1].1 == ' ');
            }
        }
    } else {
        assert(s.skip(0) =~= s);
    }
}

/// The columns of the characters of a table row lie between those it was read from.
pub proof fn lemma_table_content_columns(
    g: Grid,
    row: int,
    start: int,
    end: int,
    theme: Theme,
    i: int,
)
    requires
        0 <= start,
        end <= u16::MAX,
        0 <= i < scrape::table_content(g, row, start, end, theme).len(),
    ensures
        start <= scrape::table_content(g, row, start, end, theme)[i].0 <= end,
    decreases
            if start > end {
                0
            } else {
                end + 1 - start
            },
{
    if start <= end {
        scrape::lemma_next_bar(g, row, start, end, theme);
        let bar = scrape::next_bar(g, row, start, end, theme);
        let cell = scrape::cell_text(g, row, start, bar);
        let all = scrape::row_chars(g, row, start, bar - 1);
        if i < cell.len() {
            lemma_trim_tagged_end(all);
            lemma_trim_front_start(scrape::trim_tagged(all));
            let at = i + scrape::trim_tagged(all).len() - cell.len();
            lemma_row_chars_columns(g, row, start, bar - 1, at);
        } else {
            lemma_table_content_columns(g, row, bar + 1, end, theme, i - cell.len());
        }
    }
}

/// The characters that are read out of a row keep columns of that row.
pub proof fn law_content_columns(
    g: Grid,
    row: int,
    start: int,
    end: int,
    theme: Theme,
    i: int,
)
    requires
        0 <= start,
        end <= u16::MAX,
        0 <= i < scrape::row_content(g, row, start, end, theme).len(),
    ensures
        start <= scrape::row_content(g, row, start, end, theme)[i].0 <= end,
{
    match scrape::row_kind(g, row, start, end, theme) {
        scrape::RowKind::Text { start: text } => {
            lemma_text_start(g, row, start, end);
            lemma_row_chars_columns(g, row, text, end, i);
        },
        scrape::RowKind::Border => {},
        scrape::RowKind::Table => {
            lemma_table_content_columns(g, row, start, end, theme, i);
        },
    }
}

/// The first column of a row that is not blank is not before the row.
proof fn lemma_first_inked_behind(g: Grid, row: int, col: int, end: int)
    requires
        col <= end + 1,
    ensures
        col <= scrape::first_inked(g, row, col, end),
    decreases end + 1 - col,
{
    if col <= end {
        lemma_first_inked_behind(g, row, col + 1, end);
    }
}

/// The text of a row does not begin before the row.
proof fn lemma_text_start(g: Grid, row: int, start: int, end: int)
    ensures
        start <= scrape::text_start(g, row, start, end),
{
    if start <= end {
        lemma_first_inked_behind(g, row, start, end);
    }
}

/// The characters of every matched row keep columns of that row.
proof fn lemma_map_columns(
    g: Grid,
    area: Rect,
    prefix_width: u16,
    raw: Seq<char>,
    theme: Theme,
    n: int,
    k: int,
    i: int,
)
    requires
        source_map::row_last(area) <= u16::MAX,
        0 <= k < n,
        ({
            let map = source_map::map_rows(g, area, prefix_width, raw, theme, n).0[k];
            map is Matched && 0 <= i < map->matches.len()
        }),
    ensures
        ({
            let map = source_map::map_rows(g, area, prefix_width, raw, theme, n).0[k];
            source_map::row_first(area, prefix_width, k) <= map->matches[i].0
                <= source_map::row_last(area)
        }),
    decreases n,
{
    source_map::law_maps_in_order(g, area, prefix_width, raw, theme, n - 1);
    if k < n - 1 {
        lemma_map_columns(g, area, prefix_width, raw, theme, n - 1, k, i);
    } else {
        let row = area.y + k;
        let start = source_map::row_first(area, prefix_width, k);
        let end = source_map::row_last(area);
        lemma_trim_tagged_end(scrape::row_content(g, row, start, end, theme));
        law_content_columns(g, row, start, end, theme, i);
    }
}

/// A row of a message that is neither the first nor the last row of the selection is copied whole.
pub proof fn law_inner_row_is_taken(
    g: Grid,
    area: Rect,
    prefix_width: u16,
    raw: Seq<char>,
    theme: Theme,
    ss: ScreenSelection,
    k: int,
)
    requires
        source_map::row_last(area) <= u16::MAX,
        area.x <= prefix_width,
        area.y + k != ss.start_row,
        area.y + k != ss.end_row,
    ensures
        ({
            let maps = source_map::map_rows(
                g,
                area,
                prefix_width,
                raw,
                theme,
                area.height as int,
            ).0;
            let left = area.x as int;
            let right = source_map::row_last(area);
            selection::row_taken(
                selection::selected_columns(ss, left, right, area.y + k),
                left,
                right,
                maps,
                k,
            )
        }),
{
    let n = area.height as int;
    let maps = source_map::map_rows(g, area, prefix_width, raw, theme, n).0;
    source_map::law_maps_in_order(g, area, prefix_width, raw, theme, n);
    if 0 <= k < maps.len() && maps[k] is Matched && maps[k]->matches.len() > 0 {
        let last = maps[k]->matches.len() - 1;
        lemma_map_columns(g, area, prefix_width, raw, theme, n, k, 0);
        lemma_map_columns(g, area, prefix_width, raw, theme, n, k, last);
    }
}

/// Of a segment that is selected whole, where markdown is asked for, its markdown is copied as it
/// is.
pub proof fn law_whole_segment_is_verbatim(
    seg: Segment,
    seg_start: int,
    width: u16,
    sel: Selection,
    msg_x: int,
    theme: Theme,
    rendered: Seq<char>,
)
    requires
        seg.height > 0,
        seg.lines@.len() > 0,
        seg.raw_text is Some,
        document::wholly_selected(seg.height as int, seg_start, width as int, sel, msg_x),
    ensures
        document::segment_copy(seg, seg_start, width, sel, msg_x, true, theme, rendered) == Some(
            seg.raw_text->0@,
        ),
{
}

/// Segments that lie outside the selection leave the copied text as it is.
pub proof fn law_outside_segments_add_nothing(
    segments: Seq<Segment>,
    width: u16,
    sel: Selection,
    msg_x: int,
    copy_markdown: bool,
    theme: Theme,
    rendered: Seq<String>,
    m: int,
    n: int,
)
    requires
        0 <= m <= n <= segments.len(),
        forall|i: int|
            m <= i < n ==> {
                let start = #[trigger] document::total_height(segments, i);
                start + segments[i].height <= sel.start.row || start > sel.end.row
            },
    ensures
        document::selection_text(
            segments,
            width,
            sel,
            msg_x,
            copy_markdown,
            theme,
            rendered,
            n,
        ) == document::selection_text(
            segments,
            width,
            sel,
            msg_x,
            copy_markdown,
            theme,
            rendered,
            m,
        ),
    decreases n,
{
    if m < n {
        law_outside_segments_add_nothing(
            segments,
            width,
            sel,
            msg_x,
            copy_markdown,
            theme,
            rendered,
            m,
            n - 1,
        );
        let start = document::total_height(segments, n - 1);
        assert(start + segments[n - 1].height <= sel.start.row || start > sel.end.row);
    }
}

/// A run of closing tokens does not reach across a paragraph break.
pub proof fn law_closing_stops_at_breaks(raw: Seq<char>, pos: int, bound: int, i: int)
    requires
        pos <= i,
        i + 1 < syntax::closing_end(raw, pos, bound),
        raw[i] == '\n',
    ensures
        raw[i + 1] != '\n',
    decreases bound - pos,
{
    let from = if raw[pos] == '\n' {
        pos + 1
    } else {
        pos
    };
    let n = syntax::closing_token(raw, from, bound);
    if i >= from + n {
        law_closing_stops_at_breaks(raw, from + n, bound, i);
    }
}

/// A row that is copied in part takes raw text behind that of the rows above it, and none behind
/// its own.
pub proof fn law_partial_row_stays_in_its_text(
    maps: Seq<RowMap>,
    raw: Seq<char>,
    k: int,
    cols: (int, int),
)
    requires
        clear(maps, raw),
        0 <= k < maps.len(),
        maps[k] is Matched,
        !maps[k]->table,
    ensures
        extract::picked(maps[k]->matches, cols, maps[k]->matches.len() as int) matches Some(
            (from, to),
        ) ==> front(maps, raw, k) <= from <= to < maps[k]->raw_end <= row_claim(maps, raw, k),
{
    let matches = maps[k]->matches;
    assert(maps[k].wf(raw.len() as int));
    assert(begins_clear(maps, raw, k));
    law_partial_row_takes_the_selected(matches, cols, matches.len() as int);
    source_map::law_claim_on_own_line(maps[k]->raw_end, false, maps, k, raw);
    if let Some((from, to)) = extract::picked(matches, cols, matches.len() as int) {
        let i = choose|i: int|
            0 <= i < matches.len() && cols.0 <= (#[trigger] matches[i]).0 <= cols.1 && matches[i].2
                == from;
        let j = choose|j: int|
            0 <= j < matches.len() && cols.0 <= (#[trigger] matches[j]).0 <= cols.1 && matches[j].2
                == to;
        if i > 0 {
            assert(matches[0].2 < matches[i].2);
        }
        if j < matches.len() - 1 {
            assert(matches[j].2 < matches[matches.len() - 1].2);
        }
    }
}

/// What has been copied stays, however many rows follow.
pub proof fn law_copied_rows_stay(
    g: Grid,
    area: Rect,
    ss: ScreenSelection,
    raw: Seq<char>,
    prefix_width: u16,
    maps: Seq<RowMap>,
    from: int,
    to: int,
    st: Clip,
)
    requires
        st.first ==> st.out.len() == 0,
    ensures
        extract::copy_rows(g, area, ss, raw, prefix_width, maps, from, to, st) matches Some(done)
            ==> st.out.is_prefix_of(done.out),
    decreases to + 1 - from,
{
    if from <= to {
        let row = area.y + from;
        let left = area.x as int;
        let right = source_map::row_last(area);
        let cols = selection::selected_columns(ss, left, right, row);
        let taken = selection::row_taken(cols, left, right, maps, from);
        law_copied_text_stays(g, row, cols, taken, raw, maps, from, st);
        if let Some(next) = extract::copy_row_at(g, area, ss, raw, prefix_width, maps, from, st) {
            law_copied_rows_stay(g, area, ss, raw, prefix_width, maps, from + 1, to, next);
        }
    }
}

/// The window of a selected segment holds exactly its selected rows.
pub proof fn law_window_holds_selected_rows(
    height: int,
    seg_start: int,
    width: int,
    sel: Selection,
    msg_x: int,
    row: int,
)
    requires
        0 < height <= u16::MAX,
        0 <= seg_start <= sel.end.row,
        sel.start.row < seg_start + height,
        seg_start <= row < seg_start + height,
    ensures
        ({
            let ss = document::window_of(height, seg_start, width, sel, msg_x).ss;
            (sel.start.row <= row <= sel.end.row) == (ss.start_row <= row - seg_start
                <= ss.end_row)
        }),
{
}

/// The characters of `s` that are not white space.
pub open spec fn ink(s: Seq<char>) -> Seq<char>
    decreases s.len(),
{
    if s.len() == 0 {
        Seq::empty()
    } else if lines::is_white_space(s.last()) {
        ink(s.drop_last())
    } else {
        ink(s.drop_last()).push(s.last())
    }
}

/// The text of two pieces put together is that of the one and then that of the other.
proof fn lemma_ink_add(a: Seq<char>, b: Seq<char>)
    ensures
        ink(a + b) == ink(a) + ink(b),
    decreases b.len(),
{
    if b.len() == 0 {
        assert(a + b =~= a);
    } else {
        assert((a + b).drop_last() =~= a + b.drop_last());
        lemma_ink_add(a, b.drop_last());
    }
}

/// White space holds no text.
proof fn lemma_white_has_no_ink(s: Seq<char>)
    requires
        !gap::inked(s),
    ensures
        ink(s) == Seq::<char>::empty(),
    decreases s.len(),
{
    if s.len() > 0 {
        assert(lines::is_white_space(s[s.len() - 1]));
        assert forall|i: int| 0 <= i < s.drop_last().len() implies lines::is_white_space(
            #[trigger] s.drop_last()[i],
        ) by {
            assert(lines::is_white_space(s[i]));
        }
        lemma_white_has_no_ink(s.drop_last());
    }
}

/// Whether nothing but white space is lost with a gap: it stays on one line, or holds nothing else.
pub open spec fn harmless(gap: Seq<char>) -> bool {
    !gap.contains('\n') || !gap::inked(gap)
}

/// What is copied for a gap holds the same text as the gap, but for white space.
pub proof fn law_gap_keeps_its_ink(gap: Seq<char>, first: bool)
    requires
        harmless(gap),
    ensures
        ink(gap::inter_gap_text(gap, first)) == ink(gap),
{
    if !gap::inked(gap) {
        lemma_white_has_no_ink(gap);
        if gap.contains('\n') {
            gap::law_crossing_gap_is_white(gap, first);
        }
        let text = gap::inter_gap_text(gap, first);
        assert(!gap::inked(text)) by {
            assert(!gap.contains('\n') ==> text == gap || text.len() <= 1);
        }
        lemma_white_has_no_ink(text);
    }
}

/// Where the raw text between the rows above the `k`-th row and the row itself ends, once the row
/// is copied whole.
pub open spec fn row_begin(maps: Seq<RowMap>, raw: Seq<char>, k: int, claimed: int) -> int {
    match maps[k] {
        RowMap::Matched { matches, leading, raw_end, table } => extract::row_span(
            matches,
            leading,
            raw_end,
            table,
            maps,
            k,
            raw,
            claimed,
        ).inter_end,
        RowMap::PatternMatched { start, end } => start,
        RowMap::Synthetic => claimed,
    }
}

/// A row that is copied whole adds all the text that the raw markdown holds from where the rows
/// above it end to where it ends itself, but for white space.
pub proof fn law_whole_row_keeps_its_ink(
    g: Grid,
    row: int,
    cols: (int, int),
    raw: Seq<char>,
    maps: Seq<RowMap>,
    k: int,
    st: Clip,
)
    requires
        source_map::maps_wf(maps, raw.len() as int),
        0 <= k < maps.len(),
        !(maps[k] is Synthetic),
        0 <= st.claimed,
        harmless(raw.subrange(st.claimed, row_begin(maps, raw, k, st.claimed))),
    ensures
        extract::copy_row_of(g, row, cols, true, raw, maps, k, st) matches Some(next) ==> ink(
            next.out,
        ) == ink(st.out) + ink(raw.subrange(st.claimed, next.claimed)),
{
    assert(maps[k].wf(raw.len() as int));
    if let RowMap::Matched { matches, leading, raw_end, table } = maps[k] {
        extract::lemma_row_span(matches, leading, raw_end, table, maps, k, raw, st.claimed);
    }
    if let Some(next) = extract::copy_row_of(g, row, cols, true, raw, maps, k, st) {
        let begin = row_begin(maps, raw, k, st.claimed);
        let between = raw.subrange(st.claimed, begin);
        let own = raw.subrange(begin, next.claimed);
        let text = gap::inter_gap_text(between, st.first);
        assert(next.out == st.out + text + own);
        assert(raw.subrange(st.claimed, next.claimed) =~= between + own);
        law_gap_keeps_its_ink(between, st.first);
        lemma_ink_add(st.out + text, own);
        lemma_ink_add(st.out, text);
        lemma_ink_add(between, own);
        assert(ink(next.out) =~= ink(st.out) + ink(raw.subrange(st.claimed, next.claimed)));
    }
}

/// Whether every row from `from` to `to` that is not blank comes from the raw text, is selected
/// whole and can be copied, with nothing but white space lost before it.
pub open spec fn whole_rows(
    g: Grid,
    area: Rect,
    ss: ScreenSelection,
    raw: Seq<char>,
    prefix_width: u16,
    maps: Seq<RowMap>,
    from: int,
    to: int,
    st: Clip,
) -> bool
    decreases to + 1 - from,
{
    let row = area.y + from;
    let left = area.x as int;
    let right = source_map::row_last(area);
    let cols = selection::selected_columns(ss, left, right, row);
    let first = source_map::row_first(area, prefix_width, from);
    from <= to ==> {
        &&& !scrape::blank(g, row, first, right) ==> {
            &&& 0 <= from < maps.len()
            &&& !(maps[from] is Synthetic)
            &&& selection::row_taken(cols, left, right, maps, from)
            &&& harmless(raw.subrange(st.claimed, row_begin(maps, raw, from, st.claimed)))
        }
        &&& extract::copy_row_at(g, area, ss, raw, prefix_width, maps, from, st) matches Some(next)
            && whole_rows(g, area, ss, raw, prefix_width, maps, from + 1, to, next)
    }
}

/// Rows that are copied whole, one below the other, give back all the raw text they take up, but
/// for white space: nothing is lost, nothing is added, nothing changes its place.
pub proof fn law_whole_rows_keep_their_ink(
    g: Grid,
    area: Rect,
    ss: ScreenSelection,
    raw: Seq<char>,
    prefix_width: u16,
    maps: Seq<RowMap>,
    from: int,
    to: int,
    st: Clip,
)
    requires
        source_map::maps_wf(maps, raw.len() as int),
        0 <= st.claimed <= raw.len(),
        whole_rows(g, area, ss, raw, prefix_width, maps, from, to, st),
    ensures
        extract::copy_rows(g, area, ss, raw, prefix_width, maps, from, to, st) matches Some(done)
            && st.claimed <= done.claimed <= raw.len() && ink(done.out) == ink(st.out) + ink(
            raw.subrange(st.claimed, done.claimed),
        ),
    decreases to + 1 - from,
{
    if from > to {
        assert(raw.subrange(st.claimed, st.claimed) =~= Seq::empty());
        assert(ink(st.out) + ink(raw.subrange(st.claimed, st.claimed)) =~= ink(st.out));
    } else {
        let row = area.y + from;
        let left = area.x as int;
        let right = source_map::row_last(area);
        let cols = selection::selected_columns(ss, left, right, row);
        let next = extract::copy_row_at(
            g,
            area,
            ss,
            raw,
            prefix_width,
            maps,
            from,
            st,
        ).unwrap();
        if scrape::blank(g, row, source_map::row_first(area, prefix_width, from), right) {
            law_whole_rows_keep_their_ink(
                g,
                area,
                ss,
                raw,
                prefix_width,
                maps,
                from + 1,
                to,
                st,
            );
        } else {
            assert(maps[from].wf(raw.len() as int));
            if let RowMap::Matched { matches, leading, raw_end, table } = maps[from] {
                extract::lemma_row_span(
                    matches,
                    leading,
                    raw_end,
                    table,
                    maps,
                    from,
                    raw,
                    st.claimed,
                );
            }
            law_whole_row_keeps_its_ink(g, row, cols, raw, maps, from, st);
            law_whole_rows_keep_their_ink(
                g,
                area,
                ss,
                raw,
                prefix_width,
                maps,
                from + 1,
                to,
                next,
            );
            let done = extract::copy_rows(
                g,
                area,
                ss,
                raw,
                prefix_width,
                maps,
                from + 1,
                to,
                next,
            ).unwrap();
            let here = raw.subrange(st.claimed, next.claimed);
            let below = raw.subrange(next.claimed, done.claimed);
            assert(raw.subrange(st.claimed, done.claimed) =~= here + below);
            lemma_ink_add(here, below);
            assert(ink(st.out) + ink(here) + ink(below) =~= ink(st.out) + (ink(here) + ink(
                below,
            )));
        }
    }
}

/// The markdown of any selection in a segment can be copied where none of the segment's rows is a
/// row of a table.
pub proof fn law_tableless_segment_is_copied(
    g: Grid,
    width: u16,
    height: u16,
    ss: ScreenSelection,
    raw: Seq<char>,
    prefix_width: u16,
    theme: Theme,
)
    requires
        height > 0,
        ({
            let area = Rect { x: 0, y: 0, width, height };
            forall|k: int|
                0 <= k < height ==> !(#[trigger] scrape::row_kind(
                    g,
                    k,
                    source_map::row_first(area, prefix_width, k),
                    source_map::row_last(area),
                    theme,
                ) is Table)
        }),
    ensures
        document::segment_text(g, width, height, ss, raw, prefix_width, theme) is Some,
{
    let area = Rect { x: 0, y: 0, width, height };
    let n = height as int;
    source_map::law_maps_in_order(g, area, prefix_width, raw, theme, n);
    let maps = source_map::map_rows(g, area, prefix_width, raw, theme, n).0;
    assert forall|k: int| 0 <= k < maps.len() && #[trigger] maps[k] is Matched implies !maps[k]->table
        by {
        lemma_map_table(g, area, prefix_width, raw, theme, n, k);
    }
    law_tableless_rows_are_clear(maps, raw);
    law_clear_selection_is_copied(g, area, ss, raw, prefix_width, maps);
}

/// A row is mapped as a row of a table only where it is drawn as one.
proof fn lemma_map_table(
    g: Grid,
    area: Rect,
    prefix_width: u16,
    raw: Seq<char>,
    theme: Theme,
    n: int,
    k: int,
)
    requires
        0 <= k < n,
    ensures
        ({
            let map = source_map::map_rows(g, area, prefix_width, raw, theme, n).0[k];
            map is Matched ==> map->table == (scrape::row_kind(
                g,
                area.y + k,
                source_map::row_first(area, prefix_width, k),
                source_map::row_last(area),
                theme,
            ) is Table)
        }),
    decreases n,
{
    source_map::law_maps_in_order(g, area, prefix_width, raw, theme, n - 1);
    if k < n - 1 {
        lemma_map_table(g, area, prefix_width, raw, theme, n - 1, k);
    }
}

/// Which way a selection was dragged makes no difference: either way it is the same selection in
/// order, and ordering it again changes nothing.
pub proof fn law_drag_direction_does_not_matter(a: DocPos, b: DocPos)
    ensures
        (Selection { start: a, end: b }).ordered() == (Selection { start: b, end: a }).ordered(),
        (Selection { start: a, end: b }).ordered().ordered() == (Selection {
            start: a,
            end: b,
        }).ordered(),
{
}

/// Segments with equal heights begin in equal rows.
proof fn lemma_equal_heights(a: Seq<Segment>, b: Seq<Segment>, n: int)
    requires
        0 <= n <= a.len(),
        a.len() == b.len(),
        forall|i: int| 0 <= i < a.len() ==> (#[trigger] a[i]).height == (#[trigger] b[i]).height,
    ensures
        document::total_height(a, n) == document::total_height(b, n),
    decreases n,
{
    if n > 0 {
        lemma_equal_heights(a, b, n - 1);
        assert(a[n - 1].height == b[n - 1].height);
    }
}

/// Where markdown is not asked for, it is not looked at: conversations that differ only in their
/// markdown, in whether it can be traced and in their prefixes give the same copy.
pub proof fn law_rendered_copy_ignores_markdown(
    a: Seq<Segment>,
    b: Seq<Segment>,
    width: u16,
    sel: Selection,
    msg_x: int,
    theme: Theme,
    rendered: Seq<String>,
    n: int,
)
    requires
        0 <= n <= a.len(),
        a.len() == b.len(),
        forall|i: int|
            0 <= i < a.len() ==> (#[trigger] a[i]).height == (#[trigger] b[i]).height && a[i].lines@
                == b[i].lines@,
    ensures
        document::selection_text(a, width, sel.ordered(), msg_x, false, theme, rendered, n)
            == document::selection_text(b, width, sel.ordered(), msg_x, false, theme, rendered, n),
    decreases n,
{
    if n > 0 {
        law_rendered_copy_ignores_markdown(a, b, width, sel, msg_x, theme, rendered, n - 1);
        lemma_equal_heights(a, b, n - 1);
        assert(a[n - 1].height == b[n - 1].height && a[n - 1].lines@ == b[n - 1].lines@);
    }
}

/// Whether a row of the `i`-th segment is selected, where the selection `sel` is in order.
pub open spec fn touched(segments: Seq<Segment>, sel: Selection, i: int) -> bool {
    let start = document::total_height(segments, i);
    sel.start.row < start + segments[i].height && start <= sel.end.row
}

/// What is copied depends on the selected segments and on where they lie alone, and not on which way
/// the selection was dragged: two conversations with equal heights and equal segments in the
/// selected rows give the same copy.
pub proof fn law_copy_depends_on_selected_segments(
    a: Seq<Segment>,
    b: Seq<Segment>,
    width: u16,
    sel_a: Selection,
    sel_b: Selection,
    msg_x: int,
    copy_markdown: bool,
    theme: Theme,
    rendered_a: Seq<String>,
    rendered_b: Seq<String>,
    n: int,
)
    requires
        0 <= n <= a.len(),
        a.len() == b.len(),
        sel_a.ordered() == sel_b.ordered(),
        forall|i: int| 0 <= i < a.len() ==> (#[trigger] a[i]).height == (#[trigger] b[i]).height,
        forall|i: int|
            0 <= i < a.len() && #[trigger] touched(a, sel_a.ordered(), i) ==> a[i] == b[i]
                && rendered_a[i]@ == rendered_b[i]@,
    ensures
        document::selection_text(
            a,
            width,
            sel_a.ordered(),
            msg_x,
            copy_markdown,
            theme,
            rendered_a,
            n,
        ) == document::selection_text(
            b,
            width,
            sel_b.ordered(),
            msg_x,
            copy_markdown,
            theme,
            rendered_b,
            n,
        ),
    decreases n,
{
    if n > 0 {
        law_copy_depends_on_selected_segments(
            a,
            b,
            width,
            sel_a,
            sel_b,
            msg_x,
            copy_markdown,
            theme,
            rendered_a,
            rendered_b,
            n - 1,
        );
        lemma_equal_heights(a, b, n - 1);
        assert(a[n - 1].height == b[n - 1].height);
        let sel = sel_a.ordered();
        let start = document::total_height(a, n - 1);
        if !touched(a, sel, n - 1) {
            assert(document::plan_of(a[n - 1], start, width as int, sel, msg_x, copy_markdown)
                is Outside);
            assert(document::plan_of(b[n - 1], start, width as int, sel, msg_x, copy_markdown)
                is Outside);
        }
    }
}

/// `s` without its newlines.
pub open spec fn unbroken(s: Seq<char>) -> Seq<char>
    decreases s.len(),
{
    if s.len() == 0 {
        Seq::empty()
    } else if s.last() == '\n' {
        unbroken(s.drop_last())
    } else {
        unbroken(s.drop_last()).push(s.last())
    }
}

/// Whether the characters of `text` stand in `raw` between `lo` and `hi`, in order and each at a
/// place of its own.
pub open spec fn taken_from(raw: Seq<char>, lo: int, hi: int, text: Seq<char>) -> bool {
    exists|found: Seq<int>| #[trigger] matching::is_embedding(raw.take(hi), lo, text, found)
}

/// Newlines are left out of two pieces as they are left out of each.
proof fn lemma_unbroken_add(a: Seq<char>, b: Seq<char>)
    ensures
        unbroken(a + b) == unbroken(a) + unbroken(b),
    decreases b.len(),
{
    if b.len() == 0 {
        assert(a + b =~= a);
    } else {
        assert((a + b).drop_last() =~= a + b.drop_last());
        lemma_unbroken_add(a, b.drop_last());
    }
}

/// Nothing stands anywhere.
proof fn lemma_taken_empty(raw: Seq<char>, lo: int, hi: int)
    ensures
        taken_from(raw, lo, hi, Seq::empty()),
{
    assert(matching::is_embedding(raw.take(hi), lo, Seq::empty(), Seq::empty()));
}

/// Texts from neighbouring stretches stand, one behind the other, in the two stretches together.
proof fn lemma_taken_add(
    raw: Seq<char>,
    lo: int,
    mid: int,
    hi: int,
    a: Seq<char>,
    b: Seq<char>,
)
    requires
        0 <= lo <= mid <= hi <= raw.len(),
        taken_from(raw, lo, mid, a),
        taken_from(raw, mid, hi, b),
    ensures
        taken_from(raw, lo, hi, a + b),
{
    let p = choose|p: Seq<int>| #[trigger] matching::is_embedding(raw.take(mid), lo, a, p);
    let q = choose|q: Seq<int>| #[trigger] matching::is_embedding(raw.take(hi), mid, b, q);
    let both = p + q;
    assert forall|i: int| 0 <= i < both.len() implies lo <= #[trigger] both[i] < raw.take(hi).len()
        && raw.take(hi)[both[i]] == (a + b)[i] by {
        if i < p.len() {
            assert(both[i] == p[i]);
            assert(raw.take(mid)[p[i]] == a[i]);
        } else {
            assert(both[i] == q[i - p.len()]);
        }
    }
    assert forall|i: int, j: int| 0 <= i < j < both.len() implies both[i] < both[j] by {
        if j < p.len() {
            assert(p[i] < p[j]);
        } else if i < p.len() {
            assert(p[i] < mid <= q[j - p.len()]);
        } else {
            assert(q[i - p.len()] < q[j - p.len()]);
        }
    }
    assert(matching::is_embedding(raw.take(hi), lo, a + b, both));
}

/// A stretch of the raw text, without its newlines, stands in that stretch.
proof fn lemma_taken_piece(raw: Seq<char>, lo: int, hi: int)
    requires
        0 <= lo <= hi <= raw.len(),
    ensures
        taken_from(raw, lo, hi, unbroken(raw.subrange(lo, hi))),
    decreases hi - lo,
{
    let piece = raw.subrange(lo, hi);
    lemma_taken_empty(raw, lo, hi);
    if lo < hi {
        assert(piece.drop_last() =~= raw.subrange(lo, hi - 1));
        assert(piece.last() == raw[hi - 1]);
        lemma_taken_piece(raw, lo, hi - 1);
        let last: Seq<char> = if piece.last() == '\n' {
            Seq::empty()
        } else {
            seq![piece.last()]
        };
        lemma_taken_empty(raw, hi - 1, hi);
        if piece.last() != '\n' {
            assert(matching::is_embedding(raw.take(hi), hi - 1, last, seq![hi - 1]));
        }
        lemma_taken_add(raw, lo, hi - 1, hi, unbroken(piece.drop_last()), last);
        assert(unbroken(piece) =~= unbroken(piece.drop_last()) + last);
    } else {
        assert(unbroken(piece) =~= Seq::empty());
    }
}

/// What is copied for a gap stands in the gap, but for newlines.
proof fn lemma_taken_gap(raw: Seq<char>, lo: int, hi: int, first: bool)
    requires
        0 <= lo <= hi <= raw.len(),
    ensures
        taken_from(raw, lo, hi, unbroken(gap::inter_gap_text(raw.subrange(lo, hi), first))),
{
    let whole = raw.subrange(lo, hi);
    let text = gap::inter_gap_text(whole, first);
    gap::lemma_tail_start(whole, whole.len() as int);
    let tail = if whole.contains('\n') {
        gap::tail_start(whole, whole.len() as int)
    } else {
        0
    };
    let kept = whole.subrange(tail, whole.len() as int);
    assert(kept =~= raw.subrange(lo + tail, hi));
    assert(whole.subrange(0, whole.len() as int) =~= whole);
    assert(text == gap::gap_text(kept, first));
    lemma_taken_empty(raw, lo, hi);
    lemma_taken_empty(raw, lo, lo + tail);
    lemma_taken_piece(raw, lo + tail, hi);
    lemma_taken_add(raw, lo, lo + tail, hi, Seq::empty(), unbroken(kept));
    assert(Seq::<char>::empty() + unbroken(kept) =~= unbroken(kept));
    if text != kept {
        assert(text.len() <= 1 && (text.len() == 1 ==> text[0] == '\n'));
        assert(text.len() == 1 ==> text.drop_last() =~= Seq::empty());
        reveal_with_fuel(unbroken, 2);
        assert(unbroken(text) =~= Seq::empty());
    }
}

/// Whether the `k`-th row, which is not blank, is copied from the raw text behind `claimed`: it
/// comes from there, a rule or a separator is selected whole, and where the row is copied in part,
/// that part lies behind `claimed`.
pub open spec fn row_from_raw(
    cols: (int, int),
    taken: bool,
    maps: Seq<RowMap>,
    k: int,
    claimed: int,
) -> bool {
    &&& 0 <= k < maps.len()
    &&& match maps[k] {
        RowMap::Matched { matches, leading, raw_end, table } => taken || (extract::picked(
            matches,
            cols,
            matches.len() as int,
        ) matches Some((from, _)) ==> claimed <= from),
        RowMap::PatternMatched { start, end } => taken,
        RowMap::Synthetic => false,
    }
}

/// A row that is copied from the raw text adds text from behind what has been copied, but for
/// newlines.
proof fn lemma_row_taken_from_raw(
    g: Grid,
    row: int,
    cols: (int, int),
    taken: bool,
    raw: Seq<char>,
    maps: Seq<RowMap>,
    k: int,
    lo: int,
    st: Clip,
)
    requires
        source_map::maps_wf(maps, raw.len() as int),
        0 <= lo <= st.claimed <= raw.len(),
        row_from_raw(cols, taken, maps, k, st.claimed),
        taken_from(raw, lo, st.claimed, unbroken(st.out)),
    ensures
        extract::copy_row_of(g, row, cols, taken, raw, maps, k, st) matches Some(next) ==> {
            &&& st.claimed <= next.claimed <= raw.len()
            &&& taken_from(raw, lo, next.claimed, unbroken(next.out))
        },
{
    assert(maps[k].wf(raw.len() as int));
    if let RowMap::Matched { matches, leading, raw_end, table } = maps[k] {
        source_map::law_claim_on_own_line(raw_end, table, maps, k, raw);
        source_map::law_claim_on_own_line(raw_end, false, maps, k, raw);
        lines::lemma_line_end(raw, raw_end);
        extract::lemma_row_span(matches, leading, raw_end, table, maps, k, raw, st.claimed);
        law_partial_row_takes_the_selected(matches, cols, matches.len() as int);
    }
    if let Some(next) = extract::copy_row_of(g, row, cols, taken, raw, maps, k, st) {
        if taken {
            let begin = row_begin(maps, raw, k, st.claimed);
            let text = gap::inter_gap_text(raw.subrange(st.claimed, begin), st.first);
            let own = raw.subrange(begin, next.claimed);
            assert(next.out == st.out + text + own);
            lemma_taken_gap(raw, st.claimed, begin, st.first);
            lemma_taken_piece(raw, begin, next.claimed);
            lemma_taken_add(raw, lo, st.claimed, begin, unbroken(st.out), unbroken(text));
            lemma_unbroken_add(st.out, text);
            lemma_taken_add(raw, lo, begin, next.claimed, unbroken(st.out + text), unbroken(own));
            lemma_unbroken_add(st.out + text, own);
        } else {
            let matches = maps[k]->matches;
            let last = matches.len() - 1;
            match extract::picked(matches, cols, matches.len() as int) {
                Some((from, to)) => {
                    let j = choose|j: int|
                        0 <= j < matches.len() && cols.0 <= (#[trigger] matches[j]).0 <= cols.1
                            && matches[j].2 == to;
                    if j < last {
                        assert(matches[j].2 < matches[last].2);
                    }
                    let line = extract::row_break(st.first);
                    let own = raw.subrange(from, to + 1);
                    assert(unbroken(line) =~= Seq::empty()) by {
                        reveal_with_fuel(unbroken, 2);
                    }
                    lemma_unbroken_add(st.out, line);
                    lemma_unbroken_add(st.out + line, own);
                    assert(unbroken(next.out) =~= unbroken(st.out) + unbroken(own));
                    lemma_taken_empty(raw, st.claimed, from);
                    lemma_taken_add(
                        raw,
                        lo,
                        st.claimed,
                        from,
                        unbroken(st.out),
                        Seq::empty(),
                    );
                    assert(unbroken(st.out) + Seq::<char>::empty() =~= unbroken(st.out));
                    lemma_taken_piece(raw, from, to + 1);
                    lemma_taken_add(raw, lo, from, to + 1, unbroken(st.out), unbroken(own));
                    lemma_taken_later(raw, lo, to + 1, next.claimed, unbroken(next.out));
                },
                None => {
                    lemma_taken_later(raw, lo, st.claimed, next.claimed, unbroken(st.out));
                },
            }
        }
    }
}

/// What stands in a stretch stands in a longer one.
proof fn lemma_taken_later(raw: Seq<char>, lo: int, mid: int, hi: int, text: Seq<char>)
    requires
        0 <= lo <= mid <= hi <= raw.len(),
        taken_from(raw, lo, mid, text),
    ensures
        taken_from(raw, lo, hi, text),
{
    lemma_taken_empty(raw, mid, hi);
    lemma_taken_add(raw, lo, mid, hi, text, Seq::empty());
    assert(text + Seq::<char>::empty() =~= text);
}

/// Whether every row from `from` to `to` that is not blank is copied from the raw text behind that
/// of the rows above it.
pub open spec fn rows_from_raw(
    g: Grid,
    area: Rect,
    ss: ScreenSelection,
    raw: Seq<char>,
    prefix_width: u16,
    maps: Seq<RowMap>,
    from: int,
    to: int,
    st: Clip,
) -> bool
    decreases to + 1 - from,
{
    let row = area.y + from;
    let left = area.x as int;
    let right = source_map::row_last(area);
    let cols = selection::selected_columns(ss, left, right, row);
    let taken = selection::row_taken(cols, left, right, maps, from);
    let first = source_map::row_first(area, prefix_width, from);
    from <= to ==> {
        &&& !scrape::blank(g, row, first, right) ==> row_from_raw(
            cols,
            taken,
            maps,
            from,
            st.claimed,
        )
        &&& extract::copy_row_at(g, area, ss, raw, prefix_width, maps, from, st) matches Some(next)
            ==> rows_from_raw(g, area, ss, raw, prefix_width, maps, from + 1, to, next)
    }
}

/// Rows that are copied from the raw text, whole or in part, give a text that stands in the raw
/// text, but for newlines: in order, and nothing twice.
pub proof fn law_rows_are_taken_in_order(
    g: Grid,
    area: Rect,
    ss: ScreenSelection,
    raw: Seq<char>,
    prefix_width: u16,
    maps: Seq<RowMap>,
    from: int,
    to: int,
    lo: int,
    st: Clip,
)
    requires
        source_map::maps_wf(maps, raw.len() as int),
        0 <= lo <= st.claimed <= raw.len(),
        taken_from(raw, lo, st.claimed, unbroken(st.out)),
        rows_from_raw(g, area, ss, raw, prefix_width, maps, from, to, st),
    ensures
        extract::copy_rows(g, area, ss, raw, prefix_width, maps, from, to, st) matches Some(done)
            ==> {
            &&& st.claimed <= done.claimed <= raw.len()
            &&& taken_from(raw, lo, done.claimed, unbroken(done.out))
        },
    decreases to + 1 - from,
{
    if from <= to {
        let row = area.y + from;
        let left = area.x as int;
        let right = source_map::row_last(area);
        let cols = selection::selected_columns(ss, left, right, row);
        let taken = selection::row_taken(cols, left, right, maps, from);
        if let Some(next) = extract::copy_row_at(g, area, ss, raw, prefix_width, maps, from, st) {
            if !scrape::blank(g, row, source_map::row_first(area, prefix_width, from), right) {
                lemma_row_taken_from_raw(g, row, cols, taken, raw, maps, from, lo, st);
            }
            law_rows_are_taken_in_order(
                g,
                area,
                ss,
                raw,
                prefix_width,
                maps,
                from + 1,
                to,
                lo,
                next,
            );
        }
    }
}

/// The copy of a selection before its first row.
pub open spec fn nothing_copied(maps: Seq<RowMap>, raw: Seq<char>, ss: ScreenSelection) -> Clip {
    Clip {
        out: Seq::empty(),
        first: true,
        claimed: extract::claimed_before(maps, raw, ss.start_row as int),
    }
}

/// The copy of a selection whose rows come from the raw text, whole or in part, stands in the raw
/// text behind the rows above the selection, but for newlines: in order, and nothing twice.
pub proof fn law_copy_is_taken_in_order(
    g: Grid,
    area: Rect,
    ss: ScreenSelection,
    raw: Seq<char>,
    prefix_width: u16,
    maps: Seq<RowMap>,
)
    requires
        source_map::maps_wf(maps, raw.len() as int),
        rows_from_raw(
            g,
            area,
            ss,
            raw,
            prefix_width,
            maps,
            ss.start_row as int,
            ss.end_row as int,
            nothing_copied(maps, raw, ss),
        ),
    ensures
        extract::extracted(g, area, ss, raw, prefix_width, maps) matches Some(text) ==> taken_from(
            raw,
            extract::claimed_before(maps, raw, ss.start_row as int),
            raw.len() as int,
            unbroken(text),
        ),
{
    let st = nothing_copied(maps, raw, ss);
    let from = ss.start_row as int;
    let to = ss.end_row as int;
    lemma_claimed_before(maps, raw, from);
    lemma_taken_empty(raw, st.claimed, st.claimed);
    law_rows_are_taken_in_order(g, area, ss, raw, prefix_width, maps, from, to, st.claimed, st);
    if let Some(done) = extract::copy_rows(g, area, ss, raw, prefix_width, maps, from, to, st) {
        lemma_taken_later(
            raw,
            st.claimed,
            done.claimed,
            raw.len() as int,
            unbroken(done.out),
        );
    }
}

/// Whether the `k`-th row of a selection is blank, or comes from the raw text: a rule or a separator
/// selected whole, or a row of text. A row of a table that is selected in part shares no line with
/// the rows above it.
pub open spec fn selected_from_raw(
    g: Grid,
    area: Rect,
    ss: ScreenSelection,
    raw: Seq<char>,
    prefix_width: u16,
    maps: Seq<RowMap>,
    k: int,
) -> bool {
    let row = area.y + k;
    let left = area.x as int;
    let right = source_map::row_last(area);
    let cols = selection::selected_columns(ss, left, right, row);
    let taken = selection::row_taken(cols, left, right, maps, k);
    scrape::blank(g, row, source_map::row_first(area, prefix_width, k), right) || (0 <= k
        < maps.len() && match maps[k] {
        RowMap::Matched { matches, leading, raw_end, table } => table && !taken ==> front(
            maps,
            raw,
            k,
        ) <= matches[0].2,
        RowMap::PatternMatched { start, end } => taken,
        RowMap::Synthetic => false,
    })
}

/// Rows of clear maps are copied from the raw text behind that of the rows above them.
proof fn lemma_clear_rows_from_raw(
    g: Grid,
    area: Rect,
    ss: ScreenSelection,
    raw: Seq<char>,
    prefix_width: u16,
    maps: Seq<RowMap>,
    from: int,
    to: int,
    st: Clip,
)
    requires
        clear(maps, raw),
        0 <= from,
        0 <= st.claimed <= front(maps, raw, from),
        forall|k: int|
            from <= k <= to ==> #[trigger] selected_from_raw(
                g,
                area,
                ss,
                raw,
                prefix_width,
                maps,
                k,
            ),
    ensures
        rows_from_raw(g, area, ss, raw, prefix_width, maps, from, to, st),
    decreases to + 1 - from,
{
    if from <= to {
        let row = area.y + from;
        let left = area.x as int;
        let right = source_map::row_last(area);
        let cols = selection::selected_columns(ss, left, right, row);
        let taken = selection::row_taken(cols, left, right, maps, from);
        assert(selected_from_raw(g, area, ss, raw, prefix_width, maps, from));
        law_clear_row_is_copied(g, row, cols, taken, raw, maps, from, st);
        if !scrape::blank(g, row, source_map::row_first(area, prefix_width, from), right)
            && maps[from] is Matched {
            let matches = maps[from]->matches;
            assert(maps[from].wf(raw.len() as int));
            assert(begins_clear(maps, raw, from));
            law_partial_row_takes_the_selected(matches, cols, matches.len() as int);
            if let Some((first, last)) = extract::picked(matches, cols, matches.len() as int) {
                let i = choose|i: int|
                    0 <= i < matches.len() && cols.0 <= (#[trigger] matches[i]).0 <= cols.1
                        && matches[i].2 == first;
                if i > 0 {
                    assert(matches[0].2 < matches[i].2);
                }
            }
        }
        let next = extract::copy_row_at(
            g,
            area,
            ss,
            raw,
            prefix_width,
            maps,
            from,
            st,
        ).unwrap();
        lemma_clear_rows_from_raw(g, area, ss, raw, prefix_width, maps, from + 1, to, next);
    }
}

/// Where every row begins behind the raw text of the rows above it, a selection of rows that come
/// from the raw text can be copied, and its copy stands in the raw text, but for newlines: in order,
/// and nothing twice.
pub proof fn law_clear_copy_is_taken_in_order(
    g: Grid,
    area: Rect,
    ss: ScreenSelection,
    raw: Seq<char>,
    prefix_width: u16,
    maps: Seq<RowMap>,
)
    requires
        clear(maps, raw),
        forall|k: int|
            ss.start_row <= k <= ss.end_row ==> #[trigger] selected_from_raw(
                g,
                area,
                ss,
                raw,
                prefix_width,
                maps,
                k,
            ),
    ensures
        extract::extracted(g, area, ss, raw, prefix_width, maps) matches Some(text) && taken_from(
            raw,
            extract::claimed_before(maps, raw, ss.start_row as int),
            raw.len() as int,
            unbroken(text),
        ),
{
    let from = ss.start_row as int;
    let to = ss.end_row as int;
    let st = nothing_copied(maps, raw, ss);
    lemma_claimed_before(maps, raw, from);
    lemma_clear_rows_from_raw(g, area, ss, raw, prefix_width, maps, from, to, st);
    law_clear_selection_is_copied(g, area, ss, raw, prefix_width, maps);
    law_copy_is_taken_in_order(g, area, ss, raw, prefix_width, maps);
}

/// The markdown of the segments among the first `n` that are selected, each on a new line where
/// something precedes it. The selection `sel` is in order.
pub open spec fn joined(segments: Seq<Segment>, sel: Selection, n: int) -> Seq<char>
    decreases n,
{
    if n <= 0 {
        Seq::empty()
    } else {
        let before = joined(segments, sel, n - 1);
        let raw = segments[n - 1].raw_text->0@;
        if !touched(segments, sel, n - 1) {
            before
        } else if before.len() == 0 {
            raw
        } else {
            before.push('\n') + raw
        }
    }
}

/// Where markdown is asked for and every selected segment is selected whole, the copy is the
/// markdown of these segments as it is, joined by single newlines.
pub proof fn law_whole_segments_are_joined(
    segments: Seq<Segment>,
    width: u16,
    sel: Selection,
    msg_x: int,
    theme: Theme,
    rendered: Seq<String>,
    n: int,
)
    requires
        0 <= n <= segments.len(),
        forall|i: int|
            0 <= i < n && #[trigger] touched(segments, sel.ordered(), i) ==> {
                &&& segments[i].lines@.len() > 0
                &&& segments[i].raw_text is Some
                &&& document::wholly_selected(
                    segments[i].height as int,
                    document::total_height(segments, i),
                    width as int,
                    sel.ordered(),
                    msg_x,
                )
            },
    ensures
        document::selection_text(segments, width, sel.ordered(), msg_x, true, theme, rendered, n)
            == Some(joined(segments, sel.ordered(), n)),
    decreases n,
{
    if n > 0 {
        law_whole_segments_are_joined(segments, width, sel, msg_x, theme, rendered, n - 1);
        let start = document::total_height(segments, n - 1);
        let plan = document::plan_of(
            segments[n - 1],
            start,
            width as int,
            sel.ordered(),
            msg_x,
            true,
        );
        if touched(segments, sel.ordered(), n - 1) {
            assert(plan is Raw);
        } else {
            assert(plan is Outside);
        }
    }
}

} // verus!
