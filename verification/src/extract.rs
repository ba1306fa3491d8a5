//! Putting the raw text of the selected rows together.
use crate::gap;
use crate::gap::emit_inter_gap;
use crate::lines;
use crate::lines::{find_line_start, push_chars, trim_trailing_spaces};
use crate::matching;
use crate::scrape;
use crate::scrape::{is_blank_row, scrape_row_chars};
use crate::screen::{Buffer, Grid, Rect};
use crate::selection;
use crate::selection::{col_range, is_row_fully_selected, ScreenSelection};
use crate::source_map;
use crate::source_map::{matched_claim_end, next_row_bound, RowMap, RowSourceMap};
use crate::syntax;
use crate::syntax::scan_opening_syntax;
use vstd::prelude::*;
use vstd::slice::slice_subrange;

verus! {

/// The text copied so far.
pub struct Clipping {
    pub out: String,
    /// Whether no row has been copied yet.
    pub first_non_blank: bool,
    /// The raw text before this position belongs to rows that are done with.
    pub claimed_end: usize,
}

/// A `Clipping` as mathematics.
pub struct Clip {
    pub out: Seq<char>,
    pub first: bool,
    pub claimed: int,
}

impl View for Clipping {
    type V = Clip;

    open spec fn view(&self) -> Clip {
        Clip { out: self.out@, first: self.first_non_blank, claimed: self.claimed_end as int }
    }
}

/// A newline between rows; nothing before the first.
pub open spec fn row_break(first: bool) -> Seq<char> {
    if first {
        Seq::empty()
    } else {
        seq!['\n']
    }
}

/// The text of the cells in the columns `cols` of a row.
pub open spec fn shown(g: Grid, row: int, cols: (int, int)) -> Seq<char> {
    matching::bare(scrape::row_chars(g, row, cols.0, cols.1))
}

/// The raw positions of the first and the last of the first `n` matches whose column is selected.
pub open spec fn picked(matches: Seq<(int, int, int)>, cols: (int, int), n: int) -> Option<
    (int, int),
>
    decreases n,
{
    if n <= 0 {
        None
    } else {
        let before = picked(matches, cols, n - 1);
        let m = matches[n - 1];
        if cols.0 <= m.0 <= cols.1 {
            match before {
                Some((first, _)) => Some((first, m.2)),
                None => Some((m.2, m.2)),
            }
        } else {
            before
        }
    }
}

/// How a row that is copied whole lies in the raw text.
pub struct Span {
    /// Up to here the raw text lies between the rows.
    pub inter_end: int,
    /// From here on it is the row's own text, without leading markers.
    pub raw_start: int,
    /// Where the row's raw text ends.
    pub claim: int,
}

/// Where the raw text of a whole row begins and ends, where the raw text before `claimed` is done
/// with. The row of a table takes its line. Another row begins behind its opening markers where it
/// has any, and then only what precedes its line lies between the rows; else it begins at its
/// first character.
pub open spec fn row_span(
    matches: Seq<(int, int, int)>,
    leading: int,
    raw_end: int,
    table: bool,
    maps: Seq<RowMap>,
    k: int,
    raw: Seq<char>,
    claimed: int,
) -> Span {
    let claim = source_map::claim_end(raw_end, table, maps, k, raw);
    let first = matches[0].2;
    let line = lines::line_start(raw, first);
    let from = if leading < claimed {
        claimed
    } else {
        leading
    };
    let scanned = syntax::opening_end(raw, from, raw_end);
    let own = if line < claimed {
        claimed
    } else {
        line
    };
    if table {
        Span { inter_end: own, raw_start: own, claim }
    } else if scanned > from {
        let raw_start = if scanned < line {
            line
        } else {
            scanned
        };
        Span {
            inter_end: if own < raw_start {
                own
            } else {
                raw_start
            },
            raw_start,
            claim,
        }
    } else {
        Span { inter_end: first, raw_start: first, claim }
    }
}

/// Where the raw text begins that is left for the rows below a row of which no character is
/// selected: behind the row's characters and closing tokens, but no further than where the next row
/// is looked for, and never before `claimed`. Rows that share the line of a table row keep theirs.
pub open spec fn passed_end(
    raw_end: int,
    maps: Seq<RowMap>,
    k: int,
    raw: Seq<char>,
    claimed: int,
) -> int {
    let end = source_map::claim_end(raw_end, false, maps, k, raw);
    let next = source_map::next_bound(maps, k, raw.len() as int);
    let reach = if next < end {
        next
    } else {
        end
    };
    if reach < claimed {
        claimed
    } else {
        reach
    }
}

/// What has been copied once a row that is not blank is done with. `None` where the row would
/// begin in raw text that earlier rows have taken.
pub open spec fn copy_row_of(
    g: Grid,
    row: int,
    cols: (int, int),
    taken: bool,
    raw: Seq<char>,
    maps: Seq<RowMap>,
    k: int,
    st: Clip,
) -> Option<Clip> {
    let drawn = st.out + row_break(st.first) + shown(g, row, cols);
    if !(0 <= k < maps.len()) {
        Some(Clip { out: drawn, first: false, claimed: st.claimed })
    } else {
        match maps[k] {
            RowMap::Synthetic => Some(
                Clip { out: lines::trim_spaces(drawn), first: false, claimed: st.claimed },
            ),
            RowMap::PatternMatched { start, end } => if !taken {
                Some(Clip { out: drawn, first: false, claimed: end })
            } else if st.claimed <= start {
                Some(
                    Clip {
                        out: st.out + gap::inter_gap_text(
                            raw.subrange(st.claimed, start),
                            st.first,
                        ) + raw.subrange(start, end),
                        first: false,
                        claimed: end,
                    },
                )
            } else {
                None
            },
            RowMap::Matched { matches, leading, raw_end, table } => if !taken {
                match picked(matches, cols, matches.len() as int) {
                    Some((from, to)) => Some(
                        Clip {
                            out: st.out + row_break(st.first) + raw.subrange(from, to + 1),
                            first: false,
                            claimed: source_map::claim_end(raw_end, table, maps, k, raw),
                        },
                    ),
                    None => Some(
                        Clip {
                            out: st.out,
                            first: false,
                            claimed: passed_end(raw_end, maps, k, raw, st.claimed),
                        },
                    ),
                }
            } else {
                let span = row_span(matches, leading, raw_end, table, maps, k, raw, st.claimed);
                if st.claimed <= span.inter_end && span.raw_start <= span.claim {
                    Some(
                        Clip {
                            out: st.out + gap::inter_gap_text(
                                raw.subrange(st.claimed, span.inter_end),
                                st.first,
                            ) + raw.subrange(span.inter_end, span.claim),
                            first: false,
                            claimed: span.claim,
                        },
                    )
                } else {
                    None
                }
            },
        }
    }
}

/// What has been copied once the `k`-th row is done with.
pub open spec fn copy_row_at(
    g: Grid,
    area: Rect,
    ss: ScreenSelection,
    raw: Seq<char>,
    prefix_width: u16,
    maps: Seq<RowMap>,
    k: int,
    st: Clip,
) -> Option<Clip> {
    let row = area.y + k;
    let left = area.x as int;
    let right = source_map::row_last(area);
    let cols = selection::selected_columns(ss, left, right, row);
    if scrape::blank(g, row, source_map::row_first(area, prefix_width, k), right) {
        Some(st)
    } else {
        copy_row_of(
            g,
            row,
            cols,
            selection::row_taken(cols, left, right, maps, k),
            raw,
            maps,
            k,
            st,
        )
    }
}

/// What has been copied once the rows from `from` to `to` are done with.
pub open spec fn copy_rows(
    g: Grid,
    area: Rect,
    ss: ScreenSelection,
    raw: Seq<char>,
    prefix_width: u16,
    maps: Seq<RowMap>,
    from: int,
    to: int,
    st: Clip,
) -> Option<Clip>
    decreases to + 1 - from,
{
    if from > to {
        Some(st)
    } else {
        match copy_row_at(g, area, ss, raw, prefix_width, maps, from, st) {
            Some(next) => copy_rows(g, area, ss, raw, prefix_width, maps, from + 1, to, next),
            None => None,
        }
    }
}

/// Where the raw text of the first `n` rows ends.
pub open spec fn claimed_before(maps: Seq<RowMap>, raw: Seq<char>, n: int) -> int
    decreases n,
{
    if n <= 0 {
        0
    } else if n > maps.len() {
        claimed_before(maps, raw, n - 1)
    } else {
        match maps[n - 1] {
            RowMap::Matched { matches, leading, raw_end, table } => source_map::claim_end(
                raw_end,
                table,
                maps,
                n - 1,
                raw,
            ),
            RowMap::PatternMatched { start, end } => end,
            RowMap::Synthetic => claimed_before(maps, raw, n - 1),
        }
    }
}

/// The raw text of a selection; `None` where a selected row would begin in raw text that an
/// earlier row has taken.
pub open spec fn extracted(
    g: Grid,
    area: Rect,
    ss: ScreenSelection,
    raw: Seq<char>,
    prefix_width: u16,
    maps: Seq<RowMap>,
) -> Option<Seq<char>> {
    let st = Clip {
        out: Seq::empty(),
        first: true,
        claimed: claimed_before(maps, raw, ss.start_row as int),
    };
    match copy_rows(
        g,
        area,
        ss,
        raw,
        prefix_width,
        maps,
        ss.start_row as int,
        ss.end_row as int,
        st,
    ) {
        Some(done) => Some(done.out),
        None => None,
    }
}

proof fn lemma_picked(matches: Seq<(int, int, int)>, cols: (int, int), n: int)
    requires
        n <= matches.len(),
    ensures
        picked(matches, cols, n) matches Some((first, last)) ==> exists|i: int, j: int|
            #![trigger matches[i], matches[j]]
            0 <= i <= j < n && first == matches[i].2 && last == matches[j].2,
    decreases n,
{
    if n > 0 {
        lemma_picked(matches, cols, n - 1);
        if let Some((first, last)) = picked(matches, cols, n) {
            let m = matches[n - 1];
            if let Some((f, l)) = picked(matches, cols, n - 1) {
                let (i, j) = choose|i: int, j: int|
                    #![trigger matches[i], matches[j]]
                    0 <= i <= j < n - 1 && f == matches[i].2 && l == matches[j].2;
                if cols.0 <= m.0 <= cols.1 {
                    assert(first == matches[i].2 && last == matches[n - 1].2);
                } else {
                    assert(first == matches[i].2 && last == matches[j].2);
                }
            } else {
                assert(first == matches[n - 1].2 && last == matches[n - 1].2);
            }
        }
    }
}

/// A whole row lies within the raw text: what precedes its own text comes before that text, and
/// that text ends in the raw text.
pub proof fn lemma_row_span(
    matches: Seq<(int, int, int)>,
    leading: int,
    raw_end: int,
    table: bool,
    maps: Seq<RowMap>,
    k: int,
    raw: Seq<char>,
    claimed: int,
)
    requires
        (RowMap::Matched { matches, leading, raw_end, table }).wf(raw.len() as int),
        0 <= claimed,
    ensures
        ({
            let span = row_span(matches, leading, raw_end, table, maps, k, raw, claimed);
            &&& 0 <= span.inter_end <= span.raw_start
            &&& raw_end <= span.claim <= raw.len()
            &&& !table ==> span.raw_start <= span.claim
        }),
{
    let first = matches[0].2;
    if matches.len() > 1 {
        assert(matches[0].2 < matches[matches.len() - 1].2);
    }
    lines::lemma_line_start(raw, first);
    lines::lemma_line_end(raw, raw_end);
    source_map::law_claim_on_own_line(raw_end, table, maps, k, raw);
    let from = if leading < claimed {
        claimed
    } else {
        leading
    };
    syntax::law_opening_end(raw, from, raw_end);
}

/// Appends the text of the cells in the columns from `cols.0` to `cols.1` of a row.
fn push_shown(out: &mut String, buf: &Buffer, row: u16, cols: (u16, u16))
    requires
        buf.wf(),
        scrape::has_columns(buf@, row as int, cols.0 as int, cols.1 as int),
    ensures
        final(out)@ == old(out)@ + shown(buf@, row as int, (cols.0 as int, cols.1 as int)),
{
    let chars: Vec<(u16, char)> = scrape_row_chars(buf, row, cols.0, cols.1);
    let ghost text = matching::bare(chars@);
    let mut i: usize = 0;
    while i < chars.len()
        invariant
            i <= chars.len(),
            text == matching::bare(chars@),
            out@ == old(out)@ + text.take(i as int),
        decreases chars.len() - i,
    {
        out.push(chars[i].1);
        i += 1;
        assert(text.take(i as int) =~= text.take(i - 1).push(text[i - 1]));
    }
    assert(text.take(i as int) =~= text);
}

/// Appends the newline between two rows, unless none has been copied yet.
fn push_row_break(out: &mut String, first_non_blank: bool)
    ensures
        final(out)@ == old(out)@ + row_break(first_non_blank),
{
    if !first_non_blank {
        out.push('\n');
    }
    assert(out@ =~= old(out)@ + row_break(first_non_blank));
}

/// The raw positions of the first and the last match whose column is selected.
fn pick(matches: &Vec<(u16, usize, usize)>, cols: (u16, u16)) -> (r: Option<(usize, usize)>)
    ensures
        match picked(
            matching::triples(matches@),
            (cols.0 as int, cols.1 as int),
            matches@.len() as int,
        ) {
            Some((from, to)) => r matches Some(got) && got.0 == from && got.1 == to,
            None => r is None,
        },
{
    let ghost all = matching::triples(matches@);
    let ghost span = (cols.0 as int, cols.1 as int);
    let mut r: Option<(usize, usize)> = None;
    let mut i: usize = 0;
    while i < matches.len()
        invariant
            i <= matches.len(),
            all == matching::triples(matches@),
            span == (cols.0 as int, cols.1 as int),
            match picked(all, span, i as int) {
                Some((from, to)) => r matches Some(got) && got.0 == from && got.1 == to,
                None => r is None,
            },
        decreases matches.len() - i,
    {
        let (col, _, place) = matches[i];
        assert(all[i as int] == (col as int, matches@[i as int].1 as int, place as int));
        if cols.0 <= col && col <= cols.1 {
            r = match r {
                Some((from, _)) => Some((from, place)),
                None => Some((place, place)),
            };
        }
        i += 1;
    }
    r
}

/// Copies a row that comes from the raw text and is selected whole. Returns `false`, and copies
/// nothing, where the row would begin in raw text that earlier rows have taken.
fn copy_whole_row(
    clip: &mut Clipping,
    raw_chars: &[char],
    maps: &[RowSourceMap],
    row_idx: usize,
) -> (r: bool)
    requires
        row_idx < maps.len(),
        maps@[row_idx as int] is Matched,
        maps@[row_idx as int]@.wf(raw_chars@.len() as int),
    ensures
        ({
            let maps = source_map::row_maps(maps@);
            let m = maps[row_idx as int];
            let st = old(clip)@;
            let span = row_span(
                m->matches,
                m->leading,
                m->raw_end,
                m->table,
                maps,
                row_idx as int,
                raw_chars@,
                st.claimed,
            );
            &&& r == (st.claimed <= span.inter_end && span.raw_start <= span.claim)
            &&& !r ==> final(clip)@ == st
            &&& r ==> final(clip)@ == (Clip {
                out: st.out + gap::inter_gap_text(
                    raw_chars@.subrange(st.claimed, span.inter_end),
                    st.first,
                ) + raw_chars@.subrange(span.inter_end, span.claim),
                first: false,
                claimed: span.claim,
            })
        }),
{
    let ghost all = source_map::row_maps(maps@);
    let ghost raw = raw_chars@;
    assert(all[row_idx as int] == maps@[row_idx as int]@);
    if let RowSourceMap::Matched { matches, leading_skip_start, raw_end, is_table_row } =
        &maps[row_idx] {
        let claimed: usize = clip.claimed_end;
        let first_match: usize = matches[0].2;
        proof {
            let triples = matching::triples(matches@);
            assert(triples[0].2 == first_match);
            if triples.len() > 1 {
                assert(triples[0].2 < triples[triples.len() - 1].2);
            }
            lemma_row_span(
                triples,
                *leading_skip_start as int,
                *raw_end as int,
                *is_table_row,
                all,
                row_idx as int,
                raw,
                claimed as int,
            );
        }
        let claim: usize = matched_claim_end(*raw_end, *is_table_row, maps, row_idx, raw_chars);
        let line: usize = find_line_start(raw_chars, first_match);
        let own: usize = if line < claimed {
            claimed
        } else {
            line
        };
        let mut inter_end: usize = own;
        let mut raw_start: usize = own;
        if !*is_table_row {
            let from: usize = if *leading_skip_start < claimed {
                claimed
            } else {
                *leading_skip_start
            };
            let scanned: usize = scan_opening_syntax(raw_chars, from, *raw_end);
            if scanned > from {
                raw_start = if scanned < line {
                    line
                } else {
                    scanned
                };
                if own >= raw_start {
                    inter_end = raw_start;
                }
            } else {
                raw_start = first_match;
                inter_end = first_match;
            }
        }
        if claimed > inter_end || raw_start > claim {
            return false;
        }
        emit_inter_gap(
            &mut clip.out,
            slice_subrange(raw_chars, claimed, inter_end),
            clip.first_non_blank,
        );
        push_chars(&mut clip.out, slice_subrange(raw_chars, inter_end, claim));
        clip.first_non_blank = false;
        clip.claimed_end = claim;
        true
    } else {
        false
    }
}

/// Copies a row that is not blank, where the columns `cols` of it are selected and `taken` says
/// whether that is all of it. Returns `false`, and copies nothing, where the row would begin in raw
/// text that earlier rows have taken.
pub fn copy_row(
    clip: &mut Clipping,
    buf: &Buffer,
    row: u16,
    cols: (u16, u16),
    taken: bool,
    raw_chars: &[char],
    maps: &[RowSourceMap],
    row_idx: usize,
) -> (r: bool)
    requires
        buf.wf(),
        scrape::has_columns(buf@, row as int, cols.0 as int, cols.1 as int),
        source_map::maps_wf(source_map::row_maps(maps@), raw_chars@.len() as int),
    ensures
        match copy_row_of(
            buf@,
            row as int,
            (cols.0 as int, cols.1 as int),
            taken,
            raw_chars@,
            source_map::row_maps(maps@),
            row_idx as int,
            old(clip)@,
        ) {
            Some(st) => r && final(clip)@ == st,
            None => !r && final(clip)@ == old(clip)@,
        },
{
    let ghost all = source_map::row_maps(maps@);
    if row_idx >= maps.len() {
        push_row_break(&mut clip.out, clip.first_non_blank);
        push_shown(&mut clip.out, buf, row, cols);
        clip.first_non_blank = false;
        return true;
    }
    assert(all[row_idx as int] == maps@[row_idx as int]@);
    assert(all[row_idx as int].wf(raw_chars@.len() as int));
    match &maps[row_idx] {
        RowSourceMap::Synthetic => {
            push_row_break(&mut clip.out, clip.first_non_blank);
            push_shown(&mut clip.out, buf, row, cols);
            trim_trailing_spaces(&mut clip.out);
        },
        RowSourceMap::PatternMatched { raw_range } => {
            if taken {
                if clip.claimed_end > raw_range.0 {
                    return false;
                }
                emit_inter_gap(
                    &mut clip.out,
                    slice_subrange(raw_chars, clip.claimed_end, raw_range.0),
                    clip.first_non_blank,
                );
                push_chars(&mut clip.out, slice_subrange(raw_chars, raw_range.0, raw_range.1));
            } else {
                push_row_break(&mut clip.out, clip.first_non_blank);
                push_shown(&mut clip.out, buf, row, cols);
            }
            clip.claimed_end = raw_range.1;
        },
        RowSourceMap::Matched { matches, raw_end, is_table_row, .. } => {
            if taken {
                return copy_whole_row(clip, raw_chars, maps, row_idx);
            }
            let ghost triples = matching::triples(matches@);
            proof {
                lemma_picked(triples, (cols.0 as int, cols.1 as int), matches@.len() as int);
            }
            match pick(matches, cols) {
                Some((from, to)) => {
                    proof {
                        let (i, j) = choose|i: int, j: int|
                            #![trigger triples[i], triples[j]]
                            0 <= i <= j < triples.len() && from == triples[i].2 && to
                                == triples[j].2;
                        if j < triples.len() - 1 {
                            assert(triples[j].2 < triples[triples.len() - 1].2);
                        }
                    }
                    push_row_break(&mut clip.out, clip.first_non_blank);
                    push_chars(&mut clip.out, slice_subrange(raw_chars, from, to + 1));
                    clip.claimed_end = matched_claim_end(
                        *raw_end,
                        *is_table_row,
                        maps,
                        row_idx,
                        raw_chars,
                    );
                },
                None => {
                    let end: usize = matched_claim_end(*raw_end, false, maps, row_idx, raw_chars);
                    let next: usize = next_row_bound(maps, row_idx, raw_chars.len());
                    let reach: usize = if next < end {
                        next
                    } else {
                        end
                    };
                    if clip.claimed_end < reach {
                        clip.claimed_end = reach;
                    }
                },
            }
        },
    }
    clip.first_non_blank = false;
    true
}

/// The buffer has the cells of the rows from the `from`-th to the `to`-th, the message's first
/// column included.
pub open spec fn has_selected_rows(
    g: Grid,
    area: Rect,
    prefix_width: u16,
    from: int,
    to: int,
) -> bool {
    &&& from <= to ==> area.y + to <= u16::MAX
    &&& source_map::has_rows(g, area, prefix_width, from, to + 1)
    &&& forall|k: int|
        from <= k <= to ==> #[trigger] scrape::has_columns(
            g,
            area.y + k,
            area.x as int,
            source_map::row_last(area),
        )
}

/// Where the raw text of the rows above `start_row` ends.
fn claimed_above(maps: &[RowSourceMap], raw_chars: &[char], start_row: u16) -> (r: usize)
    requires
        source_map::maps_wf(source_map::row_maps(maps@), raw_chars@.len() as int),
    ensures
        r == claimed_before(source_map::row_maps(maps@), raw_chars@, start_row as int),
        r <= raw_chars@.len(),
{
    let ghost all = source_map::row_maps(maps@);
    let mut claimed: usize = 0;
    let mut i: usize = 0;
    while i < start_row as usize
        invariant
            i <= start_row,
            all == source_map::row_maps(maps@),
            source_map::maps_wf(all, raw_chars@.len() as int),
            claimed == claimed_before(all, raw_chars@, i as int),
            claimed <= raw_chars@.len(),
        decreases start_row - i,
    {
        if i < maps.len() {
            assert(all[i as int] == maps@[i as int]@);
            assert(all[i as int].wf(raw_chars@.len() as int));
            match &maps[i] {
                RowSourceMap::Matched { raw_end, is_table_row, .. } => {
                    claimed = matched_claim_end(*raw_end, *is_table_row, maps, i, raw_chars);
                    proof {
                        source_map::law_claim_on_own_line(
                            *raw_end as int,
                            *is_table_row,
                            all,
                            i as int,
                            raw_chars@,
                        );
                        lines::lemma_line_end(raw_chars@, *raw_end as int);
                    }
                },
                RowSourceMap::PatternMatched { raw_range } => {
                    claimed = raw_range.1;
                },
                RowSourceMap::Synthetic => {},
            }
        }
        i += 1;
    }
    claimed
}

/// The raw text of a selection. `None` where a selected row would begin in raw text that an earlier
/// row, a row of a table, has taken with its line.
pub fn try_extract_via_source_map(
    buf: &Buffer,
    area: Rect,
    ss: &ScreenSelection,
    raw_chars: &[char],
    prefix_width: u16,
    maps: &[RowSourceMap],
) -> (r: Option<String>)
    requires
        buf.wf(),
        area.x + area.width <= u16::MAX,
        has_selected_rows(buf@, area, prefix_width, ss.start_row as int, ss.end_row as int),
        source_map::maps_wf(source_map::row_maps(maps@), raw_chars@.len() as int),
    ensures
        match extracted(
            buf@,
            area,
            *ss,
            raw_chars@,
            prefix_width,
            source_map::row_maps(maps@),
        ) {
            Some(text) => r matches Some(got) && got@ == text,
            None => r is None,
        },
{
    let left: u16 = area.x;
    let right: u16 = if area.width == 0 {
        area.x
    } else {
        area.x + (area.width - 1)
    };
    let ghost all = source_map::row_maps(maps@);
    let mut clip: Clipping = Clipping {
        out: String::new(),
        first_non_blank: true,
        claimed_end: claimed_above(maps, raw_chars, ss.start_row),
    };
    let ghost whole = copy_rows(
        buf@,
        area,
        *ss,
        raw_chars@,
        prefix_width,
        all,
        ss.start_row as int,
        ss.end_row as int,
        clip@,
    );
    let mut row_idx: u32 = ss.start_row as u32;
    while row_idx <= ss.end_row as u32
        invariant
            buf.wf(),
            area.x + area.width <= u16::MAX,
            left == area.x,
            right == source_map::row_last(area),
            has_selected_rows(buf@, area, prefix_width, ss.start_row as int, ss.end_row as int),
            all == source_map::row_maps(maps@),
            source_map::maps_wf(all, raw_chars@.len() as int),
            ss.start_row <= row_idx,
            row_idx <= ss.end_row + 1 || row_idx == ss.start_row,
            extracted(buf@, area, *ss, raw_chars@, prefix_width, all) == match whole {
                Some(done) => Some(done.out),
                None => None,
            },
            copy_rows(
                buf@,
                area,
                *ss,
                raw_chars@,
                prefix_width,
                all,
                row_idx as int,
                ss.end_row as int,
                clip@,
            ) == whole,
        decreases ss.end_row + 1 - row_idx,
    {
        let row: u16 = area.y + row_idx as u16;
        let col_start: u16 = if row_idx == 0 {
            prefix_width
        } else {
            left
        };
        assert(scrape::has_columns(
            buf@,
            area.y + row_idx,
            source_map::row_first(area, prefix_width, row_idx as int),
            source_map::row_last(area),
        ));
        assert(scrape::has_columns(
            buf@,
            area.y + row_idx,
            area.x as int,
            source_map::row_last(area),
        ));
        if !is_blank_row(buf, row, col_start, right) {
            let cols: (u16, u16) = col_range(ss, left, right, row);
            let taken: bool = is_row_fully_selected(ss, row, left, right, maps, row_idx as usize);
            if !copy_row(
                &mut clip,
                buf,
                row,
                cols,
                taken,
                raw_chars,
                maps,
                row_idx as usize,
            ) {
                return None;
            }
        }
        row_idx += 1;
    }
    Some(clip.out)
}

/// The raw text of a selection.
pub fn extract_via_source_map(
    buf: &Buffer,
    area: Rect,
    ss: &ScreenSelection,
    raw_chars: &[char],
    prefix_width: u16,
    maps: &[RowSourceMap],
) -> (r: String)
    requires
        buf.wf(),
        area.x + area.width <= u16::MAX,
        has_selected_rows(buf@, area, prefix_width, ss.start_row as int, ss.end_row as int),
        source_map::maps_wf(source_map::row_maps(maps@), raw_chars@.len() as int),
        extracted(
            buf@,
            area,
            *ss,
            raw_chars@,
            prefix_width,
            source_map::row_maps(maps@),
        ) is Some,
    ensures
        extracted(
            buf@,
            area,
            *ss,
            raw_chars@,
            prefix_width,
            source_map::row_maps(maps@),
        ) == Some(r@),
{
    match try_extract_via_source_map(buf, area, ss, raw_chars, prefix_width, maps) {
        Some(text) => text,
        None => String::new(),
    }
}

} // verus!
