//! What holds of copying a selection that runs over several segments.
use crate::document;
use crate::document::{Segment, SegmentPlan, Selection};
use crate::extract;
use crate::screen;
use crate::screen::{Rect, Theme};
use crate::selection;
use crate::source_map;
use vstd::prelude::*;

verus! {

/// Whether the place in the row `row` of the conversation and the column `col` of the screen lies in
/// the selection `sel`, which is in order.
pub open spec fn place_selected(sel: Selection, row: int, col: int) -> bool {
    &&& sel.start.row < row || (sel.start.row == row && sel.start.col <= col)
    &&& row < sel.end.row || (row == sel.end.row && col <= sel.end.col)
}

/// A cell of a selected segment lies in the segment's window exactly where it lies in the selection:
/// the window begins and ends where the selection does, and at the edges of the segment where the
/// selection goes on above or below it. The leftmost cell of the selection's last row counts as
/// selected also where the selection ends left of the message.
pub proof fn law_window_holds_selected_cells(
    height: int,
    seg_start: int,
    width: int,
    sel: Selection,
    msg_x: int,
    row: int,
    c: int,
)
    requires
        0 < height <= u16::MAX,
        0 <= seg_start <= sel.end.row,
        sel.start.row < seg_start + height,
        0 <= msg_x,
        seg_start <= row < seg_start + height,
        0 <= c < width <= u16::MAX,
        sel.end.col >= msg_x || row != sel.end.row || c > 0,
    ensures
        ({
            let ss = document::window_of(height, seg_start, width, sel, msg_x).ss;
            let (from, to) = selection::selected_columns(ss, 0, width - 1, row - seg_start);
            (ss.start_row <= row - seg_start <= ss.end_row && from <= c <= to) == place_selected(
                sel,
                row,
                msg_x + c,
            )
        }),
{
}

/// The window of a selected segment, by where the selection begins and ends: in the segment, or
/// above or below it.
pub proof fn law_window_of_a_segment(
    height: int,
    seg_start: int,
    width: int,
    sel: Selection,
    msg_x: int,
)
    requires
        0 <= height <= u16::MAX,
        0 <= seg_start <= sel.end.row,
        sel.start.row < seg_start + height,
        0 <= msg_x <= u16::MAX,
        0 <= width <= u16::MAX,
    ensures
        ({
            let window = document::window_of(height, seg_start, width, sel, msg_x);
            &&& sel.start.row < seg_start ==> window.ss.start_row == 0 && window.ss.start_col == 0
            &&& sel.start.row >= seg_start ==> seg_start + window.ss.start_row == sel.start.row
            &&& sel.start.row >= seg_start && sel.start.col >= msg_x ==> msg_x
                + window.ss.start_col == sel.start.col
            &&& sel.start.row >= seg_start && sel.start.col < msg_x ==> window.ss.start_col == 0
            &&& sel.end.row >= seg_start + height && height > 0 ==> window.ss.end_row == height - 1
            &&& sel.end.row >= seg_start + height && width > 0 ==> window.ss.end_col == width - 1
            &&& sel.end.row >= seg_start + height && width == 0 ==> window.ss.end_col == 0
            &&& height == 0 ==> window.rel_end == 0 && window.ss.end_row == 0
            &&& sel.end.row < seg_start + height ==> seg_start + window.ss.end_row == sel.end.row
            &&& sel.end.row < seg_start + height && sel.end.col >= msg_x ==> msg_x
                + window.ss.end_col == sel.end.col
            &&& sel.end.row < seg_start + height && sel.end.col < msg_x ==> window.ss.end_col == 0
            &&& window.rel_start == window.ss.start_row
            &&& height > 0 ==> window.rel_end == window.ss.end_row + 1
        }),
{
}

/// How a segment is copied. Not at all where it lies above or below the selection, and with nothing
/// but a line break where it has no lines. Where markdown is asked for and there is any: as it is
/// where every row of the segment, from the left edge of the message to its right edge, is selected,
/// and else traced, where it can be traced and the prefix leaves room. Otherwise as drawn.
pub proof fn law_plan_of_a_segment(
    seg: Segment,
    seg_start: int,
    width: int,
    sel: Selection,
    msg_x: int,
    copy_markdown: bool,
)
    ensures
        ({
            let plan = document::plan_of(seg, seg_start, width, sel, msg_x, copy_markdown);
            let seg_end = seg_start + seg.height;
            let outside = seg_end <= sel.start.row || sel.end.row < seg_start;
            let whole = sel.start.row <= seg_start && seg_end - 1 <= sel.end.row && sel.start.col
                <= msg_x && msg_x + width - 1 <= sel.end.col;
            let markdown = copy_markdown && seg.raw_text is Some;
            let traced = markdown && seg.has_source_map && seg.prefix_width < width;
            let window = document::window_of(seg.height as int, seg_start, width, sel, msg_x);
            &&& outside ==> plan == SegmentPlan::Outside
            &&& !outside && seg.lines@.len() == 0 ==> plan == SegmentPlan::Empty
            &&& !outside && seg.lines@.len() > 0 && markdown && whole ==> plan == SegmentPlan::Raw
            &&& !outside && seg.lines@.len() > 0 && traced && !whole ==> plan
                == SegmentPlan::SourceMapped { window }
            &&& !outside && seg.lines@.len() > 0 && !(markdown && whole) && !traced ==> plan
                == SegmentPlan::Rendered { window }
        }),
{
}

/// What is copied of a segment: its markdown, its rows as drawn, or the raw text of the selected
/// rows of it as it is drawn, mapped to its markdown row by row.
pub proof fn law_piece_of_a_segment(
    seg: Segment,
    seg_start: int,
    width: u16,
    sel: Selection,
    msg_x: int,
    copy_markdown: bool,
    theme: Theme,
    rendered: Seq<char>,
)
    ensures
        ({
            let piece = document::segment_copy(
                seg,
                seg_start,
                width,
                sel,
                msg_x,
                copy_markdown,
                theme,
                rendered,
            );
            let area = Rect { x: 0, y: 0, width, height: seg.height };
            let grid = screen::drawn(seg.lines@, width, (3 * width) as u16, seg.height);
            match document::plan_of(seg, seg_start, width as int, sel, msg_x, copy_markdown) {
                SegmentPlan::Outside => piece == Some(Seq::<char>::empty()),
                SegmentPlan::Empty => piece == Some(Seq::<char>::empty()),
                SegmentPlan::Raw => piece == Some(seg.raw_text.unwrap()@),
                SegmentPlan::Rendered { window } => piece == Some(rendered),
                SegmentPlan::SourceMapped { window } => {
                    let raw = seg.raw_text.unwrap()@;
                    let maps = source_map::map_rows(
                        grid,
                        area,
                        seg.prefix_width,
                        raw,
                        theme,
                        seg.height as int,
                    ).0;
                    piece == (if seg.height == 0 {
                        None
                    } else {
                        extract::extracted(grid, area, window.ss, raw, seg.prefix_width, maps)
                    })
                },
            }
        }),
{
}

/// Every selected segment, however it is copied, follows what was copied before it on a new line:
/// one newline stands between the two where there is anything before it, and none where there is
/// not. `before` is the copy of the segments above, `piece` what is copied of the segment.
pub proof fn law_segments_are_copied_on_new_lines(
    segments: Seq<Segment>,
    width: u16,
    sel: Selection,
    msg_x: int,
    copy_markdown: bool,
    theme: Theme,
    rendered: Seq<String>,
    n: int,
    before: Seq<char>,
    piece: Seq<char>,
)
    requires
        0 <= n,
        document::total_height(segments, n) <= sel.end.row,
        sel.start.row < document::total_height(segments, n + 1),
        document::selection_text(
            segments,
            width,
            sel,
            msg_x,
            copy_markdown,
            theme,
            rendered,
            n,
        ) == Some(before),
        document::segment_copy(
            segments[n],
            document::total_height(segments, n),
            width,
            sel,
            msg_x,
            copy_markdown,
            theme,
            rendered[n]@,
        ) == Some(piece),
    ensures
        document::selection_text(
            segments,
            width,
            sel,
            msg_x,
            copy_markdown,
            theme,
            rendered,
            n + 1,
        ) == Some(
            if before.len() == 0 {
                piece
            } else {
                before + seq!['\n'] + piece
            },
        ),
{
    assert(before.push('\n') + piece =~= before + seq!['\n'] + piece);
}

/// Nothing is copied of no segments; a segment begins where those above it end.
pub proof fn law_segments_follow_each_other(
    segments: Seq<Segment>,
    width: u16,
    sel: Selection,
    msg_x: int,
    copy_markdown: bool,
    theme: Theme,
    rendered: Seq<String>,
    n: int,
)
    requires
        0 <= n,
    ensures
        document::total_height(segments, 0) == 0,
        document::total_height(segments, n + 1) == document::total_height(segments, n)
            + segments[n].height,
        document::selection_text(
            segments,
            width,
            sel,
            msg_x,
            copy_markdown,
            theme,
            rendered,
            0,
        ) == Some(Seq::<char>::empty()),
{
}

/// A selection can be copied exactly where that of the segments above can and the next segment can.
pub proof fn law_untraced_segment_fails(
    segments: Seq<Segment>,
    width: u16,
    sel: Selection,
    msg_x: int,
    copy_markdown: bool,
    theme: Theme,
    rendered: Seq<String>,
    n: int,
)
    requires
        0 <= n,
    ensures
        (document::selection_text(
            segments,
            width,
            sel,
            msg_x,
            copy_markdown,
            theme,
            rendered,
            n + 1,
        ) is Some) == (document::selection_text(
            segments,
            width,
            sel,
            msg_x,
            copy_markdown,
            theme,
            rendered,
            n,
        ) is Some && document::segment_copy(
            segments[n],
            document::total_height(segments, n),
            width,
            sel,
            msg_x,
            copy_markdown,
            theme,
            rendered[n]@,
        ) is Some),
{
}

/// The texts of the segments among the first `n` that have a selected row, joined by single
/// newlines; a text that nothing precedes stands alone.
pub open spec fn joined_texts(
    segments: Seq<Segment>,
    sel: Selection,
    texts: Seq<String>,
    n: int,
) -> Seq<char>
    decreases n,
{
    if n <= 0 {
        Seq::empty()
    } else {
        let before = joined_texts(segments, sel, texts, n - 1);
        let start = document::total_height(segments, n - 1);
        if start + segments[n - 1].height <= sel.start.row || sel.end.row < start {
            before
        } else if before.len() == 0 {
            texts[n - 1]@
        } else {
            before + seq!['\n'] + texts[n - 1]@
        }
    }
}

/// Where markdown is not asked for, the copy is that of the selected segments as they are drawn,
/// joined by single newlines.
pub proof fn law_rendered_segments_are_joined(
    segments: Seq<Segment>,
    width: u16,
    sel: Selection,
    msg_x: int,
    theme: Theme,
    rendered: Seq<String>,
    n: int,
)
    requires
        0 <= n <= segments.len(),
        forall|i: int| 0 <= i < n ==> (#[trigger] segments[i]).lines@.len() > 0,
    ensures
        document::selection_text(segments, width, sel, msg_x, false, theme, rendered, n) == Some(
            joined_texts(segments, sel, rendered, n),
        ),
    decreases n,
{
    if n > 0 {
        law_rendered_segments_are_joined(segments, width, sel, msg_x, theme, rendered, n - 1);
        let start = document::total_height(segments, n - 1);
        assert(segments[n - 1].lines@.len() > 0);
        let before = joined_texts(segments, sel, rendered, n - 1);
        assert(before.push('\n') + rendered[n - 1]@ =~= before + seq!['\n'] + rendered[n - 1]@);
    }
}

/// Two places lie in a selection in order, whichever of them it began with: the first is the one in
/// the row above, or further left in the same row.
pub proof fn law_selection_runs_downwards(sel: Selection)
    ensures
        ({
            let o = sel.ordered();
            &&& o.start.row < o.end.row || (o.start.row == o.end.row && o.start.col <= o.end.col)
            &&& (o.start == sel.start && o.end == sel.end) || (o.start == sel.end && o.end
                == sel.start)
        }),
{
}

} // verus!
