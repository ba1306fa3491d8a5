//! A selection over the segments of a conversation.
use crate::extract;
use crate::extract::try_extract_via_source_map;
use crate::lines::{chars_of, push_chars};
use crate::screen;
use crate::screen::{draw_message, Buffer, Grid, Rect, Theme};
use crate::selection::ScreenSelection;
use crate::source_map;
use crate::source_map::{build_row_source_maps, RowSourceMap};
use ratatui::text::Line;
use vstd::prelude::*;

verus! {

/// A place in the conversation: a row, counted from the top of the first segment, and a column of
/// the screen.
#[derive(Clone, Copy, Debug, PartialEq, Eq, Structural)]
pub struct DocPos {
    pub row: u32,
    pub col: u16,
}

/// A selection in the conversation, between two places, both included. It may have been dragged
/// either way: `end` can lie before `start`.
#[derive(Clone, Copy, Debug, PartialEq, Eq, Structural)]
pub struct Selection {
    pub start: DocPos,
    pub end: DocPos,
}

impl Selection {
    /// The same selection from its first place to its last, by row and then by column.
    pub open spec fn ordered(self) -> Selection {
        if self.end.row < self.start.row || (self.end.row == self.start.row && self.end.col
            < self.start.col) {
            Selection { start: self.end, end: self.start }
        } else {
            self
        }
    }

    /// The first and the last place of the selection.
    pub fn normalized(&self) -> (r: (DocPos, DocPos))
        ensures
            r.0 == self.ordered().start,
            r.1 == self.ordered().end,
    {
        if self.end.row < self.start.row || (self.end.row == self.start.row && self.end.col
            < self.start.col) {
            (self.end, self.start)
        } else {
            (self.start, self.end)
        }
    }
}

/// A piece of the conversation, such as a message.
pub struct Segment {
    /// The rows it takes up at the width it is shown in.
    pub height: u16,
    /// The styled lines it is drawn from.
    pub lines: Vec<Line<'static>>,
    /// The markdown it was rendered from.
    pub raw_text: Option<String>,
    /// Whether its rows can be traced back to the markdown.
    pub has_source_map: bool,
    /// The columns taken by the prefix of its first row.
    pub prefix_width: u16,
}

/// The rows and columns of a segment that are selected.
#[derive(Clone, Copy, Debug, PartialEq, Eq, Structural)]
pub struct Window {
    /// The first selected row, counted from the top of the segment.
    pub rel_start: u16,
    /// The row behind the last selected one.
    pub rel_end: u16,
    pub ss: ScreenSelection,
}

/// How a segment is copied.
#[derive(Clone, Copy, Debug, PartialEq, Eq, Structural)]
pub enum SegmentPlan {
    /// Not selected.
    Outside,
    /// Selected, but without anything to copy.
    Empty,
    /// Its markdown is copied as it is.
    Raw,
    /// The markdown of the selected rows is copied.
    SourceMapped { window: Window },
    /// The selected rows are copied as they are drawn.
    Rendered { window: Window },
}

/// The selected rows and columns of a segment that begins in the row `seg_start`, where the
/// selection `sel` is in order.
pub open spec fn window_of(
    height: int,
    seg_start: int,
    width: int,
    sel: Selection,
    msg_x: int,
) -> Window {
    let rel_start = if sel.start.row > seg_start {
        sel.start.row - seg_start
    } else {
        0
    };
    let rows = if sel.end.row + 1 > seg_start {
        sel.end.row + 1 - seg_start
    } else {
        0
    };
    let rel_end = if rows < height {
        rows
    } else {
        height
    };
    let start_col = if seg_start > sel.start.row || sel.start.col < msg_x {
        0
    } else {
        sel.start.col - msg_x
    };
    let end_col = if seg_start + height < sel.end.row + 1 {
        if width == 0 {
            0
        } else {
            width - 1
        }
    } else if sel.end.col < msg_x {
        0
    } else {
        sel.end.col - msg_x
    };
    Window {
        rel_start: rel_start as u16,
        rel_end: rel_end as u16,
        ss: ScreenSelection {
            start_row: rel_start as u16,
            start_col: start_col as u16,
            end_row: if rel_end == 0 {
                0
            } else {
                (rel_end - 1) as u16
            },
            end_col: end_col as u16,
        },
    }
}

/// Whether a segment that begins in the row `seg_start` is selected whole, where the selection
/// `sel` is in order.
pub open spec fn wholly_selected(
    height: int,
    seg_start: int,
    width: int,
    sel: Selection,
    msg_x: int,
) -> bool {
    &&& seg_start >= sel.start.row
    &&& seg_start + height <= sel.end.row + 1
    &&& sel.start.col <= msg_x
    &&& sel.end.col >= msg_x + width - 1
}

/// How a segment that begins in the row `seg_start` is copied, where the selection `sel` is in
/// order.
pub open spec fn plan_of(
    seg: Segment,
    seg_start: int,
    width: int,
    sel: Selection,
    msg_x: int,
    copy_markdown: bool,
) -> SegmentPlan {
    let window = window_of(seg.height as int, seg_start, width, sel, msg_x);
    if seg_start + seg.height <= sel.start.row || seg_start > sel.end.row {
        SegmentPlan::Outside
    } else if seg.lines@.len() == 0 {
        SegmentPlan::Empty
    } else if copy_markdown && seg.raw_text is Some && wholly_selected(
        seg.height as int,
        seg_start,
        width,
        sel,
        msg_x,
    ) {
        SegmentPlan::Raw
    } else if copy_markdown && seg.raw_text is Some && seg.has_source_map && seg.prefix_width
        < width {
        SegmentPlan::SourceMapped { window }
    } else {
        SegmentPlan::Rendered { window }
    }
}

/// Decides how a segment that begins in the row `seg_start` is copied.
pub fn segment_plan(
    seg: &Segment,
    seg_start: u32,
    viewport_width: u16,
    sel: &Selection,
    msg_area: Rect,
    copy_markdown: bool,
) -> (r: SegmentPlan)
    requires
        seg_start + seg.height <= u32::MAX,
        sel.ordered().end.row < u32::MAX,
    ensures
        r == plan_of(
            *seg,
            seg_start as int,
            viewport_width as int,
            sel.ordered(),
            msg_area.x as int,
            copy_markdown,
        ),
{
    let (start, end) = sel.normalized();
    let seg_end: u32 = seg_start + seg.height as u32;
    if seg_end <= start.row || seg_start > end.row {
        return SegmentPlan::Outside;
    }
    if seg.lines.len() == 0 {
        return SegmentPlan::Empty;
    }
    let whole: bool = seg_start >= start.row && seg_end <= end.row + 1 && start.col <= msg_area.x
        && end.col as u32 + 1 >= msg_area.x as u32 + viewport_width as u32;
    if whole && copy_markdown && seg.raw_text.is_some() {
        return SegmentPlan::Raw;
    }
    let rel_start: u16 = if start.row > seg_start {
        (start.row - seg_start) as u16
    } else {
        0
    };
    let rows: u32 = end.row + 1 - seg_start;
    let rel_end: u16 = if rows < seg.height as u32 {
        rows as u16
    } else {
        seg.height
    };
    let start_col: u16 = if seg_start > start.row || start.col < msg_area.x {
        0
    } else {
        start.col - msg_area.x
    };
    let end_col: u16 = if seg_end < end.row + 1 {
        if viewport_width == 0 {
            0
        } else {
            viewport_width - 1
        }
    } else if end.col < msg_area.x {
        0
    } else {
        end.col - msg_area.x
    };
    let window: Window = Window {
        rel_start,
        rel_end,
        ss: ScreenSelection {
            start_row: rel_start,
            start_col,
            end_row: if rel_end == 0 {
                0
            } else {
                rel_end - 1
            },
            end_col,
        },
    };
    if copy_markdown && seg.has_source_map && seg.raw_text.is_some() && seg.prefix_width
        < viewport_width {
        SegmentPlan::SourceMapped { window }
    } else {
        SegmentPlan::Rendered { window }
    }
}

/// The markdown of the selected rows of a drawn segment; `None` where the segment has no rows, or
/// where a selected row would begin in markdown that an earlier row has taken.
pub open spec fn segment_text(
    g: Grid,
    width: u16,
    height: u16,
    ss: ScreenSelection,
    raw: Seq<char>,
    prefix_width: u16,
    theme: Theme,
) -> Option<Seq<char>> {
    let area = Rect { x: 0, y: 0, width, height };
    if height == 0 {
        None
    } else {
        extract::extracted(
            g,
            area,
            ss,
            raw,
            prefix_width,
            source_map::map_rows(g, area, prefix_width, raw, theme, height as int).0,
        )
    }
}

/// Copies the markdown of the selected rows of a segment drawn into the left `width` columns of
/// `buf`. `None` where the segment has no rows, or where a selected row would begin in markdown that
/// an earlier row has taken.
pub fn extract_drawn_segment(
    buf: &Buffer,
    width: u16,
    ss: &ScreenSelection,
    raw: &str,
    prefix_width: u16,
    theme: &Theme,
) -> (r: Option<String>)
    requires
        buf.wf(),
        buf.area.x == 0,
        buf.area.y == 0,
        1 <= width <= buf.area.width,
        ss.start_row <= ss.end_row ==> ss.end_row < buf.area.height || buf.area.height == 0,
        raw@.len() < usize::MAX,
    ensures
        match segment_text(buf@, width, buf.area.height, *ss, raw@, prefix_width, *theme) {
            Some(text) => r matches Some(got) && got@ == text,
            None => r is None,
        },
{
    let height: u16 = buf.area.height;
    if height == 0 {
        return None;
    }
    let area: Rect = Rect { x: 0, y: 0, width, height };
    let raw_chars: Vec<char> = chars_of(raw);
    assert forall|k: int| 0 <= k < height implies #[trigger] crate::scrape::has_columns(
        buf@,
        area.y + k,
        source_map::row_first(area, prefix_width, k),
        source_map::row_last(area),
    ) by {}
    let maps: Vec<RowSourceMap> = build_row_source_maps(
        buf,
        area,
        prefix_width,
        &raw_chars,
        theme,
    );
    proof {
        source_map::law_maps_in_order(buf@, area, prefix_width, raw@, *theme, height as int);
    }
    try_extract_via_source_map(buf, area, ss, &raw_chars, prefix_width, &maps)
}

/// The rows that the first `n` segments take up.
pub open spec fn total_height(segments: Seq<Segment>, n: int) -> int
    decreases n,
{
    if n <= 0 {
        0
    } else {
        total_height(segments, n - 1) + segments[n - 1].height
    }
}

/// What is copied of the segment `seg`, which begins in the row `seg_start`, beyond the newline in
/// front of it, where the selection `sel` is in order; `rendered` is its text as drawn. `None`
/// where its markdown cannot be traced.
pub open spec fn segment_copy(
    seg: Segment,
    seg_start: int,
    width: u16,
    sel: Selection,
    msg_x: int,
    copy_markdown: bool,
    theme: Theme,
    rendered: Seq<char>,
) -> Option<Seq<char>> {
    match plan_of(seg, seg_start, width as int, sel, msg_x, copy_markdown) {
        SegmentPlan::Outside => Some(Seq::empty()),
        SegmentPlan::Empty => Some(Seq::empty()),
        SegmentPlan::Raw => Some(seg.raw_text->0@),
        SegmentPlan::SourceMapped { window } => segment_text(
            screen::drawn(seg.lines@, width, (3 * width) as u16, seg.height),
            width,
            seg.height,
            window.ss,
            seg.raw_text->0@,
            seg.prefix_width,
            theme,
        ),
        SegmentPlan::Rendered { window } => Some(rendered),
    }
}

/// What is copied of the first `n` segments: the pieces of those that are selected, each on a new
/// line where something precedes it. The selection `sel` is in order. `None` where the markdown of
/// one of them cannot be traced.
pub open spec fn selection_text(
    segments: Seq<Segment>,
    width: u16,
    sel: Selection,
    msg_x: int,
    copy_markdown: bool,
    theme: Theme,
    rendered: Seq<String>,
    n: int,
) -> Option<Seq<char>>
    decreases n,
{
    if n <= 0 {
        Some(Seq::empty())
    } else {
        let seg = segments[n - 1];
        let start = total_height(segments, n - 1);
        let before = selection_text(
            segments,
            width,
            sel,
            msg_x,
            copy_markdown,
            theme,
            rendered,
            n - 1,
        );
        let piece = segment_copy(
            seg,
            start,
            width,
            sel,
            msg_x,
            copy_markdown,
            theme,
            rendered[n - 1]@,
        );
        if before is None || piece is None {
            None
        } else if plan_of(seg, start, width as int, sel, msg_x, copy_markdown) is Outside {
            before
        } else if before->0.len() == 0 {
            piece
        } else {
            Some(before->0.push('\n') + piece->0)
        }
    }
}

/// The rows above a segment are no more than those of all segments.
proof fn lemma_total_height(segments: Seq<Segment>, m: int, n: int)
    requires
        0 <= m <= n,
    ensures
        0 <= total_height(segments, m) <= total_height(segments, n),
    decreases n,
{
    if m < n {
        lemma_total_height(segments, m, n - 1);
    } else if 0 < n {
        lemma_total_height(segments, m - 1, n - 1);
    }
}

/// A selection whose beginning cannot be copied cannot be copied.
proof fn lemma_selection_text_none(
    segments: Seq<Segment>,
    width: u16,
    sel: Selection,
    msg_x: int,
    copy_markdown: bool,
    theme: Theme,
    rendered: Seq<String>,
    m: int,
    n: int,
)
    requires
        0 < m <= n,
        selection_text(segments, width, sel, msg_x, copy_markdown, theme, rendered, m) is None,
    ensures
        selection_text(segments, width, sel, msg_x, copy_markdown, theme, rendered, n) is None,
    decreases n - m,
{
    if m < n {
        lemma_selection_text_none(
            segments,
            width,
            sel,
            msg_x,
            copy_markdown,
            theme,
            rendered,
            m,
            n - 1,
        );
    }
}

/// The selected rows of a segment lie in it.
proof fn lemma_window_rows(height: int, seg_start: int, width: int, sel: Selection, msg_x: int)
    requires
        0 <= height <= u16::MAX,
    ensures
        window_of(height, seg_start, width, sel, msg_x).ss.end_row < height || height == 0,
{
}

/// Draws a segment, `width` columns wide, and copies the markdown of its selected rows.
fn extract_segment(seg: &Segment, width: u16, ss: &ScreenSelection, theme: &Theme) -> (r: Option<
    String,
>)
    requires
        seg.raw_text is Some,
        seg.raw_text->0@.len() < usize::MAX,
        1 <= width <= 16383,
        ss.end_row < seg.height || seg.height == 0,
    ensures
        match segment_text(
            screen::drawn(seg.lines@, width, (3 * width) as u16, seg.height),
            width,
            seg.height,
            *ss,
            seg.raw_text->0@,
            seg.prefix_width,
            *theme,
        ) {
            Some(text) => r matches Some(got) && got@ == text,
            None => r is None,
        },
{
    let buf: Buffer = draw_message(&seg.lines, width, seg.height);
    match &seg.raw_text {
        Some(raw) => extract_drawn_segment(
            &buf,
            width,
            ss,
            raw.as_str(),
            seg.prefix_width,
            theme,
        ),
        None => None,
    }
}

/// Copies the selected text of a conversation that is shown `viewport_width` columns wide in
/// `msg_area`: the markdown of the selected rows where `copy_markdown` asks for it and the segment
/// has it, else the rows as drawn. `rendered` holds, for every segment, the text of its selected
/// rows as drawn. `None` where the markdown of a selected segment cannot be traced: it has no rows,
/// or a row begins in markdown that a row of a table above it has taken. Which way the selection was
/// dragged makes no difference.
pub fn extract_selection_text(
    segments: &[Segment],
    viewport_width: u16,
    sel: &Selection,
    msg_area: Rect,
    copy_markdown: bool,
    theme: &Theme,
    rendered: &[String],
) -> (r: Option<String>)
    requires
        forall|i: int|
            0 <= i < segments@.len() && #[trigger] plan_of(
                segments@[i],
                total_height(segments@, i),
                viewport_width as int,
                sel.ordered(),
                msg_area.x as int,
                copy_markdown,
            ) is SourceMapped ==> viewport_width <= 16383,
        sel.ordered().end.row < u32::MAX,
        total_height(segments@, segments@.len() as int) <= u32::MAX,
        rendered.len() == segments.len(),
        forall|i: int|
            0 <= i < segments@.len() ==> ((#[trigger] segments@[i]).raw_text is Some
                ==> segments@[i].raw_text->0@.len() < usize::MAX),
    ensures
        match selection_text(
            segments@,
            viewport_width,
            sel.ordered(),
            msg_area.x as int,
            copy_markdown,
            *theme,
            rendered@,
            segments@.len() as int,
        ) {
            Some(text) => r matches Some(got) && got@ == text,
            None => r is None,
        },
{
    let (start, end) = sel.normalized();
    let ordered: Selection = Selection { start, end };
    let mut out: String = String::new();
    let mut doc_row: u32 = 0;
    let mut i: usize = 0;
    while i < segments.len()
        invariant
            i <= segments.len(),
            forall|i: int|
                0 <= i < segments@.len() && #[trigger] plan_of(
                    segments@[i],
                    total_height(segments@, i),
                    viewport_width as int,
                    ordered,
                    msg_area.x as int,
                    copy_markdown,
                ) is SourceMapped ==> viewport_width <= 16383,
            ordered.end.row < u32::MAX,
            ordered == sel.ordered(),
            total_height(segments@, segments@.len() as int) <= u32::MAX,
            rendered.len() == segments.len(),
            forall|i: int|
                0 <= i < segments@.len() ==> ((#[trigger] segments@[i]).raw_text is Some
                    ==> segments@[i].raw_text->0@.len() < usize::MAX),
            doc_row == total_height(segments@, i as int),
            selection_text(
                segments@,
                viewport_width,
                ordered,
                msg_area.x as int,
                copy_markdown,
                *theme,
                rendered@,
                i as int,
            ) == Some(out@),
        decreases segments.len() - i,
    {
        let seg = &segments[i];
        proof {
            lemma_total_height(segments@, i + 1, segments@.len() as int);
            lemma_window_rows(
                seg.height as int,
                doc_row as int,
                viewport_width as int,
                ordered,
                msg_area.x as int,
            );
        }
        let plan: SegmentPlan = segment_plan(
            seg,
            doc_row,
            viewport_width,
            &ordered,
            msg_area,
            copy_markdown,
        );
        doc_row = doc_row + seg.height as u32;
        let ghost before = out@;
        match plan {
            SegmentPlan::Outside => {},
            _ => {
                if !out.as_str().is_empty() {
                    out.push('\n');
                }
            },
        }
        let ghost start = out@;
        match plan {
            SegmentPlan::Outside => {},
            SegmentPlan::Empty => {
                assert(out@ =~= start + Seq::<char>::empty());
            },
            SegmentPlan::Raw => {
                if let Some(raw) = &seg.raw_text {
                    out.append(raw.as_str());
                }
            },
            SegmentPlan::SourceMapped { window } => {
                match extract_segment(seg, viewport_width, &window.ss, theme) {
                    Some(piece) => {
                        out.append(piece.as_str());
                    },
                    None => {
                        proof {
                            lemma_selection_text_none(
                                segments@,
                                viewport_width,
                                ordered,
                                msg_area.x as int,
                                copy_markdown,
                                *theme,
                                rendered@,
                                i + 1,
                                segments@.len() as int,
                            );
                        }
                        return None;
                    },
                }
            },
            SegmentPlan::Rendered { window: _ } => {
                out.append(rendered[i].as_str());
            },
        }
        proof {
            if before.len() == 0 {
                assert(start =~= Seq::empty());
                assert(plan !is Outside ==> out@ =~= segment_copy(
                    *seg,
                    doc_row - seg.height,
                    viewport_width,
                    ordered,
                    msg_area.x as int,
                    copy_markdown,
                    *theme,
                    rendered@[i as int]@,
                )->0);
            }
        }
        i += 1;
    }
    Some(out)
}

} // verus!
