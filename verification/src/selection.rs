//! Which columns of which rows are selected.
use crate::source_map;
use crate::source_map::{RowMap, RowSourceMap};
use vstd::prelude::*;

verus! {

/// A selection on the screen: everything from the column `start_col` of the row `start_row` to the
/// column `end_col` of the row `end_row`.
#[derive(Clone, Copy, Debug, PartialEq, Eq, Structural)]
pub struct ScreenSelection {
    pub start_row: u16,
    pub start_col: u16,
    pub end_row: u16,
    pub end_col: u16,
}

/// The selected columns of a row that runs from `left` to `right`: the first row of the selection
/// begins at its first column, the last row ends at its last, and the rows between are selected
/// whole. Columns outside the row do not count; where the first number is greater than the second,
/// nothing is selected.
pub open spec fn selected_columns(ss: ScreenSelection, left: int, right: int, row: int) -> (
    int,
    int,
) {
    (
        if row == ss.start_row && ss.start_col > left {
            ss.start_col as int
        } else {
            left
        },
        if row == ss.end_row && ss.end_col < right {
            ss.end_col as int
        } else {
            right
        },
    )
}

/// The selected columns of a row that runs from `left` to `right`.
pub fn col_range(ss: &ScreenSelection, left: u16, right: u16, row: u16) -> (r: (u16, u16))
    ensures
        (r.0 as int, r.1 as int) == selected_columns(*ss, left as int, right as int, row as int),
{
    let start: u16 = if row == ss.start_row && ss.start_col > left {
        ss.start_col
    } else {
        left
    };
    let end: u16 = if row == ss.end_row && ss.end_col < right {
        ss.end_col
    } else {
        right
    };
    (start, end)
}

/// Whether the selected columns take in all of the `k`-th row: all its characters where they come
/// from the raw text, else the row from `left` to `right`.
pub open spec fn row_taken(
    cols: (int, int),
    left: int,
    right: int,
    maps: Seq<RowMap>,
    k: int,
) -> bool {
    if 0 <= k < maps.len() && maps[k] is Matched && maps[k]->matches.len() > 0 {
        cols.0 <= maps[k]->matches[0].0 && maps[k]->matches.last().0 <= cols.1
    } else {
        cols.0 <= left && right <= cols.1
    }
}

/// Whether all of a row is selected.
pub fn is_row_fully_selected(
    ss: &ScreenSelection,
    row: u16,
    left: u16,
    right: u16,
    maps: &[RowSourceMap],
    row_idx: usize,
) -> (r: bool)
    ensures
        r == row_taken(
            selected_columns(*ss, left as int, right as int, row as int),
            left as int,
            right as int,
            source_map::row_maps(maps@),
            row_idx as int,
        ),
{
    let (sel_start, sel_end) = col_range(ss, left, right, row);
    if row_idx < maps.len() {
        assert(source_map::row_maps(maps@)[row_idx as int] == maps@[row_idx as int]@);
        if let RowSourceMap::Matched { matches, .. } = &maps[row_idx] {
            if matches.len() > 0 {
                return sel_start <= matches[0].0 && matches[matches.len() - 1].0 <= sel_end;
            }
        }
    }
    sel_start <= left && right <= sel_end
}

} // verus!
