//! The fixed, ordered palette that a leaf's colour index points into.

use vstd::prelude::*;

verus! {

/// Number of colours in the palette.
pub const PALETTE_LEN: usize = 8;

/// The colour at a position of the palette, for positions below its length.
pub open spec fn palette_entry(position: int) -> Seq<char> {
    if position == 0 {
        "#3584E4"@
    } else if position == 1 {
        "#33D17A"@
    } else if position == 2 {
        "#F6D32D"@
    } else if position == 3 {
        "#FF7800"@
    } else if position == 4 {
        "#E01B24"@
    } else if position == 5 {
        "#9141AC"@
    } else if position == 6 {
        "#986A44"@
    } else {
        "#5E5C64"@
    }
}

/// The palette position that a colour index stands for: indices wrap round.
pub open spec fn palette_position(color_index: usize) -> int {
    color_index as int % PALETTE_LEN as int
}

/// The colour index that a freshly numbered terminal starts with.
pub fn default_color_index(number: usize) -> (color_index: usize)
    ensures
        color_index == number % PALETTE_LEN,
        color_index < PALETTE_LEN,
{
    number % PALETTE_LEN
}

/// The colour that a colour index selects, as a CSS colour string.
pub fn palette_color(color_index: usize) -> (color: &'static str)
    ensures
        color@ == palette_entry(palette_position(color_index)),
{
    let position: usize = color_index % PALETTE_LEN;
    if position == 0 {
        "#3584E4"
    } else if position == 1 {
        "#33D17A"
    } else if position == 2 {
        "#F6D32D"
    } else if position == 3 {
        "#FF7800"
    } else if position == 4 {
        "#E01B24"
    } else if position == 5 {
        "#9141AC"
    } else if position == 6 {
        "#986A44"
    } else {
        "#5E5C64"
    }
}

/// Number of columns in the grid that the colour picker lays the palette
/// out in.
pub const PICKER_COLUMNS: usize = 4;

/// The cell of the colour picker's grid that shows a palette position:
/// column, then row, the palette running row by row.
pub fn picker_cell(position: usize) -> (cell: (i32, i32))
    requires
        position < PALETTE_LEN,
    ensures
        cell.0 == position % PICKER_COLUMNS,
        cell.1 == position / PICKER_COLUMNS,
{
    let column: usize = position % PICKER_COLUMNS;
    let row: usize = position / PICKER_COLUMNS;
    (column as i32, row as i32)
}

/// Where the divider of a new split goes: the middle of the pane, once the
/// pane has an extent.
pub fn divider_position(extent: i32) -> (position: Option<i32>)
    ensures
        position == if extent > 0 {
            Some((extent / 2) as i32)
        } else {
            None
        },
{
    if extent > 0 {
        Some(extent / 2)
    } else {
        None
    }
}

} // verus!
