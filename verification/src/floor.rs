//! The checkerboard pattern of the floor.
//!
//! The floor is cut into square cells. A cell is named by two whole numbers,
//! its column and its row: each of a point's two coordinates on the floor,
//! divided by the side of a cell and rounded down. The colour of a cell
//! depends on the parity of the absolute values of the two numbers.

use vstd::prelude::*;
use crate::color::Color;

verus! {

/// The index by which a cell is coloured: the absolute value of the floored
/// quotient, held to the range of `i32`.
pub open spec fn cell_index_of(floored: int) -> int {
    let magnitude = if floored < 0 {
        -floored
    } else {
        floored
    };
    if magnitude > i32::MAX {
        i32::MAX as int
    } else {
        magnitude
    }
}

/// Whether a floored quotient is small enough for its index to be its own
/// absolute value.
pub open spec fn in_plain_range(floored: int) -> bool {
    -(i32::MAX as int) <= floored <= i32::MAX as int
}

/// Computes the index of a cell along one axis.
pub fn cell_index(floored: i64) -> (index: i32)
    ensures
        index == cell_index_of(floored as int),
        0 <= index,
{
    if floored >= 2147483647 || floored <= -2147483647 {
        i32::MAX
    } else if floored < 0 {
        (-floored) as i32
    } else {
        floored as i32
    }
}

/// The two colours of a checkerboard.
#[derive(Debug, PartialEq, Eq, Structural, Clone, Copy)]
pub struct Checkerboard {
    pub first_color: Color,
    pub second_color: Color,
}

impl Checkerboard {
    /// The colour of the cell in the given column and row: the first colour
    /// where the two indices have the same parity, the second where they
    /// differ.
    pub open spec fn cell_color(self, column: int, row: int) -> Color {
        if cell_index_of(column) % 2 == cell_index_of(row) % 2 {
            self.first_color
        } else {
            self.second_color
        }
    }

    /// The colour that is not `color`, of the board's two.
    pub open spec fn other(self, color: Color) -> Color {
        if color == self.first_color {
            self.second_color
        } else {
            self.first_color
        }
    }

    pub fn new(first_color: Color, second_color: Color) -> (board: Checkerboard)
        ensures
            board.first_color == first_color,
            board.second_color == second_color,
    {
        Checkerboard { first_color: first_color, second_color: second_color }
    }

    /// Colours the cell whose floored quotients are `column` and `row`.
    pub fn color_at_cell(&self, column: i64, row: i64) -> (color: Color)
        ensures
            color == self.cell_color(column as int, row as int),
            color == self.first_color || color == self.second_color,
    {
        let x: i32 = cell_index(column);
        let y: i32 = cell_index(row);
        if (x % 2) == (y % 2) {
            self.first_color
        } else {
            self.second_color
        }
    }

    /// Every cell has one of the board's two colours.
    pub proof fn lemma_one_of_two(self, column: int, row: int)
        ensures
            self.cell_color(column, row) == self.first_color || self.cell_color(column, row)
                == self.second_color,
    {
    }

    /// The pattern is mirrored in both axes: a cell and the cell with the
    /// opposite column, or the opposite row, have the same colour.
    pub proof fn lemma_mirrored(self, column: int, row: int)
        ensures
            self.cell_color(-column, row) == self.cell_color(column, row),
            self.cell_color(column, -row) == self.cell_color(column, row),
            self.cell_color(-column, -row) == self.cell_color(column, row),
    {
    }

    /// Columns and rows are treated alike.
    pub proof fn lemma_transposed(self, column: int, row: int)
        ensures
            self.cell_color(row, column) == self.cell_color(column, row),
    {
    }

    /// Within the plain range the pattern is the usual checkerboard: a cell has
    /// the first colour exactly where column plus row is even.
    pub proof fn lemma_plain_checkerboard(self, column: int, row: int)
        requires
            in_plain_range(column),
            in_plain_range(row),
        ensures
            self.cell_color(column, row) == if (column + row) % 2 == 0 {
                self.first_color
            } else {
                self.second_color
            },
    {
    }

    /// Crossing one boundary between cells changes the colour, in either
    /// direction along either axis.
    pub proof fn lemma_neighbours_differ(self, column: int, row: int)
        requires
            in_plain_range(column),
            in_plain_range(column + 1),
            in_plain_range(row),
            in_plain_range(row + 1),
        ensures
            self.cell_color(column + 1, row) == self.other(self.cell_color(column, row)),
            self.cell_color(column, row + 1) == self.other(self.cell_color(column, row)),
    {
    }

    /// Far from the origin every index is the same odd number, so all cells
    /// beyond the plain range in both axes have the first colour.
    pub proof fn lemma_beyond_range(self, column: int, row: int)
        requires
            !in_plain_range(column),
            !in_plain_range(row),
        ensures
            self.cell_color(column, row) == self.first_color,
    {
    }
}

} // verus!
