//! The text of a canvas: one line for each row of cells.

use crate::drawille::color::{foreground, shade_of, NEAREST_SHADE};
use crate::drawille::grid::Grid;
use crate::fixed::clamped;
use vstd::prelude::*;

verus! {

/// The code point of the Braille pattern without a dot.
pub const BRAILLE_PATTERN_BLANK: u32 = 0x2800;

/// The Braille pattern whose dots are the bits of `braille_offset`.
pub open spec fn glyph(braille_offset: u8) -> char {
    (BRAILLE_PATTERN_BLANK + braille_offset) as char
}

impl Grid {
    /// The shade of the cell `k`.
    pub open spec fn shade(self, k: (i32, i32)) -> int {
        match self.zrange {
            Some((zmin, zmax)) => shade_of(self.cells[k].z, zmin, zmax),
            None => NEAREST_SHADE as int,
        }
    }

    /// The text of the cell `k`: a blank pattern where no dot of it is lit,
    /// else its pattern, after the escape sequence of its shade where colors
    /// are asked for.
    pub open spec fn cell_text(self, with_colors: bool, k: (i32, i32)) -> Seq<char> {
        if !self.cells.contains_key(k) {
            seq![glyph(0)]
        } else if !with_colors {
            seq![glyph(self.cells[k].braille_offset)]
        } else {
            foreground(self.shade(k)).push(glyph(self.cells[k].braille_offset))
        }
    }

    /// The text of the cells of row `row` in the columns from `from` up to,
    /// and not including, `upto`.
    pub open spec fn span_text(self, with_colors: bool, row: i32, from: int, upto: int) -> Seq<
        char,
    >
        decreases upto - from,
    {
        if from >= upto {
            Seq::empty()
        } else {
            self.span_text(with_colors, row, from, upto - 1) + self.cell_text(
                with_colors,
                (row, (upto - 1) as i32),
            )
        }
    }

    /// Whether `c` is the last column of row `row` that holds a lit dot.
    pub open spec fn is_last_col(self, row: i32, c: i32) -> bool {
        &&& self.cells.contains_key((row, c))
        &&& forall|d: i32| #[trigger] self.cells.contains_key((row, d)) ==> d <= c
    }

    /// The last column of row `row` that holds a lit dot.
    pub open spec fn last_col(self, row: i32) -> i32 {
        choose|c: i32| self.is_last_col(row, c)
    }

    /// Whether `c` is the first column of row `row` that holds a lit dot.
    pub open spec fn is_first_col(self, row: i32, c: i32) -> bool {
        &&& self.cells.contains_key((row, c))
        &&& forall|d: i32| #[trigger] self.cells.contains_key((row, d)) ==> c <= d
    }

    /// The first column of row `row` that holds a lit dot.
    pub open spec fn first_col(self, row: i32) -> i32 {
        choose|c: i32| self.is_first_col(row, c)
    }

    /// The line of row `row`: nothing where the row holds no lit dot, else
    /// the cells from column `min_col` to `max_col`. Where `min_col` is not
    /// given, the line begins at the first column of the row with a lit dot;
    /// where `max_col` is not given, it ends at the last such column.
    pub open spec fn row_text(
        self,
        with_colors: bool,
        row: i32,
        min_col: Option<i32>,
        max_col: Option<i32>,
    ) -> Seq<char> {
        if !self.has_row(row) {
            Seq::empty()
        } else {
            let first = match min_col {
                Some(c) => c,
                None => self.first_col(row),
            };
            let last = match max_col {
                Some(c) => c,
                None => self.last_col(row),
            };
            self.span_text(with_colors, row, first as int, last + 1)
        }
    }

    /// The smallest box of rows and columns that holds every cell, as first
    /// row, last row, first column and last column; nothing for a grid
    /// without a cell.
    pub open spec fn bounds(self) -> Option<(i32, i32, i32, i32)> {
        if self.is_blank() {
            None
        } else {
            Some(choose|b: (i32, i32, i32, i32)| self.bounded_by(b.0, b.1, b.2, b.3))
        }
    }
}

/// A grid has one smallest box at most.
pub proof fn lemma_bounds_unique(g: Grid, a: (i32, i32, i32, i32), b: (i32, i32, i32, i32))
    requires
        g.bounded_by(a.0, a.1, a.2, a.3),
        g.bounded_by(b.0, b.1, b.2, b.3),
    ensures
        a == b,
{
    let r0 = choose|c: i32| g.cells.contains_key((a.0, c));
    assert(g.cells.contains_key((a.0, r0)));
    let r1 = choose|c: i32| g.cells.contains_key((b.0, c));
    assert(g.cells.contains_key((b.0, r1)));
    let r2 = choose|c: i32| g.cells.contains_key((a.1, c));
    assert(g.cells.contains_key((a.1, r2)));
    let r3 = choose|c: i32| g.cells.contains_key((b.1, c));
    assert(g.cells.contains_key((b.1, r3)));
    let c0 = choose|r: i32| g.cells.contains_key((r, a.2));
    assert(g.cells.contains_key((c0, a.2)));
    let c1 = choose|r: i32| g.cells.contains_key((r, b.2));
    assert(g.cells.contains_key((c1, b.2)));
    let c2 = choose|r: i32| g.cells.contains_key((r, a.3));
    assert(g.cells.contains_key((c2, a.3)));
    let c3 = choose|r: i32| g.cells.contains_key((r, b.3));
    assert(g.cells.contains_key((c3, b.3)));
}

/// The box that bounds a grid is its smallest box.
pub proof fn lemma_bounds(g: Grid, b: (i32, i32, i32, i32))
    requires
        g.bounded_by(b.0, b.1, b.2, b.3),
    ensures
        g.bounds() == Some(b),
{
    let c = choose|c: i32| g.cells.contains_key((b.0, c));
    assert(g.cells.contains_key((b.0, c)));
    let found = choose|x: (i32, i32, i32, i32)| g.bounded_by(x.0, x.1, x.2, x.3);
    lemma_bounds_unique(g, found, b);
}

/// Where a window of `max_len` cells begins so that the cells from `min` to
/// `max` stand in its middle: half of what the window has more than the
/// distance from `min` to `max`, rounded down, before `min`; at `min` itself
/// where the window has no more.
pub open spec fn centered(min: int, max: int, max_len: int) -> int {
    if max_len <= max - min {
        min
    } else {
        min - (max_len - (max - min)) / 2
    }
}

/// The lines of a part of a grid that are still to come.
pub struct Frame {
    pub grid: Grid,
    pub with_colors: bool,
    pub next_row: int,
    pub max_row: int,
    pub min_col: Option<i32>,
    pub max_col: Option<i32>,
}

impl Frame {
    /// The line of row `row`.
    pub open spec fn line(self, row: i32) -> Seq<char> {
        self.grid.row_text(self.with_colors, row, self.min_col, self.max_col)
    }

    /// The number of lines still to come.
    pub open spec fn len(self) -> nat {
        if self.next_row > self.max_row {
            0
        } else {
            (self.max_row - self.next_row + 1) as nat
        }
    }

    /// The lines still to come, first to last.
    pub open spec fn lines(self) -> Seq<Seq<char>> {
        Seq::new(self.len(), |i: int| self.line((self.next_row + i) as i32))
    }

    /// The frame after its next line was taken.
    pub open spec fn advanced(self) -> Frame {
        Frame { next_row: self.next_row + 1, ..self }
    }

    /// The frame of the rows `min_row` to `max_row` of `grid`, each from the
    /// column `min_col` to the column `max_col`, or to its own last column
    /// with a lit dot where `max_col` is not given.
    pub open spec fn of(
        grid: Grid,
        with_colors: bool,
        min_row: i32,
        max_row: i32,
        min_col: i32,
        max_col: Option<i32>,
    ) -> Frame {
        Frame {
            grid,
            with_colors,
            next_row: min_row as int,
            max_row: max_row as int,
            min_col: Some(min_col),
            max_col,
        }
    }

    /// The frame of the rows of `grid` from the first to the last that holds
    /// a lit dot, each from its own first column with a lit dot to its own
    /// last one. A row between them that holds no lit dot gives an empty
    /// line. A grid without a cell gives no line.
    pub open spec fn whole(grid: Grid, with_colors: bool) -> Frame {
        let (min_row, max_row) = match grid.bounds() {
            Some((min_row, max_row, _, _)) => (min_row as int, max_row as int),
            None => (i32::MAX as int, 0int),
        };
        Frame { grid, with_colors, next_row: min_row, max_row, min_col: None, max_col: None }
    }

    /// The frame of `grid` in a window of `max_width` columns and
    /// `max_height` rows. It ends at the last row and the last column with a
    /// lit dot. Where the window has more rows than lie between the first and
    /// the last row with a lit dot, half of what it has more, rounded down,
    /// comes before the first; likewise for the columns. What would come
    /// after the last row and column is not part of the frame. It has no line
    /// where the grid has no cell.
    pub open spec fn windowed(grid: Grid, with_colors: bool, max_width: i32, max_height: i32) -> Frame {
        match grid.bounds() {
            Some((min_row, max_row, min_col, max_col)) => Frame::of(
                grid,
                with_colors,
                clamped(centered(min_row as int, max_row as int, max_height as int)) as i32,
                max_row,
                clamped(centered(min_col as int, max_col as int, max_width as int)) as i32,
                Some(max_col),
            ),
            None => Frame::of(grid, with_colors, i32::MAX, 0, 0, None),
        }
    }
}

} // verus!
