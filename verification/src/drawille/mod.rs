//! A canvas of dots for the terminal.
//!
//! Unicode has the Braille patterns: characters made of dots in a matrix of
//! four rows and two columns, one bit of the code point for each dot. A dot
//! pattern is composed by or-ing the bits of its dots, so a character cell of
//! the terminal can show any of the 256 patterns of its eight dots.
//!
//! The canvas takes dots by their coordinates and maps them to cells of two by
//! four dots. It keeps, for each cell with a lit dot, the pattern and the
//! depth of the nearest dot, and hands out the cells as lines of text.

pub mod color;
pub mod frame;
pub mod grid;
pub mod laws;
pub mod line;
pub mod utils;

use crate::drawille::color::{fg_grayscale, shade, BACKGROUND_SHADE, NEAREST_SHADE};
use crate::drawille::grid::{
    at_depth, by_height, cell_col, cell_row, dot_at, edge, filling, flattened, lemma_cell_in_reach,
    lemma_drawn_concat, lemma_drawn_push, lemma_put_wf, mean_depth, outline, shorter, strokes,
    sweep, Grid, Pixel,
};
use crate::drawille::frame::{centered, glyph, lemma_bounds, Frame, BRAILLE_PATTERN_BLANK};
use crate::drawille::line::{lemma_points_len, line_points, Line};
use crate::drawille::utils::btree_minmax;
use crate::fixed::{clamped, greater, lesser, saturate, to_nearest};
use crate::vector3::Vector3;
use std::collections::BTreeMap;
use vstd::prelude::*;
use vstd::std_specs::iter::IteratorSpec;
use vstd::string::StringExecFns;

verus! {

/// The bit of the dot at `(x, y)` within its cell.
fn braille_offset_at(x: i32, y: i32) -> (bit: u8)
    ensures
        bit == dot_at(x, y),
        bit != 0,
{
    let mut xoff: i32 = to_nearest(x) % 2;
    if xoff < 0 {
        xoff += 2;
    }
    let mut yoff: i32 = to_nearest(y) % 4;
    if yoff < 0 {
        yoff += 4;
    }
    if yoff == 0 {
        if xoff == 0 {
            0x01
        } else {
            0x08
        }
    } else if yoff == 1 {
        if xoff == 0 {
            0x02
        } else {
            0x10
        }
    } else if yoff == 2 {
        if xoff == 0 {
            0x04
        } else {
            0x20
        }
    } else {
        if xoff == 0 {
            0x40
        } else {
            0x80
        }
    }
}

/// `n` divided by the width of a cell, rounded down.
fn halved(n: i32) -> (q: i32)
    requires
        -32768 <= n <= 32768,
    ensures
        q == n as int / 2,
{
    if n >= 0 {
        n / 2
    } else {
        -((1 - n) / 2)
    }
}

/// `n` divided by the height of a cell, rounded down.
fn quartered(n: i32) -> (q: i32)
    requires
        -32768 <= n <= 32768,
    ensures
        q == n as int / 4,
{
    if n >= 0 {
        n / 4
    } else {
        -((3 - n) / 4)
    }
}

/// A sparse grid of Braille cells with a depth for each.
#[derive(Debug)]
pub struct Canvas {
    rows: BTreeMap<i32, BTreeMap<i32, Pixel>>,
    zrange: Option<(i32, i32)>,
}

impl View for Canvas {
    type V = Grid;

    closed spec fn view(&self) -> Grid {
        Grid {
            cells: Map::new(
                |k: (i32, i32)| self.rows@.contains_key(k.0) && self.rows@[k.0]@.contains_key(k.1),
                |k: (i32, i32)| self.rows@[k.0]@[k.1],
            ),
            zrange: self.zrange,
        }
    }
}

impl Canvas {
    /// Whether the canvas stores a row `r`.
    pub closed spec fn stores_row(&self, r: i32) -> bool {
        self.rows@.contains_key(r)
    }

    /// The grid is well formed and no stored row is empty.
    pub closed spec fn wf(&self) -> bool {
        &&& self@.wf()
        &&& forall|r: i32| #[trigger]
            self.rows@.contains_key(r) ==> !self.rows@[r]@.dom().is_empty()
    }

    /// The grid of a well-formed canvas is well formed: every cell has a lit
    /// dot, lies where a dot can fall, and has a depth within the range.
    pub proof fn lemma_wf(&self)
        requires
            self.wf(),
        ensures
            self@.wf(),
    {
    }

    /// A well-formed canvas stores exactly the rows that hold a lit dot.
    pub proof fn lemma_stored_rows(&self, r: i32)
        requires
            self.wf(),
        ensures
            self.stores_row(r) <==> self@.has_row(r),
    {
        if self.rows@.contains_key(r) {
            let row = self.rows@[r]@;
            assert(!row.dom().is_empty());
            if forall|c: i32| !row.dom().contains(c) {
                assert(row.dom() =~= Set::<i32>::empty());
            }
            let c = choose|c: i32| row.dom().contains(c);
            assert(self@.cells.contains_key((r, c)));
        }
        if self@.has_row(r) {
            let c = choose|c: i32| self@.cells.contains_key((r, c));
            assert(self@.cells.contains_key((r, c)));
        }
    }

    /// The optimal background color for rendering the Canvas, as one of the
    /// 24 grays: the gray below every shade that a cell is drawn in.
    pub fn background_color() -> (shade: u8)
        ensures
            shade == BACKGROUND_SHADE,
    {
        BACKGROUND_SHADE
    }

    /// A canvas without a dot.
    pub fn new() -> (canvas: Canvas)
        ensures
            canvas@ == Grid::empty(),
            canvas.wf(),
    {
        let canvas = Canvas { rows: BTreeMap::new(), zrange: None };
        assert(canvas@.cells =~= Map::empty());
        canvas
    }

    /// Convert coordinates from user space to canvas space: the column and
    /// the row of the cell that holds the dot at `(x, y)`.
    pub fn pos(x: i32, y: i32) -> (cell: (i32, i32))
        ensures
            cell.0 == cell_col(x),
            cell.1 == cell_row(y),
    {
        (halved(to_nearest(x)), quartered(to_nearest(y)))
    }

    /// The lines of the rows from the first to the last that holds a lit
    /// dot. Each line runs from the first column of its row with a lit dot
    /// to the last one, so the lines may differ in length and in where they
    /// begin; a row between them without a lit dot gives an empty line.
    pub fn rows(&self, with_colors: bool) -> (rows: Rows<'_>)
        requires
            self.wf(),
        ensures
            rows.wf(),
            rows@ == Frame::whole(self@, with_colors),
    {
        let (min_row, max_row, _, _) = match self.dimensions() {
            Some(bounds) => bounds,
            None => (i32::MAX, 0, 0, 0),
        };

        Rows {
            canvas: self,
            min_row: min_row as i64,
            max_row: max_row as i64,
            min_col: None,
            max_col: None,
            with_colors,
        }
    }

    /// bounds are in canvas space, use `pos` to perform the conversion if
    /// needed.
    ///
    /// If `max_col` is `None` then each row is composed by the minimum
    /// characters for that row only and that each row possibly has a different
    /// length. On the other hand, when it's `Some(width)` all rows will have
    /// the same length.
    pub fn frame(
        &self,
        with_colors: bool,
        min_row: i32,
        max_row: i32,
        min_col: i32,
        max_col: Option<i32>,
    ) -> (rows: Rows<'_>)
        requires
            self.wf(),
        ensures
            rows.wf(),
            rows@ == Frame::of(self@, with_colors, min_row, max_row, min_col, max_col),
    {
        Rows {
            canvas: self,
            min_row: min_row as i64,
            max_row: max_row as i64,
            min_col: Some(min_col),
            max_col,
            with_colors,
        }
    }

    /// The lines of the canvas for a window of `max_width` columns and
    /// `max_height` rows. They end at the last row and the last column with
    /// a lit dot; half of what the window has more than the lit cells comes
    /// before them, as empty lines and as blank patterns, so that the lit
    /// cells stand in the middle of the window once the lines are shown.
    pub fn centered_frame(&self, with_colors: bool, max_width: i32, max_height: i32) -> (rows:
        Rows<'_>)
        requires
            self.wf(),
        ensures
            rows.wf(),
            rows@ == Frame::windowed(self@, with_colors, max_width, max_height),
    {
        match self.dimensions() {
            Some((min_r, max_r, min_c, max_c)) => {
                let min_r = padded(min_r, max_r, max_height);
                let min_c = padded(min_c, max_c, max_width);

                self.frame(with_colors, min_r, max_r, min_c, Some(max_c))
            },
            None => self.frame(with_colors, i32::MAX, 0, 0, None),
        }
    }

    /// Get a tuple with the minimum row, maximum row, minimum column and
    /// maximum column values in canvas space, or nothing where no dot is lit.
    pub fn dimensions(&self) -> (r: Option<(i32, i32, i32, i32)>)
        requires
            self.wf(),
        ensures
            r == self@.bounds(),
            match r {
                Some((min_row, max_row, min_col, max_col)) => self@.bounded_by(
                    min_row,
                    max_row,
                    min_col,
                    max_col,
                ),
                None => self@.is_blank(),
            },
    {
        let (min_row, max_row) = match btree_minmax(&self.rows) {
            Some(rows) => rows,
            None => {
                return None;
            },
        };
        let mut min_c: i32 = i32::MAX;
        let mut max_c: i32 = i32::MIN;
        let ghost all = self.rows.iter().remaining();
        let ghost mut n: int = 0;
        let ghost mut min_at: i32 = 0;
        let ghost mut max_at: i32 = 0;
        for entry in it: self.rows.iter()
            invariant
                self.wf(),
                it.seq() == all,
                all == self.rows.iter().remaining(),
                n == it.index(),
                0 <= n <= all.len(),
                n == 0 ==> min_c == i32::MAX && max_c == i32::MIN,
                forall|i: int, c: i32|
                    0 <= i < n && #[trigger] self.rows@[*all[i].0]@.contains_key(c) ==> min_c <= c
                        <= max_c,
                n > 0 ==> self.rows@.contains_key(min_at) && self.rows@[min_at]@.contains_key(
                    min_c,
                ),
                n > 0 ==> self.rows@.contains_key(max_at) && self.rows@[max_at]@.contains_key(
                    max_c,
                ),
        {
            let (key, row) = entry;
            proof {
                assert(all[n] == entry);
                assert(self.rows@.contains_key(*all[n].0));
                assert(self.rows@[*key] == *row);
            }
            let (row_min_c, row_max_c) = match btree_minmax(row) {
                Some(cols) => cols,
                None => {
                    proof {
                        assert(!self.rows@[*key]@.dom().is_empty());
                        assert(self.rows@[*key]@.dom() =~= Set::<i32>::empty());
                    }
                    (0, 0)
                },
            };
            if row_min_c <= min_c {
                min_c = row_min_c;
                proof {
                    min_at = *key;
                }
            }
            if row_max_c >= max_c {
                max_c = row_max_c;
                proof {
                    max_at = *key;
                }
            }
            proof {
                n = n + 1;
            }
        }
        proof {
            assert(n == all.len());
            assert(all.contains((&min_row, &self.rows@[min_row])));
            assert(n > 0);
            assert forall|k: (i32, i32)| #[trigger] self@.cells.contains_key(k) implies min_row
                <= k.0 <= max_row && min_c <= k.1 <= max_c by {
                let row = self.rows@[k.0];
                assert(all.contains((&k.0, &row)));
                let i = choose|i: int| 0 <= i < all.len() && all[i] == (&k.0, &row);
                assert(self.rows@[*all[i].0]@.contains_key(k.1));
            }
            self.lemma_stored_rows(min_row);
            self.lemma_stored_rows(max_row);
            assert(self@.cells.contains_key((min_at, min_c)));
            assert(self@.cells.contains_key((max_at, max_c)));
            lemma_bounds(self@, (min_row, max_row, min_c, max_c));
        }
        Some((min_row, max_row, min_c, max_c))
    }

    /// Puts out every dot. The range of depths stays as it is, so that
    /// shades keep their meaning from one frame to the next.
    pub fn clear(&mut self)
        requires
            old(self).wf(),
        ensures
            final(self).wf(),
            final(self)@ == (Grid { cells: Map::empty(), zrange: old(self)@.zrange }),
    {
        self.rows.clear();
        assert(self@.cells =~= Map::empty());
    }

    /// Lights the dot of `p` at the depth of `p`.
    pub fn set(&mut self, p: Vector3)
        requires
            old(self).wf(),
        ensures
            final(self).wf(),
            final(self)@ == old(self)@.put(p),
    {
        let (c, r) = Self::pos(p.x, p.y);
        proof {
            lemma_cell_in_reach(p.x, p.y);
            lemma_put_wf(self@, p);
        }

        self.zrange = match self.zrange {
            None => Some((p.z, p.z)),
            Some((minz, maxz)) => Some((lesser(minz, p.z), greater(maxz, p.z))),
        };

        let braille_offset = braille_offset_at(p.x, p.y);
        let ghost before = self.rows@;

        let mut row = match self.rows.remove(&r) {
            Some(row) => row,
            None => BTreeMap::new(),
        };
        let pixel = match row.get(&c) {
            Some(pix) => Pixel {
                braille_offset: pix.braille_offset | braille_offset,
                z: lesser(pix.z, p.z),
            },
            None => Pixel { braille_offset, z: p.z },
        };
        row.insert(c, pixel);
        assert(row@.dom().contains(c));
        self.rows.insert(r, row);

        assert(self@.cells =~= old(self)@.put(p).cells);
    }

    /// Puts out the dot at `(x, y)`. A cell without a lit dot goes, and so
    /// does a row without a cell. Depths stay as they are.
    pub fn unset(&mut self, x: i32, y: i32)
        requires
            old(self).wf(),
        ensures
            final(self).wf(),
            final(self)@ == old(self)@.wiped(x, y),
    {
        let (c, r) = Self::pos(x, y);
        proof {
            lemma_cell_in_reach(x, y);
        }
        let braille_offset = braille_offset_at(x, y);

        let mut row = match self.rows.remove(&r) {
            Some(row) => row,
            None => {
                assert(self@.cells =~= old(self)@.cells);
                return ;
            },
        };
        let found = match row.get(&c) {
            Some(pix) => Some(*pix),
            None => None,
        };
        match found {
            Some(pix) => {
                let rest = pix.braille_offset & !braille_offset;
                if rest == 0 {
                    row.remove(&c);
                } else {
                    row.insert(c, Pixel { braille_offset: rest, z: pix.z });
                    assert(row@.dom().contains(c));
                }
            },
            None => {},
        }
        if !row.is_empty() {
            self.rows.insert(r, row);
        }
        assert(self@.cells =~= old(self)@.wiped(x, y).cells);
    }

    /// What the cell in row `row` and column `col` holds, if a dot of it is
    /// lit.
    pub fn get(&self, row: i32, col: i32) -> (pixel: Option<Pixel>)
        ensures
            pixel == (if self@.cells.contains_key((row, col)) {
                Some(self@.cells[(row, col)])
            } else {
                None
            }),
    {
        match self.rows.get(&row) {
            None => None,
            Some(cells) => match cells.get(&col) {
                None => None,
                Some(pixel) => Some(*pixel),
            },
        }
    }

    /// Whether no dot is lit.
    pub fn is_empty(&self) -> (blank: bool)
        requires
            self.wf(),
        ensures
            blank == self@.is_blank(),
    {
        let blank = self.rows.is_empty();
        proof {
            if blank {
                assert(self.rows@.dom() =~= Set::<i32>::empty());
            } else {
                let r = choose|r: i32| self.rows@.dom().contains(r);
                if forall|r: i32| !self.rows@.dom().contains(r) {
                    assert(self.rows@.dom() =~= Set::<i32>::empty());
                }
                self.lemma_stored_rows(r);
                let c = choose|c: i32| self@.cells.contains_key((r, c));
                assert(self@.cells.contains_key((r, c)));
            }
        }
        blank
    }

    /// Whether the dot at `(x, y)` is lit.
    pub fn is_set(&self, x: i32, y: i32) -> (lit: bool)
        ensures
            lit == self@.is_set(x, y),
    {
        let dot_index = braille_offset_at(x, y);
        let (x, y) = Self::pos(x, y);

        match self.rows.get(&y) {
            None => false,
            Some(row) => match row.get(&x) {
                None => false,
                Some(c) => c.braille_offset & dot_index != 0,
            },
        }
    }

    /// Draws the straight line between the dots of `p0` and `p1`: one dot
    /// for each point of the walk from one to the other.
    pub fn line(&mut self, p0: Vector3, p1: Vector3)
        requires
            old(self).wf(),
        ensures
            final(self).wf(),
            final(self)@ == old(self)@.drawn(line_points(p0.rounded(), p1.rounded())),
    {
        let mut walk = Line::new(p0.round(), p1.round());
        let ghost all = walk@.points();
        let ghost mut done: Seq<Vector3> = Seq::empty();
        let mut next = walk.next();
        while next.is_some()
            invariant
                self.wf(),
                self@ == old(self)@.drawn(done),
                match next {
                    Some(p) => done.push(p) + walk@.points() == all,
                    None => done == all,
                },
            decreases
                    walk@.left + (if next.is_some() {
                        1int
                    } else {
                        0int
                    }),
        {
            let p = next.unwrap();
            proof {
                lemma_drawn_push(old(self)@, done, p);
                done = done.push(p);
            }
            self.set(p);
            let ghost before = walk@;
            next = walk.next();
            proof {
                if before.left > 0 {
                    assert(done + before.points() =~= done.push(before.at) + walk@.points());
                } else {
                    assert(done + before.points() =~= done);
                }
            }
        }
    }

    /// Draws the outline of a triangle, every dot at the mean depth of the
    /// three corners.
    pub fn triangle(&mut self, p0: Vector3, p1: Vector3, p2: Vector3)
        requires
            old(self).wf(),
        ensures
            final(self).wf(),
            final(self)@ == old(self)@.drawn(outline(p0, p1, p2)),
    {
        reveal(outline);
        let midz = mean_of(p0.z, p1.z, p2.z);
        self.triangle_line(p0, p1, midz);
        self.triangle_line(p0, p2, midz);
        self.triangle_line(p1, p2, midz);
        proof {
            let a = edge(p0, p1, midz);
            let b = edge(p0, p2, midz);
            let c = edge(p1, p2, midz);
            lemma_drawn_concat(old(self)@, a, b);
            lemma_drawn_concat(old(self)@, a + b, c);
        }
    }

    /// Draws a filled triangle, every dot at the mean depth of the three
    /// corners: strokes sweep from the highest corner and from the lowest
    /// one, and the outline goes over both.
    pub fn fill_triangle(&mut self, p0: Vector3, p1: Vector3, p2: Vector3)
        requires
            old(self).wf(),
        ensures
            final(self).wf(),
            final(self)@ == old(self)@.drawn(filling(p0, p1, p2)),
    {
        reveal(filling);
        let mut top = p0;
        let mut mid = p1;
        let mut low = p2;

        // ensure top is the point with highest y, then comes mid and then low
        if mid.y > top.y {
            let t = top;
            top = mid;
            mid = t;
        }
        if low.y > top.y {
            let t = top;
            top = low;
            low = t;
        }
        if low.y > mid.y {
            let t = mid;
            mid = low;
            low = t;
        }
        assert((top, mid, low) == by_height(p0, p1, p2));

        let midz = mean_of(top.z, mid.z, low.z);

        self.sweep_from(top, mid, low, midz);
        self.sweep_from(low, top, mid, midz);
        self.triangle(top, mid, low);
        proof {
            let a = sweep(top, mid, low, midz);
            let b = sweep(low, top, mid, midz);
            let c = outline(top, mid, low);
            lemma_drawn_concat(old(self)@, a, b);
            lemma_drawn_concat(old(self)@, a + b, c);
        }
    }

    /// Joins the points on the way from `from` to `left` to the points on
    /// the way from `from` to `right`, pair by pair.
    fn sweep_from(&mut self, from: Vector3, left: Vector3, right: Vector3, z: i32)
        requires
            old(self).wf(),
        ensures
            final(self).wf(),
            final(self)@ == old(self)@.drawn(sweep(from, left, right, z)),
    {
        let mut left_walk = Line::new(from, left);
        let mut right_walk = Line::new(from, right);
        let ghost a = left_walk@.points();
        let ghost b = right_walk@.points();
        let ghost mut n: nat = 0;
        proof {
            assert(a.skip(0) =~= a);
            assert(b.skip(0) =~= b);
        }
        loop
            invariant_except_break
                n <= shorter(a, b),
                left_walk@.points() == a.skip(n as int),
                right_walk@.points() == b.skip(n as int),
                self@ == old(self)@.drawn(strokes(a, b, z, n)),
            invariant
                self.wf(),
            ensures
                self.wf(),
                self@ == old(self)@.drawn(strokes(a, b, z, shorter(a, b))),
            decreases left_walk@.left,
        {
            let ghost left_before = left_walk@;
            let ghost right_before = right_walk@;
            proof {
                lemma_points_len(left_before);
                lemma_points_len(right_before);
            }
            let line_start = match left_walk.next() {
                Some(p) => p,
                None => {
                    break ;
                },
            };
            let line_end = match right_walk.next() {
                Some(p) => p,
                None => {
                    break ;
                },
            };
            proof {
                assert(left_before.points() == seq![line_start] + left_walk@.points());
                assert(right_before.points() == seq![line_end] + right_walk@.points());
                assert(a[n as int] == a.skip(n as int)[0]);
                assert(b[n as int] == b.skip(n as int)[0]);
                assert(left_walk@.points() =~= a.skip(n as int).skip(1));
                assert(right_walk@.points() =~= b.skip(n as int).skip(1));
                assert(a.skip(n as int).skip(1) =~= a.skip(n as int + 1));
                assert(b.skip(n as int).skip(1) =~= b.skip(n as int + 1));
                lemma_drawn_concat(old(self)@, strokes(a, b, z, n), edge(line_start, line_end, z));
                n = n + 1;
            }
            self.triangle_line(line_start, line_end, z);
        }
    }

    // lines for triangles all have the same z for flat shading
    fn triangle_line(&mut self, p0: Vector3, p1: Vector3, z: i32)
        requires
            old(self).wf(),
        ensures
            final(self).wf(),
            final(self)@ == old(self)@.drawn(edge(p0, p1, z)),
    {
        let mut walk = Line::new(p0.round(), p1.round());
        let ghost all = walk@.points();
        let ghost mut done: Seq<Vector3> = Seq::empty();
        let mut next = walk.next();
        while next.is_some()
            invariant
                self.wf(),
                self@ == old(self)@.drawn(flattened(done, z)),
                match next {
                    Some(p) => done.push(p) + walk@.points() == all,
                    None => done == all,
                },
            decreases
                    walk@.left + (if next.is_some() {
                        1int
                    } else {
                        0int
                    }),
        {
            let mut p = next.unwrap();
            proof {
                lemma_drawn_push(old(self)@, flattened(done, z), at_depth(p, z));
                assert(flattened(done, z).push(at_depth(p, z)) =~= flattened(done.push(p), z));
                done = done.push(p);
            }
            p.z = z;
            self.set(p);
            let ghost before = walk@;
            next = walk.next();
            proof {
                if before.left > 0 {
                    assert(done + before.points() =~= done.push(before.at) + walk@.points());
                } else {
                    assert(done + before.points() =~= done);
                }
            }
        }
    }
}

/// Where a window of `max_len` cells begins so that the cells from `min` to
/// `max` stand in its middle.
pub fn padded(min: i32, max: i32, max_len: i32) -> (start: i32)
    ensures
        start == clamped(centered(min as int, max as int, max_len as int)),
{
    let occupied: i64 = max as i64 - min as i64;
    if max_len as i64 <= occupied {
        min
    } else {
        let padding: i64 = max_len as i64 - occupied;
        saturate(min as i64 - padding / 2)
    }
}

/// The lines of a part of a canvas, handed out one after another.
#[derive(Debug)]
pub struct Rows<'a> {
    canvas: &'a Canvas,
    with_colors: bool,
    min_row: i64,
    max_row: i64,
    min_col: Option<i32>,
    max_col: Option<i32>,
}

impl<'a> View for Rows<'a> {
    type V = Frame;

    closed spec fn view(&self) -> Frame {
        Frame {
            grid: self.canvas@,
            with_colors: self.with_colors,
            next_row: self.min_row as int,
            max_row: self.max_row as int,
            min_col: self.min_col,
            max_col: self.max_col,
        }
    }
}

impl<'a> Rows<'a> {
    /// The canvas is well formed and the rows still to come are rows of a
    /// canvas.
    pub closed spec fn wf(&self) -> bool {
        &&& self.canvas.wf()
        &&& i32::MIN <= self.min_row
        &&& self.max_row <= i32::MAX
    }

    /// The text of a cell that holds a lit dot.
    fn braille(&self, pix: &Pixel, Ghost(k): Ghost<(i32, i32)>) -> (s: String)
        requires
            self.wf(),
            self@.grid.cells.contains_key(k),
            self@.grid.cells[k] == *pix,
        ensures
            s@ == self@.grid.cell_text(self@.with_colors, k),
    {
        let c = match char::from_u32(BRAILLE_PATTERN_BLANK + pix.braille_offset as u32) {
            Some(c) => c,
            None => ' ',
        };
        let mut s = String::new();

        if !self.with_colors {
            s.push(c);
            assert(s@ =~= seq![c]);
            return s;
        }
        // Use the ANSI grayscales as a form of alpha channel to simulate depth.
        let gray = match self.canvas.zrange {
            Some((zmin, zmax)) => shade(pix.z, zmin, zmax),
            None => NEAREST_SHADE,
        };
        s.append(fg_grayscale(gray).as_str());
        s.push(c);
        s
    }

    /// The text of the cells of `row`, the row `r` of the canvas, from the
    /// column `min_c` to the column `max_c`.
    fn span(&self, row: &BTreeMap<i32, Pixel>, r: i32, min_c: i32, max_c: i32) -> (s: String)
        requires
            self.wf(),
            self.canvas.rows@.contains_key(r),
            self.canvas.rows@[r] == *row,
        ensures
            s@ == self@.grid.span_text(self@.with_colors, r, min_c as int, max_c + 1),
    {
        let mut s = String::new();
        let mut x: i64 = min_c as i64;
        while x <= max_c as i64
            invariant
                self.wf(),
                self.canvas.rows@.contains_key(r),
                self.canvas.rows@[r] == *row,
                min_c <= x,
                x <= max_c + 1 || x == min_c,
                s@ == self@.grid.span_text(self@.with_colors, r, min_c as int, x as int),
            decreases max_c + 1 - x,
        {
            let col: i32 = x as i32;
            match row.get(&col) {
                None => {
                    let blank = match char::from_u32(BRAILLE_PATTERN_BLANK) {
                        Some(c) => c,
                        None => ' ',
                    };
                    s.push(blank);
                    assert(seq![glyph(0)] =~= Seq::<char>::empty().push(glyph(0)));
                },
                Some(pix) => {
                    let cell = self.braille(pix, Ghost((r, col)));
                    s.append(cell.as_str());
                },
            }
            proof {
                let g = self@.grid;
                assert(g.span_text(self@.with_colors, r, min_c as int, x + 1) == g.span_text(
                    self@.with_colors,
                    r,
                    min_c as int,
                    x as int,
                ) + g.cell_text(self@.with_colors, (r, col)));
            }
            x += 1;
        }
        s
    }

    /// The next line, if one is left.
    pub fn next(&mut self) -> (r: Option<String>)
        requires
            old(self).wf(),
        ensures
            final(self).wf(),
            old(self)@.len() == 0 ==> r.is_none() && final(self)@ == old(self)@,
            old(self)@.len() > 0 ==> final(self)@ == old(self)@.advanced() && match r {
                Some(line) => line@ == old(self)@.line(old(self)@.next_row as i32),
                None => false,
            },
    {
        if self.min_row > self.max_row {
            return None;
        }
        let r: i32 = self.min_row as i32;
        proof {
            self.canvas.lemma_stored_rows(r);
        }

        let row = match self.canvas.rows.get(&r) {
            None => String::new(),
            Some(row) => match btree_minmax(row) {
                None => {
                    proof {
                        assert(!row@.dom().is_empty());
                        assert(row@.dom() =~= Set::<i32>::empty());
                    }
                    String::new()
                },
                Some((row_min_c, row_max_c)) => {
                    proof {
                        assert(self@.grid.is_first_col(r, row_min_c)) by {
                            assert(self@.grid.cells.contains_key((r, row_min_c)));
                        }
                        let first = self@.grid.first_col(r);
                        assert(self@.grid.is_first_col(r, first));
                        assert(self@.grid.cells.contains_key((r, first)));
                        assert(self@.grid.is_last_col(r, row_max_c)) by {
                            assert(self@.grid.cells.contains_key((r, row_max_c)));
                        }
                        let last = self@.grid.last_col(r);
                        assert(self@.grid.is_last_col(r, last));
                        assert(self@.grid.cells.contains_key((r, last)));
                    }
                    let min_c = match self.min_col {
                        Some(c) => c,
                        None => row_min_c,
                    };
                    let max_c = match self.max_col {
                        Some(c) => c,
                        None => row_max_c,
                    };
                    self.span(row, r, min_c, max_c)
                },
            },
        };

        self.min_row += 1;

        Some(row)
    }

    /// All the lines still to come, first to last.
    pub fn collect(self) -> (lines: Vec<String>)
        requires
            self.wf(),
        ensures
            lines@.len() == self@.len(),
            forall|i: int| 0 <= i < lines@.len() ==> (#[trigger] lines@[i])@ == self@.lines()[i],
    {
        let mut rows = self;
        let mut lines: Vec<String> = Vec::new();
        while rows.min_row <= rows.max_row
            invariant
                rows.wf(),
                rows@.grid == self@.grid,
                rows@.with_colors == self@.with_colors,
                rows@.min_col == self@.min_col,
                rows@.max_col == self@.max_col,
                rows@.max_row == self@.max_row,
                rows@.next_row == self@.next_row + lines@.len(),
                lines@.len() + rows@.len() == self@.len(),
                forall|i: int|
                    0 <= i < lines@.len() ==> (#[trigger] lines@[i])@ == self@.lines()[i],
            decreases rows.max_row - rows.min_row + 1,
        {
            match rows.next() {
                Some(line) => {
                    lines.push(line);
                },
                None => {},
            }
        }
        lines
    }
}

impl Default for Canvas {
    fn default() -> (canvas: Canvas)
        ensures
            canvas.wf(),
            canvas@ == Grid::empty(),
    {
        Canvas::new()
    }
}

/// The mean of three depths.
fn mean_of(a: i32, b: i32, c: i32) -> (m: i32)
    ensures
        m == mean_depth(a, b, c),
{
    let sum: i64 = a as i64 + b as i64 + c as i64;
    (sum / 3) as i32
}

} // verus!
