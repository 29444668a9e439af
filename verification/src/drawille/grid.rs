//! The mathematical model of a canvas: which dots are lit in which cell, and
//! how near each cell is.

use crate::drawille::line::line_points;
use crate::fixed::{nearest, quotient};
use crate::vector3::Vector3;
use vstd::prelude::*;

verus! {

/// What a cell holds.
#[derive(Debug, PartialEq, Eq, Clone, Copy, Structural)]
pub struct Pixel {
    /// offset to add to the blank Braille pattern to obtain the glyph of the
    /// cell: one bit for each lit dot
    pub braille_offset: u8,
    /// depth of the cell, the smaller the closer to the viewer it is
    pub z: i32,
}

/// The column of the cell that holds the dot at `x`.
pub open spec fn cell_col(x: i32) -> int {
    nearest(x as int) / 2
}

/// The row of the cell that holds the dot at `y`.
pub open spec fn cell_row(y: i32) -> int {
    nearest(y as int) / 4
}

/// The bit of the dot in column `xoff` and row `yoff` of its cell.
pub open spec fn dot_bit(xoff: int, yoff: int) -> u8 {
    if yoff == 0 {
        if xoff == 0 {
            0x01
        } else {
            0x08
        }
    } else if yoff == 1 {
        if xoff == 0 {
            0x02
        } else {
            0x10
        }
    } else if yoff == 2 {
        if xoff == 0 {
            0x04
        } else {
            0x20
        }
    } else {
        if xoff == 0 {
            0x40
        } else {
            0x80
        }
    }
}

/// The bit, within its cell, of the dot at `(x, y)`.
pub open spec fn dot_at(x: i32, y: i32) -> u8 {
    dot_bit(nearest(x as int) % 2, nearest(y as int) % 4)
}

/// The cell, as row and column, that holds the dot at `(x, y)`.
pub open spec fn cell_at(x: i32, y: i32) -> (i32, i32) {
    (cell_row(y) as i32, cell_col(x) as i32)
}

/// Whether a dot can fall into the cell `k`.
pub open spec fn in_reach(k: (i32, i32)) -> bool {
    -8192 <= k.0 <= 8192 && -16384 <= k.1 <= 16384
}

/// The depth range `zrange` widened to hold `z`.
pub open spec fn widened(zrange: Option<(i32, i32)>, z: i32) -> Option<(i32, i32)> {
    match zrange {
        None => Some((z, z)),
        Some((lo, hi)) => Some((if z < lo { z } else { lo }, if z > hi { z } else { hi })),
    }
}

/// The cells that hold a lit dot, by row and column, and the range of all
/// depths ever drawn.
pub struct Grid {
    pub cells: Map<(i32, i32), Pixel>,
    pub zrange: Option<(i32, i32)>,
}

impl Grid {
    /// The grid without any dot.
    pub open spec fn empty() -> Grid {
        Grid { cells: Map::empty(), zrange: None }
    }

    /// Every cell has a lit dot, lies where a dot can fall, and has a depth
    /// within the range.
    pub open spec fn wf(self) -> bool {
        &&& forall|k: (i32, i32)| #[trigger]
            self.cells.contains_key(k) ==> {
                &&& self.cells[k].braille_offset != 0
                &&& in_reach(k)
                &&& self.zrange matches Some(zr) && zr.0 <= self.cells[k].z <= zr.1
            }
        &&& self.zrange matches Some(zr) ==> zr.0 <= zr.1
    }

    /// What the cell of `p` holds once the dot of `p` is lit.
    pub open spec fn lit(self, p: Vector3) -> Pixel {
        let k = cell_at(p.x, p.y);
        if self.cells.contains_key(k) {
            Pixel {
                braille_offset: self.cells[k].braille_offset | dot_at(p.x, p.y),
                z: if p.z < self.cells[k].z {
                    p.z
                } else {
                    self.cells[k].z
                },
            }
        } else {
            Pixel { braille_offset: dot_at(p.x, p.y), z: p.z }
        }
    }

    /// The grid with the dot of `p` lit.
    pub open spec fn put(self, p: Vector3) -> Grid {
        Grid {
            cells: self.cells.insert(cell_at(p.x, p.y), self.lit(p)),
            zrange: widened(self.zrange, p.z),
        }
    }

    /// The grid with the dots of all of `pts` lit, first to last.
    pub open spec fn drawn(self, pts: Seq<Vector3>) -> Grid
        decreases pts.len(),
    {
        if pts.len() == 0 {
            self
        } else {
            self.drawn(pts.drop_last()).put(pts.last())
        }
    }

    /// Whether the dot at `(x, y)` is lit.
    pub open spec fn is_set(self, x: i32, y: i32) -> bool {
        let k = cell_at(x, y);
        self.cells.contains_key(k) && self.cells[k].braille_offset & dot_at(x, y) != 0
    }

    /// The grid with the dot at `(x, y)` put out: its cell goes when no dot
    /// of it is left.
    pub open spec fn wiped(self, x: i32, y: i32) -> Grid {
        let k = cell_at(x, y);
        if self.cells.contains_key(k) {
            let rest = self.cells[k].braille_offset & !dot_at(x, y);
            if rest == 0 {
                Grid { cells: self.cells.remove(k), zrange: self.zrange }
            } else {
                Grid {
                    cells: self.cells.insert(
                        k,
                        Pixel { braille_offset: rest, z: self.cells[k].z },
                    ),
                    zrange: self.zrange,
                }
            }
        } else {
            self
        }
    }

    /// Whether some cell of row `r` holds a lit dot.
    pub open spec fn has_row(self, r: i32) -> bool {
        exists|c: i32| self.cells.contains_key((r, c))
    }

    /// Whether some cell of column `c` holds a lit dot.
    pub open spec fn has_col(self, c: i32) -> bool {
        exists|r: i32| self.cells.contains_key((r, c))
    }

    /// Whether the rows from `min_row` to `max_row` and the columns from
    /// `min_col` to `max_col` hold every cell, and no smaller box does.
    pub open spec fn bounded_by(self, min_row: i32, max_row: i32, min_col: i32, max_col: i32) -> bool {
        &&& forall|k: (i32, i32)| #[trigger]
            self.cells.contains_key(k) ==> min_row <= k.0 <= max_row && min_col <= k.1 <= max_col
        &&& self.has_row(min_row)
        &&& self.has_row(max_row)
        &&& self.has_col(min_col)
        &&& self.has_col(max_col)
    }

    /// Whether any cell holds a lit dot.
    pub open spec fn is_blank(self) -> bool {
        forall|k: (i32, i32)| !self.cells.contains_key(k)
    }
}

/// The point `p` moved to the depth `z`.
pub open spec fn at_depth(p: Vector3, z: i32) -> Vector3 {
    Vector3 { x: p.x, y: p.y, z }
}

/// The points of `pts`, each moved to the depth `z`.
pub open spec fn flattened(pts: Seq<Vector3>, z: i32) -> Seq<Vector3> {
    Seq::new(pts.len(), |i: int| at_depth(pts[i], z))
}

/// The points of the straight line between the dots of `p0` and `p1`, all at
/// the depth `z`.
pub open spec fn edge(p0: Vector3, p1: Vector3, z: i32) -> Seq<Vector3> {
    flattened(line_points(p0.rounded(), p1.rounded()), z)
}

/// The mean of three depths, truncated toward zero.
pub open spec fn mean_depth(a: i32, b: i32, c: i32) -> i32 {
    quotient(a + b + c, 3) as i32
}

/// The points of the three sides of a triangle, all at the mean depth of its
/// corners.
#[verifier::opaque]
pub open spec fn outline(p0: Vector3, p1: Vector3, p2: Vector3) -> Seq<Vector3> {
    let z = mean_depth(p0.z, p1.z, p2.z);
    edge(p0, p1, z) + edge(p0, p2, z) + edge(p1, p2, z)
}

/// The points of the strokes that join the first `n` points of `a` each to
/// the point of `b` at the same index, all at the depth `z`.
pub open spec fn strokes(a: Seq<Vector3>, b: Seq<Vector3>, z: i32, n: nat) -> Seq<Vector3>
    decreases n,
{
    if n == 0 {
        Seq::empty()
    } else {
        strokes(a, b, z, (n - 1) as nat) + edge(a[n - 1], b[n - 1], z)
    }
}

/// The length of the shorter of two sequences.
pub open spec fn shorter(a: Seq<Vector3>, b: Seq<Vector3>) -> nat {
    if a.len() <= b.len() {
        a.len()
    } else {
        b.len()
    }
}

/// The strokes that sweep from the corner `from` over the triangle: they join
/// the points on the way to `left` to the points on the way to `right`, pair
/// by pair, as far as the shorter way goes.
pub open spec fn sweep(from: Vector3, left: Vector3, right: Vector3, z: i32) -> Seq<Vector3> {
    let a = line_points(from, left);
    let b = line_points(from, right);
    strokes(a, b, z, shorter(a, b))
}

/// The pair `(a, b)` with the greater height first; it stays as it is where
/// the heights are equal.
pub open spec fn higher_first(a: Vector3, b: Vector3) -> (Vector3, Vector3) {
    if b.y > a.y {
        (b, a)
    } else {
        (a, b)
    }
}

/// The three corners by falling height, as three exchanges leave them: the
/// first with the second, the first with the third, the second with the
/// third.
pub open spec fn by_height(p0: Vector3, p1: Vector3, p2: Vector3) -> (Vector3, Vector3, Vector3) {
    let (a, b) = higher_first(p0, p1);
    let (a, c) = higher_first(a, p2);
    let (b, c) = higher_first(b, c);
    (a, b, c)
}

/// The points of a filled triangle: a sweep from its highest corner, a sweep
/// from its lowest corner, and its outline over both.
#[verifier::opaque]
pub open spec fn filling(p0: Vector3, p1: Vector3, p2: Vector3) -> Seq<Vector3> {
    let (top, mid, low) = by_height(p0, p1, p2);
    let z = mean_depth(top.z, mid.z, low.z);
    sweep(top, mid, low, z) + sweep(low, top, mid, z) + outline(top, mid, low)
}

/// The bit of a dot is one of eight, so never zero.
pub proof fn lemma_dot_bit(xoff: int, yoff: int)
    ensures
        dot_bit(xoff, yoff) != 0,
{
}

/// The cell of a dot lies where `in_reach` says.
pub proof fn lemma_cell_in_reach(x: i32, y: i32)
    ensures
        in_reach(cell_at(x, y)),
        cell_at(x, y).0 == cell_row(y),
        cell_at(x, y).1 == cell_col(x),
{
}

/// Lighting a dot keeps a grid well formed.
pub proof fn lemma_put_wf(g: Grid, p: Vector3)
    requires
        g.wf(),
    ensures
        g.put(p).wf(),
{
    let k = cell_at(p.x, p.y);
    let bit = dot_at(p.x, p.y);
    lemma_cell_in_reach(p.x, p.y);
    lemma_dot_bit(nearest(p.x as int) % 2, nearest(p.y as int) % 4);
    if g.cells.contains_key(k) {
        let old_bits = g.cells[k].braille_offset;
        assert(old_bits | bit != 0) by (bit_vector)
            requires
                bit != 0,
        ;
    }
    let h = g.put(p);
    assert forall|j: (i32, i32)| #[trigger] h.cells.contains_key(j) implies {
        &&& h.cells[j].braille_offset != 0
        &&& in_reach(j)
        &&& h.zrange matches Some(zr) && zr.0 <= h.cells[j].z <= zr.1
    } by {
        if j != k {
            assert(g.cells.contains_key(j));
        }
    }
}

/// Lighting the dots of `a` and then those of `b` is lighting those of `a`
/// followed by `b`.
pub proof fn lemma_drawn_concat(g: Grid, a: Seq<Vector3>, b: Seq<Vector3>)
    ensures
        g.drawn(a + b) == g.drawn(a).drawn(b),
    decreases b.len(),
{
    if b.len() == 0 {
        assert(a + b =~= a);
    } else {
        lemma_drawn_concat(g, a, b.drop_last());
        assert((a + b).drop_last() =~= a + b.drop_last());
        assert((a + b).last() == b.last());
    }
}

/// Lighting the dots of `pts` and then the dot of `p` is lighting those of
/// `pts` followed by `p`.
pub proof fn lemma_drawn_push(g: Grid, pts: Seq<Vector3>, p: Vector3)
    ensures
        g.drawn(pts.push(p)) == g.drawn(pts).put(p),
{
    assert(pts.push(p).drop_last() =~= pts);
}

} // verus!
