//! What holds of every grid, whatever was drawn on it.

use crate::drawille::frame::lemma_bounds;
use crate::drawille::frame::Frame;
use crate::drawille::grid::{by_height, cell_at, dot_at, lemma_dot_bit, Grid};
use crate::drawille::line::{lemma_points_len, lemma_reaches_end, line_points, span, start};
use crate::fixed::{nearest, ONE};
use crate::vector3::Vector3;
use vstd::prelude::*;

verus! {

/// Whether the dot of `p` falls into the cell `k`.
pub open spec fn falls_into(p: Vector3, k: (i32, i32)) -> bool {
    cell_at(p.x, p.y) == k
}

/// A cell without a dot gets one only from a point that falls into it. Once
/// dots were lit in it, in whatever order, its depth is the least depth among
/// the points that fell into it.
pub proof fn lemma_depth_is_least(g: Grid, pts: Seq<Vector3>, k: (i32, i32))
    requires
        !g.cells.contains_key(k),
    ensures
        g.drawn(pts).cells.contains_key(k) <==> exists|i: int|
            0 <= i < pts.len() && falls_into(#[trigger] pts[i], k),
        g.drawn(pts).cells.contains_key(k) ==> {
            &&& forall|i: int|
                0 <= i < pts.len() && falls_into(#[trigger] pts[i], k) ==> g.drawn(pts).cells[k].z
                    <= pts[i].z
            &&& exists|i: int|
                0 <= i < pts.len() && falls_into(#[trigger] pts[i], k) && g.drawn(pts).cells[k].z
                    == pts[i].z
        },
    decreases pts.len(),
{
    if pts.len() > 0 {
        let init = pts.drop_last();
        let p = pts.last();
        let before = g.drawn(init);
        lemma_depth_is_least(g, init, k);
        assert(g.drawn(pts) == before.put(p));
        assert(forall|i: int| 0 <= i < init.len() ==> init[i] == pts[i]);
        if falls_into(p, k) {
            assert(falls_into(pts[pts.len() - 1], k));
            if before.cells.contains_key(k) {
                let j = choose|j: int|
                    0 <= j < init.len() && falls_into(#[trigger] init[j], k)
                        && before.cells[k].z == init[j].z;
                assert(falls_into(pts[j], k));
                if p.z < before.cells[k].z {
                    assert(g.drawn(pts).cells[k].z == pts[pts.len() - 1].z);
                } else {
                    assert(g.drawn(pts).cells[k].z == pts[j].z);
                }
            } else {
                assert(g.drawn(pts).cells[k].z == pts[pts.len() - 1].z);
            }
        } else {
            assert(g.drawn(pts).cells.contains_key(k) == before.cells.contains_key(k));
            if before.cells.contains_key(k) {
                let j = choose|j: int|
                    0 <= j < init.len() && falls_into(#[trigger] init[j], k)
                        && before.cells[k].z == init[j].z;
                assert(falls_into(pts[j], k));
                assert(g.drawn(pts).cells[k] == before.cells[k]);
            }
        }
    }
}

/// A dot that was put out is not lit. Where it was the last lit dot of its
/// cell, the cell is gone; where that was the last cell of its row, no cell
/// of the row is left.
pub proof fn lemma_wiped(g: Grid, x: i32, y: i32)
    ensures
        !g.wiped(x, y).is_set(x, y),
        g.cells.contains_key(cell_at(x, y)) && g.cells[cell_at(x, y)].braille_offset & !dot_at(
            x,
            y,
        ) == 0 ==> !g.wiped(x, y).cells.contains_key(cell_at(x, y)),
        !g.wiped(x, y).cells.contains_key(cell_at(x, y)) && (forall|c: i32|
            c != cell_at(x, y).1 ==> !g.cells.contains_key((cell_at(x, y).0, c))) ==> !g.wiped(
            x,
            y,
        ).has_row(cell_at(x, y).0),
{
    let k = cell_at(x, y);
    let bit = dot_at(x, y);
    if g.cells.contains_key(k) {
        let bits = g.cells[k].braille_offset;
        assert((bits & !bit) & bit == 0) by (bit_vector);
    }
    if !g.wiped(x, y).cells.contains_key(k) && (forall|c: i32|
        c != k.1 ==> !g.cells.contains_key((k.0, c))) {
        assert forall|c: i32| !g.wiped(x, y).cells.contains_key((k.0, c)) by {
            if c != k.1 {
                assert(!g.cells.contains_key((k.0, c)));
            }
        }
    }
}

/// A grid without a dot has no bounds.
pub proof fn lemma_blank_bounds()
    ensures
        Grid::empty().bounds().is_none(),
{
}

/// After one dot was lit on a grid without a dot, the cell of that dot is
/// the first and the last row, and the first and the last column.
pub proof fn lemma_single_dot_bounds(p: Vector3)
    ensures
        Grid::empty().put(p).bounds() == Some(
            (cell_at(p.x, p.y).0, cell_at(p.x, p.y).0, cell_at(p.x, p.y).1, cell_at(p.x, p.y).1),
        ),
{
    let k = cell_at(p.x, p.y);
    let g = Grid::empty().put(p);
    assert(g.cells.contains_key((k.0, k.1)));
    lemma_bounds(g, (k.0, k.0, k.1, k.1));
}

/// A dot that was lit is lit.
pub proof fn lemma_put_is_set(g: Grid, p: Vector3)
    ensures
        g.put(p).is_set(p.x, p.y),
{
    let k = cell_at(p.x, p.y);
    let bit = dot_at(p.x, p.y);
    lemma_dot_bit(nearest(p.x as int) % 2, nearest(p.y as int) % 4);
    assert(bit & bit != 0) by (bit_vector)
        requires
            bit != 0,
    ;
    if g.cells.contains_key(k) {
        let bits = g.cells[k].braille_offset;
        assert((bits | bit) & bit != 0) by (bit_vector)
            requires
                bit != 0,
        ;
    }
}

/// A dot that is lit stays lit when another dot is lit.
pub proof fn lemma_put_keeps(g: Grid, p: Vector3, x: i32, y: i32)
    requires
        g.is_set(x, y),
    ensures
        g.put(p).is_set(x, y),
{
    let k = cell_at(x, y);
    if cell_at(p.x, p.y) == k {
        let bits = g.cells[k].braille_offset;
        let bit = dot_at(p.x, p.y);
        let dot = dot_at(x, y);
        assert((bits | bit) & dot != 0) by (bit_vector)
            requires
                bits & dot != 0,
        ;
    }
}

/// Once dots were lit one after another, the dot of each of the points is
/// lit.
pub proof fn lemma_drawn_lights(g: Grid, pts: Seq<Vector3>, i: int)
    requires
        0 <= i < pts.len(),
    ensures
        g.drawn(pts).is_set(pts[i].x, pts[i].y),
    decreases pts.len(),
{
    let before = g.drawn(pts.drop_last());
    if i == pts.len() - 1 {
        lemma_put_is_set(before, pts.last());
    } else {
        lemma_drawn_lights(g, pts.drop_last(), i);
        lemma_put_keeps(before, pts.last(), pts[i].x, pts[i].y);
    }
}

/// A line between whole points less than 32768 units apart lights the dots
/// of both its ends.
pub proof fn lemma_line_lights_ends(g: Grid, p0: Vector3, p1: Vector3)
    requires
        p0.is_whole(),
        p1.is_whole(),
        span(p0, p1) <= 32767 * ONE,
    ensures
        g.drawn(line_points(p0, p1)).is_set(p0.x, p0.y),
        g.drawn(line_points(p0, p1)).is_set(p1.x, p1.y),
{
    let pts = line_points(p0, p1);
    lemma_reaches_end(p0, p1);
    lemma_points_len(start(p0, p1));
    assert(pts[0] == p0);
    lemma_drawn_lights(g, pts, 0);
    lemma_drawn_lights(g, pts, pts.len() - 1);
    let last = pts.last();
    assert(last.rounded() == p1);
    assert(ONE == 65536);
    assert(nearest(last.x as int) == nearest(p1.x as int));
    assert(nearest(last.y as int) == nearest(p1.y as int));
}

/// Whether `(a, b, c)` are the points `p0`, `p1` and `p2` in some order.
pub open spec fn rearranged(
    a: Vector3,
    b: Vector3,
    c: Vector3,
    p0: Vector3,
    p1: Vector3,
    p2: Vector3,
) -> bool {
    ||| (a, b, c) == (p0, p1, p2)
    ||| (a, b, c) == (p0, p2, p1)
    ||| (a, b, c) == (p1, p0, p2)
    ||| (a, b, c) == (p1, p2, p0)
    ||| (a, b, c) == (p2, p0, p1)
    ||| (a, b, c) == (p2, p1, p0)
}

/// The corners by falling height are the three corners in some order, the
/// highest first and the lowest last.
pub proof fn lemma_by_height(p0: Vector3, p1: Vector3, p2: Vector3)
    ensures
        by_height(p0, p1, p2).0.y >= by_height(p0, p1, p2).1.y >= by_height(p0, p1, p2).2.y,
        rearranged(
            by_height(p0, p1, p2).0,
            by_height(p0, p1, p2).1,
            by_height(p0, p1, p2).2,
            p0,
            p1,
            p2,
        ),
{
}

/// Without colors a line has one pattern for each of its columns.
pub proof fn lemma_span_len(g: Grid, row: i32, from: int, upto: int)
    ensures
        g.span_text(false, row, from, upto).len() == (if from < upto {
            upto - from
        } else {
            0
        }),
    decreases upto - from,
{
    if from < upto {
        lemma_span_len(g, row, from, upto - 1);
    }
}

/// The lines of a canvas are those of the rows from the first to the last
/// with a lit dot. The line of a row with a lit dot runs from the first
/// column of that row with a lit dot to the last one, whatever the other rows
/// hold; the line of a row without one is empty.
pub proof fn lemma_rows(g: Grid, with_colors: bool, bounds: (i32, i32, i32, i32), row: i32)
    requires
        g.bounds() == Some(bounds),
        bounds.0 <= row <= bounds.1,
    ensures
        Frame::whole(g, with_colors).lines().len() == bounds.1 - bounds.0 + 1,
        Frame::whole(g, with_colors).lines()[row - bounds.0] == (if g.has_row(row) {
            g.span_text(with_colors, row, g.first_col(row) as int, g.last_col(row) + 1)
        } else {
            Seq::empty()
        }),
{
}

} // verus!
