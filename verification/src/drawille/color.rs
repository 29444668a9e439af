//! Shades of gray for the terminal.

use crate::cast::to_u8;
use vstd::prelude::*;

verus! {

/// The shade of the background behind the cells, as one of the 24 grays: one
/// below the darkest shade that a cell is drawn in.
pub const BACKGROUND_SHADE: u8 = 3;

/// The shade of the nearest cells.
pub const NEAREST_SHADE: u8 = 23;

/// The number of steps between the shade of the nearest cells and that of the
/// farthest.
pub const SHADE_STEPS: u8 = 19;

/// The shade of a cell at depth `z` where the depths drawn so far range from
/// `zmin` to `zmax`: the nearest cells get the last of the 24 grays, the
/// farthest ones lie nineteen steps below, and the share of the way from
/// `zmin` to `zmax` is rounded to a whole step, a half step upward. The first
/// grays are not taken into account because they are too bright, which makes
/// the eyes think the cell is closer even though it is not.
pub open spec fn shade_of(z: i32, zmin: i32, zmax: i32) -> int {
    if zmax - zmin != 0 {
        NEAREST_SHADE - (2 * SHADE_STEPS * (z - zmin) + (zmax - zmin)) / (2 * (zmax - zmin))
    } else {
        // if there's only a z value then it's always at the top
        NEAREST_SHADE as int
    }
}

/// The character of the decimal digit `d`.
pub open spec fn digit(d: int) -> char {
    (48 + d) as char
}

/// The escape sequence that sets the foreground to the gray `shade` of the
/// 24 grays of the 256-color palette, which begin at color 232.
pub open spec fn foreground(shade: int) -> Seq<char> {
    let color = 232 + shade;
    seq![
        '\u{1b}',
        '[',
        '3',
        '8',
        ';',
        '5',
        ';',
        digit(color / 100),
        digit(color / 10 % 10),
        digit(color % 10),
        'm',
    ]
}

/// Formats `termion::color::Fg` of `termion::color::AnsiValue::grayscale`:
/// the escape sequence for a 256-color foreground, with the color 232 plus
/// the shade in decimal.
#[verifier::external_body]
pub(crate) fn fg_grayscale(shade: u8) -> (s: String)
    requires
        shade < 24,
    ensures
        s@ == foreground(shade as int),
{
    format!("{}", termion::color::Fg(termion::color::AnsiValue::grayscale(shade)))
}

/// The shade of a cell at depth `z` between `zmin` and `zmax`.
pub fn shade(z: i32, zmin: i32, zmax: i32) -> (gray: u8)
    requires
        zmin <= z <= zmax,
    ensures
        gray == shade_of(z, zmin, zmax),
        4 <= gray <= 23,
{
    let range: i64 = zmax as i64 - zmin as i64;
    if range != 0 {
        let depth: i64 = z as i64 - zmin as i64;
        let steps: i64 = (2 * (SHADE_STEPS as i64) * depth + range) / (2 * range);
        assert(0 <= steps <= 19) by (nonlinear_arith)
            requires
                0 <= depth <= range,
                range > 0,
                steps == (38 * depth + range) / (2 * range),
        ;
        match to_u8(steps) {
            Some(steps) => NEAREST_SHADE - steps,
            None => NEAREST_SHADE,
        }
    } else {
        NEAREST_SHADE
    }
}

} // verus!
