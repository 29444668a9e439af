//! What a key does to the view of a scene.

use crate::fixed::quotient;
use vstd::prelude::*;

verus! {

/// A twelfth of a turn, in radians.
pub const ANGLE_INC: i32 = 34315;

/// A whole turn, in radians.
pub const FULL_TURN: i32 = 411775;

/// How a scene is shown: the angles around the three axes, in radians,
/// whether every cell has the same shade, and whether triangles are drawn by
/// their outline only.
#[derive(Debug, PartialEq, Eq, Clone, Copy, Structural)]
pub struct Settings {
    pub rotation_x: i32,
    pub rotation_y: i32,
    pub rotation_z: i32,
    pub no_depth: bool,
    pub only_wireframe: bool,
}

/// What is to be done after a key.
#[derive(Debug, PartialEq, Eq, Clone, Copy, Structural)]
pub enum Action {
    /// Leave.
    Quit,
    /// Draw the scene again.
    Redraw,
    /// Write the current frame to a file.
    Save,
    /// Nothing.
    Ignore,
}

/// What is left of `angle` after the whole turns in it are taken out; it has
/// the sign of `angle`.
pub open spec fn wrapped(angle: int) -> int {
    angle - quotient(angle, FULL_TURN as int) * FULL_TURN
}

/// The settings after the key `key`: `x`, `y` and `z` turn the scene by a
/// twelfth of a turn around their axis and `X`, `Y` and `Z` turn it back,
/// `w` switches between outlines and filled triangles, `d` switches the
/// shades on and off. Every other key leaves the settings as they are.
pub open spec fn after_key(s: Settings, key: char) -> Settings {
    if key == 'x' {
        Settings { rotation_x: wrapped(s.rotation_x + ANGLE_INC) as i32, ..s }
    } else if key == 'X' {
        Settings { rotation_x: wrapped(s.rotation_x - ANGLE_INC) as i32, ..s }
    } else if key == 'y' {
        Settings { rotation_y: wrapped(s.rotation_y + ANGLE_INC) as i32, ..s }
    } else if key == 'Y' {
        Settings { rotation_y: wrapped(s.rotation_y - ANGLE_INC) as i32, ..s }
    } else if key == 'z' {
        Settings { rotation_z: wrapped(s.rotation_z + ANGLE_INC) as i32, ..s }
    } else if key == 'Z' {
        Settings { rotation_z: wrapped(s.rotation_z - ANGLE_INC) as i32, ..s }
    } else if key == 'w' {
        Settings { only_wireframe: !s.only_wireframe, ..s }
    } else if key == 'd' {
        Settings { no_depth: !s.no_depth, ..s }
    } else {
        s
    }
}

/// What is to be done after the key `key`: `q` leaves, `s` saves the frame,
/// a key that changes the settings draws the scene again.
pub open spec fn action_of(key: char) -> Action {
    if key == 'q' {
        Action::Quit
    } else if key == 's' {
        Action::Save
    } else if key == 'x' || key == 'X' || key == 'y' || key == 'Y' || key == 'z' || key == 'Z'
        || key == 'w' || key == 'd' {
        Action::Redraw
    } else {
        Action::Ignore
    }
}

/// `angle` and `by` together, without the whole turns in them.
fn turn(angle: i32, by: i32) -> (r: i32)
    requires
        by == ANGLE_INC || by == -ANGLE_INC,
    ensures
        r == wrapped(angle + by),
{
    let sum: i64 = angle as i64 + by as i64;
    let r: i64 = sum % 411775;
    assert(r == wrapped(sum as int)) by {
        if sum >= 0 {
            assert(sum - (sum / 411775) * 411775 == sum % 411775);
        } else {
            assert((-sum) - ((-sum) / 411775) * 411775 == (-sum) % 411775);
        }
    }
    r as i32
}

impl Settings {
    /// Takes a key: changes the settings as the key asks, and says what is to
    /// be done.
    pub fn on_key(&mut self, key: char) -> (action: Action)
        ensures
            *final(self) == after_key(*old(self), key),
            action == action_of(key),
    {
        if key == 'q' {
            Action::Quit
        } else if key == 'x' {
            self.rotation_x = turn(self.rotation_x, ANGLE_INC);
            Action::Redraw
        } else if key == 'X' {
            self.rotation_x = turn(self.rotation_x, -ANGLE_INC);
            Action::Redraw
        } else if key == 'y' {
            self.rotation_y = turn(self.rotation_y, ANGLE_INC);
            Action::Redraw
        } else if key == 'Y' {
            self.rotation_y = turn(self.rotation_y, -ANGLE_INC);
            Action::Redraw
        } else if key == 'z' {
            self.rotation_z = turn(self.rotation_z, ANGLE_INC);
            Action::Redraw
        } else if key == 'Z' {
            self.rotation_z = turn(self.rotation_z, -ANGLE_INC);
            Action::Redraw
        } else if key == 'w' {
            self.only_wireframe = !self.only_wireframe;
            Action::Redraw
        } else if key == 'd' {
            self.no_depth = !self.no_depth;
            Action::Redraw
        } else if key == 's' {
            Action::Save
        } else {
            Action::Ignore
        }
    }
}

} // verus!
