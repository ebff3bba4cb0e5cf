//! The compositor in a window of another one.
use vstd::prelude::*;

use crate::state::Alice;
use crate::table::lookup;

verus! {

/// The mode that the window starts with.
pub const WINDOW_WIDTH: i32 = 1920;

pub const WINDOW_HEIGHT: i32 = 1080;

pub const WINDOW_REFRESH: i32 = 60;

/// The refresh rate that a resized window has, in thousandths of a hertz.
pub const RESIZED_REFRESH: i32 = 60_000;

impl Alice {
    /// Where the window's output goes: where it is configured to, or else to
    /// the origin.
    pub fn window_place(&self, name: &str) -> (place: (i32, i32))
        ensures
            place == match lookup(self@.config.positions, name@) {
                Some(position) => (position.x, position.y),
                None => (0i32, 0i32),
            },
    {
        match self.config.get_output_position(name) {
            Some(position) => (position.x, position.y),
            None => (0, 0),
        }
    }
}

} // verus!
