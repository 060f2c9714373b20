//! Window state kept from one run to the next.
use vstd::prelude::*;

verus! {

/// Window state that the user does not set directly: read at startup, written at shutdown.
#[derive(PartialEq, Eq, Structural, Clone, Copy, Debug)]
pub struct State {
    /// Width of the main window at startup.
    pub width: i32,
    /// Height of the main window at startup.
    pub height: i32,
    /// Whether the window is maximized at startup.
    pub is_maximized: bool,
}

impl Default for State {
    fn default() -> (r: State)
        ensures
            r.width == 900,
            r.height == 600,
            !r.is_maximized,
    {
        State { width: 900, height: 600, is_maximized: false }
    }
}

} // verus!
