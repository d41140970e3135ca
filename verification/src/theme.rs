//! Layout-relevant theme settings. Colors are premultiplied floating-point
//! values, which the verified core does not represent; the scene graph
//! consumes only the integer metrics and the font description kept here.

use vstd::prelude::*;

verus! {

/// The theme values the scene graph reads: the title-bar height and border
/// width that enter floating-window geometry, and the font description.
pub struct Theme {
    /// Height of a title bar in pixels.
    pub title_height: i32,
    /// Width of a window border in pixels.
    pub border_width: i32,
    /// Font description for titles.
    pub font: String,
}

impl Theme {
    /// The metrics stay small enough that doubling a border and adding a
    /// title to a window size cannot overflow.
    pub open spec fn wf(&self) -> bool {
        &&& 0 <= self.title_height <= 0x1000
        &&& 0 <= self.border_width <= 0x1000
    }
}

impl Default for Theme {
    /// The built-in theme: 17 px titles, 4 px borders, monospace font.
    fn default() -> (r: Self)
        ensures
            r.title_height == 17,
            r.border_width == 4,
            r.font@ == "monospace 8"@,
            r.wf(),
    {
        let r = Theme {
            title_height: 17,
            border_width: 4,
            font: "monospace 8".to_owned(),
        };
        proof {
            reveal_strlit("monospace 8");
        }
        r
    }
}

} // verus!
