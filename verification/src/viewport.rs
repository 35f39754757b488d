//! The viewport and its width classification.

use vstd::prelude::*;

verus! {

/// Width below which a viewport is classified as mobile, in milli-pixels.
pub const MOBILE_LIMIT_MILLI: i64 = 768_000;

/// Width below which a viewport is classified as tablet, in milli-pixels.
pub const TABLET_LIMIT_MILLI: i64 = 1_024_000;

/// A named viewport-width tier used to gate media rules.
#[derive(Debug, Clone, Copy, PartialEq, Eq, Structural)]
pub enum Breakpoint {
    Mobile,
    Tablet,
    Desktop,
}

impl Breakpoint {
    /// Classifies a viewport width (in milli-pixels) into its tier.
    /// The boundary widths belong to the upper tier.
    pub fn from_width(width: i64) -> (r: Breakpoint)
        ensures
            r == Breakpoint::Mobile <==> width < MOBILE_LIMIT_MILLI,
            r == Breakpoint::Tablet <==> MOBILE_LIMIT_MILLI <= width < TABLET_LIMIT_MILLI,
            r == Breakpoint::Desktop <==> width >= TABLET_LIMIT_MILLI,
            r == spec_breakpoint(width as int),
    {
        if width < MOBILE_LIMIT_MILLI {
            Breakpoint::Mobile
        } else if width < TABLET_LIMIT_MILLI {
            Breakpoint::Tablet
        } else {
            Breakpoint::Desktop
        }
    }
}

/// The tier a width (in milli-pixels) falls in.
pub open spec fn spec_breakpoint(width: int) -> Breakpoint {
    if width < MOBILE_LIMIT_MILLI {
        Breakpoint::Mobile
    } else if width < TABLET_LIMIT_MILLI {
        Breakpoint::Tablet
    } else {
        Breakpoint::Desktop
    }
}

/// An immutable environment descriptor: viewport width and height in
/// milli-pixels.
#[derive(Debug, Clone, Copy, PartialEq, Eq, Structural)]
pub struct Viewport {
    pub width: i64,
    pub height: i64,
}

impl Viewport {
    pub fn new(width: i64, height: i64) -> (r: Viewport)
        ensures
            r.width == width,
            r.height == height,
    {
        Viewport { width, height }
    }

    /// The tier this viewport's width falls in.
    pub fn breakpoint(&self) -> (r: Breakpoint)
        ensures
            r == spec_breakpoint(self.width as int),
    {
        Breakpoint::from_width(self.width)
    }
}

impl Default for Viewport {
    /// The default viewport is 1200 by 800 pixels.
    fn default() -> (r: Viewport)
        ensures
            r.width == 1_200_000int,
            r.height == 800_000int,
    {
        Viewport { width: 1_200_000, height: 800_000 }
    }
}

} // verus!
