//! The dashboard's colours.

use vstd::prelude::*;

verus! {

/// A colour by its red, green and blue components.
#[derive(Debug, Clone, Copy, PartialEq, Eq, Structural)]
pub struct Rgb {
    pub r: u8,
    pub g: u8,
    pub b: u8,
}

/// The colours of the panels.
#[derive(Debug, Clone, Copy, PartialEq, Eq, Structural)]
pub struct Theme {
    pub bg: Rgb,
    pub fg: Rgb,
    pub accent: Rgb,
    pub good: Rgb,
    pub warn: Rgb,
    pub muted: Rgb,
}

impl Theme {
    /// The dark theme: slate background and text, cyan accent, emerald for
    /// gauges, amber for warnings.
    pub fn dark() -> (t: Self)
        ensures
            t.bg == (Rgb { r: 15, g: 23, b: 42 }),
            t.fg == (Rgb { r: 226, g: 232, b: 240 }),
            t.accent == (Rgb { r: 34, g: 211, b: 238 }),
            t.good == (Rgb { r: 52, g: 211, b: 153 }),
            t.warn == (Rgb { r: 251, g: 191, b: 36 }),
            t.muted == (Rgb { r: 148, g: 163, b: 184 }),
    {
        Theme {
            bg: Rgb { r: 15, g: 23, b: 42 },
            fg: Rgb { r: 226, g: 232, b: 240 },
            accent: Rgb { r: 34, g: 211, b: 238 },
            good: Rgb { r: 52, g: 211, b: 153 },
            warn: Rgb { r: 251, g: 191, b: 36 },
            muted: Rgb { r: 148, g: 163, b: 184 },
        }
    }
}

} // verus!
