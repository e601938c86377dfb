//! Colours and the theme that a presentation is drawn with.
use vstd::prelude::*;

verus! {

/// A 24-bit colour: red, green and blue components.
#[derive(Clone, Copy, Debug, PartialEq, Eq, Structural)]
pub struct Rgb(pub u8, pub u8, pub u8);

/// The colour slots that rendering reads. Headings use `green`, `teal`, `red`
/// and `peach` for levels one to four; the title is drawn in `red` and the
/// footer and progress bar in `green`.
#[derive(Clone, Copy, Debug, PartialEq, Eq, Structural)]
pub struct Theme {
    pub green: Rgb,
    pub teal: Rgb,
    pub red: Rgb,
    pub peach: Rgb,
}

impl Theme {
    /// Colour of the presentation title.
    pub open spec fn title_color(self) -> Rgb {
        self.red
    }

    /// Colour of the footer and the progress bar.
    pub open spec fn accent_color(self) -> Rgb {
        self.green
    }
}

} // verus!
