//! Implementation of [`Color`].

use vstd::prelude::*;

verus! {

/// The color of a module.
#[derive(Clone, Copy, Debug, PartialEq, Eq, Hash, Structural)]
pub enum Color {
    /// The module is light colored.
    Light,
    /// The module is dark colored.
    Dark,
}

impl Color {
    /// Selects a value according to color of the module: `dark` for a dark
    /// module and `light` for a light one.
    pub fn select<T>(self, dark: T, light: T) -> (r: T)
        ensures
            r == (match self {
                Color::Light => light,
                Color::Dark => dark,
            }),
    {
        match self {
            Color::Light => light,
            Color::Dark => dark,
        }
    }

    /// The opposite color.
    pub open spec fn spec_invert(self) -> Color {
        match self {
            Color::Light => Color::Dark,
            Color::Dark => Color::Light,
        }
    }

    /// Returns the opposite color (the `!` operator of the color).
    pub fn invert(self) -> (r: Color)
        ensures
            r == self.spec_invert(),
    {
        match self {
            Color::Light => Color::Dark,
            Color::Dark => Color::Light,
        }
    }
}

impl core::ops::Not for Color {
    type Output = Color;

    fn not(self) -> (r: Color)
        ensures
            r == self.spec_invert(),
    {
        self.invert()
    }
}

impl vstd::std_specs::ops::NotSpecImpl for Color {
    open spec fn obeys_not_spec() -> bool {
        true
    }

    open spec fn not_req(self) -> bool {
        true
    }

    open spec fn not_spec(self) -> Color {
        self.spec_invert()
    }
}

/// Inverting a color twice gives the color back, and inverting always changes
/// the color.
pub proof fn lemma_invert_involutive(c: Color)
    ensures
        c.spec_invert().spec_invert() == c,
        c.spec_invert() != c,
{
}

} // verus!
