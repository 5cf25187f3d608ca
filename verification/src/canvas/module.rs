//! Implementation of [`Module`].

use vstd::prelude::*;

use crate::types::Color;

verus! {

/// The color of a module (pixel) in the QR code.
#[derive(Clone, Copy, Debug, PartialEq, Eq, Structural)]
pub enum Module {
    /// The module is empty.
    Empty,
    /// The module is of functional patterns which cannot be masked, or pixels
    /// which have been masked.
    Masked(Color),
    /// The module is of data and error correction bits before masking.
    Unmasked(Color),
}

impl Module {
    /// The color of the module: light when empty.
    pub open spec fn spec_color(self) -> Color {
        match self {
            Module::Empty => Color::Light,
            Module::Masked(c) => c,
            Module::Unmasked(c) => c,
        }
    }

    /// The module after a mask that inverts it or not: an empty module takes
    /// the mask's color, an unmasked one is inverted where the mask says so,
    /// and a masked one stays as it is.
    pub open spec fn spec_mask(self, should_invert: bool) -> Module {
        match self {
            Module::Empty => Module::Masked(
                if should_invert {
                    Color::Dark
                } else {
                    Color::Light
                },
            ),
            Module::Unmasked(c) => Module::Masked(
                if should_invert {
                    c.spec_invert()
                } else {
                    c
                },
            ),
            Module::Masked(c) => Module::Masked(c),
        }
    }

    /// Checks whether a module is dark.
    pub fn is_dark(self) -> (r: bool)
        ensures
            r == (self.spec_color() == Color::Dark),
    {
        Color::from(self) == Color::Dark
    }

    /// Applies a mask to the unmasked modules.
    pub fn mask(self, should_invert: bool) -> (r: Self)
        ensures
            r == self.spec_mask(should_invert),
    {
        match self {
            Module::Empty => if should_invert {
                Module::Masked(Color::Dark)
            } else {
                Module::Masked(Color::Light)
            },
            Module::Unmasked(c) => if should_invert {
                Module::Masked(c.invert())
            } else {
                Module::Masked(c)
            },
            Module::Masked(c) => Module::Masked(c),
        }
    }
}

impl From<Module> for Color {
    /// The color of the module: light when empty.
    fn from(module: Module) -> (r: Color) {
        match module {
            Module::Empty => Color::Light,
            Module::Masked(c) => c,
            Module::Unmasked(c) => c,
        }
    }
}

impl vstd::std_specs::convert::FromSpecImpl<Module> for Color {
    open spec fn obeys_from_spec() -> bool {
        true
    }

    open spec fn from_spec(module: Module) -> Color {
        module.spec_color()
    }
}

/// Masking twice is masking once: a masked module stays as it is.
pub proof fn lemma_mask_idempotent(module: Module, first: bool, second: bool)
    ensures
        module.spec_mask(first).spec_mask(second) == module.spec_mask(first),
{
}

} // verus!
