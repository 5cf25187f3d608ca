//! Implementation of features related to the corner finder patterns for rMQR
//! code.

use vstd::prelude::*;

use super::grid::{Canvas, module_index};
use super::module::Module;
use crate::types::{Color, RectMicroVersion, Version};

verus! {

/// `modules` with the module at `(x, y)` of a grid `width`×`height` set to
/// the functional color `color`.
pub open spec fn put_module(
    modules: Seq<Module>,
    width: int,
    height: int,
    x: int,
    y: int,
    color: Color,
) -> Seq<Module> {
    modules.update(module_index(width, height, x, y), Module::Masked(color))
}

/// The modules of a grid after the rMQR corner finder pattern is drawn: three
/// dark modules at the bottom left, and at the top right a dark module in
/// each corner row with one light module beside; on symbols at least 11
/// modules high, one more dark and one light module at the bottom left.
pub open spec fn corner_finder_drawn(modules: Seq<Module>, width: int, height: int) -> Seq<Module> {
    let m = put_module(modules, width, height, 0, -1, Color::Dark);
    let m = put_module(m, width, height, 1, -1, Color::Dark);
    let m = put_module(m, width, height, 2, -1, Color::Dark);
    let m = put_module(m, width, height, -1, 0, Color::Dark);
    let m = put_module(m, width, height, -1, 1, Color::Dark);
    let m = put_module(m, width, height, -2, 0, Color::Dark);
    let m = put_module(m, width, height, -2, 1, Color::Light);
    if height >= 11 {
        let m = put_module(m, width, height, 0, -2, Color::Dark);
        put_module(m, width, height, 1, -2, Color::Light)
    } else {
        m
    }
}

/// An rMQR symbol is at least 7 modules high and 27 wide.
pub proof fn lemma_rect_micro_size(version: RectMicroVersion)
    ensures
        version.spec_height() >= 7,
        version.spec_width() >= 27,
{
    assert(forall|i: int|
        0 <= i < 32 ==> #[trigger] RectMicroVersion::SIZES[i][0] >= 7
            && RectMicroVersion::SIZES[i][1] >= 27);
}

impl Canvas {
    /// Draws the rMQR corner finder pattern; other symbols have none.
    pub fn draw_corner_finder_pattern(&mut self)
        requires
            old(self).wf(),
        ensures
            final(self).wf(),
            old(self).same_shape(&*final(self)),
            final(self).spec_modules() == if old(self).spec_version() is RectMicro {
                corner_finder_drawn(
                    old(self).spec_modules(),
                    old(self).spec_width(),
                    old(self).spec_height(),
                )
            } else {
                old(self).spec_modules()
            },
    {
        if !self.version().is_rect_micro() {
            return;
        }
        proof {
            if let Version::RectMicro(v) = self.spec_version() {
                lemma_rect_micro_size(v);
            }
        }
        // Bottom left
        self.put(0, -1, Color::Dark);
        self.put(1, -1, Color::Dark);
        self.put(2, -1, Color::Dark);

        // Top right
        self.put(-1, 0, Color::Dark);
        self.put(-1, 1, Color::Dark);
        self.put(-2, 0, Color::Dark);
        self.put(-2, 1, Color::Light);

        if self.height() >= 11 {
            self.put(0, -2, Color::Dark);
            self.put(1, -2, Color::Light);
        }
    }
}

} // verus!
