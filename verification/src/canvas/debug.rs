//! Human-readable views of a canvas.

use vstd::prelude::*;

use super::grid::Canvas;
use super::module::Module;
use super::penalty::grid_get;
use crate::render::push_char;
use crate::types::Color;

verus! {

/// The character of a module: `?` when empty, `.` and `#` when masked, `-`
/// and `*` when unmasked, for light and dark.
pub open spec fn debug_char(module: Module) -> char {
    match module {
        Module::Empty => '?',
        Module::Masked(Color::Light) => '.',
        Module::Masked(Color::Dark) => '#',
        Module::Unmasked(Color::Light) => '-',
        Module::Unmasked(Color::Dark) => '*',
    }
}

/// The character of a module, masked or not: `?` when empty, `.` when light
/// and `#` when dark.
pub open spec fn debug_char_mask_same(module: Module) -> char {
    match module {
        Module::Empty => '?',
        Module::Masked(Color::Light) | Module::Unmasked(Color::Light) => '.',
        Module::Masked(Color::Dark) | Module::Unmasked(Color::Dark) => '#',
    }
}

/// The first `n` rows of the grid, each after a line break, with one
/// character per module (`debug_char`, or `debug_char_mask_same` if
/// `mask_same`).
pub open spec fn debug_rows(
    modules: Seq<Module>,
    width: int,
    height: int,
    mask_same: bool,
    n: nat,
) -> Seq<char>
    decreases n,
{
    if n == 0 {
        Seq::empty()
    } else {
        debug_rows(modules, width, height, mask_same, (n - 1) as nat) + seq!['\n'] + Seq::new(
            width as nat,
            |x: int|
                {
                    let m = grid_get(modules, width, height, x, n - 1);
                    if mask_same {
                        debug_char_mask_same(m)
                    } else {
                        debug_char(m)
                    }
                },
        )
    }
}

/// Returns the character of a module.
fn module_char(module: Module, mask_same: bool) -> (r: char)
    ensures
        r == if mask_same {
            debug_char_mask_same(module)
        } else {
            debug_char(module)
        },
{
    if mask_same {
        match module {
            Module::Empty => '?',
            Module::Masked(Color::Light) | Module::Unmasked(Color::Light) => '.',
            Module::Masked(Color::Dark) | Module::Unmasked(Color::Dark) => '#',
        }
    } else {
        match module {
            Module::Empty => '?',
            Module::Masked(Color::Light) => '.',
            Module::Masked(Color::Dark) => '#',
            Module::Unmasked(Color::Light) => '-',
            Module::Unmasked(Color::Dark) => '*',
        }
    }
}

impl Canvas {
    /// Converts the canvas into a string, one character per module.
    fn debug_str(&self, mask_same: bool) -> (r: String)
        requires
            self.wf(),
        ensures
            r@ == debug_rows(
                self.spec_modules(),
                self.spec_width(),
                self.spec_height(),
                mask_same,
                self.spec_height() as nat,
            ),
    {
        let ghost m = self.spec_modules();
        let w = self.width();
        let h = self.height();
        proof {
            super::grid::lemma_size_bound(self.spec_version());
        }
        let mut res = String::new();
        let mut y: i16 = 0;
        while y < h
            invariant
                self.wf(),
                m == self.spec_modules(),
                w == self.spec_width(),
                h == self.spec_height(),
                1 <= w <= 177,
                1 <= h <= 177,
                0 <= y <= h,
                res@ == debug_rows(m, w as int, h as int, mask_same, y as nat),
            decreases h - y,
        {
            let ghost before = res@;
            let ghost row = Seq::new(
                w as nat,
                |x: int|
                    {
                        let md = grid_get(m, w as int, h as int, x, y as int);
                        if mask_same {
                            debug_char_mask_same(md)
                        } else {
                            debug_char(md)
                        }
                    },
            );
            push_char(&mut res, '\n');
            let mut x: i16 = 0;
            while x < w
                invariant
                    self.wf(),
                    m == self.spec_modules(),
                    w == self.spec_width(),
                    h == self.spec_height(),
                    1 <= w <= 177,
                    1 <= h <= 177,
                    0 <= y < h,
                    0 <= x <= w,
                    row.len() == w,
                    forall|x2: int|
                        0 <= x2 < w ==> #[trigger] row[x2] == if mask_same {
                            debug_char_mask_same(grid_get(m, w as int, h as int, x2, y as int))
                        } else {
                            debug_char(grid_get(m, w as int, h as int, x2, y as int))
                        },
                    res@ == before + seq!['\n'] + row.take(x as int),
                decreases w - x,
            {
                push_char(&mut res, module_char(self.get(x, y), mask_same));
                proof {
                    assert(row.take(x + 1int) =~= row.take(x as int).push(row[x as int]));
                }
                x = x + 1;
            }
            proof {
                assert(row.take(w as int) =~= row);
                assert(res@ =~= debug_rows(m, w as int, h as int, mask_same, (y + 1) as nat));
            }
            y = y + 1;
        }
        res
    }

    /// Converts the canvas into a human-readable string: a line break before
    /// each row, and per module `?` when empty, `.` and `#` when masked
    /// light and dark, `-` and `*` when unmasked light and dark.
    pub fn to_debug_str(&self) -> (r: String)
        requires
            self.wf(),
        ensures
            r@ == debug_rows(
                self.spec_modules(),
                self.spec_width(),
                self.spec_height(),
                false,
                self.spec_height() as nat,
            ),
    {
        self.debug_str(false)
    }

    /// Converts the canvas into a human-readable string, masked and unmasked
    /// modules alike: a line break before each row, and per module `?` when
    /// empty, `.` when light and `#` when dark.
    pub fn to_debug_str_mask_same(&self) -> (r: String)
        requires
            self.wf(),
        ensures
            r@ == debug_rows(
                self.spec_modules(),
                self.spec_width(),
                self.spec_height(),
                true,
                self.spec_height() as nat,
            ),
    {
        self.debug_str(true)
    }
}

} // verus!
