//! Implementation of [`Version`].

mod micro;
mod normal;
mod rect_micro;

use vstd::prelude::*;

pub use self::{micro::MicroVersion, normal::NormalVersion, rect_micro::RectMicroVersion};
use super::EcLevel;
use crate::error::{Error, QrResult};

verus! {

/// In QR code terminology, `Version` means the size of the generated image.
/// Larger version means the size of code is larger, and therefore can carry
/// more information.
#[derive(Clone, Copy, Debug, PartialEq, Eq, PartialOrd, Ord, Hash, Structural)]
pub enum Version {
    /// A QR code model 2 version.
    Normal(NormalVersion),
    /// A Micro QR code version.
    Micro(MicroVersion),
    /// A rMQR code version.
    RectMicro(RectMicroVersion),
}

impl Version {
    /// The number of modules of each row: `4 × number + 17` for QR code,
    /// `2 × number + 9` for Micro QR code, the width of the size for rMQR code.
    pub open spec fn spec_width(self) -> nat {
        match self {
            Version::Normal(v) => v.spec_number() * 4 + 17,
            Version::Micro(v) => v.spec_number() * 2 + 9,
            Version::RectMicro(v) => v.spec_width() as nat,
        }
    }

    /// The number of modules of each column; it differs from the width only
    /// for rMQR code.
    pub open spec fn spec_height(self) -> nat {
        match self {
            Version::RectMicro(v) => v.spec_height() as nat,
            _ => self.spec_width(),
        }
    }

    /// Gets the number of horizontally-arranged "modules" on each size of the
    /// QR code, i.e. the width of the code.
    pub fn width(self) -> (r: u8)
        ensures
            r == self.spec_width(),
    {
        match self {
            Version::Normal(v) => v.number() * 4 + 17,
            Version::Micro(v) => v.number() * 2 + 9,
            Version::RectMicro(v) => v.width(),
        }
    }

    /// Gets the number of vertically-arranged "modules" on each size of the QR
    /// code, i.e. the height of the code.
    pub fn height(self) -> (r: u8)
        ensures
            r == self.spec_height(),
    {
        match self {
            Version::RectMicro(v) => v.height(),
            _ => self.width(),
        }
    }

    /// The row of a per-version table that belongs to this version: rows 0 to
    /// 39 hold QR code versions 1 to 40, rows 40 to 43 Micro QR code versions
    /// 1 to 4, and rows 44 to 75 the rMQR code versions in the order of
    /// [`RectMicroVersion::ALL`].
    pub open spec fn spec_table_row(self) -> nat {
        match self {
            Version::Normal(v) => (v.spec_number() - 1) as nat,
            Version::Micro(v) => v.spec_number() + 39,
            Version::RectMicro(v) => v.spec_index() + 44,
        }
    }

    /// Every version has a row in the 76-row per-version tables.
    pub proof fn lemma_table_row_bound(self)
        ensures
            self.spec_table_row() < 76,
    {
    }

    /// The entry of `table` for this version and `ec_level`; an entry of zero
    /// (the default value) marks a combination that the version does not
    /// support.
    pub open spec fn spec_fetch(self, ec_level: EcLevel, table: Seq<[usize; 4]>) -> QrResult<usize> {
        let entry = table[self.spec_table_row() as int][ec_level.spec_index() as int];
        if entry == 0 {
            Err(Error::InvalidVersion)
        } else {
            Ok(entry)
        }
    }

    /// Returns the row of a per-version table that belongs to this version.
    pub fn table_row(self) -> (r: usize)
        ensures
            r == self.spec_table_row(),
            r < 76,
    {
        match self {
            Version::Normal(v) => (v.number() - 1) as usize,
            Version::Micro(v) => v.number() as usize + 39,
            Version::RectMicro(v) => v.index() + 44,
        }
    }

    /// Obtains an object from a hard-coded table.
    ///
    /// The table must be a 76×4 array. The outer array represents the content
    /// for each version. The first 40 entry corresponds to QR code versions 1
    /// to 40, the next 4 corresponds to Micro QR code version 1 to 4, and the
    /// last 32 corresponds to rMQR code. The inner array represents the content
    /// in each error correction level, in the order [L, M, Q, H].
    ///
    /// # Errors
    ///
    /// Returns [`Err`] if the entry compares equal to the default value (zero).
    pub fn fetch(self, ec_level: EcLevel, table: &[[usize; 4]]) -> (r: QrResult<usize>)
        requires
            self.spec_table_row() < table@.len(),
        ensures
            r == self.spec_fetch(ec_level, table@),
    {
        let entry = table[self.table_row()][ec_level.index()];
        if entry == 0 {
            Err(Error::InvalidVersion)
        } else {
            Ok(entry)
        }
    }

    /// The number of bits of the mode indicator: 4 for QR code, `number − 1`
    /// for Micro QR code and 3 for rMQR code.
    pub open spec fn spec_mode_bits_count(self) -> nat {
        match self {
            Version::Normal(_) => 4,
            Version::Micro(v) => v.spec_mode_bits_count(),
            Version::RectMicro(_) => 3,
        }
    }

    /// Returns the number of bits needed to encode the mode indicator.
    pub fn mode_bits_count(self) -> (r: usize)
        ensures
            r == self.spec_mode_bits_count(),
            r <= 4,
    {
        match self {
            Version::Normal(_) => 4,
            Version::Micro(v) => v.mode_bits_count(),
            Version::RectMicro(_) => 3,
        }
    }

    /// Checks whether is version refers to a QR code model 2.
    pub fn is_normal(self) -> (r: bool)
        ensures
            r == (self is Normal),
    {
        match self {
            Version::Normal(_) => true,
            _ => false,
        }
    }

    /// Checks whether is version refers to a Micro QR code.
    pub fn is_micro(self) -> (r: bool)
        ensures
            r == (self is Micro),
    {
        match self {
            Version::Micro(_) => true,
            _ => false,
        }
    }

    /// Checks whether is version refers to a rMQR code.
    pub fn is_rect_micro(self) -> (r: bool)
        ensures
            r == (self is RectMicro),
    {
        match self {
            Version::RectMicro(_) => true,
            _ => false,
        }
    }
}

} // verus!
