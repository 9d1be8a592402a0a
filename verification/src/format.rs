//! The format parameter of a symbol: its version and error-correction level.

use vstd::prelude::*;

verus! {

/// Smallest symbol version.
pub const MIN_VERSION: i16 = 1;

/// Largest symbol version.
pub const MAX_VERSION: i16 = 40;

/// Largest version that the library has symbols made of. While choosing a
/// mask the `qrcode` crate adds up penalty scores in 16-bit integers. For a
/// symbol of `w` modules per side the runs score at most `2 * w * (w - 2)`,
/// the blocks `3 * (w - 1) * (w - 1)`, the finder-like patterns
/// `2 * 40 * w * ceil((w - 6) / 4)` and the balance 100. At version 9, with
/// `w = 53`, that is 64,498 in all and fits; from version 10 on this bound
/// passes 65,535, so that an overflow is not ruled out.
pub const MAX_SUPPORTED_VERSION: i16 = 9;

/// How much of a symbol is spent on error correction, from least to most.
#[derive(Clone, Copy, Debug, PartialEq, Eq, Structural)]
pub enum ErrorCorrection {
    L,
    M,
    Q,
    H,
}

/// The pair of version and error-correction level that fixes how many data
/// bits one symbol holds.
#[derive(Clone, Copy, Debug, PartialEq, Eq, Structural)]
pub struct FormatParameter {
    pub version: i16,
    pub level: ErrorCorrection,
}

impl FormatParameter {
    /// The version names a symbol size that exists.
    pub open spec fn wf(self) -> bool {
        MIN_VERSION <= self.version <= MAX_VERSION
    }

    /// The version is one that the library has symbols made of.
    pub open spec fn supported(self) -> bool {
        MIN_VERSION <= self.version <= MAX_SUPPORTED_VERSION
    }

    /// Modules per side of a symbol of this version.
    pub open spec fn spec_side(self) -> int {
        4 * self.version + 17
    }

    /// The format parameter of `version` and `level`, if `version` exists.
    pub fn new(version: i16, level: ErrorCorrection) -> (format: Option<FormatParameter>)
        ensures
            format == if MIN_VERSION <= version <= MAX_VERSION {
                Some(FormatParameter { version, level })
            } else {
                None
            },
            format matches Some(f) ==> f.wf(),
    {
        if MIN_VERSION <= version && version <= MAX_VERSION {
            Some(FormatParameter { version, level })
        } else {
            None
        }
    }

    /// Whether the version names a symbol size that exists.
    pub fn is_valid(&self) -> (valid: bool)
        ensures
            valid == self.wf(),
    {
        MIN_VERSION <= self.version && self.version <= MAX_VERSION
    }

    /// Whether the version is one that the library has symbols made of.
    pub fn is_supported(&self) -> (supported: bool)
        ensures
            supported == self.supported(),
    {
        MIN_VERSION <= self.version && self.version <= MAX_SUPPORTED_VERSION
    }

    /// Modules per side of a symbol of this version.
    pub fn side(&self) -> (side: usize)
        requires
            self.wf(),
        ensures
            side == self.spec_side(),
    {
        let version: usize = self.version as usize;
        4 * version + 17
    }
}

} // verus!
