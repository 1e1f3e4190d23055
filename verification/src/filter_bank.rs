//! Which of the two 32-band synthesis filters a frame asks for.

use vstd::prelude::*;

verus! {

/// The 32-band interpolation filter of a frame.
#[derive(Debug, Clone, Copy, PartialEq, Eq, Hash, Structural)]
pub enum FilterBankSelection {
    /// The filter of the lossy coding mode.
    NonPerfectReconstruction,
    /// The filter of the lossless coding mode.
    PerfectReconstruction,
}

impl FilterBankSelection {
    /// The filter that the interpolator switch selects: zero is the lossy one.
    pub fn from_filts(filts: u8) -> (r: Self)
        ensures
            r == (if filts == 0 {
                FilterBankSelection::NonPerfectReconstruction
            } else {
                FilterBankSelection::PerfectReconstruction
            }),
    {
        if filts == 0 {
            FilterBankSelection::NonPerfectReconstruction
        } else {
            FilterBankSelection::PerfectReconstruction
        }
    }

    /// The interpolator switch that selects the filter.
    pub fn filts(self) -> (r: u8)
        ensures
            r == (if self == FilterBankSelection::NonPerfectReconstruction {
                0u8
            } else {
                1u8
            }),
    {
        match self {
            FilterBankSelection::NonPerfectReconstruction => 0,
            FilterBankSelection::PerfectReconstruction => 1,
        }
    }
}

} // verus!
