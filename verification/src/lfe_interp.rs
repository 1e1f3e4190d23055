//! Which of the two interpolation filters of the low-frequency-effects
//! channel a frame asks for.

use vstd::prelude::*;

verus! {

/// The interpolation filter of the low-frequency-effects channel.
#[derive(Debug, Clone, Copy, PartialEq, Eq, Hash, Structural)]
#[non_exhaustive]
pub enum LfeInterpolationSelection {
    /// The filter that makes 64 samples of one.
    Decimation64,
    /// The filter that makes 128 samples of one.
    Decimation128,
}

impl LfeInterpolationSelection {
    /// The filter of a decimation select: one is the 128-fold filter, anything
    /// else the 64-fold one.
    pub open spec fn of_select(select: int) -> LfeInterpolationSelection {
        if select == 1 {
            LfeInterpolationSelection::Decimation128
        } else {
            LfeInterpolationSelection::Decimation64
        }
    }

    /// The number of output samples for each input sample.
    pub open spec fn factor(self) -> nat {
        match self {
            LfeInterpolationSelection::Decimation64 => 64,
            LfeInterpolationSelection::Decimation128 => 128,
        }
    }

    /// The number of filter taps that one output sample needs.
    pub open spec fn taps(self) -> nat {
        512nat / self.factor()
    }

    /// The filter of a decimation select.
    #[must_use]
    pub fn from_decimation_select(n_decimation_select: u8) -> (r: Self)
        ensures
            r == Self::of_select(n_decimation_select as int),
    {
        if n_decimation_select == 1 {
            LfeInterpolationSelection::Decimation128
        } else {
            LfeInterpolationSelection::Decimation64
        }
    }

    /// The decimation select of the filter: zero or one, and selecting it gives
    /// the filter back.
    #[must_use]
    pub fn decimation_select(self) -> (r: u8)
        ensures
            r <= 1,
            Self::of_select(r as int) == self,
    {
        match self {
            LfeInterpolationSelection::Decimation64 => 0,
            LfeInterpolationSelection::Decimation128 => 1,
        }
    }

    /// The number of output samples for each input sample.
    #[must_use]
    pub fn decimation_factor(self) -> (r: u32)
        ensures
            r == self.factor(),
    {
        match self {
            LfeInterpolationSelection::Decimation64 => 64,
            LfeInterpolationSelection::Decimation128 => 128,
        }
    }

    /// The coefficient table of the filter: the first one for the 64-fold
    /// filter and the second one for the 128-fold filter.
    #[must_use]
    pub fn coefficients<'a, T>(self, table64: &'a [T], table128: &'a [T]) -> (r: &'a [T])
        ensures
            r == (match self {
                LfeInterpolationSelection::Decimation64 => table64,
                LfeInterpolationSelection::Decimation128 => table128,
            }),
    {
        match self {
            LfeInterpolationSelection::Decimation64 => table64,
            LfeInterpolationSelection::Decimation128 => table128,
        }
    }

    /// The name of the coefficient table of the filter.
    #[must_use]
    pub fn spec_table_name(self) -> (r: &'static str)
        ensures
            r == (match self {
                LfeInterpolationSelection::Decimation64 => "raCoeff64",
                LfeInterpolationSelection::Decimation128 => "raCoeff128",
            }),
    {
        match self {
            LfeInterpolationSelection::Decimation64 => "raCoeff64",
            LfeInterpolationSelection::Decimation128 => "raCoeff128",
        }
    }
}

} // verus!
