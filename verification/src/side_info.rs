//! The code book selectors of a channel.

use crate::error::Error;
use vstd::prelude::*;

verus! {

/// The code book of the bit allocation indices.
#[derive(Debug, Clone, Copy, PartialEq, Eq, Hash, Structural)]
pub enum AbitsCodebook {
    /// Huffman book A of 12 entries.
    A12,
    /// Huffman book B of 12 entries.
    B12,
    /// Huffman book C of 12 entries.
    C12,
    /// Huffman book D of 12 entries.
    D12,
    /// Huffman book E of 12 entries.
    E12,
    /// Plain numbers of four bits.
    Linear4Bit,
    /// Plain numbers of five bits.
    Linear5Bit,
}

impl AbitsCodebook {
    /// The book of a selector; selector 7 is reserved.
    pub open spec fn of_bhuff(bhuff: nat) -> Option<AbitsCodebook> {
        if bhuff == 0 {
            Some(AbitsCodebook::A12)
        } else if bhuff == 1 {
            Some(AbitsCodebook::B12)
        } else if bhuff == 2 {
            Some(AbitsCodebook::C12)
        } else if bhuff == 3 {
            Some(AbitsCodebook::D12)
        } else if bhuff == 4 {
            Some(AbitsCodebook::E12)
        } else if bhuff == 5 {
            Some(AbitsCodebook::Linear4Bit)
        } else if bhuff == 6 {
            Some(AbitsCodebook::Linear5Bit)
        } else {
            None
        }
    }

    /// The book of a selector.
    pub fn from_bhuff(bhuff: u8) -> (r: Result<AbitsCodebook, Error>)
        ensures
            match r {
                Ok(book) => Self::of_bhuff(bhuff as nat) == Some(book),
                Err(e) => Self::of_bhuff(bhuff as nat) is None && e == (Error::InvalidSideInfo {
                    field: "BHUFF",
                    value: bhuff as u32,
                }),
            },
    {
        match bhuff {
            0 => Ok(AbitsCodebook::A12),
            1 => Ok(AbitsCodebook::B12),
            2 => Ok(AbitsCodebook::C12),
            3 => Ok(AbitsCodebook::D12),
            4 => Ok(AbitsCodebook::E12),
            5 => Ok(AbitsCodebook::Linear4Bit),
            6 => Ok(AbitsCodebook::Linear5Bit),
            _ => Err(Error::InvalidSideInfo { field: "BHUFF", value: bhuff as u32 }),
        }
    }
}

/// The code book of the transient modes.
#[derive(Debug, Clone, Copy, PartialEq, Eq, Hash, Structural)]
pub enum TmodeCodebook {
    /// Huffman book A of 4 entries.
    A4,
    /// Huffman book B of 4 entries.
    B4,
    /// Huffman book C of 4 entries.
    C4,
    /// Huffman book D of 4 entries.
    D4,
}

impl TmodeCodebook {
    /// The book of a two-bit selector.
    pub open spec fn of_thuff(thuff: nat) -> TmodeCodebook {
        if thuff == 0 {
            TmodeCodebook::A4
        } else if thuff == 1 {
            TmodeCodebook::B4
        } else if thuff == 2 {
            TmodeCodebook::C4
        } else {
            TmodeCodebook::D4
        }
    }

    /// The book of the low two bits of a selector.
    pub fn from_thuff(thuff: u8) -> (r: TmodeCodebook)
        ensures
            r == Self::of_thuff((thuff % 4) as nat),
    {
        match thuff % 4 {
            0 => TmodeCodebook::A4,
            1 => TmodeCodebook::B4,
            2 => TmodeCodebook::C4,
            _ => TmodeCodebook::D4,
        }
    }
}

/// The code book of the scale factors.
#[derive(Debug, Clone, Copy, PartialEq, Eq, Hash, Structural)]
pub enum ScalesCodebook {
    /// Huffman book A of 129 entries.
    Sa129,
    /// Huffman book B of 129 entries.
    Sb129,
    /// Huffman book C of 129 entries.
    Sc129,
    /// Huffman book D of 129 entries.
    Sd129,
    /// Huffman book E of 129 entries.
    Se129,
    /// Plain numbers of six bits.
    Linear6Bit,
    /// Plain numbers of seven bits.
    Linear7Bit,
}

impl ScalesCodebook {
    /// The book of a selector; selector 7 is reserved.
    pub open spec fn of_shuff(shuff: nat) -> Option<ScalesCodebook> {
        if shuff == 0 {
            Some(ScalesCodebook::Sa129)
        } else if shuff == 1 {
            Some(ScalesCodebook::Sb129)
        } else if shuff == 2 {
            Some(ScalesCodebook::Sc129)
        } else if shuff == 3 {
            Some(ScalesCodebook::Sd129)
        } else if shuff == 4 {
            Some(ScalesCodebook::Se129)
        } else if shuff == 5 {
            Some(ScalesCodebook::Linear6Bit)
        } else if shuff == 6 {
            Some(ScalesCodebook::Linear7Bit)
        } else {
            None
        }
    }

    /// The book of a selector.
    pub fn from_shuff(shuff: u8) -> (r: Result<ScalesCodebook, Error>)
        ensures
            match r {
                Ok(book) => Self::of_shuff(shuff as nat) == Some(book),
                Err(e) => Self::of_shuff(shuff as nat) is None && e == (Error::InvalidSideInfo {
                    field: "SHUFF",
                    value: shuff as u32,
                }),
            },
    {
        match shuff {
            0 => Ok(ScalesCodebook::Sa129),
            1 => Ok(ScalesCodebook::Sb129),
            2 => Ok(ScalesCodebook::Sc129),
            3 => Ok(ScalesCodebook::Sd129),
            4 => Ok(ScalesCodebook::Se129),
            5 => Ok(ScalesCodebook::Linear6Bit),
            6 => Ok(ScalesCodebook::Linear7Bit),
            _ => Err(Error::InvalidSideInfo { field: "SHUFF", value: shuff as u32 }),
        }
    }
}

/// The factor by which the scale factors of a Huffman-coded subband are adjusted.
#[derive(Debug, Clone, Copy, PartialEq, Eq, Hash, Structural)]
pub enum ScaleFactorAdjustment {
    /// A factor of 1.
    Adj0,
    /// A factor of 1.125.
    Adj1,
    /// A factor of 1.25.
    Adj2,
    /// A factor of 1.4375.
    Adj3,
}

impl ScaleFactorAdjustment {
    /// The adjustment of a two-bit index.
    pub open spec fn of_index(index: nat) -> ScaleFactorAdjustment {
        if index == 0 {
            ScaleFactorAdjustment::Adj0
        } else if index == 1 {
            ScaleFactorAdjustment::Adj1
        } else if index == 2 {
            ScaleFactorAdjustment::Adj2
        } else {
            ScaleFactorAdjustment::Adj3
        }
    }

    /// The adjustment of the low two bits of an index.
    pub fn from_index(index: u8) -> (r: ScaleFactorAdjustment)
        ensures
            r == Self::of_index((index % 4) as nat),
    {
        match index % 4 {
            0 => ScaleFactorAdjustment::Adj0,
            1 => ScaleFactorAdjustment::Adj1,
            2 => ScaleFactorAdjustment::Adj2,
            _ => ScaleFactorAdjustment::Adj3,
        }
    }
}

} // verus!
