//! What the decoding of a subframe needs to know of a channel.

use crate::side_info::{AbitsCodebook, ScalesCodebook, TmodeCodebook};
use vstd::prelude::*;

verus! {

/// The largest number of primary channels.
pub const MAX_PRIMARY_CHANNELS: usize = 5;

/// The number of subbands of a channel.
pub const NUM_SUBBAND: usize = 32;

/// The number of samples of a subband in a full subsubframe.
pub const SAMPLES_PER_SUBSUBFRAME: usize = 8;

/// The bounds and code books of one channel.
#[derive(Debug, Clone, Copy, PartialEq, Eq, Hash, Structural)]
pub struct ChannelSideInfoParams {
    /// The number of active subbands.
    pub n_subs: usize,
    /// The first subband that is vector quantized.
    pub n_vqsub: usize,
    /// The code book of the bit allocation indices.
    pub abits_codebook: AbitsCodebook,
    /// The code book of the transient modes.
    pub tmode_codebook: TmodeCodebook,
    /// The code book of the scale factors.
    pub scales_codebook: ScalesCodebook,
}

/// What the side information of a subframe says of one channel.
#[derive(Debug, Clone, Copy, PartialEq, Eq)]
pub struct ChannelSideInfo {
    /// The prediction mode of each subband; zero is no prediction.
    pub pmode: [u8; 32],
    /// The code book index of the prediction coefficients of each subband.
    pub pvq: [u16; 32],
    /// The bit allocation index of each subband.
    pub abits: [u8; 32],
    /// The transient mode of each subband.
    pub tmode: [u8; 32],
    /// The two scale factors of each subband.
    pub scales: [[u32; 2]; 32],
}

impl ChannelSideInfo {
    /// A channel without prediction, bits or transients.
    pub fn cleared() -> (r: Self)
        ensures
            forall|n: int| 0 <= n < 32 ==> #[trigger] r.pmode@[n] == 0,
            forall|n: int| 0 <= n < 32 ==> #[trigger] r.pvq@[n] == 0,
            forall|n: int| 0 <= n < 32 ==> #[trigger] r.abits@[n] == 0,
            forall|n: int| 0 <= n < 32 ==> #[trigger] r.tmode@[n] == 0,
            forall|n: int|
                0 <= n < 32 ==> (#[trigger] r.scales@[n])@[0] == 0 && r.scales@[n]@[1] == 0,
    {
        ChannelSideInfo {
            pmode: [0;32],
            pvq: [0;32],
            abits: [0;32],
            tmode: [0;32],
            scales: [[0;2];32],
        }
    }
}

/// The side information of a subframe.
#[derive(Debug, Clone, PartialEq, Eq)]
pub struct SubframeSideInfo {
    /// What it says of each channel.
    pub channels: Vec<ChannelSideInfo>,
    /// The number of subsubframes.
    pub n_ssc: usize,
    /// The samples in a partial subsubframe; zero is none.
    pub psc: u8,
}

/// The tail of the side information of a subframe.
#[derive(Debug, Clone, PartialEq, Eq)]
pub struct SideInfoTail<T> {
    /// The joint scale factors of each channel.
    pub join_scales: Vec<Vec<T>>,
    /// The gain code of the subframe.
    pub range_index: Option<u8>,
}

/// Which of the two vector code books are attached.
#[derive(Debug, Clone, Copy, PartialEq, Eq, Structural)]
pub struct VqCodebooks {
    /// The book of the high subbands.
    pub hfreq: bool,
    /// The book of the prediction coefficients.
    pub adpcm: bool,
}

impl VqCodebooks {
    /// Both books.
    pub fn builtin() -> (r: Self)
        ensures
            r.hfreq && r.adpcm,
    {
        VqCodebooks { hfreq: true, adpcm: true }
    }

    /// Neither book.
    pub fn none() -> (r: Self)
        ensures
            !r.hfreq && !r.adpcm,
    {
        VqCodebooks { hfreq: false, adpcm: false }
    }
}

} // verus!
