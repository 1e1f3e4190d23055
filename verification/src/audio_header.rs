//! The audio coding header: the structure of a frame and the code books of
//! its channels.

use crate::bitreader::BitReader;
use crate::bits::{bit, field, lemma_field_bound, lemma_field_ext};
use crate::error::Error;
use crate::side_info::{AbitsCodebook, ScaleFactorAdjustment, ScalesCodebook, TmodeCodebook};
use crate::subframe::{ChannelSideInfoParams, MAX_PRIMARY_CHANNELS, NUM_SUBBAND};
use vstd::arithmetic::power2::*;
use vstd::prelude::*;

verus! {

/// The number of entries in a channel's selector and adjustment tables.
pub const SEL_PLANE_LEN: usize = 26;

/// The number of entries that are transmitted.
pub const SEL_PLANE_CODED: usize = 10;

/// The structure of a frame and the code books of its channels.
#[derive(Debug, Clone, PartialEq)]
#[non_exhaustive]
pub struct AudioCodingHeader {
    /// The number of subframes in the frame.
    pub n_subframes: usize,
    /// The number of primary channels.
    pub n_pchs: usize,
    /// The joint coding source of each channel, counted from one; zero is none.
    pub joinx: Vec<u8>,
    /// The bounds and code books of each channel.
    pub channel_params: Vec<ChannelSideInfoParams>,
    /// The code book selectors of each channel, by allocation index minus one.
    pub sel: Vec<[u8; 26]>,
    /// The scale factor adjustments of each channel, by allocation index minus one.
    pub adj: Vec<[ScaleFactorAdjustment; 26]>,
}

/// The contents of an audio coding header.
#[verifier::ext_equal]
pub struct AudioCodingView {
    /// The number of subframes.
    pub n_subframes: nat,
    /// The number of primary channels.
    pub n_pchs: nat,
    /// The joint coding sources.
    pub joinx: Seq<u8>,
    /// The bounds and code books.
    pub channel_params: Seq<ChannelSideInfoParams>,
    /// The selectors of each channel.
    pub sel: Seq<Seq<u8>>,
    /// The adjustments of each channel.
    pub adj: Seq<Seq<ScaleFactorAdjustment>>,
}

impl View for AudioCodingHeader {
    type V = AudioCodingView;

    open spec fn view(&self) -> AudioCodingView {
        AudioCodingView {
            n_subframes: self.n_subframes as nat,
            n_pchs: self.n_pchs as nat,
            joinx: self.joinx@,
            channel_params: self.channel_params@,
            sel: self.sel@.map_values(|p: [u8; 26]| p@),
            adj: self.adj@.map_values(|p: [ScaleFactorAdjustment; 26]| p@),
        }
    }
}

impl AudioCodingView {
    /// The code book selector of a channel for an allocation index, zero where
    /// there is none.
    pub open spec fn sel_of(self, ch: int, abits: int) -> u8 {
        if 1 <= abits <= 26 && 0 <= ch < self.sel.len() {
            self.sel[ch][abits - 1]
        } else {
            0
        }
    }

    /// The adjustment of a channel for an allocation index, one where there is none.
    pub open spec fn adj_of(self, ch: int, abits: int) -> ScaleFactorAdjustment {
        if 1 <= abits <= 26 && 0 <= ch < self.adj.len() {
            self.adj[ch][abits - 1]
        } else {
            ScaleFactorAdjustment::Adj0
        }
    }
}

/// The width of selector `n`, zero where it is not transmitted.
pub open spec fn sel_width(n: int) -> nat {
    if n == 0 {
        1
    } else if 1 <= n <= 4 {
        2
    } else if 5 <= n <= 9 {
        3
    } else {
        0
    }
}

/// Whether an adjustment follows for selector `n` with the value `sel`: where
/// the selector picks a Huffman book.
pub open spec fn adj_follows(n: int, sel: nat) -> bool {
    (n == 0 && sel == 0) || (1 <= n <= 4 && sel < 3) || (5 <= n <= 9 && sel < 7)
}

/// The number of selector bits before selector `n` of channel `ch`. The
/// selectors come index by index, each for all `nch` channels.
pub open spec fn sel_bits_before(nch: nat, n: nat, ch: nat) -> nat
    decreases n, ch,
{
    if ch > 0 {
        sel_bits_before(nch, n, (ch - 1) as nat) + sel_width(n as int)
    } else if n > 0 {
        sel_bits_before(nch, (n - 1) as nat, nch)
    } else {
        0
    }
}

/// Where the fields of an audio coding header stand: `off` is its first bit and
/// `nch` its channel count.
pub struct AudioCodingLayout {
    /// The bits that are read.
    pub s: Seq<u8>,
    /// The first bit of the header.
    pub off: int,
    /// The number of channels.
    pub nch: nat,
}

impl AudioCodingLayout {
    /// The number of active subbands of channel `ch`.
    pub open spec fn n_subs(self, ch: int) -> nat {
        field(self.s, self.off + 7 + 5 * ch, 5) + 2
    }

    /// The first vector-quantized subband of channel `ch`.
    pub open spec fn n_vqsub(self, ch: int) -> nat {
        field(self.s, self.off + 7 + 5 * self.nch + 5 * ch, 5) + 1
    }

    /// The joint coding source of channel `ch`.
    pub open spec fn joinx(self, ch: int) -> nat {
        field(self.s, self.off + 7 + 10 * self.nch + 3 * ch, 3)
    }

    /// The transient mode book selector of channel `ch`.
    pub open spec fn thuff(self, ch: int) -> nat {
        field(self.s, self.off + 7 + 13 * self.nch + 2 * ch, 2)
    }

    /// The scale factor book selector of channel `ch`.
    pub open spec fn shuff(self, ch: int) -> nat {
        field(self.s, self.off + 7 + 15 * self.nch + 3 * ch, 3)
    }

    /// The bit allocation book selector of channel `ch`.
    pub open spec fn bhuff(self, ch: int) -> nat {
        field(self.s, self.off + 7 + 18 * self.nch + 3 * ch, 3)
    }

    /// The first bit of the selectors.
    pub open spec fn sel_start(self) -> int {
        self.off + 7 + 21 * self.nch
    }

    /// Selector `n` of channel `ch`.
    pub open spec fn sel(self, ch: int, n: int) -> nat {
        field(
            self.s,
            self.sel_start() + sel_bits_before(self.nch, n as nat, ch as nat),
            sel_width(n),
        )
    }

    /// The first bit of the adjustments.
    pub open spec fn adj_start(self) -> int {
        self.sel_start() + sel_bits_before(self.nch, 10, 0)
    }

    /// The number of adjustment bits before adjustment `n` of channel `ch`.
    pub open spec fn adj_bits_before(self, n: nat, ch: nat) -> nat
        decreases n, ch,
    {
        if ch > 0 {
            self.adj_bits_before(n, (ch - 1) as nat) + if adj_follows(
                n as int,
                self.sel(ch - 1, n as int),
            ) {
                2nat
            } else {
                0nat
            }
        } else if n > 0 {
            self.adj_bits_before((n - 1) as nat, self.nch)
        } else {
            0
        }
    }

    /// Adjustment `n` of channel `ch`; one where it does not follow.
    pub open spec fn adj(self, ch: int, n: int) -> ScaleFactorAdjustment {
        if adj_follows(n, self.sel(ch, n)) {
            ScaleFactorAdjustment::of_index(
                field(self.s, self.adj_start() + self.adj_bits_before(n as nat, ch as nat), 2),
            )
        } else {
            ScaleFactorAdjustment::Adj0
        }
    }

    /// The first bit behind the header.
    pub open spec fn end(self, cpf: bool) -> int {
        self.adj_start() + self.adj_bits_before(10, 0) + if cpf {
            16int
        } else {
            0int
        }
    }

    /// The first channel from `ch` on whose subband count is missing or too large.
    pub open spec fn subs_error(self, ch: nat) -> Option<Error>
        decreases self.nch - ch,
    {
        if ch >= self.nch {
            None
        } else if self.off + 7 + 5 * (ch + 1) > 8 * self.s.len() {
            Some(Error::UnexpectedEof)
        } else if self.n_subs(ch as int) > 32 {
            Some(Error::InvalidSideInfo { field: "nSUBS", value: self.n_subs(ch as int) as u32 })
        } else {
            self.subs_error(ch + 1)
        }
    }

    /// The first channel from `ch` on whose vector-quantized subband is missing
    /// or above its subband count.
    pub open spec fn vqsub_error(self, ch: nat) -> Option<Error>
        decreases self.nch - ch,
    {
        if ch >= self.nch {
            None
        } else if self.off + 7 + 5 * self.nch + 5 * (ch + 1) > 8 * self.s.len() {
            Some(Error::UnexpectedEof)
        } else if self.n_vqsub(ch as int) > self.n_subs(ch as int) {
            Some(Error::InvalidSideInfo { field: "VQSUB", value: self.n_vqsub(ch as int) as u32 })
        } else {
            self.vqsub_error(ch + 1)
        }
    }

    /// The first channel from `ch` on with a reserved code book selector.
    pub open spec fn book_error(self, ch: nat) -> Option<Error>
        decreases self.nch - ch,
    {
        if ch >= self.nch {
            None
        } else if self.bhuff(ch as int) == 7 {
            Some(Error::InvalidSideInfo { field: "BHUFF", value: 7 })
        } else if self.shuff(ch as int) == 7 {
            Some(Error::InvalidSideInfo { field: "SHUFF", value: 7 })
        } else {
            self.book_error(ch + 1)
        }
    }

    /// The bounds and code books of channel `ch`.
    pub open spec fn params(self, ch: int) -> ChannelSideInfoParams {
        ChannelSideInfoParams {
            n_subs: self.n_subs(ch) as usize,
            n_vqsub: self.n_vqsub(ch) as usize,
            abits_codebook: AbitsCodebook::of_bhuff(self.bhuff(ch)).unwrap(),
            tmode_codebook: TmodeCodebook::of_thuff(self.thuff(ch)),
            scales_codebook: ScalesCodebook::of_shuff(self.shuff(ch)).unwrap(),
        }
    }

    /// The contents of the header.
    pub open spec fn contents(self) -> AudioCodingView {
        AudioCodingView {
            n_subframes: field(self.s, self.off, 4) + 1,
            n_pchs: self.nch,
            joinx: Seq::new(self.nch, |ch: int| self.joinx(ch) as u8),
            channel_params: Seq::new(self.nch, |ch: int| self.params(ch)),
            sel: Seq::new(
                self.nch,
                |ch: int|
                    Seq::new(
                        26,
                        |n: int|
                            if n < 10 {
                                self.sel(ch, n) as u8
                            } else {
                                0u8
                            },
                    ),
            ),
            adj: Seq::new(
                self.nch,
                |ch: int|
                    Seq::new(
                        26,
                        |n: int|
                            if n < 10 {
                                self.adj(ch, n)
                            } else {
                                ScaleFactorAdjustment::Adj0
                            },
                    ),
            ),
        }
    }
}

/// The layout of the header at bit `off` of `s`.
pub open spec fn layout_at(s: Seq<u8>, off: int) -> AudioCodingLayout {
    AudioCodingLayout { s, off, nch: field(s, off + 4, 3) + 1 }
}

/// The header at bit `off` of `s` and its length, or why it cannot be read.
pub open spec fn audio_coding_header(s: Seq<u8>, off: int, cpf: bool) -> Result<
    (AudioCodingView, nat),
    Error,
> {
    let l: AudioCodingLayout = layout_at(s, off);
    if off + 7 > 8 * s.len() {
        Err(Error::UnexpectedEof)
    } else if l.nch > 5 {
        Err(Error::InvalidSideInfo { field: "nPCHS", value: l.nch as u32 })
    } else if l.subs_error(0) is Some {
        Err(l.subs_error(0).unwrap())
    } else if l.vqsub_error(0) is Some {
        Err(l.vqsub_error(0).unwrap())
    } else if l.end(cpf) > 8 * s.len() {
        Err(Error::UnexpectedEof)
    } else if l.book_error(0) is Some {
        Err(l.book_error(0).unwrap())
    } else {
        Ok((l.contents(), (l.end(cpf) - off) as nat))
    }
}

/// The given bounds with the first code books.
pub open spec fn first_book_params(n_subs: usize, n_vqsub: usize) -> ChannelSideInfoParams {
    ChannelSideInfoParams {
        n_subs,
        n_vqsub,
        abits_codebook: AbitsCodebook::A12,
        tmode_codebook: TmodeCodebook::A4,
        scales_codebook: ScalesCodebook::Sa129,
    }
}

impl AudioCodingHeader {
    /// The code book selector of a channel for an allocation index, zero where
    /// there is none.
    #[must_use]
    pub fn sel(&self, ch: usize, abits: u8) -> (r: u8)
        ensures
            r == self@.sel_of(ch as int, abits as int),
    {
        if abits == 0 || ch >= self.sel.len() {
            return 0;
        }
        let idx: usize = (abits - 1) as usize;
        if idx >= SEL_PLANE_LEN {
            return 0;
        }
        self.sel[ch][idx]
    }

    /// The adjustment of a channel for an allocation index, one where there is none.
    #[must_use]
    pub fn adj(&self, ch: usize, abits: u8) -> (r: ScaleFactorAdjustment)
        ensures
            r == self@.adj_of(ch as int, abits as int),
    {
        if abits == 0 || ch >= self.adj.len() {
            return ScaleFactorAdjustment::Adj0;
        }
        let idx: usize = (abits - 1) as usize;
        if idx >= SEL_PLANE_LEN {
            return ScaleFactorAdjustment::Adj0;
        }
        self.adj[ch][idx]
    }

    /// The number of active subbands of each channel.
    #[must_use]
    pub fn n_subs(&self) -> (r: Vec<usize>)
        ensures
            r@ == self.channel_params@.map_values(|p: ChannelSideInfoParams| p.n_subs),
    {
        let mut out: Vec<usize> = Vec::new();
        let mut ch: usize = 0;
        while ch < self.channel_params.len()
            invariant
                ch <= self.channel_params@.len(),
                out@.len() == ch,
                forall|i: int| 0 <= i < ch ==> out@[i] == self.channel_params@[i].n_subs,
            decreases self.channel_params@.len() - ch,
        {
            out.push(self.channel_params[ch].n_subs);
            ch = ch + 1;
        }
        assert(out@ =~= self.channel_params@.map_values(|p: ChannelSideInfoParams| p.n_subs));
        out
    }

    /// The first vector-quantized subband of each channel.
    #[must_use]
    pub fn n_vqsub(&self) -> (r: Vec<usize>)
        ensures
            r@ == self.channel_params@.map_values(|p: ChannelSideInfoParams| p.n_vqsub),
    {
        let mut out: Vec<usize> = Vec::new();
        let mut ch: usize = 0;
        while ch < self.channel_params.len()
            invariant
                ch <= self.channel_params@.len(),
                out@.len() == ch,
                forall|i: int| 0 <= i < ch ==> out@[i] == self.channel_params@[i].n_vqsub,
            decreases self.channel_params@.len() - ch,
        {
            out.push(self.channel_params[ch].n_vqsub);
            ch = ch + 1;
        }
        assert(out@ =~= self.channel_params@.map_values(|p: ChannelSideInfoParams| p.n_vqsub));
        out
    }

    /// A header of one subframe whose channels have the given bounds, the first
    /// code books, the same selector for every allocation index, no adjustment
    /// and no joint coding.
    fn uniform(bounds: &[(usize, usize)], sel: u8) -> (r: Self)
        ensures
            r.n_subframes == 1,
            r.n_pchs == bounds@.len(),
            r.joinx@ == Seq::new(bounds@.len(), |ch: int| 0u8),
            r.channel_params@ == Seq::new(
                bounds@.len(),
                |ch: int| first_book_params(bounds@[ch].0, bounds@[ch].1),
            ),
            r@.sel == Seq::new(bounds@.len(), |ch: int| Seq::new(26, |n: int| sel)),
            r@.adj == Seq::new(
                bounds@.len(),
                |ch: int| Seq::new(26, |n: int| ScaleFactorAdjustment::Adj0),
            ),
    {
        let mut joinx: Vec<u8> = Vec::new();
        let mut channel_params: Vec<ChannelSideInfoParams> = Vec::new();
        let mut sel_table: Vec<[u8; 26]> = Vec::new();
        let mut adj_table: Vec<[ScaleFactorAdjustment; 26]> = Vec::new();
        let mut ch: usize = 0;
        while ch < bounds.len()
            invariant
                ch <= bounds@.len(),
                joinx@ == Seq::new(ch as nat, |i: int| 0u8),
                channel_params@ == Seq::new(
                    ch as nat,
                    |i: int| first_book_params(bounds@[i].0, bounds@[i].1),
                ),
                sel_table@.len() == ch,
                adj_table@.len() == ch,
                forall|i: int|
                    0 <= i < ch ==> (#[trigger] sel_table@[i])@ == Seq::new(26, |n: int| sel),
                forall|i: int|
                    0 <= i < ch ==> (#[trigger] adj_table@[i])@ == Seq::new(
                        26,
                        |n: int| ScaleFactorAdjustment::Adj0,
                    ),
            decreases bounds@.len() - ch,
        {
            joinx.push(0);
            channel_params.push(
                ChannelSideInfoParams {
                    n_subs: bounds[ch].0,
                    n_vqsub: bounds[ch].1,
                    abits_codebook: AbitsCodebook::A12,
                    tmode_codebook: TmodeCodebook::A4,
                    scales_codebook: ScalesCodebook::Sa129,
                },
            );
            let sel_row: [u8; 26] = [sel;26];
            let adj_row: [ScaleFactorAdjustment; 26] = [ScaleFactorAdjustment::Adj0;26];
            assert(sel_row@ =~= Seq::new(26, |n: int| sel));
            assert(adj_row@ =~= Seq::new(26, |n: int| ScaleFactorAdjustment::Adj0));
            sel_table.push(sel_row);
            adj_table.push(adj_row);
            ch = ch + 1;
            assert(joinx@ =~= Seq::new(ch as nat, |i: int| 0u8));
            assert(channel_params@ =~= Seq::new(
                ch as nat,
                |i: int| first_book_params(bounds@[i].0, bounds@[i].1),
            ));
        }
        let header = AudioCodingHeader {
            n_subframes: 1,
            n_pchs: bounds.len(),
            joinx,
            channel_params,
            sel: sel_table,
            adj: adj_table,
        };
        assert(header@.sel =~= Seq::new(bounds@.len(), |c: int| Seq::new(26, |n: int| sel)));
        assert(header@.adj =~= Seq::new(
            bounds@.len(),
            |c: int| Seq::new(26, |n: int| ScaleFactorAdjustment::Adj0),
        ));
        header
    }

    /// A one-channel header with a selector for every allocation index.
    pub fn single_channel_for_test(n_subs: usize, n_vqsub: usize, sel: u8) -> (r: Self)
        ensures
            r.n_subframes == 1,
            r.n_pchs == 1,
            r.joinx@ == seq![0u8],
            r.channel_params@ == seq![first_book_params(n_subs, n_vqsub)],
            r@.sel == seq![Seq::new(26, |n: int| sel)],
            r@.adj == seq![Seq::new(26, |n: int| ScaleFactorAdjustment::Adj0)],
    {
        let bounds: [(usize, usize); 1] = [(n_subs, n_vqsub)];
        let header = Self::uniform(bounds.as_slice(), sel);
        assert(header.joinx@ =~= seq![0u8]);
        assert(header.channel_params@ =~= seq![first_book_params(n_subs, n_vqsub)]);
        assert(header@.sel =~= seq![Seq::new(26, |n: int| sel)]);
        assert(header@.adj =~= seq![Seq::new(26, |n: int| ScaleFactorAdjustment::Adj0)]);
        header
    }

    /// Sets the joint coding source of a channel.
    pub fn set_joinx_for_test(&mut self, ch: usize, joinx: u8)
        requires
            ch < old(self).joinx@.len(),
        ensures
            final(self).joinx@ == old(self).joinx@.update(ch as int, joinx),
            final(self)@ == (AudioCodingView {
                joinx: old(self)@.joinx.update(ch as int, joinx),
                ..old(self)@
            }),
    {
        self.joinx[ch] = joinx;
    }

    /// A two-channel header with a selector for every allocation index.
    pub fn two_channel_for_test(ch0: (usize, usize), ch1: (usize, usize), sel: u8) -> (r: Self)
        ensures
            r.n_subframes == 1,
            r.n_pchs == 2,
            r.joinx@ == seq![0u8, 0u8],
            r.channel_params@ == seq![
                first_book_params(ch0.0, ch0.1),
                first_book_params(ch1.0, ch1.1),
            ],
            r@.sel == seq![Seq::new(26, |n: int| sel), Seq::new(26, |n: int| sel)],
            r@.adj == seq![
                Seq::new(26, |n: int| ScaleFactorAdjustment::Adj0),
                Seq::new(26, |n: int| ScaleFactorAdjustment::Adj0),
            ],
    {
        let bounds: [(usize, usize); 2] = [ch0, ch1];
        let header = Self::uniform(bounds.as_slice(), sel);
        assert(header.joinx@ =~= seq![0u8, 0u8]);
        assert(header.channel_params@ =~= seq![
            first_book_params(ch0.0, ch0.1),
            first_book_params(ch1.0, ch1.1),
        ]);
        assert(header@.sel =~= seq![Seq::new(26, |n: int| sel), Seq::new(26, |n: int| sel)]);
        assert(header@.adj =~= seq![
            Seq::new(26, |n: int| ScaleFactorAdjustment::Adj0),
            Seq::new(26, |n: int| ScaleFactorAdjustment::Adj0),
        ]);
        header
    }
}

/// The width of selector `n`, zero where it is not transmitted.
pub fn sel_bit_width(n: usize) -> (r: u32)
    ensures
        r == sel_width(n as int),
{
    match n {
        0 => 1,
        1..=4 => 2,
        5..=9 => 3,
        _ => 0,
    }
}

/// Whether an adjustment follows for selector `n` with the value `sel`.
pub fn adj_transmitted(n: usize, sel: u8) -> (r: bool)
    ensures
        r == adj_follows(n as int, sel as nat),
{
    match n {
        0 => sel == 0,
        1..=4 => sel < 3,
        5..=9 => sel < 7,
        _ => false,
    }
}

/// The subband counts of all channels.
fn read_subs(br: &mut BitReader, nch: usize, Ghost(l): Ghost<AudioCodingLayout>) -> (r: Result<
    Vec<usize>,
    Error,
>)
    requires
        old(br).wf(),
        old(br).data() == l.s,
        old(br).at() == l.off + 7,
        nch == l.nch,
    ensures
        final(br).wf(),
        final(br).data() == l.s,
        match r {
            Ok(v) => {
                &&& l.subs_error(0) is None
                &&& v@.len() == nch
                &&& forall|ch: int| 0 <= ch < nch ==> v@[ch] == #[trigger] l.n_subs(ch)
                &&& final(br).at() == l.off + 7 + 5 * nch
            },
            Err(e) => l.subs_error(0) == Some(e),
        },
{
    let mut out: Vec<usize> = Vec::new();
    let mut ch: usize = 0;
    proof {
        lemma2_to64();
    }
    while ch < nch
        invariant
            br.wf(),
            br.data() == l.s,
            br.at() == l.off + 7 + 5 * ch,
            nch == l.nch,
            ch <= nch,
            out@.len() == ch,
            l.subs_error(0) == l.subs_error(ch as nat),
            forall|i: int| 0 <= i < ch ==> out@[i] == #[trigger] l.n_subs(i),
        decreases nch - ch,
    {
        proof {
            lemma_field_bound(l.s, l.off + 7 + 5 * ch, 5);
            lemma2_to64();
        }
        let v: usize = br.read_bits(5)? as usize + 2;
        if v > NUM_SUBBAND {
            return Err(Error::InvalidSideInfo { field: "nSUBS", value: v as u32 });
        }
        out.push(v);
        ch = ch + 1;
    }
    Ok(out)
}

/// The first vector-quantized subbands of all channels.
fn read_vqsub(
    br: &mut BitReader,
    nch: usize,
    n_subs: &Vec<usize>,
    Ghost(l): Ghost<AudioCodingLayout>,
) -> (r: Result<Vec<usize>, Error>)
    requires
        old(br).wf(),
        old(br).data() == l.s,
        old(br).at() == l.off + 7 + 5 * l.nch,
        nch == l.nch,
        n_subs@.len() == nch,
        forall|ch: int| 0 <= ch < nch ==> n_subs@[ch] == #[trigger] l.n_subs(ch),
    ensures
        final(br).wf(),
        final(br).data() == l.s,
        match r {
            Ok(v) => {
                &&& l.vqsub_error(0) is None
                &&& v@.len() == nch
                &&& forall|ch: int| 0 <= ch < nch ==> v@[ch] == #[trigger] l.n_vqsub(ch)
                &&& final(br).at() == l.off + 7 + 10 * nch
            },
            Err(e) => l.vqsub_error(0) == Some(e),
        },
{
    let mut out: Vec<usize> = Vec::new();
    let mut ch: usize = 0;
    while ch < nch
        invariant
            br.wf(),
            br.data() == l.s,
            br.at() == l.off + 7 + 5 * l.nch + 5 * ch,
            nch == l.nch,
            ch <= nch,
            n_subs@.len() == nch,
            forall|i: int| 0 <= i < nch ==> n_subs@[i] == #[trigger] l.n_subs(i),
            out@.len() == ch,
            l.vqsub_error(0) == l.vqsub_error(ch as nat),
            forall|i: int| 0 <= i < ch ==> out@[i] == #[trigger] l.n_vqsub(i),
        decreases nch - ch,
    {
        proof {
            lemma_field_bound(l.s, l.off + 7 + 5 * l.nch + 5 * ch, 5);
            lemma2_to64();
            assert(n_subs@[ch as int] == l.n_subs(ch as int));
        }
        let v: usize = br.read_bits(5)? as usize + 1;
        if v > n_subs[ch] {
            return Err(Error::InvalidSideInfo { field: "VQSUB", value: v as u32 });
        }
        out.push(v);
        ch = ch + 1;
    }
    Ok(out)
}

/// One field of up to eight bits for each of `nch` channels.
fn read_row(br: &mut BitReader, nch: usize, width: u32) -> (r: Result<Vec<u8>, Error>)
    requires
        old(br).wf(),
        1 <= width <= 8,
    ensures
        final(br).wf(),
        final(br).data() == old(br).data(),
        match r {
            Ok(v) => {
                &&& v@.len() == nch
                &&& forall|ch: int|
                    0 <= ch < nch ==> #[trigger] v@[ch] == field(
                        old(br).data(),
                        old(br).at() + width * ch,
                        width as nat,
                    )
                &&& final(br).at() == old(br).at() + width * nch
                &&& old(br).at() + width * nch <= 8 * old(br).data().len() || nch == 0
            },
            Err(e) => e == Error::UnexpectedEof && old(br).at() + width * nch > 8 * old(
                br,
            ).data().len(),
        },
{
    let ghost data: Seq<u8> = br.data();
    let ghost start: int = br.at() as int;
    let mut out: Vec<u8> = Vec::new();
    let mut ch: usize = 0;
    assert(width * 0 == 0);
    while ch < nch
        invariant
            br.wf(),
            br.data() == data,
            data == old(br).data(),
            start == old(br).at(),
            1 <= width <= 8,
            br.at() == start + width * ch,
            ch <= nch,
            ch > 0 ==> start + width * ch <= 8 * data.len(),
            out@.len() == ch,
            forall|i: int|
                0 <= i < ch ==> #[trigger] out@[i] == field(data, start + width * i, width as nat),
        decreases nch - ch,
    {
        proof {
            assert(width * (ch + 1) == width * ch + width) by (nonlinear_arith);
            assert(width * (ch + 1) <= width * nch) by (nonlinear_arith)
                requires
                    ch + 1 <= nch,
            ;
            lemma_field_bound(data, start + width * ch, width as nat);
            lemma2_to64();
            lemma_pow2_monotone(width as nat, 8);
        }
        let v: u32 = br.read_bits(width)?;
        out.push(v as u8);
        ch = ch + 1;
    }
    Ok(out)
}

/// Powers of two grow with their exponents.
proof fn lemma_pow2_monotone(a: nat, b: nat)
    requires
        a <= b,
    ensures
        pow2(a) <= pow2(b),
{
    if a < b {
        lemma_pow2_strictly_increases(a, b);
    }
}

/// The selectors of one index stand side by side.
proof fn lemma_sel_row(nch: nat, n: nat, ch: nat)
    ensures
        sel_bits_before(nch, n, ch) == sel_bits_before(nch, n, 0) + sel_width(n as int) * ch,
    decreases ch,
{
    let w: nat = sel_width(n as int);
    if ch > 0 {
        lemma_sel_row(nch, n, (ch - 1) as nat);
        assert(w * (ch - 1) + w == w * ch) by (nonlinear_arith);
    } else {
        assert(w * 0 == 0);
    }
}

/// The selectors come index by index.
proof fn lemma_sel_monotone(nch: nat, m: nat, n: nat)
    requires
        m <= n,
    ensures
        sel_bits_before(nch, m, 0) <= sel_bits_before(nch, n, 0),
    decreases n,
{
    if m < n {
        lemma_sel_monotone(nch, m, (n - 1) as nat);
        lemma_sel_row(nch, (n - 1) as nat, nch);
        assert(sel_width(n - 1) * nch >= 0) by (nonlinear_arith);
    }
}

/// The adjustments come index by index.
proof fn lemma_adj_monotone(l: AudioCodingLayout, n: nat, ch: nat)
    requires
        n < 10,
        ch <= l.nch,
    ensures
        l.adj_bits_before(n, ch) <= l.adj_bits_before(10, 0),
    decreases 10 - n, l.nch - ch,
{
    if ch < l.nch {
        lemma_adj_monotone(l, n, ch + 1);
    } else if n < 9 {
        lemma_adj_monotone(l, n + 1, 0);
    }
}

/// The selectors of index `n`.
spec fn sel_row(row: Vec<u8>, l: AudioCodingLayout, n: int) -> bool {
    &&& row@.len() == l.nch
    &&& forall|ch: int| 0 <= ch < l.nch ==> row@[ch] == #[trigger] l.sel(ch, n)
}

/// The selectors of the first `n` indices.
spec fn sel_rows(rows: Seq<Vec<u8>>, l: AudioCodingLayout, n: int) -> bool {
    &&& rows.len() == n
    &&& forall|i: int| 0 <= i < n ==> sel_row(#[trigger] rows[i], l, i)
}

/// The adjustments of index `n`.
spec fn adj_row(row: Vec<ScaleFactorAdjustment>, l: AudioCodingLayout, n: int) -> bool {
    &&& row@.len() == l.nch
    &&& forall|ch: int| 0 <= ch < l.nch ==> row@[ch] == #[trigger] l.adj(ch, n)
}

/// The adjustments of the first `n` indices.
spec fn adj_rows(
    rows: Seq<Vec<ScaleFactorAdjustment>>,
    l: AudioCodingLayout,
    n: int,
) -> bool {
    &&& rows.len() == n
    &&& forall|i: int| 0 <= i < n ==> adj_row(#[trigger] rows[i], l, i)
}

/// The selectors of all channels, index by index.
fn read_sel(br: &mut BitReader, nch: usize, Ghost(l): Ghost<AudioCodingLayout>) -> (r: Result<
    Vec<Vec<u8>>,
    Error,
>)
    requires
        old(br).wf(),
        old(br).data() == l.s,
        old(br).at() <= 8 * l.s.len(),
        old(br).at() == l.sel_start(),
        nch == l.nch,
        nch > 0,
    ensures
        final(br).wf(),
        final(br).data() == l.s,
        match r {
            Ok(v) => {
                &&& final(br).at() <= 8 * l.s.len()
                &&& sel_rows(v@, l, 10)
                &&& final(br).at() == l.adj_start()
            },
            Err(e) => e == Error::UnexpectedEof && l.adj_start() > 8 * l.s.len(),
        },
{
    let mut rows: Vec<Vec<u8>> = Vec::new();
    let mut n: usize = 0;
    while n < 10
        invariant
            br.wf(),
            br.data() == l.s,
            br.at() <= 8 * l.s.len(),
            br.at() == l.sel_start() + sel_bits_before(l.nch, n as nat, 0),
            nch == l.nch,
            nch > 0,
            n <= 10,
            rows@.len() == n,
            sel_rows(rows@, l, n as int),
        decreases 10 - n,
    {
        let width: u32 = sel_bit_width(n);
        proof {
            lemma_sel_row(l.nch, n as nat, l.nch);
            lemma_sel_monotone(l.nch, (n + 1) as nat, 10);
            assert(sel_bits_before(l.nch, (n + 1) as nat, 0) == sel_bits_before(
                l.nch,
                n as nat,
                l.nch,
            ));
        }
        let row: Vec<u8> = read_row(br, nch, width)?;
        proof {
            assert forall|ch: int| 0 <= ch < nch implies row@[ch] == #[trigger] l.sel(
                ch,
                n as int,
            ) by {
                lemma_sel_row(l.nch, n as nat, ch as nat);
                assert(row@[ch] == field(
                    l.s,
                    l.sel_start() + sel_bits_before(l.nch, n as nat, 0) + width * ch,
                    width as nat,
                ));
            }
        }
        rows.push(row);
        n = n + 1;
    }
    Ok(rows)
}

/// The adjustments of one index for all channels.
fn read_adj_row(
    br: &mut BitReader,
    nch: usize,
    n: usize,
    row: &Vec<u8>,
    Ghost(l): Ghost<AudioCodingLayout>,
) -> (r: Result<Vec<ScaleFactorAdjustment>, Error>)
    requires
        old(br).wf(),
        old(br).data() == l.s,
        old(br).at() <= 8 * l.s.len(),
        n < 10,
        old(br).at() == l.adj_start() + l.adj_bits_before(n as nat, 0),
        nch == l.nch,
        row@.len() == nch,
        forall|ch: int| 0 <= ch < nch ==> row@[ch] == #[trigger] l.sel(ch, n as int),
    ensures
        final(br).wf(),
        final(br).data() == l.s,
        match r {
            Ok(v) => {
                &&& final(br).at() <= 8 * l.s.len()
                &&& v@.len() == nch
                &&& forall|ch: int| 0 <= ch < nch ==> v@[ch] == #[trigger] l.adj(ch, n as int)
                &&& final(br).at() == l.adj_start() + l.adj_bits_before((n + 1) as nat, 0)
            },
            Err(e) => e == Error::UnexpectedEof && l.adj_start() + l.adj_bits_before(10, 0) > 8
                * l.s.len(),
        },
{
    let mut out: Vec<ScaleFactorAdjustment> = Vec::new();
    let mut ch: usize = 0;
    while ch < nch
        invariant
            br.wf(),
            br.data() == l.s,
            br.at() <= 8 * l.s.len(),
            n < 10,
            br.at() == l.adj_start() + l.adj_bits_before(n as nat, ch as nat),
            nch == l.nch,
            ch <= nch,
            row@.len() == nch,
            forall|i: int| 0 <= i < nch ==> row@[i] == #[trigger] l.sel(i, n as int),
            out@.len() == ch,
            forall|i: int| 0 <= i < ch ==> out@[i] == #[trigger] l.adj(i, n as int),
        decreases nch - ch,
    {
        proof {
            assert(row@[ch as int] == l.sel(ch as int, n as int));
            assert(l.adj_bits_before(n as nat, (ch + 1) as nat) == l.adj_bits_before(
                n as nat,
                ch as nat,
            ) + if adj_follows(n as int, l.sel(ch as int, n as int)) {
                2nat
            } else {
                0nat
            });
            lemma_adj_monotone(l, n as nat, (ch + 1) as nat);
        }
        if adj_transmitted(n, row[ch]) {
            proof {
                lemma_field_bound(
                    l.s,
                    l.adj_start() + l.adj_bits_before(n as nat, ch as nat),
                    2,
                );
                lemma2_to64();
            }
            let raw: u8 = br.read_bits(2)? as u8;
            out.push(ScaleFactorAdjustment::from_index(raw));
        } else {
            out.push(ScaleFactorAdjustment::Adj0);
        }
        assert(out@[ch as int] == l.adj(ch as int, n as int));
        ch = ch + 1;
    }
    Ok(out)
}

/// The adjustments of all channels, index by index.
fn read_adj(
    br: &mut BitReader,
    nch: usize,
    sel: &Vec<Vec<u8>>,
    Ghost(l): Ghost<AudioCodingLayout>,
) -> (r: Result<Vec<Vec<ScaleFactorAdjustment>>, Error>)
    requires
        old(br).wf(),
        old(br).data() == l.s,
        old(br).at() <= 8 * l.s.len(),
        old(br).at() == l.adj_start(),
        nch == l.nch,
        nch > 0,
        sel@.len() == 10,
        sel_rows(sel@, l, 10),
    ensures
        final(br).wf(),
        final(br).data() == l.s,
        match r {
            Ok(v) => {
                &&& final(br).at() <= 8 * l.s.len()
                &&& adj_rows(v@, l, 10)
                &&& final(br).at() == l.adj_start() + l.adj_bits_before(10, 0)
            },
            Err(e) => e == Error::UnexpectedEof && l.adj_start() + l.adj_bits_before(10, 0) > 8
                * l.s.len(),
        },
{
    let mut rows: Vec<Vec<ScaleFactorAdjustment>> = Vec::new();
    let mut n: usize = 0;
    while n < 10
        invariant
            br.wf(),
            br.data() == l.s,
            br.at() <= 8 * l.s.len(),
            br.at() == l.adj_start() + l.adj_bits_before(n as nat, 0),
            nch == l.nch,
            nch > 0,
            n <= 10,
            sel@.len() == 10,
            sel_rows(sel@, l, 10),
            rows@.len() == n,
            adj_rows(rows@, l, n as int),
        decreases 10 - n,
    {
        proof {
            assert(sel_row(sel@[n as int], l, n as int));
        }
        let row: Vec<ScaleFactorAdjustment> = read_adj_row(br, nch, n, &sel[n], Ghost(l))?;
        rows.push(row);
        n = n + 1;
    }
    Ok(rows)
}

/// The bounds and code books of all channels.
fn resolve_params(
    n_subs: &Vec<usize>,
    n_vqsub: &Vec<usize>,
    thuff: &Vec<u8>,
    shuff: &Vec<u8>,
    bhuff: &Vec<u8>,
    Ghost(l): Ghost<AudioCodingLayout>,
) -> (r: Result<Vec<ChannelSideInfoParams>, Error>)
    requires
        n_subs@.len() == l.nch,
        n_vqsub@.len() == l.nch,
        thuff@.len() == l.nch,
        shuff@.len() == l.nch,
        bhuff@.len() == l.nch,
        forall|ch: int| 0 <= ch < l.nch ==> n_subs@[ch] == #[trigger] l.n_subs(ch),
        forall|ch: int| 0 <= ch < l.nch ==> n_vqsub@[ch] == #[trigger] l.n_vqsub(ch),
        forall|ch: int| 0 <= ch < l.nch ==> thuff@[ch] == #[trigger] l.thuff(ch),
        forall|ch: int| 0 <= ch < l.nch ==> shuff@[ch] == #[trigger] l.shuff(ch),
        forall|ch: int| 0 <= ch < l.nch ==> bhuff@[ch] == #[trigger] l.bhuff(ch),
    ensures
        match r {
            Ok(v) => {
                &&& l.book_error(0) is None
                &&& v@.len() == l.nch
                &&& forall|ch: int| 0 <= ch < l.nch ==> v@[ch] == #[trigger] l.params(ch)
            },
            Err(e) => l.book_error(0) == Some(e),
        },
{
    let mut out: Vec<ChannelSideInfoParams> = Vec::new();
    let mut ch: usize = 0;
    while ch < n_subs.len()
        invariant
            n_subs@.len() == l.nch,
            n_vqsub@.len() == l.nch,
            thuff@.len() == l.nch,
            shuff@.len() == l.nch,
            bhuff@.len() == l.nch,
            forall|i: int| 0 <= i < l.nch ==> n_subs@[i] == #[trigger] l.n_subs(i),
            forall|i: int| 0 <= i < l.nch ==> n_vqsub@[i] == #[trigger] l.n_vqsub(i),
            forall|i: int| 0 <= i < l.nch ==> thuff@[i] == #[trigger] l.thuff(i),
            forall|i: int| 0 <= i < l.nch ==> shuff@[i] == #[trigger] l.shuff(i),
            forall|i: int| 0 <= i < l.nch ==> bhuff@[i] == #[trigger] l.bhuff(i),
            ch <= l.nch,
            l.book_error(0) == l.book_error(ch as nat),
            out@.len() == ch,
            forall|i: int| 0 <= i < ch ==> out@[i] == #[trigger] l.params(i),
        decreases n_subs@.len() - ch,
    {
        proof {
            let c: int = ch as int;
            lemma_field_bound(l.s, l.off + 7 + 13 * l.nch + 2 * c, 2);
            lemma_field_bound(l.s, l.off + 7 + 15 * l.nch + 3 * c, 3);
            lemma_field_bound(l.s, l.off + 7 + 18 * l.nch + 3 * c, 3);
            lemma2_to64();
            assert(n_subs@[c] == l.n_subs(c));
            assert(n_vqsub@[c] == l.n_vqsub(c));
            assert(thuff@[c] == l.thuff(c));
            assert(shuff@[c] == l.shuff(c));
            assert(bhuff@[c] == l.bhuff(c));
        }
        let abits_codebook = AbitsCodebook::from_bhuff(bhuff[ch])?;
        let tmode_codebook = TmodeCodebook::from_thuff(thuff[ch]);
        let scales_codebook = ScalesCodebook::from_shuff(shuff[ch])?;
        out.push(
            ChannelSideInfoParams {
                n_subs: n_subs[ch],
                n_vqsub: n_vqsub[ch],
                abits_codebook,
                tmode_codebook,
                scales_codebook,
            },
        );
        assert(out@[ch as int] == l.params(ch as int));
        ch = ch + 1;
    }
    Ok(out)
}

/// The selectors of all channels, channel by channel.
fn sel_planes(rows: &Vec<Vec<u8>>, nch: usize, Ghost(l): Ghost<AudioCodingLayout>) -> (r: Vec<
    [u8; 26],
>)
    requires
        nch == l.nch,
        sel_rows(rows@, l, 10),
    ensures
        r@.map_values(|p: [u8; 26]| p@) == l.contents().sel,
{
    let mut out: Vec<[u8; 26]> = Vec::new();
    let mut ch: usize = 0;
    while ch < nch
        invariant
            nch == l.nch,
            sel_rows(rows@, l, 10),
            ch <= nch,
            out@.len() == ch,
            forall|i: int| 0 <= i < ch ==> (#[trigger] out@[i])@ == l.contents().sel[i],
        decreases nch - ch,
    {
        let mut plane: [u8; 26] = [0;26];
        let mut n: usize = 0;
        while n < 10
            invariant
                nch == l.nch,
                sel_rows(rows@, l, 10),
                ch < nch,
                n <= 10,
                forall|i: int| 0 <= i < n ==> plane@[i] == l.sel(ch as int, i),
                forall|i: int| n <= i < 26 ==> plane@[i] == 0,
            decreases 10 - n,
        {
            assert(sel_row(rows@[n as int], l, n as int));
            assert(rows@[n as int]@[ch as int] == l.sel(ch as int, n as int));
            plane[n] = rows[n][ch];
            n = n + 1;
        }
        assert(plane@ =~= l.contents().sel[ch as int]);
        out.push(plane);
        ch = ch + 1;
    }
    assert(out@.map_values(|p: [u8; 26]| p@) =~= l.contents().sel);
    out
}

/// The adjustments of all channels, channel by channel.
fn adj_planes(
    rows: &Vec<Vec<ScaleFactorAdjustment>>,
    nch: usize,
    Ghost(l): Ghost<AudioCodingLayout>,
) -> (r: Vec<[ScaleFactorAdjustment; 26]>)
    requires
        nch == l.nch,
        adj_rows(rows@, l, 10),
    ensures
        r@.map_values(|p: [ScaleFactorAdjustment; 26]| p@) == l.contents().adj,
{
    let mut out: Vec<[ScaleFactorAdjustment; 26]> = Vec::new();
    let mut ch: usize = 0;
    while ch < nch
        invariant
            nch == l.nch,
            adj_rows(rows@, l, 10),
            ch <= nch,
            out@.len() == ch,
            forall|i: int| 0 <= i < ch ==> (#[trigger] out@[i])@ == l.contents().adj[i],
        decreases nch - ch,
    {
        let mut plane: [ScaleFactorAdjustment; 26] = [ScaleFactorAdjustment::Adj0;26];
        let mut n: usize = 0;
        while n < 10
            invariant
                nch == l.nch,
                adj_rows(rows@, l, 10),
                ch < nch,
                n <= 10,
                forall|i: int| 0 <= i < n ==> plane@[i] == l.adj(ch as int, i),
                forall|i: int| n <= i < 26 ==> plane@[i] == ScaleFactorAdjustment::Adj0,
            decreases 10 - n,
        {
            assert(adj_row(rows@[n as int], l, n as int));
            assert(rows@[n as int]@[ch as int] == l.adj(ch as int, n as int));
            plane[n] = rows[n][ch];
            n = n + 1;
        }
        assert(plane@ =~= l.contents().adj[ch as int]);
        out.push(plane);
        ch = ch + 1;
    }
    assert(out@.map_values(|p: [ScaleFactorAdjustment; 26]| p@) =~= l.contents().adj);
    out
}

/// Reads the audio coding header at `bit_offset` and gives it with its length
/// in bits. `cpf` says whether a check word ends it.
pub fn decode_audio_coding_header_at(bytes: &[u8], bit_offset: usize, cpf: bool) -> (r: Result<
    (AudioCodingHeader, usize),
    Error,
>)
    requires
        8 * bytes@.len() <= usize::MAX,
    ensures
        match r {
            Ok((header, bits)) => audio_coding_header(bytes@, bit_offset as int, cpf) == Ok::<
                (AudioCodingView, nat),
                Error,
            >((header@, bits as nat)),
            Err(e) => audio_coding_header(bytes@, bit_offset as int, cpf) == Err::<
                (AudioCodingView, nat),
                Error,
            >(e),
        },
{
    let ghost l: AudioCodingLayout = layout_at(bytes@, bit_offset as int);
    let mut br = BitReader::from_bit_offset(bytes, bit_offset);
    proof {
        lemma2_to64();
        lemma_field_bound(bytes@, bit_offset as int, 4);
        lemma_field_bound(bytes@, bit_offset + 4, 3);
        lemma_end_grows(l);
    }
    let n_subframes: usize = br.read_bits(4)? as usize + 1;
    let n_pchs: usize = br.read_bits(3)? as usize + 1;
    if n_pchs > MAX_PRIMARY_CHANNELS {
        return Err(Error::InvalidSideInfo { field: "nPCHS", value: n_pchs as u32 });
    }
    let n_subs: Vec<usize> = read_subs(&mut br, n_pchs, Ghost(l))?;
    let n_vqsub: Vec<usize> = read_vqsub(&mut br, n_pchs, &n_subs, Ghost(l))?;
    let joinx: Vec<u8> = read_row(&mut br, n_pchs, 3)?;
    let thuff: Vec<u8> = read_row(&mut br, n_pchs, 2)?;
    let shuff: Vec<u8> = read_row(&mut br, n_pchs, 3)?;
    let bhuff: Vec<u8> = read_row(&mut br, n_pchs, 3)?;
    let sel_by_index: Vec<Vec<u8>> = read_sel(&mut br, n_pchs, Ghost(l))?;
    let adj_by_index: Vec<Vec<ScaleFactorAdjustment>> = read_adj(
        &mut br,
        n_pchs,
        &sel_by_index,
        Ghost(l),
    )?;
    if cpf {
        br.read_bits(16)?;
    }
    let channel_params: Vec<ChannelSideInfoParams> = resolve_params(
        &n_subs,
        &n_vqsub,
        &thuff,
        &shuff,
        &bhuff,
        Ghost(l),
    )?;
    let bits_consumed: usize = br.absolute_bit_position() - bit_offset;
    let header = AudioCodingHeader {
        n_subframes,
        n_pchs,
        joinx,
        channel_params,
        sel: sel_planes(&sel_by_index, n_pchs, Ghost(l)),
        adj: adj_planes(&adj_by_index, n_pchs, Ghost(l)),
    };
    assert(header@ =~= l.contents());
    Ok((header, bits_consumed))
}

/// The parts of the header stand one behind the other.
proof fn lemma_end_grows(l: AudioCodingLayout)
    ensures
        l.sel_start() <= l.adj_start(),
        l.adj_start() <= l.end(false),
        l.end(true) == l.end(false) + 16,
{
}

/// From bit `pa` of `a` and from bit `pb` of `b` on, the same bits stand.
pub open spec fn same_bits(a: Seq<u8>, pa: int, b: Seq<u8>, pb: int) -> bool {
    &&& 0 <= pa && 0 <= pb
    &&& 8 * a.len() - pa == 8 * b.len() - pb
    &&& forall|k: int| 0 <= k < 8 * a.len() - pa ==> #[trigger] bit(a, pa + k) == bit(b, pb + k)
}

proof fn lemma_same_field(a: Seq<u8>, pa: int, b: Seq<u8>, pb: int, pos: int, w: nat)
    requires
        same_bits(a, pa, b, pb),
        0 <= pos,
        pos + w <= 8 * a.len() - pa,
    ensures
        field(a, pa + pos, w) == field(b, pb + pos, w),
{
    assert forall|k: int| 0 <= k < w implies #[trigger] bit(a, (pa + pos) + k) == bit(
        b,
        (pb + pos) + k,
    ) by {
        assert(bit(a, pa + (pos + k)) == bit(b, pb + (pos + k)));
        assert(pa + (pos + k) == (pa + pos) + k && pb + (pos + k) == (pb + pos) + k);
    }
    lemma_field_ext(a, pa + pos, b, pb + pos, w);
}

/// Two layouts over the same bits.
spec fn same_layout(x: AudioCodingLayout, y: AudioCodingLayout) -> bool {
    same_bits(x.s, x.off, y.s, y.off) && x.nch == y.nch
}

proof fn lemma_same_subs(x: AudioCodingLayout, y: AudioCodingLayout, ch: nat)
    requires
        same_layout(x, y),
        ch <= x.nch,
    ensures
        x.subs_error(ch) == y.subs_error(ch),
        x.subs_error(ch) is None ==> forall|i: int|
            ch <= i < x.nch ==> #[trigger] x.n_subs(i) == y.n_subs(i),
    decreases x.nch - ch,
{
    if ch < x.nch && x.off + 7 + 5 * (ch + 1) <= 8 * x.s.len() {
        lemma_same_field(x.s, x.off, y.s, y.off, 7 + 5 * ch as int, 5);
        assert(x.n_subs(ch as int) == y.n_subs(ch as int));
        lemma_same_subs(x, y, ch + 1);
    }
}

proof fn lemma_same_vqsub(x: AudioCodingLayout, y: AudioCodingLayout, ch: nat)
    requires
        same_layout(x, y),
        ch <= x.nch,
        forall|i: int| 0 <= i < x.nch ==> #[trigger] x.n_subs(i) == y.n_subs(i),
    ensures
        x.vqsub_error(ch) == y.vqsub_error(ch),
        x.vqsub_error(ch) is None ==> forall|i: int|
            ch <= i < x.nch ==> #[trigger] x.n_vqsub(i) == y.n_vqsub(i),
    decreases x.nch - ch,
{
    if ch < x.nch && x.off + 7 + 5 * x.nch + 5 * (ch + 1) <= 8 * x.s.len() {
        lemma_same_field(x.s, x.off, y.s, y.off, 7 + 5 * x.nch + 5 * ch as int, 5);
        assert(x.n_vqsub(ch as int) == y.n_vqsub(ch as int));
        assert(x.n_subs(ch as int) == y.n_subs(ch as int));
        lemma_same_vqsub(x, y, ch + 1);
    }
}

proof fn lemma_same_sel(x: AudioCodingLayout, y: AudioCodingLayout, ch: int, n: int)
    requires
        same_layout(x, y),
        0 <= ch < x.nch,
        0 <= n < 10,
        x.adj_start() <= 8 * x.s.len(),
    ensures
        x.sel(ch, n) == y.sel(ch, n),
{
    let before: nat = sel_bits_before(x.nch, n as nat, ch as nat);
    lemma_sel_row(x.nch, n as nat, (ch + 1) as nat);
    lemma_sel_row(x.nch, n as nat, x.nch);
    lemma_sel_monotone(x.nch, (n + 1) as nat, 10);
    assert(sel_width(n) * (ch + 1) <= sel_width(n) * x.nch) by (nonlinear_arith)
        requires
            ch + 1 <= x.nch,
    ;
    assert(sel_bits_before(x.nch, (n + 1) as nat, 0) == sel_bits_before(x.nch, n as nat, x.nch));
    assert(sel_bits_before(x.nch, n as nat, (ch + 1) as nat) == before + sel_width(n));
    lemma_same_field(x.s, x.off, y.s, y.off, 7 + 21 * x.nch + before as int, sel_width(n));
    assert(x.sel_start() + before == x.off + (7 + 21 * x.nch + before));
    assert(y.sel_start() + before == y.off + (7 + 21 * x.nch + before));
}

proof fn lemma_same_adj_bits(x: AudioCodingLayout, y: AudioCodingLayout, n: nat, ch: nat)
    requires
        same_layout(x, y),
        x.adj_start() <= 8 * x.s.len(),
        n < 10 && ch <= x.nch || n == 10 && ch == 0,
    ensures
        x.adj_bits_before(n, ch) == y.adj_bits_before(n, ch),
    decreases n, ch,
{
    if ch > 0 {
        lemma_same_sel(x, y, ch - 1, n as int);
        lemma_same_adj_bits(x, y, n, (ch - 1) as nat);
    } else if n > 0 {
        lemma_same_adj_bits(x, y, (n - 1) as nat, x.nch);
    }
}

proof fn lemma_same_adj(x: AudioCodingLayout, y: AudioCodingLayout, ch: int, n: int)
    requires
        same_layout(x, y),
        0 <= ch < x.nch,
        0 <= n < 10,
        x.end(false) <= 8 * x.s.len(),
    ensures
        x.adj(ch, n) == y.adj(ch, n),
{
    let before: nat = x.adj_bits_before(n as nat, ch as nat);
    let start: int = 7 + 21 * x.nch + sel_bits_before(x.nch, 10, 0) as int;
    lemma_same_sel(x, y, ch, n);
    lemma_same_adj_bits(x, y, n as nat, ch as nat);
    lemma_adj_monotone(x, n as nat, (ch + 1) as nat);
    if adj_follows(n, x.sel(ch, n)) {
        assert(x.adj_bits_before(n as nat, (ch + 1) as nat) == before + 2);
        lemma_same_field(x.s, x.off, y.s, y.off, start + before, 2);
        assert(x.adj_start() + before == x.off + (start + before));
        assert(y.adj_start() + before == y.off + (start + before));
    }
}

proof fn lemma_same_rows(x: AudioCodingLayout, y: AudioCodingLayout)
    requires
        same_layout(x, y),
        x.sel_start() <= 8 * x.s.len(),
    ensures
        forall|ch: int| 0 <= ch < x.nch ==> #[trigger] x.joinx(ch) == y.joinx(ch),
        forall|ch: int| 0 <= ch < x.nch ==> #[trigger] x.thuff(ch) == y.thuff(ch),
        forall|ch: int| 0 <= ch < x.nch ==> #[trigger] x.shuff(ch) == y.shuff(ch),
        forall|ch: int| 0 <= ch < x.nch ==> #[trigger] x.bhuff(ch) == y.bhuff(ch),
{
    assert forall|ch: int| 0 <= ch < x.nch implies #[trigger] x.joinx(ch) == y.joinx(ch) by {
        lemma_same_field(x.s, x.off, y.s, y.off, 7 + 10 * x.nch + 3 * ch, 3);
    }
    assert forall|ch: int| 0 <= ch < x.nch implies #[trigger] x.thuff(ch) == y.thuff(ch) by {
        lemma_same_field(x.s, x.off, y.s, y.off, 7 + 13 * x.nch + 2 * ch, 2);
    }
    assert forall|ch: int| 0 <= ch < x.nch implies #[trigger] x.shuff(ch) == y.shuff(ch) by {
        lemma_same_field(x.s, x.off, y.s, y.off, 7 + 15 * x.nch + 3 * ch, 3);
    }
    assert forall|ch: int| 0 <= ch < x.nch implies #[trigger] x.bhuff(ch) == y.bhuff(ch) by {
        lemma_same_field(x.s, x.off, y.s, y.off, 7 + 18 * x.nch + 3 * ch, 3);
    }
}

proof fn lemma_same_books(x: AudioCodingLayout, y: AudioCodingLayout, ch: nat)
    requires
        x.nch == y.nch,
        ch <= x.nch,
        forall|i: int| 0 <= i < x.nch ==> #[trigger] x.shuff(i) == y.shuff(i),
        forall|i: int| 0 <= i < x.nch ==> #[trigger] x.bhuff(i) == y.bhuff(i),
    ensures
        x.book_error(ch) == y.book_error(ch),
    decreases x.nch - ch,
{
    if ch < x.nch {
        assert(x.bhuff(ch as int) == y.bhuff(ch as int));
        assert(x.shuff(ch as int) == y.shuff(ch as int));
        lemma_same_books(x, y, ch + 1);
    }
}

/// The bit position of a header does not matter: the same bits at another
/// offset of another byte string read as the same header of the same length,
/// or fail in the same way.
pub proof fn law_bit_offset_does_not_matter(
    a: Seq<u8>,
    pa: int,
    b: Seq<u8>,
    pb: int,
    cpf: bool,
)
    requires
        same_bits(a, pa, b, pb),
    ensures
        audio_coding_header(a, pa, cpf) == audio_coding_header(b, pb, cpf),
{
    let x: AudioCodingLayout = layout_at(a, pa);
    let y: AudioCodingLayout = layout_at(b, pb);
    if pa + 7 <= 8 * a.len() {
        lemma_same_field(a, pa, b, pb, 0, 4);
        lemma_same_field(a, pa, b, pb, 4, 3);
        lemma_same_subs(x, y, 0);
        if x.nch <= 5 && x.subs_error(0) is None {
            lemma_same_vqsub(x, y, 0);
            lemma_end_grows(x);
            lemma_end_grows(y);
            assert(x.adj_start() - x.off == y.adj_start() - y.off);
            if x.vqsub_error(0) is None && x.adj_start() <= 8 * a.len() {
                lemma_same_adj_bits(x, y, 10, 0);
                lemma_same_rows(x, y);
                lemma_same_books(x, y, 0);
                if x.end(cpf) <= 8 * a.len() {
                    assert forall|ch: int| 0 <= ch < x.nch implies x.contents().sel[ch]
                        == y.contents().sel[ch] by {
                        assert forall|n: int| 0 <= n < 10 implies x.sel(ch, n) == y.sel(
                            ch,
                            n,
                        ) by {
                            lemma_same_sel(x, y, ch, n);
                        }
                        assert(x.contents().sel[ch] =~= y.contents().sel[ch]);
                    }
                    assert forall|ch: int| 0 <= ch < x.nch implies x.contents().adj[ch]
                        == y.contents().adj[ch] by {
                        assert forall|n: int| 0 <= n < 10 implies x.adj(ch, n) == y.adj(
                            ch,
                            n,
                        ) by {
                            lemma_same_adj(x, y, ch, n);
                        }
                        assert(x.contents().adj[ch] =~= y.contents().adj[ch]);
                    }
                    assert(x.contents().joinx =~= y.contents().joinx);
                    assert(x.contents().channel_params =~= y.contents().channel_params);
                    assert(x.contents().sel =~= y.contents().sel);
                    assert(x.contents().adj =~= y.contents().adj);
                    assert(x.contents() =~= y.contents());
                }
            }
        }
    }
}

/// A header that was read has one to five channels with one entry each, and the
/// vector-quantized subbands of a channel start inside its subbands, of which
/// there are at most 32.
pub proof fn law_read_header_is_consistent(s: Seq<u8>, off: int, cpf: bool, ch: int)
    requires
        0 <= off,
        0 <= ch,
    ensures
        audio_coding_header(s, off, cpf) matches Ok((header, bits)) ==> {
            &&& 1 <= header.n_subframes <= 16
            &&& 1 <= header.n_pchs <= 5
            &&& header.joinx.len() == header.n_pchs
            &&& header.channel_params.len() == header.n_pchs
            &&& header.sel.len() == header.n_pchs
            &&& header.adj.len() == header.n_pchs
            &&& ch < header.n_pchs ==> header.joinx[ch] < 8 && 1
                <= header.channel_params[ch].n_vqsub <= header.channel_params[ch].n_subs <= 32
        },
{
    let l: AudioCodingLayout = layout_at(s, off);
    lemma2_to64();
    lemma_field_bound(s, off, 4);
    lemma_field_bound(s, off + 4, 3);
    if l.nch <= 5 && ch < l.nch {
        lemma_field_bound(s, off + 7 + 10 * l.nch + 3 * ch, 3);
        if l.subs_error(0) is None && l.vqsub_error(0) is None {
            lemma_bounds_hold(l, 0, ch);
        }
    }
}

/// A channel behind which no error was found has its bounds in range.
proof fn lemma_bounds_hold(l: AudioCodingLayout, from: nat, ch: int)
    requires
        from <= ch < l.nch,
        l.subs_error(from) is None,
        l.vqsub_error(from) is None,
    ensures
        l.n_subs(ch) <= 32,
        l.n_vqsub(ch) <= l.n_subs(ch),
    decreases l.nch - from,
{
    if from < ch {
        lemma_bounds_hold(l, from + 1, ch);
    }
}

} // verus!
