//! The decoder of frames: the way through the subframes of a frame, and what
//! the frame amounts to.

use crate::audio_header::{
    audio_coding_header, decode_audio_coding_header_at, law_read_header_is_consistent,
    AudioCodingHeader,
};
use crate::decoder::{subframe_decoded, Carried, SubframeInput, SubframePcmDecoder};
use crate::error::Error;
use crate::gain::{gain_block, scale_windows};
use crate::header::{DtsFrameHeader, FrameType};
use crate::lfe_interp::LfeInterpolationSelection;
use crate::rev2_aux::{
    last_rev2_candidate, parse_rev2_aux, rev2_aux_at, rev2_candidate, Rev2AuxView,
    REV2_DRC_VERSION_SINGLE_BAND,
};
use crate::subframe::{ChannelSideInfo, SideInfoTail, SubframeSideInfo, VqCodebooks};
use crate::subframe_pcm::{
    subframe_rows, within_bounds, CoreFrameDecodeError, SubframePcm, SubframePcmError,
    SubframePlan,
};
use crate::workers::{
    AudioJob, AudioReply, FrameBehaviour, FrameWorkers, IndexReply, LowReply, SideReply,
    SubframeBehaviour, SubframeWorkers, SynthesisReply, TailReply,
};
use vstd::prelude::*;
use vstd::slice::slice_subrange;

verus! {

/// Planes as sequences.
pub open spec fn planes(pcm: Seq<Vec<i32>>) -> Seq<Seq<i32>> {
    Seq::new(pcm.len(), |ch: int| pcm[ch]@)
}

/// `pcm` with the planes of `block` behind its own.
pub open spec fn joined(pcm: Seq<Seq<i32>>, block: Seq<Seq<i32>>) -> Seq<Seq<i32>> {
    Seq::new(pcm.len(), |ch: int| pcm[ch] + block[ch])
}

/// Puts the samples of `more` behind those of `out`.
fn append_samples(out: &mut Vec<i32>, more: &Vec<i32>)
    ensures
        final(out)@ == old(out)@ + more@,
{
    let ghost before: Seq<i32> = out@;
    let mut i: usize = 0;
    while i < more.len()
        invariant
            i <= more@.len(),
            out@ == before + more@.subrange(0, i as int),
        decreases more@.len() - i,
    {
        out.push(more[i]);
        i = i + 1;
        assert(out@ =~= before + more@.subrange(0, i as int));
    }
    assert(more@.subrange(0, i as int) =~= more@);
}

/// Puts the planes of `block` behind those of `pcm`.
pub fn append_block(pcm: &mut Vec<Vec<i32>>, block: Vec<Vec<i32>>)
    requires
        block@.len() == old(pcm)@.len(),
    ensures
        final(pcm)@.len() == old(pcm)@.len(),
        planes(final(pcm)@) == joined(planes(old(pcm)@), planes(block@)),
{
    let ghost before: Seq<Vec<i32>> = pcm@;
    let ghost added: Seq<Vec<i32>> = block@;
    let mut rest: Vec<Vec<i32>> = block;
    let mut ch: usize = 0;
    while ch < pcm.len()
        invariant
            before == old(pcm)@,
            added.len() == before.len(),
            pcm@.len() == before.len(),
            rest@.len() == before.len(),
            ch <= pcm@.len(),
            forall|c: int| 0 <= c < ch ==> (#[trigger] pcm@[c])@ == before[c]@ + added[c]@,
            forall|c: int| ch <= c < before.len() ==> #[trigger] pcm@[c] == before[c],
            forall|c: int| ch <= c < before.len() ==> #[trigger] rest@[c] == added[c],
        decreases pcm@.len() - ch,
    {
        let mut i: usize = 0;
        while i < rest[ch].len()
            invariant
                added.len() == before.len(),
                pcm@.len() == before.len(),
                rest@.len() == before.len(),
                ch < pcm@.len(),
                rest@[ch as int] == added[ch as int],
                i <= rest@[ch as int]@.len(),
                pcm@[ch as int]@ == before[ch as int]@ + added[ch as int]@.subrange(0, i as int),
                forall|c: int| 0 <= c < ch ==> (#[trigger] pcm@[c])@ == before[c]@ + added[c]@,
                forall|c: int| ch < c < before.len() ==> #[trigger] pcm@[c] == before[c],
            decreases rest@[ch as int]@.len() - i,
        {
            let v: i32 = rest[ch][i];
            pcm[ch].push(v);
            i = i + 1;
            assert(pcm@[ch as int]@ =~= before[ch as int]@ + added[ch as int]@.subrange(
                0,
                i as int,
            ));
        }
        assert(added[ch as int]@.subrange(0, i as int) =~= added[ch as int]@);
        ch = ch + 1;
    }
    assert(planes(pcm@) =~= joined(planes(before), planes(added)));
}

/// The samples of blocks one behind the other, for `channels` channels.
pub open spec fn samples_of(channels: nat, blocks: Seq<SubframePcm>) -> Seq<Seq<i32>>
    decreases blocks.len(),
{
    if blocks.len() == 0 {
        Seq::new(channels, |ch: int| Seq::<i32>::empty())
    } else {
        joined(samples_of(channels, blocks.drop_last()), planes(blocks.last()@))
    }
}

/// Runs of samples one behind the other.
pub open spec fn concatenated(runs: Seq<Seq<i32>>) -> Seq<i32>
    decreases runs.len(),
{
    if runs.len() == 0 {
        Seq::empty()
    } else {
        concatenated(runs.drop_last()) + runs.last()
    }
}

/// `channels` empty planes.
fn empty_planes(channels: usize) -> (r: Vec<Vec<i32>>)
    ensures
        r@.len() == channels,
        planes(r@) == Seq::new(channels as nat, |ch: int| Seq::<i32>::empty()),
{
    let mut out: Vec<Vec<i32>> = Vec::new();
    while out.len() < channels
        invariant
            out@.len() <= channels,
            forall|c: int| 0 <= c < out@.len() ==> (#[trigger] out@[c])@ == Seq::<i32>::empty(),
        decreases channels - out@.len(),
    {
        out.push(Vec::new());
    }
    assert(planes(out@) =~= Seq::new(channels as nat, |ch: int| Seq::<i32>::empty()));
    out
}

/// The gain codes of a chunk that take the place of those in the subframes: its
/// check word fits and it has codes of the known version.
pub open spec fn override_of(chunk: Rev2AuxView) -> Option<Seq<u8>> {
    match chunk.drc {
        Some((version, codes)) => if chunk.crc_valid && version == REV2_DRC_VERSION_SINGLE_BAND
            && codes.len() > 0 {
            Some(codes)
        } else {
            None
        },
        None => None,
    }
}

/// The gain codes that take the place of those in the subframes are `codes`.
pub open spec fn override_codes(s: Seq<u8>, blocks_per_frame: u8, codes: Option<Seq<u8>>) -> bool {
    match codes {
        Some(c) => exists|i: int| #[trigger]
            last_rev2_candidate(s, i) && (rev2_aux_at(s, i, blocks_per_frame) matches Ok(chunk)
                && override_of(chunk) == Some(c)),
        None => forall|i: int| #[trigger]
            last_rev2_candidate(s, i) ==> (rev2_aux_at(s, i, blocks_per_frame) matches Ok(chunk)
                ==> override_of(chunk) is None),
    }
}

/// Gain codes as a sequence.
pub open spec fn codes_of(codes: Option<Vec<u8>>) -> Option<Seq<u8>> {
    match codes {
        Some(codes) => Some(codes@),
        None => None,
    }
}

/// The gain codes that take the place of those in the subframes, where the
/// frame has any.
pub fn find_override_codes(frame: &[u8], header: &DtsFrameHeader) -> (r: Option<Vec<u8>>)
    requires
        8 * frame@.len() <= usize::MAX,
    ensures
        override_codes(frame@, header.blocks_per_frame, codes_of(r)),
{
    match parse_rev2_aux(frame, header) {
        Ok(Some(chunk)) => {
            assert(last_rev2_candidate(frame@, chunk@.offset));
            proof {
                lemma_last_is_unique(frame@, chunk@.offset);
            }
            if !chunk.crc_valid {
                return None;
            }
            match chunk.drc {
                Some(drc) => {
                    if drc.version == REV2_DRC_VERSION_SINGLE_BAND && drc.codes.len() > 0 {
                        assert(override_of(chunk@) == Some(drc.codes@));
                        Some(drc.codes)
                    } else {
                        None
                    }
                },
                None => None,
            }
        },
        Ok(None) => None,
        Err(e) => {
            proof {
                let i: int = choose|i: int| #[trigger]
                    last_rev2_candidate(frame@, i) && rev2_aux_at(
                        frame@,
                        i,
                        header.blocks_per_frame,
                    ) == Err::<Rev2AuxView, Error>(e);
                lemma_last_is_unique(frame@, i);
            }
            None
        },
    }
}

/// There is one outcome of the search for gain codes.
pub proof fn lemma_override_codes_unique(
    s: Seq<u8>,
    blocks_per_frame: u8,
    a: Option<Seq<u8>>,
    b: Option<Seq<u8>>,
)
    requires
        override_codes(s, blocks_per_frame, a),
        override_codes(s, blocks_per_frame, b),
    ensures
        a == b,
{
    if exists|i: int| #[trigger] last_rev2_candidate(s, i) {
        let i: int = choose|i: int| #[trigger] last_rev2_candidate(s, i);
        lemma_last_is_unique(s, i);
    }
}

/// There is one last place for a chunk.
proof fn lemma_last_is_unique(s: Seq<u8>, i: int)
    requires
        last_rev2_candidate(s, i),
    ensures
        forall|j: int| #[trigger] last_rev2_candidate(s, j) ==> j == i,
{
    assert forall|j: int| #[trigger] last_rev2_candidate(s, j) implies j == i by {
        assert(rev2_candidate(s, i) && rev2_candidate(s, j));
    }
}

/// The part of `bytes` that the frame takes.
pub open spec fn frame_bytes(s: Seq<u8>, header: DtsFrameHeader) -> Seq<u8> {
    if s.len() <= header.frame_size_bytes {
        s
    } else {
        s.subrange(0, header.frame_size_bytes as int)
    }
}

/// Why the walk through a frame cannot begin.
pub open spec fn begin_error(channels: usize, s: Seq<u8>, header: DtsFrameHeader) -> Option<
    CoreFrameDecodeError,
> {
    match audio_coding_header(s, 8 * header.byte_length() as int, header.crc_present) {
        Err(e) => Some(CoreFrameDecodeError::Bitstream(e)),
        Ok((coding, bits)) => if coding.n_pchs != channels {
            Some(
                CoreFrameDecodeError::Decode(
                    SubframePcmError::ChannelCountMismatch {
                        expected: channels,
                        got: coding.n_pchs as usize,
                    },
                ),
            )
        } else {
            None
        },
    }
}

/// The inputs of one subframe of a frame whose side information is at hand.
#[derive(Debug, Clone, Copy)]
pub struct Subframe<'a> {
    /// The side information of each channel.
    pub side: &'a [ChannelSideInfo],
    /// The number of subsubframes.
    pub n_ssc: usize,
    /// The bits between the audio part of this subframe and that of the next one.
    pub side_info_bits: usize,
}

/// A subframe of a frame that has been decoded.
pub struct DecodedSubframe<S> {
    /// The first bit of its audio part.
    pub at: usize,
    /// What was carried into it.
    pub before: Carried<S>,
    /// Its samples.
    pub block: SubframePcm,
    /// The bits of its audio part.
    pub bits: usize,
    /// What is carried out of it.
    pub after: Carried<S>,
}

/// A frame whose side information is at hand.
pub struct PreparedFrame<'a> {
    /// The bytes of the frame.
    pub bytes: &'a [u8],
    /// The first bit of the audio part of the first subframe.
    pub first: usize,
    /// The header of the frame.
    pub header: DtsFrameHeader,
    /// The audio coding header of the frame.
    pub coding: AudioCodingHeader,
    /// The subframes.
    pub subframes: Seq<Subframe<'a>>,
    /// Whether a check word follows every subsubframe.
    pub aspf: bool,
}

impl<'a> PreparedFrame<'a> {
    /// The bytes can be counted by bits, and so can the bits between the audio parts.
    /// A subframe for a decoder of so many channels has its bounds and fits in memory.
    pub open spec fn wf(self, channels: usize, books: VqCodebooks) -> bool {
        &&& 8 * self.bytes@.len() <= usize::MAX
        &&& forall|k: int|
            0 <= k < self.subframes.len() && (#[trigger] self.subframes[k]).side@.len() == channels
                && self.coding.n_pchs == channels ==> within_bounds(self.coding, books)
                && self.subframes[k].n_ssc * 256 <= usize::MAX
        &&& forall|k: int|
            0 <= k < self.subframes.len() - 1 ==> 8 * self.bytes@.len() + (
            #[trigger] self.subframes[k]).side_info_bits <= usize::MAX
    }

    /// Subframe `k` with its audio part at bit `at`.
    pub open spec fn input<T>(self, k: int, at: usize) -> SubframeInput<'a, T> {
        SubframeInput {
            bytes: self.bytes,
            bit: at,
            header: self.header,
            coding: self.coding,
            side: self.subframes[k].side,
            n_ssc: self.subframes[k].n_ssc,
            psc: 0,
            aspf: self.aspf,
            scales: Seq::<Vec<T>>::empty(),
        }
    }

    /// The first bit behind the decoded subframes: the audio part of the next one,
    /// or the end of the last one.
    pub open spec fn next_bit<S>(self, done: Seq<DecodedSubframe<S>>) -> int {
        if done.len() == 0 {
            self.first as int
        } else {
            done.last().at + done.last().bits + (if done.len() < self.subframes.len() {
                self.subframes[done.len() - 1].side_info_bits as int
            } else {
                0
            })
        }
    }

    /// The subframes of `done` have been decoded one after the other.
    pub open spec fn decoded<S, T>(
        self,
        b: SubframeBehaviour<'_, S, T>,
        channels: usize,
        books: VqCodebooks,
        was: Carried<S>,
        done: Seq<DecodedSubframe<S>>,
    ) -> bool
        decreases done.len(),
    {
        if done.len() == 0 {
            true
        } else {
            let last: DecodedSubframe<S> = done.last();
            &&& self.decoded(b, channels, books, was, done.drop_last())
            &&& last.at == self.next_bit(done.drop_last())
            &&& last.before == carried_on(was, done.drop_last())
            &&& subframe_decoded(
                b,
                channels,
                books,
                self.input(done.len() - 1, last.at),
                last.before,
                Ok((last.block, last.bits)),
                last.after,
            )
        }
    }

    /// The decoding of the frame gives `r` and carries `now` on: the samples of
    /// all subframes, or the error of the first one that failed.
    pub open spec fn gives<S, T>(
        self,
        b: SubframeBehaviour<'_, S, T>,
        channels: usize,
        books: VqCodebooks,
        was: Carried<S>,
        r: Result<(SubframePcm, usize), SubframePcmError>,
        now: Carried<S>,
    ) -> bool {
        exists|done: Seq<DecodedSubframe<S>>| #[trigger]
            self.decoded(b, channels, books, was, done) && self.comes_to(
                b,
                channels,
                books,
                was,
                done,
                r,
                now,
            )
    }

    /// The decoding of the subframes of `done` and no further gives `r` and carries
    /// `now` on.
    pub open spec fn comes_to<S, T>(
        self,
        b: SubframeBehaviour<'_, S, T>,
        channels: usize,
        books: VqCodebooks,
        was: Carried<S>,
        done: Seq<DecodedSubframe<S>>,
        r: Result<(SubframePcm, usize), SubframePcmError>,
        now: Carried<S>,
    ) -> bool {
        match r {
            Ok((pcm, bits)) => {
                &&& done.len() == self.subframes.len()
                &&& planes(pcm@) == samples_of(channels as nat, blocks_of(done))
                &&& bits == self.next_bit(done) - self.first
                &&& now.state == carried_on(was, done).state
                &&& now.lfe == concatenated(lfe_of(done))
            },
            Err(e) => {
                &&& done.len() < self.subframes.len()
                &&& subframe_decoded(
                    b,
                    channels,
                    books,
                    self.input(done.len() as int, self.next_bit(done) as usize),
                    carried_on(was, done),
                    r,
                    now,
                )
            },
        }
    }
}

/// What is carried behind the decoded subframes. Their low-frequency-effects
/// samples have been taken out.
pub open spec fn carried_on<S>(was: Carried<S>, done: Seq<DecodedSubframe<S>>) -> Carried<S> {
    if done.len() == 0 {
        was
    } else {
        Carried { state: done.last().after.state, lfe: Seq::empty() }
    }
}

/// The samples of each subframe.
pub open spec fn blocks_of<S>(done: Seq<DecodedSubframe<S>>) -> Seq<SubframePcm> {
    Seq::new(done.len(), |k: int| done[k].block)
}

/// The low-frequency-effects samples of each subframe.
pub open spec fn lfe_of<S>(done: Seq<DecodedSubframe<S>>) -> Seq<Seq<i32>> {
    Seq::new(done.len(), |k: int| done[k].after.lfe)
}

impl<S> SubframePcmDecoder<S> {
    /// Decodes the subframes of a frame whose side information is at hand. The
    /// audio part of each subframe comes behind that of the one before it and the
    /// side information between them.
    pub fn decode_frame<T: Copy, H, L, A, Q, P, U, M>(
        &mut self,
        bytes: &[u8],
        first_audio_bit: usize,
        header: &DtsFrameHeader,
        coding: &AudioCodingHeader,
        subframes: &[Subframe<'_>],
        aspf: bool,
        work: &SubframeWorkers<H, L, A, Q, P, U, M>,
    ) -> (r: Result<(SubframePcm, usize), SubframePcmError>) where
        H: Fn(&[u8], usize, &SubframePlan) -> IndexReply,
        L: Fn(&S, &[u8], usize, u8, usize) -> LowReply<S>,
        A: Fn(&S, &[u8], usize, &AudioJob<'_>) -> AudioReply<S, T>,
        Q: Fn(&S, usize, &Vec<Vec<[T; 32]>>, &SubframePlan) -> SynthesisReply<S>,
        P: Fn(T, T) -> T,
        U: Fn(T, T) -> T,
        M: Fn(T, T) -> T,

        requires
            work.reliable::<S, T>(),
            (PreparedFrame {
                bytes,
                first: first_audio_bit,
                header: *header,
                coding: *coding,
                subframes: subframes@,
                aspf,
            }).wf(old(self).channels(), old(self).books()),
        ensures
            final(self).set_up_like(old(self)),
            (PreparedFrame {
                bytes,
                first: first_audio_bit,
                header: *header,
                coding: *coding,
                subframes: subframes@,
                aspf,
            }).gives(
                work.behaviour::<S, T>(),
                old(self).channels(),
                old(self).books(),
                old(self).carried(),
                r,
                final(self).carried(),
            ),
    {
        let ghost frame = PreparedFrame {
            bytes,
            first: first_audio_bit,
            header: *header,
            coding: *coding,
            subframes: subframes@,
            aspf,
        };
        let ghost b: SubframeBehaviour<'_, S, T> = work.behaviour::<S, T>();
        let ghost was: Carried<S> = self.carried();
        let ghost mut done: Seq<DecodedSubframe<S>> = Seq::empty();
        let channels: usize = self.channel_count();
        let mut pcm: SubframePcm = empty_planes(channels);
        let mut frame_lfe: Vec<i32> = Vec::new();
        let mut bit: usize = first_audio_bit;
        let mut k: usize = 0;
        while k < subframes.len()
            invariant
                work.reliable::<S, T>(),
                frame.wf(self.channels(), self.books()),
                frame == (PreparedFrame {
                    bytes,
                    first: first_audio_bit,
                    header: *header,
                    coding: *coding,
                    subframes: subframes@,
                    aspf,
                }),
                b == work.behaviour::<S, T>(),
                was == old(self).carried(),
                self.set_up_like(old(self)),
                channels == self.channels(),
                k <= subframes@.len(),
                done.len() == k,
                frame.decoded(b, channels, self.books(), was, done),
                self.carried() == carried_on(was, done),
                bit == frame.next_bit(done),
                first_audio_bit <= bit,
                planes(pcm@) == samples_of(channels as nat, blocks_of(done)),
                pcm@.len() == channels,
                frame_lfe@ == concatenated(lfe_of(done)),
            decreases subframes@.len() - k,
        {
            let sf: &Subframe<'_> = &subframes[k];
            let ghost before: Carried<S> = self.carried();
            assert(frame.input::<T>(k as int, bit).wf(self.channels(), self.books()));
            let reply: Result<(SubframePcm, usize), SubframePcmError> = self.decode_subframe(
                bytes,
                bit,
                header,
                coding,
                sf.side,
                sf.n_ssc,
                aspf,
                work,
            );
            let (block, audio_bits): (SubframePcm, usize) = match reply {
                Ok(decoded) => decoded,
                Err(e) => {
                    assert(frame.decoded(b, channels, self.books(), was, done));
                    return Err(e);
                },
            };
            proof {
                let next = DecodedSubframe {
                    at: bit,
                    before,
                    block,
                    bits: audio_bits,
                    after: self.carried(),
                };
                let more: Seq<DecodedSubframe<S>> = done.push(next);
                assert(more.drop_last() =~= done);
                assert(blocks_of(more).drop_last() =~= blocks_of(done));
                assert(lfe_of(more).drop_last() =~= lfe_of(done));
                done = more;
            }
            let mut lfe: Vec<i32> = self.take_last_lfe_pcm();
            frame_lfe.append(&mut lfe);
            append_block(&mut pcm, block);
            bit = bit + audio_bits;
            if k + 1 < subframes.len() {
                bit = bit + sf.side_info_bits;
            }
            k = k + 1;
        }
        self.set_lfe(frame_lfe);
        Ok((pcm, bit - first_audio_bit))
    }
}

/// A subframe on the way through a frame.
pub struct CoreSubframe<'a, S, T> {
    /// The first bit of its side information.
    pub at: usize,
    /// What was carried into it.
    pub before: Carried<S>,
    /// Its side information.
    pub side: SubframeSideInfo,
    /// What the side information says of each channel.
    pub channels: &'a [ChannelSideInfo],
    /// The bits of the side information.
    pub side_bits: usize,
    /// The tail of the side information.
    pub tail: SideInfoTail<T>,
    /// The bits of the tail.
    pub tail_bits: usize,
    /// The samples, before any gain.
    pub block: SubframePcm,
    /// The bits of the audio part.
    pub audio_bits: usize,
    /// The samples with the gain of the subframe.
    pub gained: SubframePcm,
    /// What is carried out of it.
    pub after: Carried<S>,
}

impl<'a, S, T> CoreSubframe<'a, S, T> {
    /// The first bit behind the subframe.
    pub open spec fn end(self) -> int {
        self.at + self.side_bits + self.tail_bits + self.audio_bits
    }
}

/// A frame and the decoder that it is for.
pub struct CoreFrame<'a> {
    /// The bytes of the frame.
    pub bytes: &'a [u8],
    /// The header of the frame.
    pub header: DtsFrameHeader,
    /// The audio coding header of the frame.
    pub coding: AudioCodingHeader,
    /// The gain codes that take the place of those in the subframes.
    pub codes: Option<Seq<u8>>,
    /// The number of channels of the decoder.
    pub channels: usize,
    /// The code books of the decoder.
    pub books: VqCodebooks,
}

impl<'a> CoreFrame<'a> {
    /// The headers and codes are those of the frame.
    pub open spec fn wf(self) -> bool {
        &&& audio_coding_header(
            self.bytes@,
            8 * self.header.byte_length() as int,
            self.header.crc_present,
        ) matches Ok((coding, _)) && coding == self.coding@
        &&& override_codes(
            frame_bytes(self.bytes@, self.header),
            self.header.blocks_per_frame,
            self.codes,
        )
    }

    /// The first bit behind the headers.
    pub open spec fn first(self) -> int {
        let bits: nat = audio_coding_header(
            self.bytes@,
            8 * self.header.byte_length() as int,
            self.header.crc_present,
        ).unwrap().1;
        8 * self.header.byte_length() + bits as int
    }

    /// The first bit behind the subframes of `done`.
    pub open spec fn next_bit<S, T>(self, done: Seq<CoreSubframe<'_, S, T>>) -> int {
        if done.len() == 0 {
            self.first()
        } else {
            done.last().end()
        }
    }

    /// The side information of a subframe has been read.
    pub open spec fn side_read<S, T>(
        self,
        fb: FrameBehaviour<'_, S, T>,
        sf: CoreSubframe<'_, S, T>,
    ) -> bool {
        (fb.side_info)(self.bytes, sf.at, self.coding, Ok((sf.side, sf.side_bits)))
    }

    /// The tail of the side information has been read behind it.
    pub open spec fn tail_read<S, T>(
        self,
        fb: FrameBehaviour<'_, S, T>,
        sf: CoreSubframe<'_, S, T>,
    ) -> bool {
        (fb.tail)(
            self.bytes,
            (sf.at + sf.side_bits) as usize,
            self.coding,
            self.header,
            Ok((sf.tail, sf.tail_bits)),
        )
    }

    /// A partial subsubframe outside the last frame of a stream.
    pub open spec fn misplaced<S, T>(self, sf: CoreSubframe<'_, S, T>) -> bool {
        sf.side.psc > 0 && self.header.frame_type != FrameType::Termination
    }

    /// The audio part of a subframe, which comes behind the side information.
    pub open spec fn input<S, T>(self, sf: CoreSubframe<'a, S, T>) -> SubframeInput<'a, T> {
        SubframeInput {
            bytes: self.bytes,
            bit: (sf.at + sf.side_bits + sf.tail_bits) as usize,
            header: self.header,
            coding: self.coding,
            side: sf.channels,
            n_ssc: sf.side.n_ssc,
            psc: sf.side.psc,
            aspf: self.header.aspf,
            scales: sf.tail.join_scales@,
        }
    }

    /// The gain code that is applied to the samples of a subframe: its own one,
    /// unless others take its place.
    pub open spec fn gain_code<S, T>(self, sf: CoreSubframe<'_, S, T>) -> Option<u8> {
        if self.codes is None {
            sf.tail.range_index
        } else {
            None
        }
    }

    /// The subframe has been read and decoded, and its gain applied.
    pub open spec fn passed<S, T>(
        self,
        b: SubframeBehaviour<'_, S, T>,
        fb: FrameBehaviour<'_, S, T>,
        sf: CoreSubframe<'a, S, T>,
    ) -> bool {
        &&& self.side_read(fb, sf)
        &&& self.tail_read(fb, sf)
        &&& !self.misplaced(sf)
        &&& sf.channels@ == sf.side.channels@
        &&& subframe_decoded(
            b,
            self.channels,
            self.books,
            self.input(sf),
            sf.before,
            Ok((sf.block, sf.audio_bits)),
            sf.after,
        )
        &&& match self.gain_code(sf) {
            Some(code) => (fb.gained)(code, sf.block@, sf.gained@),
            None => sf.gained == sf.block,
        }
    }

    /// The side information of a subframe cannot be read.
    pub open spec fn side_failed<S, T>(
        self,
        fb: FrameBehaviour<'_, S, T>,
        sf: CoreSubframe<'a, S, T>,
        cause: Error,
        now: Carried<S>,
    ) -> bool {
        &&& now == sf.before
        &&& (fb.side_info)(self.bytes, sf.at, self.coding, Err(cause))
    }

    /// The side information of a subframe has been read, and its tail cannot be.
    pub open spec fn tail_failed<S, T>(
        self,
        fb: FrameBehaviour<'_, S, T>,
        sf: CoreSubframe<'a, S, T>,
        cause: Error,
        now: Carried<S>,
    ) -> bool {
        &&& self.side_read(fb, sf)
        &&& now == sf.before
        &&& (fb.tail)(
            self.bytes,
            (sf.at + sf.side_bits) as usize,
            self.coding,
            self.header,
            Err(cause),
        )
    }

    /// The side information of a subframe and its tail have been read, and its
    /// last subsubframe is cut short in a frame that is not the last.
    pub open spec fn size_failed<S, T>(
        self,
        fb: FrameBehaviour<'_, S, T>,
        sf: CoreSubframe<'a, S, T>,
        now: Carried<S>,
    ) -> bool {
        &&& self.side_read(fb, sf)
        &&& self.tail_read(fb, sf)
        &&& self.misplaced(sf)
        &&& now == sf.before
    }

    /// The side information of a subframe and its tail have been read, and its
    /// audio part cannot be decoded.
    pub open spec fn audio_failed<S, T>(
        self,
        b: SubframeBehaviour<'_, S, T>,
        fb: FrameBehaviour<'_, S, T>,
        sf: CoreSubframe<'a, S, T>,
        cause: SubframePcmError,
        now: Carried<S>,
    ) -> bool {
        &&& self.side_read(fb, sf)
        &&& self.tail_read(fb, sf)
        &&& !self.misplaced(sf)
        &&& sf.channels@ == sf.side.channels@
        &&& subframe_decoded(
            b,
            self.channels,
            self.books,
            self.input(sf),
            sf.before,
            Err(cause),
            now,
        )
    }

    /// The subframe, the one of number `index`, fails with `e` and carries `now`
    /// on: at its side information, at the tail, because its last subsubframe is
    /// cut short in a frame that is not the last, or at its audio part.
    pub open spec fn failed<S, T>(
        self,
        b: SubframeBehaviour<'_, S, T>,
        fb: FrameBehaviour<'_, S, T>,
        index: nat,
        sf: CoreSubframe<'a, S, T>,
        e: CoreFrameDecodeError,
        now: Carried<S>,
    ) -> bool {
        match e {
            CoreFrameDecodeError::Bitstream(cause) => {
                ||| self.side_failed(fb, sf, cause, now)
                ||| self.tail_failed(fb, sf, cause, now)
            },
            CoreFrameDecodeError::Decode(cause) => {
                ||| self.audio_failed(b, fb, sf, cause, now)
                ||| {
                    &&& self.size_failed(fb, sf, now)
                    &&& cause == SubframePcmError::PartialSubsubframeInNormalFrame {
                        subframe: index as usize,
                        psc: sf.side.psc,
                    }
                }
            },
            _ => false,
        }
    }

    /// The subframes of `done` have been passed one after the other.
    pub open spec fn walked<S, T>(
        self,
        b: SubframeBehaviour<'_, S, T>,
        fb: FrameBehaviour<'_, S, T>,
        start: Carried<S>,
        done: Seq<CoreSubframe<'a, S, T>>,
    ) -> bool
        decreases done.len(),
    {
        if done.len() == 0 {
            true
        } else {
            let last: CoreSubframe<'a, S, T> = done.last();
            &&& self.walked(b, fb, start, done.drop_last())
            &&& last.at == self.next_bit(done.drop_last())
            &&& last.before == walked_on(start, done.drop_last())
            &&& self.passed(b, fb, last)
        }
    }

    /// What the decoder carries into the first subframe: a frame that ignores the
    /// prediction history starts without it.
    pub open spec fn starts<S, T>(
        self,
        fb: FrameBehaviour<'_, S, T>,
        was: Carried<S>,
        start: Carried<S>,
    ) -> bool {
        if self.header.predictor_history {
            start == was
        } else {
            start.lfe == was.lfe && (fb.cleared)(was.state, start.state)
        }
    }

    /// `pcm` is the samples of the frame with the gains that take the place of
    /// those in the subframes, where there are any.
    pub open spec fn finished<S, T>(
        self,
        fb: FrameBehaviour<'_, S, T>,
        samples: Seq<Seq<i32>>,
        pcm: SubframePcm,
    ) -> bool {
        match self.codes {
            Some(codes) => exists|plain: SubframePcm|
                planes(plain@) == samples && #[trigger] (fb.scaled)(codes, plain@, pcm@),
            None => planes(pcm@) == samples,
        }
    }

    /// The way through the frame gives `r` and carries `now` on: the samples of
    /// all subframes and the first bit behind them, or the error of the first
    /// subframe that failed.
    pub open spec fn gives<S, T>(
        self,
        b: SubframeBehaviour<'_, S, T>,
        fb: FrameBehaviour<'_, S, T>,
        start: Carried<S>,
        r: Result<(SubframePcm, usize), CoreFrameDecodeError>,
        now: Carried<S>,
    ) -> bool {
        exists|done: Seq<CoreSubframe<'a, S, T>>| #[trigger]
            self.walked(b, fb, start, done) && self.comes_to(b, fb, start, done, r, now)
    }

    /// The way through the subframes of `done` and no further gives `r` and carries
    /// `now` on.
    pub open spec fn comes_to<S, T>(
        self,
        b: SubframeBehaviour<'_, S, T>,
        fb: FrameBehaviour<'_, S, T>,
        start: Carried<S>,
        done: Seq<CoreSubframe<'a, S, T>>,
        r: Result<(SubframePcm, usize), CoreFrameDecodeError>,
        now: Carried<S>,
    ) -> bool {
        match r {
            Ok((pcm, end)) => {
                &&& done.len() == self.coding.n_subframes
                &&& self.finished(fb, samples_of(self.channels as nat, gained_of(done)), pcm)
                &&& end == self.next_bit(done)
                &&& now.state == walked_on(start, done).state
                &&& now.lfe == concatenated(frame_lfe_of(done))
            },
            Err(e) => {
                &&& done.len() < self.coding.n_subframes
                &&& exists|sf: CoreSubframe<'a, S, T>|
                    {
                        &&& sf.at == self.next_bit(done)
                        &&& sf.before == walked_on(start, done)
                        &&& #[trigger] self.failed(b, fb, done.len(), sf, e, now)
                    }
            },
        }
    }
}

/// What is carried behind the passed subframes.
pub open spec fn walked_on<S, T>(
    start: Carried<S>,
    done: Seq<CoreSubframe<'_, S, T>>,
) -> Carried<S> {
    if done.len() == 0 {
        start
    } else {
        done.last().after
    }
}

/// The samples of each subframe, with its gain.
pub open spec fn gained_of<S, T>(done: Seq<CoreSubframe<'_, S, T>>) -> Seq<SubframePcm> {
    Seq::new(done.len(), |k: int| done[k].gained)
}

/// The low-frequency-effects samples of each subframe.
pub open spec fn frame_lfe_of<S, T>(done: Seq<CoreSubframe<'_, S, T>>) -> Seq<Seq<i32>> {
    Seq::new(done.len(), |k: int| done[k].after.lfe)
}

/// The decoding of the frame at the start of `bytes` gives `r` and carries `now`
/// on. A frame whose headers cannot be read, or that has another number of
/// channels, changes nothing.
pub open spec fn core_frame_decoded<'a, S, T>(
    b: SubframeBehaviour<'_, S, T>,
    fb: FrameBehaviour<'_, S, T>,
    channels: usize,
    books: VqCodebooks,
    bytes: &'a [u8],
    header: DtsFrameHeader,
    was: Carried<S>,
    r: Result<(SubframePcm, usize), CoreFrameDecodeError>,
    now: Carried<S>,
) -> bool {
    match begin_error(channels, bytes@, header) {
        Some(e) => r == Err::<(SubframePcm, usize), CoreFrameDecodeError>(e) && now == was,
        None => exists|frame: CoreFrame<'a>, start: Carried<S>|
            {
                &&& frame.bytes == bytes
                &&& frame.header == header
                &&& frame.channels == channels
                &&& frame.books == books
                &&& frame.wf()
                &&& frame.starts(fb, was, start)
                &&& #[trigger] frame.gives(b, fb, start, r, now)
            },
    }
}

impl<S> SubframePcmDecoder<S> {
    /// Decodes the frame at the start of `bytes`, and gives its samples and the
    /// first bit behind its audio data.
    pub fn decode_core_frame_cursor<T: Copy, H, L, A, Q, P, U, M, I, E, C, G>(
        &mut self,
        bytes: &[u8],
        header: &DtsFrameHeader,
        work: &FrameWorkers<SubframeWorkers<H, L, A, Q, P, U, M>, I, E, C, G>,
    ) -> (r: Result<(SubframePcm, usize), CoreFrameDecodeError>) where
        H: Fn(&[u8], usize, &SubframePlan) -> IndexReply,
        L: Fn(&S, &[u8], usize, u8, usize) -> LowReply<S>,
        A: Fn(&S, &[u8], usize, &AudioJob<'_>) -> AudioReply<S, T>,
        Q: Fn(&S, usize, &Vec<Vec<[T; 32]>>, &SubframePlan) -> SynthesisReply<S>,
        P: Fn(T, T) -> T,
        U: Fn(T, T) -> T,
        M: Fn(T, T) -> T,
        I: Fn(&[u8], usize, &AudioCodingHeader) -> SideReply,
        E: Fn(&[u8], usize, &AudioCodingHeader, &DtsFrameHeader) -> TailReply<T>,
        C: Fn(&S) -> S,
        G: Fn(i32, u8) -> i32,

        requires
            work.subframe.reliable::<S, T>(),
            work.frame_reliable::<S, T>(),
            8 * bytes@.len() <= usize::MAX,
        ensures
            final(self).set_up_like(old(self)),
            core_frame_decoded(
                work.subframe.behaviour::<S, T>(),
                work.frame_behaviour::<S, T>(),
                old(self).channels(),
                old(self).books(),
                bytes,
                *header,
                old(self).carried(),
                r,
                final(self).carried(),
            ),
    {
        let ghost b: SubframeBehaviour<'_, S, T> = work.subframe.behaviour::<S, T>();
        let ghost fb: FrameBehaviour<'_, S, T> = work.frame_behaviour::<S, T>();
        let ghost was: Carried<S> = self.carried();
        let channels: usize = self.channel_count();
        let header_bits: usize = header.header_bit_length() as usize;
        let (coding, coding_bits): (AudioCodingHeader, usize) = match decode_audio_coding_header_at(
            bytes,
            header_bits,
            header.crc_present,
        ) {
            Ok(decoded) => decoded,
            Err(e) => {
                return Err(CoreFrameDecodeError::Bitstream(e));
            },
        };
        if coding.n_pchs != channels {
            return Err(
                CoreFrameDecodeError::Decode(
                    SubframePcmError::ChannelCountMismatch {
                        expected: channels,
                        got: coding.n_pchs,
                    },
                ),
            );
        }
        let size: usize = header.frame_size_bytes as usize;
        let own: &[u8] = if bytes.len() <= size {
            bytes
        } else {
            slice_subrange(bytes, 0, size)
        };
        let codes: Option<Vec<u8>> = find_override_codes(own, header);
        let ghost frame = CoreFrame {
            bytes,
            header: *header,
            coding,
            codes: codes_of(codes),
            channels,
            books: self.books(),
        };
        if !header.predictor_history {
            self.reset_adpcm_history(&work.clear_history);
        }
        let ghost start: Carried<S> = self.carried();
        let ghost mut done: Seq<CoreSubframe<'_, S, T>> = Seq::empty();
        proof {
            assert(frame.wf());
            assert(frame.starts(fb, was, start));
            assert forall|ch: int| 0 <= ch < coding.n_pchs implies (
            #[trigger] coding.channel_params@[ch]).n_vqsub <= 32 by {
                law_read_header_is_consistent(
                    bytes@,
                    header_bits as int,
                    header.crc_present,
                    ch,
                );
            }
            law_read_header_is_consistent(bytes@, header_bits as int, header.crc_present, 0);
        }
        let mut pcm: SubframePcm = empty_planes(channels);
        let mut frame_lfe: Vec<i32> = Vec::new();
        let mut bit: usize = header_bits + coding_bits;
        let mut index: usize = 0;
        while index < coding.n_subframes
            invariant
                work.subframe.reliable::<S, T>(),
                work.frame_reliable::<S, T>(),
                8 * bytes@.len() <= usize::MAX,
                b == work.subframe.behaviour::<S, T>(),
                fb == work.frame_behaviour::<S, T>(),
                was == old(self).carried(),
                begin_error(old(self).channels(), bytes@, *header) is None,
                self.set_up_like(old(self)),
                frame.bytes == bytes,
                frame.header == *header,
                frame.coding == coding,
                frame.channels == channels,
                frame.books == self.books(),
                frame.wf(),
                frame.starts(fb, was, start),
                frame.codes == codes_of(codes),
                channels == self.channels(),
                coding.n_pchs <= coding.channel_params@.len(),
                forall|ch: int|
                    0 <= ch < coding.n_pchs ==> (#[trigger] coding.channel_params@[ch]).n_vqsub
                        <= 32,
                index <= coding.n_subframes,
                done.len() == index,
                frame.walked(b, fb, start, done),
                self.carried() == walked_on(start, done),
                bit == frame.next_bit(done),
                pcm@.len() == channels,
                planes(pcm@) == samples_of(channels as nat, gained_of(done)),
                frame_lfe@ == concatenated(frame_lfe_of(done)),
            decreases coding.n_subframes - index,
        {
            let ghost mut sf: CoreSubframe<'_, S, T> = arbitrary();
            proof {
                sf = CoreSubframe { at: bit, before: self.carried(), ..sf };
            }
            let side_reply: SideReply = (work.side_info)(bytes, bit, &coding);
            let (side, side_bits): (SubframeSideInfo, usize) = match side_reply {
                Ok(read) => read,
                Err(e) => {
                    proof {
                        assert((fb.side_info)(frame.bytes, sf.at, frame.coding, Err(e)));
                        assert(frame.failed(
                            b,
                            fb,
                            done.len(),
                            sf,
                            CoreFrameDecodeError::Bitstream(e),
                            self.carried(),
                        ));
                        assert(frame.gives(
                            b,
                            fb,
                            start,
                            Err(CoreFrameDecodeError::Bitstream(e)),
                            self.carried(),
                        ));
                    }
                    return Err(CoreFrameDecodeError::Bitstream(e));
                },
            };
            proof {
                sf = CoreSubframe { side, side_bits, ..sf };
                assert(frame.side_read(fb, sf));
            }
            let tail_at: usize = bit + side_bits;
            let (tail, tail_bits): (SideInfoTail<T>, usize) = match (work.tail)(
                bytes,
                tail_at,
                &coding,
                header,
            ) {
                Ok(read) => read,
                Err(e) => {
                    proof {
                        assert((fb.tail)(
                            frame.bytes,
                            (sf.at + sf.side_bits) as usize,
                            frame.coding,
                            frame.header,
                            Err(e),
                        ));
                        assert(frame.failed(
                            b,
                            fb,
                            done.len(),
                            sf,
                            CoreFrameDecodeError::Bitstream(e),
                            self.carried(),
                        ));
                        assert(frame.gives(
                            b,
                            fb,
                            start,
                            Err(CoreFrameDecodeError::Bitstream(e)),
                            self.carried(),
                        ));
                    }
                    return Err(CoreFrameDecodeError::Bitstream(e));
                },
            };
            proof {
                sf = CoreSubframe { tail, tail_bits, ..sf };
                assert(frame.tail_read(fb, sf));
            }
            let audio_at: usize = tail_at + tail_bits;
            if side.psc > 0 && !matches!(header.frame_type, FrameType::Termination) {
                let e = CoreFrameDecodeError::Decode(
                    SubframePcmError::PartialSubsubframeInNormalFrame {
                        subframe: index,
                        psc: side.psc,
                    },
                );
                assert(frame.failed(b, fb, done.len(), sf, e, self.carried()));
                assert(frame.gives(b, fb, start, Err(e), self.carried()));
                return Err(e);
            }
            let per_channel: &[ChannelSideInfo] = side.channels.as_slice();
            let join_scales: &[Vec<T>] = tail.join_scales.as_slice();
            proof {
                sf = CoreSubframe { channels: per_channel, ..sf };
                assert(frame.input(sf).wf(self.channels(), self.books()));
            }
            let reply: Result<(SubframePcm, usize), SubframePcmError> =
                self.decode_subframe_partial(
                bytes,
                audio_at,
                header,
                &coding,
                per_channel,
                side.n_ssc,
                side.psc,
                header.aspf,
                join_scales,
                &work.subframe,
            );
            let (mut block, audio_bits): (SubframePcm, usize) = match reply {
                Ok(decoded) => decoded,
                Err(e) => {
                    proof {
                        assert(subframe_decoded(
                            b,
                            frame.channels,
                            frame.books,
                            frame.input(sf),
                            sf.before,
                            Err(e),
                            self.carried(),
                        ));
                        assert(frame.failed(
                            b,
                            fb,
                            done.len(),
                            sf,
                            CoreFrameDecodeError::Decode(e),
                            self.carried(),
                        ));
                        assert(frame.gives(
                            b,
                            fb,
                            start,
                            Err(CoreFrameDecodeError::Decode(e)),
                            self.carried(),
                        ));
                    }
                    return Err(CoreFrameDecodeError::Decode(e));
                },
            };
            proof {
                sf = CoreSubframe { block, audio_bits, after: self.carried(), ..sf };
            }
            if codes.is_none() {
                if let Some(code) = tail.range_index {
                    gain_block(&mut block, code, &work.gain);
                }
            }
            proof {
                sf = CoreSubframe { gained: block, ..sf };
                assert(frame.passed(b, fb, sf));
                let more: Seq<CoreSubframe<'_, S, T>> = done.push(sf);
                assert(more.drop_last() =~= done);
                assert(gained_of(more).drop_last() =~= gained_of(done));
                assert(frame_lfe_of(more).drop_last() =~= frame_lfe_of(done));
                done = more;
            }
            append_samples(&mut frame_lfe, self.last_lfe_pcm());
            append_block(&mut pcm, block);
            bit = audio_at + audio_bits;
            index = index + 1;
        }
        if let Some(codes) = &codes {
            let ghost plain: SubframePcm = pcm;
            scale_windows(&mut pcm, codes.as_slice(), &work.gain);
            assert((fb.scaled)(codes@, plain@, pcm@));
        }
        assert(frame.finished(fb, samples_of(channels as nat, gained_of(done)), pcm));
        self.set_lfe(frame_lfe);
        assert(frame.gives(b, fb, start, Ok((pcm, bit)), self.carried()));
        Ok((pcm, bit))
    }
}

/// Joining planes adds their lengths.
pub proof fn law_joined_lengths_add(pcm: Seq<Seq<i32>>, block: Seq<Seq<i32>>, ch: int)
    requires
        pcm.len() == block.len(),
        0 <= ch < pcm.len(),
    ensures
        joined(pcm, block)[ch].len() == pcm[ch].len() + block[ch].len(),
        joined(pcm, block)[ch].subrange(0, pcm[ch].len() as int) == pcm[ch],
        joined(pcm, block)[ch].subrange(
            pcm[ch].len() as int,
            pcm[ch].len() + block[ch].len() as int,
        ) == block[ch],
{
    assert(joined(pcm, block)[ch].subrange(0, pcm[ch].len() as int) =~= pcm[ch]);
    assert(joined(pcm, block)[ch].subrange(
        pcm[ch].len() as int,
        pcm[ch].len() + block[ch].len() as int,
    ) =~= block[ch]);
}

/// The number of samples of channel `ch` in blocks one behind the other.
pub open spec fn total_len(blocks: Seq<SubframePcm>, ch: int) -> nat
    decreases blocks.len(),
{
    if blocks.len() == 0 {
        0
    } else {
        total_len(blocks.drop_last(), ch) + blocks.last()@[ch]@.len()
    }
}

/// A frame has one plane for each channel, and a plane has the samples of all
/// subframes.
pub proof fn law_subframe_lengths_add(channels: nat, blocks: Seq<SubframePcm>, ch: int)
    requires
        0 <= ch < channels,
        forall|k: int| 0 <= k < blocks.len() ==> (#[trigger] blocks[k])@.len() == channels,
    ensures
        samples_of(channels, blocks).len() == channels,
        samples_of(channels, blocks)[ch].len() == total_len(blocks, ch),
    decreases blocks.len(),
{
    if blocks.len() > 0 {
        let before: Seq<SubframePcm> = blocks.drop_last();
        assert forall|k: int| 0 <= k < before.len() implies (#[trigger] before[k])@.len()
            == channels by {
            assert(before[k] == blocks[k]);
        }
        law_subframe_lengths_add(channels, before, ch);
    }
}

/// Where the low-frequency-effects samples of each subframe are as many as those
/// of a channel, so they are in the frame.
pub proof fn law_lfe_plane_is_as_long_as_the_others(
    channels: nat,
    blocks: Seq<SubframePcm>,
    lfe: Seq<Seq<i32>>,
    ch: int,
)
    requires
        0 <= ch < channels,
        lfe.len() == blocks.len(),
        forall|k: int|
            0 <= k < blocks.len() ==> (#[trigger] blocks[k])@.len() == channels && lfe[k].len()
                == blocks[k]@[ch]@.len(),
    ensures
        concatenated(lfe).len() == samples_of(channels, blocks)[ch].len(),
    decreases blocks.len(),
{
    law_subframe_lengths_add(channels, blocks, ch);
    if blocks.len() > 0 {
        let before: Seq<SubframePcm> = blocks.drop_last();
        assert forall|k: int| 0 <= k < before.len() implies (#[trigger] before[k])@.len()
            == channels && lfe.drop_last()[k].len() == before[k]@[ch]@.len() by {
            assert(before[k] == blocks[k]);
        }
        law_lfe_plane_is_as_long_as_the_others(channels, before, lfe.drop_last(), ch);
        law_subframe_lengths_add(channels, before, ch);
        assert(blocks[blocks.len() - 1]@.len() == channels);
    }
}

/// The low-frequency-effects channel has at least as many samples as the others: a
/// subframe of `n_ssc` full subsubframes codes `2 * lff * n_ssc` samples, and the
/// filter that the code selects makes 256 for each subsubframe of them, or more for
/// the third code.
pub proof fn law_lfe_length_is_primary_length(lff: u8, n_ssc: nat)
    requires
        1 <= lff <= 3,
    ensures
        (2 * lff * n_ssc) * LfeInterpolationSelection::of_select(lff as int).factor()
            >= subframe_rows(n_ssc as int, 0) * 32,
        lff <= 2 ==> (2 * lff * n_ssc) * LfeInterpolationSelection::of_select(lff as int).factor()
            == subframe_rows(n_ssc as int, 0) * 32,
{
    let coded: int = 2 * lff * n_ssc;
    if lff == 1 {
        assert(coded == 2 * n_ssc) by (nonlinear_arith)
            requires
                coded == 2 * lff * n_ssc,
                lff == 1,
        ;
    } else if lff == 2 {
        assert(coded == 4 * n_ssc) by (nonlinear_arith)
            requires
                coded == 2 * lff * n_ssc,
                lff == 2,
        ;
    } else {
        assert(coded == 6 * n_ssc) by (nonlinear_arith)
            requires
                coded == 2 * lff * n_ssc,
                lff == 3,
        ;
    }
}

/// A partial subsubframe makes the subframe shorter, by less than one
/// subsubframe.
pub proof fn law_partial_subframe_is_shorter(n_ssc: int, psc: int)
    requires
        n_ssc > 0,
        1 <= psc <= 7,
    ensures
        subframe_rows(n_ssc - 1, 0) < subframe_rows(n_ssc, psc) < subframe_rows(n_ssc, 0),
{
}

} // verus!
