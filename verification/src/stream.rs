//! Whole frames and streams of frames: one frame by itself, or one after the
//! other with what the filters carry across.

use crate::audio_header::{audio_coding_header, decode_audio_coding_header_at, AudioCodingHeader};
use crate::core_frame::core_frame_decoded;
use crate::decoder::{Carried, SubframePcmDecoder};
use crate::error::Error;
use crate::header::DtsFrameHeader;
use crate::subframe::VqCodebooks;
use crate::subframe_pcm::{CoreFrameDecodeError, SubframePcm, SubframePlan};
use crate::workers::{
    AudioJob, AudioReply, FrameBehaviour, FrameWorkers, IndexReply, LowReply, SideReply,
    SubframeBehaviour, SubframeWorkers, SynthesisReply, TailReply,
};
use vstd::prelude::*;

verus! {

/// The samples of a decoded frame, without the first bit behind its audio data.
pub open spec fn without_end(full: Result<(SubframePcm, usize), CoreFrameDecodeError>) -> Result<
    SubframePcm,
    CoreFrameDecodeError,
> {
    match full {
        Ok((pcm, _)) => Ok(pcm),
        Err(e) => Err(e),
    }
}

/// The decoding of a frame gives the samples `r`, or fails with its error, and
/// carries `now` on.
pub open spec fn pcm_decoded<S, T>(
    b: SubframeBehaviour<'_, S, T>,
    fb: FrameBehaviour<'_, S, T>,
    channels: usize,
    books: VqCodebooks,
    bytes: &[u8],
    header: DtsFrameHeader,
    was: Carried<S>,
    r: Result<SubframePcm, CoreFrameDecodeError>,
    now: Carried<S>,
) -> bool {
    exists|full: Result<(SubframePcm, usize), CoreFrameDecodeError>|
        {
            &&& #[trigger] core_frame_decoded(
                b,
                fb,
                channels,
                books,
                bytes,
                header,
                was,
                full,
                now,
            )
            &&& r == without_end(full)
        }
}

/// The samples of a decoded frame with the optional information that was read
/// behind its audio data, or the error of the first of the two that failed.
pub open spec fn with_info<D>(
    full: Result<(SubframePcm, usize), CoreFrameDecodeError>,
    reply: Result<(D, usize), Error>,
) -> Result<(SubframePcm, D), CoreFrameDecodeError> {
    match full {
        Ok((pcm, _)) => match reply {
            Ok((found, _)) => Ok((pcm, found)),
            Err(e) => Err(CoreFrameDecodeError::Bitstream(e)),
        },
        Err(e) => Err(e),
    }
}

/// The decoding of a frame and the reading of the optional information behind its
/// audio data give `r` and carry `now` on. The information is read only where the
/// frame was decoded.
pub open spec fn pcm_and_info_decoded<S, T, D, N>(
    b: SubframeBehaviour<'_, S, T>,
    fb: FrameBehaviour<'_, S, T>,
    info: N,
    channels: usize,
    books: VqCodebooks,
    bytes: &[u8],
    header: DtsFrameHeader,
    was: Carried<S>,
    r: Result<(SubframePcm, D), CoreFrameDecodeError>,
    now: Carried<S>,
) -> bool where N: Fn(&[u8], usize, &DtsFrameHeader) -> Result<(D, usize), Error> {
    exists|
        full: Result<(SubframePcm, usize), CoreFrameDecodeError>,
        reply: Result<(D, usize), Error>,
    |
        {
            &&& #[trigger] core_frame_decoded(
                b,
                fb,
                channels,
                books,
                bytes,
                header,
                was,
                full,
                now,
            )
            &&& full matches Ok((_, end)) ==> info.ensures((bytes, end, &header), reply)
            &&& r == #[trigger] with_info(full, reply)
        }
}

impl<S> SubframePcmDecoder<S> {
    /// Decodes the frame at the start of `bytes`.
    pub fn decode_core_frame_into<T: Copy, H, L, A, Q, P, U, M, I, E, C, G>(
        &mut self,
        bytes: &[u8],
        header: &DtsFrameHeader,
        work: &FrameWorkers<SubframeWorkers<H, L, A, Q, P, U, M>, I, E, C, G>,
    ) -> (r: Result<SubframePcm, CoreFrameDecodeError>) where
        H: Fn(&[u8], usize, &SubframePlan) -> IndexReply,
        L: Fn(&S, &[u8], usize, u8, usize) -> LowReply<S>,
        A: Fn(&S, &[u8], usize, &AudioJob<'_>) -> AudioReply<S, T>,
        Q: Fn(&S, usize, &Vec<Vec<[T; 32]>>, &SubframePlan) -> SynthesisReply<S>,
        P: Fn(T, T) -> T,
        U: Fn(T, T) -> T,
        M: Fn(T, T) -> T,
        I: Fn(&[u8], usize, &AudioCodingHeader) -> SideReply,
        E: Fn(&[u8], usize, &AudioCodingHeader, &DtsFrameHeader) -> TailReply<T>,
        C: Fn(&S) -> S,
        G: Fn(i32, u8) -> i32,

        requires
            work.subframe.reliable::<S, T>(),
            work.frame_reliable::<S, T>(),
            8 * bytes@.len() <= usize::MAX,
        ensures
            final(self).set_up_like(old(self)),
            pcm_decoded(
                work.subframe.behaviour::<S, T>(),
                work.frame_behaviour::<S, T>(),
                old(self).channels(),
                old(self).books(),
                bytes,
                *header,
                old(self).carried(),
                r,
                final(self).carried(),
            ),
    {
        match self.decode_core_frame_cursor(bytes, header, work) {
            Ok((pcm, _)) => Ok(pcm),
            Err(e) => Err(e),
        }
    }

    /// Decodes the frame at the start of `bytes` and reads the optional
    /// information behind its audio data.
    pub fn decode_core_frame_with_info_into<T: Copy, D, N, H, L, A, Q, P, U, M, I, E, C, G>(
        &mut self,
        bytes: &[u8],
        header: &DtsFrameHeader,
        work: &FrameWorkers<SubframeWorkers<H, L, A, Q, P, U, M>, I, E, C, G>,
        info: &N,
    ) -> (r: Result<(SubframePcm, D), CoreFrameDecodeError>) where
        N: Fn(&[u8], usize, &DtsFrameHeader) -> Result<(D, usize), Error>,
        H: Fn(&[u8], usize, &SubframePlan) -> IndexReply,
        L: Fn(&S, &[u8], usize, u8, usize) -> LowReply<S>,
        A: Fn(&S, &[u8], usize, &AudioJob<'_>) -> AudioReply<S, T>,
        Q: Fn(&S, usize, &Vec<Vec<[T; 32]>>, &SubframePlan) -> SynthesisReply<S>,
        P: Fn(T, T) -> T,
        U: Fn(T, T) -> T,
        M: Fn(T, T) -> T,
        I: Fn(&[u8], usize, &AudioCodingHeader) -> SideReply,
        E: Fn(&[u8], usize, &AudioCodingHeader, &DtsFrameHeader) -> TailReply<T>,
        C: Fn(&S) -> S,
        G: Fn(i32, u8) -> i32,

        requires
            work.subframe.reliable::<S, T>(),
            work.frame_reliable::<S, T>(),
            forall|a: (&[u8], usize, &DtsFrameHeader)| #[trigger] info.requires(a),
            8 * bytes@.len() <= usize::MAX,
        ensures
            final(self).set_up_like(old(self)),
            pcm_and_info_decoded(
                work.subframe.behaviour::<S, T>(),
                work.frame_behaviour::<S, T>(),
                *info,
                old(self).channels(),
                old(self).books(),
                bytes,
                *header,
                old(self).carried(),
                r,
                final(self).carried(),
            ),
    {
        let full: Result<(SubframePcm, usize), CoreFrameDecodeError> =
            self.decode_core_frame_cursor(bytes, header, work);
        let ghost was_full: Result<(SubframePcm, usize), CoreFrameDecodeError> = full;
        match full {
            Ok((pcm, end)) => {
                let reply: Result<(D, usize), Error> = (*info)(bytes, end, header);
                let ghost was_reply: Result<(D, usize), Error> = reply;
                let r: Result<(SubframePcm, D), CoreFrameDecodeError> = match reply {
                    Ok((found, _)) => Ok((pcm, found)),
                    Err(e) => Err(CoreFrameDecodeError::Bitstream(e)),
                };
                assert(r == with_info(was_full, was_reply));
                r
            },
            Err(e) => {
                let ghost unread: Result<(D, usize), Error> = arbitrary();
                let r: Result<(SubframePcm, D), CoreFrameDecodeError> = Err(e);
                assert(r == with_info(was_full, unread));
                r
            },
        }
    }
}

/// Both code books.
pub open spec fn both_books() -> VqCodebooks {
    VqCodebooks { hfreq: true, adpcm: true }
}

/// What a decoder carries that has decoded nothing.
pub open spec fn fresh<S>(state: S) -> Carried<S> {
    Carried { state, lfe: Seq::empty() }
}

/// A decoder of `channels` channels that starts with `state` gives `r` for the
/// frame and carries `now` on.
pub open spec fn decoded_alone<S, T, B>(
    b: SubframeBehaviour<'_, S, T>,
    fb: FrameBehaviour<'_, S, T>,
    start: B,
    channels: usize,
    bytes: &[u8],
    header: DtsFrameHeader,
    r: Result<SubframePcm, CoreFrameDecodeError>,
    state: S,
    now: Carried<S>,
) -> bool where B: Fn(usize) -> S {
    &&& start.ensures((channels,), state)
    &&& pcm_decoded(b, fb, channels, both_books(), bytes, header, fresh(state), r, now)
}

/// A decoder of `channels` channels that starts with `state` gives `r` for the
/// frame
/// and the optional information behind it and carries `now` on.
pub open spec fn decoded_alone_with_info<S, T, B, D, N>(
    b: SubframeBehaviour<'_, S, T>,
    fb: FrameBehaviour<'_, S, T>,
    start: B,
    info: N,
    channels: usize,
    bytes: &[u8],
    header: DtsFrameHeader,
    r: Result<(SubframePcm, D), CoreFrameDecodeError>,
    state: S,
    now: Carried<S>,
) -> bool where B: Fn(usize) -> S, N: Fn(&[u8], usize, &DtsFrameHeader) -> Result<(D, usize), Error> {
    &&& start.ensures((channels,), state)
    &&& pcm_and_info_decoded(b, fb, info, channels, both_books(), bytes, header, fresh(state), r, now)
}

/// The decoding of a frame by itself gives `r`: the error of the audio coding
/// header, or what a decoder gives that starts anew.
pub open spec fn lone_frame<S, T, B>(
    b: SubframeBehaviour<'_, S, T>,
    fb: FrameBehaviour<'_, S, T>,
    start: B,
    bytes: &[u8],
    header: DtsFrameHeader,
    r: Result<SubframePcm, CoreFrameDecodeError>,
) -> bool where B: Fn(usize) -> S {
    match audio_coding_header(bytes@, 8 * header.byte_length() as int, header.crc_present) {
        Err(e) => r == Err::<SubframePcm, CoreFrameDecodeError>(CoreFrameDecodeError::Bitstream(e)),
        Ok((coding, _)) => exists|state: S, now: Carried<S>| #[trigger]
            decoded_alone(b, fb, start, coding.n_pchs as usize, bytes, header, r, state, now),
    }
}

/// Decodes the frame at the start of `bytes` by itself, as if it were the first
/// one of a stream.
pub fn decode_core_frame<S, T: Copy, B, H, L, A, Q, P, U, M, I, E, C, G>(
    bytes: &[u8],
    header: &DtsFrameHeader,
    start: &B,
    work: &FrameWorkers<SubframeWorkers<H, L, A, Q, P, U, M>, I, E, C, G>,
) -> (r: Result<SubframePcm, CoreFrameDecodeError>) where
    B: Fn(usize) -> S,
    H: Fn(&[u8], usize, &SubframePlan) -> IndexReply,
    L: Fn(&S, &[u8], usize, u8, usize) -> LowReply<S>,
    A: Fn(&S, &[u8], usize, &AudioJob<'_>) -> AudioReply<S, T>,
    Q: Fn(&S, usize, &Vec<Vec<[T; 32]>>, &SubframePlan) -> SynthesisReply<S>,
    P: Fn(T, T) -> T,
    U: Fn(T, T) -> T,
    M: Fn(T, T) -> T,
    I: Fn(&[u8], usize, &AudioCodingHeader) -> SideReply,
    E: Fn(&[u8], usize, &AudioCodingHeader, &DtsFrameHeader) -> TailReply<T>,
    C: Fn(&S) -> S,
    G: Fn(i32, u8) -> i32,

    requires
        work.subframe.reliable::<S, T>(),
        work.frame_reliable::<S, T>(),
        forall|channels: usize| #[trigger] start.requires((channels,)),
        8 * bytes@.len() <= usize::MAX,
    ensures
        lone_frame(
            work.subframe.behaviour::<S, T>(),
            work.frame_behaviour::<S, T>(),
            *start,
            bytes,
            *header,
            r,
        ),
{
    let header_bits: usize = header.header_bit_length() as usize;
    let channels: usize = match decode_audio_coding_header_at(
        bytes,
        header_bits,
        header.crc_present,
    ) {
        Ok((coding, _)) => coding.n_pchs,
        Err(e) => {
            return Err(CoreFrameDecodeError::Bitstream(e));
        },
    };
    let state: S = (*start)(channels);
    let ghost begun: S = state;
    let mut decoder = SubframePcmDecoder::new(channels, state);
    let r: Result<SubframePcm, CoreFrameDecodeError> = decoder.decode_core_frame_into(
        bytes,
        header,
        work,
    );
    assert(decoded_alone(
        work.subframe.behaviour::<S, T>(),
        work.frame_behaviour::<S, T>(),
        *start,
        channels,
        bytes,
        *header,
        r,
        begun,
        decoder.carried(),
    ));
    r
}

/// The decoding of a frame by itself, with its optional information, gives `r`: the error of the audio coding
/// header, or what a decoder gives that starts anew.
pub open spec fn lone_frame_with_info<S, T, B, D, N>(
    b: SubframeBehaviour<'_, S, T>,
    fb: FrameBehaviour<'_, S, T>,
    start: B,
    info: N,
    bytes: &[u8],
    header: DtsFrameHeader,
    r: Result<(SubframePcm, D), CoreFrameDecodeError>,
) -> bool where B: Fn(usize) -> S,
    N: Fn(&[u8], usize, &DtsFrameHeader) -> Result<(D, usize), Error>,
 {
    match audio_coding_header(bytes@, 8 * header.byte_length() as int, header.crc_present) {
        Err(e) => r == Err::<(SubframePcm, D), CoreFrameDecodeError>(CoreFrameDecodeError::Bitstream(e)),
        Ok((coding, _)) => exists|state: S, now: Carried<S>| #[trigger]
            decoded_alone_with_info(b, fb, start, info, coding.n_pchs as usize, bytes, header, r, state, now),
    }
}

/// Decodes the frame at the start of `bytes` by itself and reads the optional
/// information behind its audio data.
pub fn decode_core_frame_with_info<S, T: Copy, B, D, N, H, L, A, Q, P, U, M, I, E, C, G>(
    bytes: &[u8],
    header: &DtsFrameHeader,
    start: &B,
    work: &FrameWorkers<SubframeWorkers<H, L, A, Q, P, U, M>, I, E, C, G>,
    info: &N,
) -> (r: Result<(SubframePcm, D), CoreFrameDecodeError>) where
    B: Fn(usize) -> S,
    N: Fn(&[u8], usize, &DtsFrameHeader) -> Result<(D, usize), Error>,
    H: Fn(&[u8], usize, &SubframePlan) -> IndexReply,
    L: Fn(&S, &[u8], usize, u8, usize) -> LowReply<S>,
    A: Fn(&S, &[u8], usize, &AudioJob<'_>) -> AudioReply<S, T>,
    Q: Fn(&S, usize, &Vec<Vec<[T; 32]>>, &SubframePlan) -> SynthesisReply<S>,
    P: Fn(T, T) -> T,
    U: Fn(T, T) -> T,
    M: Fn(T, T) -> T,
    I: Fn(&[u8], usize, &AudioCodingHeader) -> SideReply,
    E: Fn(&[u8], usize, &AudioCodingHeader, &DtsFrameHeader) -> TailReply<T>,
    C: Fn(&S) -> S,
    G: Fn(i32, u8) -> i32,

    requires
        work.subframe.reliable::<S, T>(),
        work.frame_reliable::<S, T>(),
        forall|channels: usize| #[trigger] start.requires((channels,)),
        forall|a: (&[u8], usize, &DtsFrameHeader)| #[trigger] info.requires(a),
        8 * bytes@.len() <= usize::MAX,
    ensures
        lone_frame_with_info(
            work.subframe.behaviour::<S, T>(),
            work.frame_behaviour::<S, T>(),
            *start,
            *info,
            bytes,
            *header,
            r,
        ),
{
    let header_bits: usize = header.header_bit_length() as usize;
    let channels: usize = match decode_audio_coding_header_at(
        bytes,
        header_bits,
        header.crc_present,
    ) {
        Ok((coding, _)) => coding.n_pchs,
        Err(e) => {
            return Err(CoreFrameDecodeError::Bitstream(e));
        },
    };
    let state: S = (*start)(channels);
    let ghost begun: S = state;
    let mut decoder = SubframePcmDecoder::new(channels, state);
    let r: Result<(SubframePcm, D), CoreFrameDecodeError> =
        decoder.decode_core_frame_with_info_into(bytes, header, work, info);
    assert(decoded_alone_with_info(
        work.subframe.behaviour::<S, T>(),
        work.frame_behaviour::<S, T>(),
        *start,
        *info,
        channels,
        bytes,
        *header,
        r,
        begun,
        decoder.carried(),
    ));
    r
}

/// The decoder of a stream of frames.
#[derive(Debug, Clone)]
pub struct CoreStreamDecoder<S> {
    decoder: SubframePcmDecoder<S>,
}

impl<S> CoreStreamDecoder<S> {
    /// The subframe decoder of the stream.
    pub closed spec fn inner(&self) -> SubframePcmDecoder<S> {
        self.decoder
    }

    /// A stream decoder for `channels` primary channels with both code books.
    #[must_use]
    pub fn new(channels: usize, state: S) -> (r: Self)
        ensures
            r.inner().channels() == channels,
            r.inner().books() == both_books(),
            r.inner().carried() == fresh(state),
    {
        CoreStreamDecoder { decoder: SubframePcmDecoder::new(channels, state) }
    }

    /// The number of primary channels.
    #[must_use]
    pub fn channel_count(&self) -> (r: usize)
        ensures
            r == self.inner().channels(),
    {
        self.decoder.channel_count()
    }

    /// The subframe decoder of the stream.
    #[must_use]
    pub fn subframe_decoder(&self) -> (r: &SubframePcmDecoder<S>)
        ensures
            *r == self.inner(),
    {
        &self.decoder
    }

    /// Attaches other code books.
    pub fn set_vq_codebooks(&mut self, books: VqCodebooks)
        ensures
            final(self).inner().books() == books,
            final(self).inner().channels() == old(self).inner().channels(),
            final(self).inner().carried() == old(self).inner().carried(),
    {
        self.decoder.set_vq_codebooks(books);
    }

    /// The attached code books.
    #[must_use]
    pub fn vq_codebooks(&self) -> (r: &VqCodebooks)
        ensures
            *r == self.inner().books(),
    {
        self.decoder.vq_codebooks()
    }

    /// The low-frequency-effects samples of the last frame, which are forgotten
    /// by this.
    #[must_use]
    pub fn take_last_lfe_pcm(&mut self) -> (r: Vec<i32>)
        ensures
            r@ == old(self).inner().carried().lfe,
            final(self).inner().set_up_like(&old(self).inner()),
            final(self).inner().carried() == fresh(old(self).inner().carried().state),
    {
        self.decoder.take_last_lfe_pcm()
    }

    /// Decodes the next frame, with what the filters carry from the one before.
    pub fn decode_frame<T: Copy, H, L, A, Q, P, U, M, I, E, C, G>(
        &mut self,
        bytes: &[u8],
        header: &DtsFrameHeader,
        work: &FrameWorkers<SubframeWorkers<H, L, A, Q, P, U, M>, I, E, C, G>,
    ) -> (r: Result<SubframePcm, CoreFrameDecodeError>) where
        H: Fn(&[u8], usize, &SubframePlan) -> IndexReply,
        L: Fn(&S, &[u8], usize, u8, usize) -> LowReply<S>,
        A: Fn(&S, &[u8], usize, &AudioJob<'_>) -> AudioReply<S, T>,
        Q: Fn(&S, usize, &Vec<Vec<[T; 32]>>, &SubframePlan) -> SynthesisReply<S>,
        P: Fn(T, T) -> T,
        U: Fn(T, T) -> T,
        M: Fn(T, T) -> T,
        I: Fn(&[u8], usize, &AudioCodingHeader) -> SideReply,
        E: Fn(&[u8], usize, &AudioCodingHeader, &DtsFrameHeader) -> TailReply<T>,
        C: Fn(&S) -> S,
        G: Fn(i32, u8) -> i32,

        requires
            work.subframe.reliable::<S, T>(),
            work.frame_reliable::<S, T>(),
            8 * bytes@.len() <= usize::MAX,
        ensures
            final(self).inner().set_up_like(&old(self).inner()),
            pcm_decoded(
                work.subframe.behaviour::<S, T>(),
                work.frame_behaviour::<S, T>(),
                old(self).inner().channels(),
                old(self).inner().books(),
                bytes,
                *header,
                old(self).inner().carried(),
                r,
                final(self).inner().carried(),
            ),
    {
        self.decoder.decode_core_frame_into(bytes, header, work)
    }

    /// Decodes the next frame and reads the optional information behind its audio
    /// data.
    pub fn decode_frame_with_info<T: Copy, D, N, H, L, A, Q, P, U, M, I, E, C, G>(
        &mut self,
        bytes: &[u8],
        header: &DtsFrameHeader,
        work: &FrameWorkers<SubframeWorkers<H, L, A, Q, P, U, M>, I, E, C, G>,
        info: &N,
    ) -> (r: Result<(SubframePcm, D), CoreFrameDecodeError>) where
        N: Fn(&[u8], usize, &DtsFrameHeader) -> Result<(D, usize), Error>,
        H: Fn(&[u8], usize, &SubframePlan) -> IndexReply,
        L: Fn(&S, &[u8], usize, u8, usize) -> LowReply<S>,
        A: Fn(&S, &[u8], usize, &AudioJob<'_>) -> AudioReply<S, T>,
        Q: Fn(&S, usize, &Vec<Vec<[T; 32]>>, &SubframePlan) -> SynthesisReply<S>,
        P: Fn(T, T) -> T,
        U: Fn(T, T) -> T,
        M: Fn(T, T) -> T,
        I: Fn(&[u8], usize, &AudioCodingHeader) -> SideReply,
        E: Fn(&[u8], usize, &AudioCodingHeader, &DtsFrameHeader) -> TailReply<T>,
        C: Fn(&S) -> S,
        G: Fn(i32, u8) -> i32,

        requires
            work.subframe.reliable::<S, T>(),
            work.frame_reliable::<S, T>(),
            forall|a: (&[u8], usize, &DtsFrameHeader)| #[trigger] info.requires(a),
            8 * bytes@.len() <= usize::MAX,
        ensures
            final(self).inner().set_up_like(&old(self).inner()),
            pcm_and_info_decoded(
                work.subframe.behaviour::<S, T>(),
                work.frame_behaviour::<S, T>(),
                *info,
                old(self).inner().channels(),
                old(self).inner().books(),
                bytes,
                *header,
                old(self).inner().carried(),
                r,
                final(self).inner().carried(),
            ),
    {
        self.decoder.decode_core_frame_with_info_into(bytes, header, work, info)
    }
}

} // verus!
