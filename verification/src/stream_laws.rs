//! Laws on streams of frames: frames that are decoded by themselves, the information
//! behind a frame, and what a handle gives and keeps.

use crate::audio_header::audio_coding_header;
use crate::core_frame::core_frame_decoded;
use crate::decoder::Carried;
use crate::error::Error;
use crate::handle::{plane_bytes, received, OutputFrame, ReceiveError, StreamView};
use crate::header::DtsFrameHeader;
use crate::stream::{
    decoded_alone, decoded_alone_with_info, lone_frame, lone_frame_with_info, pcm_and_info_decoded,
    pcm_decoded,
};
use crate::subframe::VqCodebooks;
use crate::subframe_pcm::{CoreFrameDecodeError, SubframePcm};
use crate::workers::{FrameBehaviour, SubframeBehaviour};
use vstd::prelude::*;

verus! {

/// Gives the first bit behind the audio data of a frame a name.
pub open spec fn names_end(end: usize) -> bool {
    true
}

/// Gives what a new decoder starts with and what it carries on a name.
pub open spec fn names_start<S>(state: S, now: Carried<S>) -> bool {
    true
}

/// The samples of a frame are those that the walk through it gives, and its error is the
/// one of that walk.
pub proof fn law_samples_come_of_the_walk<'a, S, T>(
    b: SubframeBehaviour<'a, S, T>,
    fb: FrameBehaviour<'a, S, T>,
    channels: usize,
    books: VqCodebooks,
    bytes: &'a [u8],
    header: DtsFrameHeader,
    was: Carried<S>,
    r: Result<SubframePcm, CoreFrameDecodeError>,
    now: Carried<S>,
)
    requires
        pcm_decoded(b, fb, channels, books, bytes, header, was, r, now),
    ensures
        r matches Ok(pcm) ==> exists|end: usize| #[trigger]
            names_end(end) && core_frame_decoded(
                b,
                fb,
                channels,
                books,
                bytes,
                header,
                was,
                Ok((pcm, end)),
                now,
            ),
        r matches Err(e) ==> core_frame_decoded(
            b,
            fb,
            channels,
            books,
            bytes,
            header,
            was,
            Err(e),
            now,
        ),
{
    let full = choose|full: Result<(SubframePcm, usize), CoreFrameDecodeError>|
        {
            &&& #[trigger] core_frame_decoded(
                b,
                fb,
                channels,
                books,
                bytes,
                header,
                was,
                full,
                now,
            )
            &&& r == crate::stream::without_end(full)
        };
    match full {
        Ok((_, end)) => {
            assert(names_end(end));
        },
        Err(_) => {},
    }
}

/// Where a frame came out, the information is read from the first bit behind its audio
/// data, and nothing is read where it failed. The error is that of the walk, or that of
/// the reader of the information.
pub proof fn law_information_stands_behind_the_audio<'a, S, T, D, N>(
    b: SubframeBehaviour<'a, S, T>,
    fb: FrameBehaviour<'a, S, T>,
    info: N,
    channels: usize,
    books: VqCodebooks,
    bytes: &'a [u8],
    header: DtsFrameHeader,
    was: Carried<S>,
    r: Result<(SubframePcm, D), CoreFrameDecodeError>,
    now: Carried<S>,
) where N: Fn(&[u8], usize, &DtsFrameHeader) -> Result<(D, usize), Error>
    requires
        pcm_and_info_decoded(b, fb, info, channels, books, bytes, header, was, r, now),
    ensures
        match r {
            Ok((pcm, found)) => exists|end: usize, bits: usize|
                #![trigger names_end(end), names_end(bits)]
                core_frame_decoded(
                    b,
                    fb,
                    channels,
                    books,
                    bytes,
                    header,
                    was,
                    Ok((pcm, end)),
                    now,
                ) && info.ensures((bytes, end, &header), Ok((found, bits))),
            Err(e) => {
                ||| core_frame_decoded(b, fb, channels, books, bytes, header, was, Err(e), now)
                ||| e matches CoreFrameDecodeError::Bitstream(cause) && exists|
                    pcm: SubframePcm,
                    end: usize,
                |
                    #![trigger names_end(end), pcm@]
                    core_frame_decoded(
                        b,
                        fb,
                        channels,
                        books,
                        bytes,
                        header,
                        was,
                        Ok((pcm, end)),
                        now,
                    ) && info.ensures((bytes, end, &header), Err(cause))
            },
        },
{
    let (full, reply) = choose|
        full: Result<(SubframePcm, usize), CoreFrameDecodeError>,
        reply: Result<(D, usize), Error>,
    |
        {
            &&& #[trigger] core_frame_decoded(
                b,
                fb,
                channels,
                books,
                bytes,
                header,
                was,
                full,
                now,
            )
            &&& full matches Ok((_, end)) ==> info.ensures((bytes, end, &header), reply)
            &&& r == #[trigger] crate::stream::with_info(full, reply)
        };
    if let Ok((pcm, end)) = full {
        assert(info.ensures((bytes, end, &header), reply));
        assert(names_end(end) && pcm@ == pcm@);
        if let Ok((_, bits)) = reply {
            assert(names_end(bits));
        }
    }
}

/// A frame by itself is decoded for as many channels as its audio coding header has, with
/// both code books, from the state that a new decoder of so many channels starts with and
/// without low-frequency-effects samples. Where that header cannot be read, the frame
/// fails with the cause of it.
pub proof fn law_lone_frame_starts_anew<'a, S, T, B>(
    b: SubframeBehaviour<'a, S, T>,
    fb: FrameBehaviour<'a, S, T>,
    start: B,
    bytes: &'a [u8],
    header: DtsFrameHeader,
    r: Result<SubframePcm, CoreFrameDecodeError>,
) where B: Fn(usize) -> S
    requires
        lone_frame(b, fb, start, bytes, header, r),
    ensures
        match audio_coding_header(
            bytes@,
            if header.crc_present {
                120
            } else {
                104
            },
            header.crc_present,
        ) {
            Err(cause) => r == Err::<SubframePcm, CoreFrameDecodeError>(
                CoreFrameDecodeError::Bitstream(cause),
            ),
            Ok((coding, _)) => exists|state: S, now: Carried<S>|
                {
                    &&& #[trigger] names_start(state, now)
                    &&& start.ensures((coding.n_pchs as usize,), state)
                    &&& pcm_decoded(
                        b,
                        fb,
                        coding.n_pchs as usize,
                        VqCodebooks { hfreq: true, adpcm: true },
                        bytes,
                        header,
                        Carried { state, lfe: Seq::empty() },
                        r,
                        now,
                    )
                },
        },
{
    let off: int = if header.crc_present {
        120
    } else {
        104
    };
    assert(off == 8 * header.byte_length());
    if let Ok((coding, _)) = audio_coding_header(bytes@, off, header.crc_present) {
        let (state, now) = choose|state: S, now: Carried<S>| #[trigger]
            decoded_alone(b, fb, start, coding.n_pchs as usize, bytes, header, r, state, now);
        assert(names_start(state, now));
    }
}

/// A frame by itself with its information is decoded as one without, and the information
/// is read behind it.
pub proof fn law_lone_frame_with_information_starts_anew<'a, S, T, B, D, N>(
    b: SubframeBehaviour<'a, S, T>,
    fb: FrameBehaviour<'a, S, T>,
    start: B,
    info: N,
    bytes: &'a [u8],
    header: DtsFrameHeader,
    r: Result<(SubframePcm, D), CoreFrameDecodeError>,
) where B: Fn(usize) -> S, N: Fn(&[u8], usize, &DtsFrameHeader) -> Result<(D, usize), Error>
    requires
        lone_frame_with_info(b, fb, start, info, bytes, header, r),
    ensures
        match audio_coding_header(
            bytes@,
            if header.crc_present {
                120
            } else {
                104
            },
            header.crc_present,
        ) {
            Err(cause) => r == Err::<(SubframePcm, D), CoreFrameDecodeError>(
                CoreFrameDecodeError::Bitstream(cause),
            ),
            Ok((coding, _)) => exists|state: S, now: Carried<S>|
                {
                    &&& #[trigger] names_start(state, now)
                    &&& start.ensures((coding.n_pchs as usize,), state)
                    &&& pcm_and_info_decoded(
                        b,
                        fb,
                        info,
                        coding.n_pchs as usize,
                        VqCodebooks { hfreq: true, adpcm: true },
                        bytes,
                        header,
                        Carried { state, lfe: Seq::empty() },
                        r,
                        now,
                    )
                },
        },
{
    let off: int = if header.crc_present {
        120
    } else {
        104
    };
    assert(off == 8 * header.byte_length());
    if let Ok((coding, _)) = audio_coding_header(bytes@, off, header.crc_present) {
        let (state, now) = choose|state: S, now: Carried<S>| #[trigger]
            decoded_alone_with_info(
                b,
                fb,
                start,
                info,
                coding.n_pchs as usize,
                bytes,
                header,
                r,
                state,
                now,
            );
        assert(names_start(state, now));
    }
}

/// A frame that a handle gives out has the time stamp of its packet, as many samples as
/// its first plane, and the bytes of every channel in order, with those of the
/// low-frequency-effects samples behind them, where there are any. The stream goes on
/// with as many channels, the same code books and the state behind the frame. A frame
/// that fails gives its error out and leaves no stream.
pub proof fn law_what_a_handle_gives_and_keeps<'a, S, T>(
    b: SubframeBehaviour<'a, S, T>,
    fb: FrameBehaviour<'a, S, T>,
    bytes: &'a [u8],
    header: DtsFrameHeader,
    pts: i64,
    stream: StreamView<S>,
    decoded: Result<SubframePcm, CoreFrameDecodeError>,
    now: Carried<S>,
    r: Result<OutputFrame, ReceiveError>,
    left: Option<StreamView<S>>,
    ch: int,
)
    requires
        received(b, fb, bytes, header, pts, stream, decoded, now, r, left),
        decoded matches Ok(pcm) ==> 0 <= ch < pcm@.len(),
    ensures
        pcm_decoded(
            b,
            fb,
            stream.channels,
            stream.books,
            bytes,
            header,
            stream.carried,
            decoded,
            now,
        ),
        match decoded {
            Ok(pcm) => {
                &&& r matches Ok(frame)
                &&& frame.pts == pts
                &&& frame.samples == pcm@[0]@.len() as int % 0x1_0000_0000
                &&& frame.data@[ch]@ == plane_bytes(pcm@[ch]@)
                &&& frame.data@.len() == pcm@.len() + (if now.lfe.len() > 0 {
                    1int
                } else {
                    0int
                })
                &&& now.lfe.len() > 0 ==> frame.data@[pcm@.len() as int]@ == plane_bytes(now.lfe)
                &&& left matches Some(kept)
                &&& kept.channels == stream.channels
                &&& kept.books == stream.books
                &&& kept.carried.state == now.state
                &&& kept.carried.lfe.len() == 0
            },
            Err(e) => r == Err::<OutputFrame, ReceiveError>(ReceiveError::Decode(e))
                && left is None,
        },
{
    if let Ok(pcm) = decoded {
        let frame: OutputFrame = r.unwrap();
        crate::handle::law_output_holds_every_plane(
            pcm@,
            now.lfe,
            frame.samples,
            frame.data@,
            ch,
        );
    }
}

} // verus!
