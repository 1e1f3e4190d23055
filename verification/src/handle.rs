//! The decoder handle behind a codec registry: what it keeps of a packet, when
//! it has a frame to give, and what the frame looks like.

use crate::audio_header::{audio_coding_header, decode_audio_coding_header_at, AudioCodingHeader};
use crate::bits::zero_padded;
use crate::decoder::Carried;
use crate::error::Error;
use crate::header::{DtsFrameHeader, SyncWordEncoding};
use crate::header_codec::{detect_sync, parse_frame_header, parsed, raw_big_endian_sync, sync_of};
use crate::header_laws::{law_only_fifteen_bytes_count, lemma_packed_stream_sync};
use crate::stream::{both_books, fresh, pcm_decoded, CoreStreamDecoder};
use crate::subframe::VqCodebooks;
use crate::subframe_pcm::{CoreFrameDecodeError, SubframePcm, SubframePlan};
use crate::unpack14::{
    container_count, law_unpack_undoes_pack, packed, unpack_14bit_to_16bit, unpacked,
    FourteenBitByteOrder,
};
use crate::workers::{
    AudioJob, AudioReply, FrameBehaviour, FrameWorkers, IndexReply, LowReply, SideReply,
    SubframeBehaviour, SubframeWorkers, SynthesisReply, TailReply,
};
use vstd::prelude::*;
use vstd::slice::slice_to_vec;

verus! {

/// The decoder handle: it takes packets in and gives frames out.
#[derive(Debug, Clone)]
pub struct DtsDecoderHandle<S> {
    last_header: Option<DtsFrameHeader>,
    last_frame_bytes: Option<Vec<u8>>,
    last_pts: i64,
    stream: Option<CoreStreamDecoder<S>>,
    eof: bool,
}

/// A running stream.
#[verifier::ext_equal]
pub struct StreamView<S> {
    /// The number of channels.
    pub channels: usize,
    /// The attached code books.
    pub books: VqCodebooks,
    /// What is carried from frame to frame.
    pub carried: Carried<S>,
}

/// A stream decoder as a running stream.
pub open spec fn stream_view<S>(stream: CoreStreamDecoder<S>) -> StreamView<S> {
    StreamView {
        channels: stream.inner().channels(),
        books: stream.inner().books(),
        carried: stream.inner().carried(),
    }
}

/// The state of a handle.
#[verifier::ext_equal]
pub struct HandleView<S> {
    /// The header of the packet that waits to be decoded.
    pub header: Option<DtsFrameHeader>,
    /// The raw 16-bit bytes of that packet.
    pub bytes: Option<Seq<u8>>,
    /// The time of the last packet.
    pub pts: i64,
    /// The running stream.
    pub stream: Option<StreamView<S>>,
    /// Whether the end of the stream was announced.
    pub eof: bool,
}

impl<S> View for DtsDecoderHandle<S> {
    type V = HandleView<S>;

    closed spec fn view(&self) -> HandleView<S> {
        HandleView {
            header: self.last_header,
            bytes: match self.last_frame_bytes {
                Some(bytes) => Some(bytes@),
                None => None,
            },
            pts: self.last_pts,
            stream: match self.stream {
                Some(stream) => Some(stream_view(stream)),
                None => None,
            },
            eof: self.eof,
        }
    }
}

/// The raw 16-bit bytes and the header of a packet, or why it has none.
pub open spec fn packet_frame(s: Seq<u8>) -> Result<(Seq<u8>, DtsFrameHeader), Error> {
    match sync_of(s) {
        Err(e) => Err(e),
        Ok(sync) => match FourteenBitByteOrder::of_sync(sync) {
            None => match parsed(s) {
                Err(e) => Err(e),
                Ok(header) => Ok((s, header)),
            },
            Some(order) => if s.len() % 2 == 1 {
                Err(Error::UnexpectedEof)
            } else {
                match parsed(unpacked(s, order)) {
                    Err(e) => Err(e),
                    Ok(header) => Ok((unpacked(s, order), header)),
                }
            },
        },
    }
}

/// Why a handle has no frame to give.
#[derive(Debug, Clone, Copy, PartialEq, Eq)]
pub enum ReceiveError {
    /// A packet has to come first.
    NeedMore,
    /// The stream has ended.
    Eof,
    /// There is a header without a frame.
    NoPayload,
    /// The audio coding header of the frame cannot be read.
    BadFrame(Error),
    /// The frame cannot be decoded.
    Decode(CoreFrameDecodeError),
}

/// A frame of planar samples, each of them four bytes with the lowest first.
#[derive(Debug, Clone, PartialEq, Eq)]
pub struct OutputFrame {
    /// The samples per channel.
    pub samples: u32,
    /// The time of the frame.
    pub pts: i64,
    /// The bytes of each plane.
    pub data: Vec<Vec<u8>>,
}

/// The number of primary channels of a frame, or why it cannot be told.
pub open spec fn frame_channels(s: Seq<u8>, header: DtsFrameHeader) -> Result<nat, Error> {
    match audio_coding_header(s, 8 * header.byte_length() as int, header.crc_present) {
        Ok((coding, bits)) => Ok(coding.n_pchs),
        Err(e) => Err(e),
    }
}

/// The number of primary channels of a frame.
pub fn frame_channel_count(bytes: &[u8], header: &DtsFrameHeader) -> (r: Result<usize, Error>)
    requires
        8 * bytes@.len() <= usize::MAX,
    ensures
        match r {
            Ok(n) => frame_channels(bytes@, *header) == Ok::<nat, Error>(n as nat),
            Err(e) => frame_channels(bytes@, *header) == Err::<nat, Error>(e),
        },
{
    let header_bits: usize = header.header_bit_length() as usize;
    match decode_audio_coding_header_at(bytes, header_bits, header.crc_present) {
        Ok((coding, _)) => Ok(coding.n_pchs),
        Err(e) => Err(e),
    }
}

/// The stream that a frame of `channels` channels belongs to: the running one, or
/// a new one where there is none or it has another number of channels.
pub open spec fn continues<S, B: Fn(usize) -> S>(
    start: B,
    running: Option<StreamView<S>>,
    channels: usize,
    stream: StreamView<S>,
) -> bool {
    match running {
        Some(running) if running.channels == channels => stream == running,
        _ => {
            &&& stream.channels == channels
            &&& stream.books == both_books()
            &&& stream.carried.lfe == Seq::<i32>::empty()
            &&& start.ensures((channels,), stream.carried.state)
        },
    }
}

/// A frame has been decoded on from `stream`, or has failed and left no stream.
pub open spec fn received<S, T>(
    b: SubframeBehaviour<'_, S, T>,
    fb: FrameBehaviour<'_, S, T>,
    bytes: &[u8],
    header: DtsFrameHeader,
    pts: i64,
    stream: StreamView<S>,
    decoded: Result<SubframePcm, CoreFrameDecodeError>,
    now: Carried<S>,
    r: Result<OutputFrame, ReceiveError>,
    left: Option<StreamView<S>>,
) -> bool {
    &&& pcm_decoded(
        b,
        fb,
        stream.channels,
        stream.books,
        bytes,
        header,
        stream.carried,
        decoded,
        now,
    )
    &&& match decoded {
        Ok(pcm) => {
            &&& r matches Ok(frame) && frame.pts == pts && is_output(
                output_planes(pcm@, now.lfe),
                frame.samples,
                frame.data@,
            )
            &&& left == Some(StreamView { carried: fresh(now.state), ..stream })
        },
        Err(e) => r == Err::<OutputFrame, ReceiveError>(ReceiveError::Decode(e)) && left is None,
    }
}

impl<S> DtsDecoderHandle<S> {
    /// A handle that has seen nothing.
    pub fn new() -> (r: Self)
        ensures
            r@ == (HandleView::<S> {
                header: None,
                bytes: None,
                pts: 0,
                stream: None,
                eof: false,
            }),
    {
        DtsDecoderHandle {
            last_header: None,
            last_frame_bytes: None,
            last_pts: 0,
            stream: None,
            eof: false,
        }
    }

    /// The header of the packet that waits to be decoded.
    pub fn last_header(&self) -> (r: Option<&DtsFrameHeader>)
        ensures
            match r {
                Some(header) => self@.header == Some(*header),
                None => self@.header is None,
            },
    {
        match &self.last_header {
            Some(header) => Some(header),
            None => None,
        }
    }

    /// The time of the last packet.
    pub fn last_pts(&self) -> (r: i64)
        ensures
            r == self@.pts,
    {
        self.last_pts
    }

    /// Takes in a packet and reads its header. A packet that has none changes
    /// nothing. A packet without a time counts as time zero.
    pub fn send_packet(&mut self, data: &[u8], pts: Option<i64>) -> (r: Result<(), Error>)
        requires
            8 * data@.len() <= usize::MAX,
        ensures
            match packet_frame(data@) {
                Ok((bytes, header)) => {
                    &&& r is Ok
                    &&& final(self)@ == (HandleView {
                        header: Some(header),
                        bytes: Some(bytes),
                        pts: match pts {
                            Some(t) => t,
                            None => 0,
                        },
                        ..old(self)@
                    })
                },
                Err(e) => r == Err::<(), Error>(e) && final(self)@ == old(self)@,
            },
    {
        let sync = detect_sync(data)?;
        let bytes: Vec<u8> = match FourteenBitByteOrder::from_sync(sync) {
            None => slice_to_vec(data),
            Some(order) => unpack_14bit_to_16bit(data, order)?,
        };
        let header = parse_frame_header(bytes.as_slice())?;
        self.last_frame_bytes = Some(bytes);
        self.last_header = Some(header);
        self.last_pts = match pts {
            Some(t) => t,
            None => 0,
        };
        Ok(())
    }

    /// Decodes the frame of the last packet, which the handle no longer keeps. The
    /// stream runs on, unless the number of channels changes or the frame fails.
    pub fn receive_frame<T: Copy, B, H, L, A, Q, P, U, M, I, E, C, G>(
        &mut self,
        start: &B,
        work: &FrameWorkers<SubframeWorkers<H, L, A, Q, P, U, M>, I, E, C, G>,
    ) -> (r: Result<OutputFrame, ReceiveError>) where
        H: Fn(&[u8], usize, &SubframePlan) -> IndexReply,
        L: Fn(&S, &[u8], usize, u8, usize) -> LowReply<S>,
        A: Fn(&S, &[u8], usize, &AudioJob<'_>) -> AudioReply<S, T>,
        Q: Fn(&S, usize, &Vec<Vec<[T; 32]>>, &SubframePlan) -> SynthesisReply<S>,
        P: Fn(T, T) -> T,
        U: Fn(T, T) -> T,
        M: Fn(T, T) -> T,
        I: Fn(&[u8], usize, &AudioCodingHeader) -> SideReply,
        E: Fn(&[u8], usize, &AudioCodingHeader, &DtsFrameHeader) -> TailReply<T>,
        C: Fn(&S) -> S,
        G: Fn(i32, u8) -> i32,
        B: Fn(usize) -> S,

        requires
            work.subframe.reliable::<S, T>(),
            work.frame_reliable::<S, T>(),
            forall|channels: usize| #[trigger] start.requires((channels,)),
            old(self)@.bytes matches Some(bytes) ==> 8 * bytes.len() <= usize::MAX,
        ensures
            final(self)@.pts == old(self)@.pts,
            final(self)@.eof == old(self)@.eof,
            final(self)@.header is None,
            match old(self)@.header {
                None => {
                    &&& r == Err::<OutputFrame, ReceiveError>(
                        if old(self)@.eof {
                            ReceiveError::Eof
                        } else {
                            ReceiveError::NeedMore
                        },
                    )
                    &&& final(self)@ == old(self)@
                },
                Some(header) => {
                    &&& final(self)@.bytes is None
                    &&& match old(self)@.bytes {
                        None => {
                            &&& r == Err::<OutputFrame, ReceiveError>(ReceiveError::NoPayload)
                            &&& final(self)@.stream == old(self)@.stream
                        },
                        Some(bytes) => match frame_channels(bytes, header) {
                            Err(e) => {
                                &&& r == Err::<OutputFrame, ReceiveError>(
                                    ReceiveError::BadFrame(e),
                                )
                                &&& final(self)@.stream == old(self)@.stream
                            },
                            Ok(channels) => exists|
                                frame: &[u8],
                                stream: StreamView<S>,
                                decoded: Result<SubframePcm, CoreFrameDecodeError>,
                                now: Carried<S>,
                            |
                                {
                                    &&& frame@ == bytes
                                    &&& continues(
                                        *start,
                                        old(self)@.stream,
                                        channels as usize,
                                        stream,
                                    )
                                    &&& #[trigger] received(
                                        work.subframe.behaviour::<S, T>(),
                                        work.frame_behaviour::<S, T>(),
                                        frame,
                                        header,
                                        old(self)@.pts,
                                        stream,
                                        decoded,
                                        now,
                                        r,
                                        final(self)@.stream,
                                    )
                                },
                        },
                    }
                },
            },
    {
        let header: DtsFrameHeader = match self.last_header {
            Some(header) => header,
            None => {
                return if self.eof {
                    Err(ReceiveError::Eof)
                } else {
                    Err(ReceiveError::NeedMore)
                };
            },
        };
        self.last_header = None;
        let bytes: Vec<u8> = match self.last_frame_bytes.take() {
            Some(bytes) => bytes,
            None => {
                return Err(ReceiveError::NoPayload);
            },
        };
        let frame: &[u8] = bytes.as_slice();
        let channels: usize = match frame_channel_count(frame, &header) {
            Ok(channels) => channels,
            Err(e) => {
                return Err(ReceiveError::BadFrame(e));
            },
        };
        let running: Option<CoreStreamDecoder<S>> = self.stream.take();
        let mut stream: CoreStreamDecoder<S> = match running {
            Some(stream) if stream.channel_count() == channels => stream,
            _ => CoreStreamDecoder::new(channels, (*start)(channels)),
        };
        let ghost begun: StreamView<S> = stream_view(stream);
        assert(continues(*start, old(self)@.stream, channels, begun));
        let decoded: Result<SubframePcm, CoreFrameDecodeError> = stream.decode_frame(
            frame,
            &header,
            work,
        );
        let ghost now: Carried<S> = stream.inner().carried();
        let ghost given: Result<SubframePcm, CoreFrameDecodeError> = decoded;
        let pcm: SubframePcm = match decoded {
            Ok(pcm) => pcm,
            Err(e) => {
                let r: Result<OutputFrame, ReceiveError> = Err(ReceiveError::Decode(e));
                assert(received(
                    work.subframe.behaviour::<S, T>(),
                    work.frame_behaviour::<S, T>(),
                    frame,
                    header,
                    old(self)@.pts,
                    begun,
                    given,
                    now,
                    r,
                    self@.stream,
                ));
                return r;
            },
        };
        let lfe: Vec<i32> = stream.take_last_lfe_pcm();
        self.stream = Some(stream);
        let (samples, data): (u32, Vec<Vec<u8>>) = planar_s32(&pcm, &lfe);
        let r: Result<OutputFrame, ReceiveError> = Ok(
            OutputFrame { samples, pts: self.last_pts, data },
        );
        assert(received(
            work.subframe.behaviour::<S, T>(),
            work.frame_behaviour::<S, T>(),
            frame,
            header,
            old(self)@.pts,
            begun,
            given,
            now,
            r,
            self@.stream,
        ));
        r
    }

    /// The end of the stream.
    pub fn flush(&mut self)
        ensures
            final(self)@ == (HandleView { eof: true, ..old(self)@ }),
    {
        self.eof = true;
    }

    /// Forgets everything.
    pub fn reset(&mut self)
        ensures
            final(self)@ == (HandleView::<S> {
                header: None,
                bytes: None,
                pts: 0,
                stream: None,
                eof: false,
            }),
    {
        self.last_header = None;
        self.last_frame_bytes = None;
        self.last_pts = 0;
        self.stream = None;
        self.eof = false;
    }
}

/// A sample as an unsigned number: a negative one counts down from two to the 32.
pub open spec fn unsigned(v: i32) -> nat {
    if v >= 0 {
        v as nat
    } else {
        (v + 0x1_0000_0000) as nat
    }
}

/// The four bytes of a sample, the lowest first.
pub open spec fn sample_bytes(v: i32) -> Seq<u8> {
    let u: nat = unsigned(v);
    seq![
        (u % 256) as u8,
        ((u / 256) % 256) as u8,
        ((u / 65536) % 256) as u8,
        (u / 16777216) as u8,
    ]
}

/// The bytes of a plane of samples.
pub open spec fn plane_bytes(plane: Seq<i32>) -> Seq<u8>
    decreases plane.len(),
{
    if plane.len() == 0 {
        Seq::empty()
    } else {
        plane_bytes(plane.drop_last()) + sample_bytes(plane.last())
    }
}

/// The bytes of a plane of samples.
fn plane_to_bytes(plane: &Vec<i32>) -> (r: Vec<u8>)
    ensures
        r@ == plane_bytes(plane@),
{
    let mut out: Vec<u8> = Vec::new();
    let mut i: usize = 0;
    assert(plane@.subrange(0, 0) =~= Seq::<i32>::empty());
    while i < plane.len()
        invariant
            i <= plane@.len(),
            out@ == plane_bytes(plane@.subrange(0, i as int)),
        decreases plane@.len() - i,
    {
        let v: i32 = plane[i];
        let u: u32 = if v >= 0 {
            v as u32
        } else {
            (v as i64 + 0x1_0000_0000) as u32
        };
        let ghost before: Seq<u8> = out@;
        out.push((u % 256) as u8);
        out.push(((u / 256) % 256) as u8);
        out.push(((u / 65536) % 256) as u8);
        out.push((u / 16777216) as u8);
        proof {
            let done: Seq<i32> = plane@.subrange(0, i + 1);
            assert(done.drop_last() =~= plane@.subrange(0, i as int));
            assert(done.last() == v);
            assert(out@ =~= before + sample_bytes(v));
        }
        i = i + 1;
    }
    assert(plane@.subrange(0, i as int) =~= plane@);
    out
}

/// The planes of a frame, the low-frequency-effects samples behind the others
/// where there are any.
pub open spec fn output_planes(pcm: Seq<Vec<i32>>, lfe: Seq<i32>) -> Seq<Seq<i32>> {
    let primary: Seq<Seq<i32>> = Seq::new(pcm.len(), |ch: int| pcm[ch]@);
    if lfe.len() > 0 {
        primary.push(lfe)
    } else {
        primary
    }
}

/// The samples per channel and the bytes of each plane are those of `planes`.
pub open spec fn is_output(planes: Seq<Seq<i32>>, samples: u32, data: Seq<Vec<u8>>) -> bool {
    &&& data.len() == planes.len()
    &&& forall|ch: int|
        0 <= ch < planes.len() ==> (#[trigger] data[ch])@ == plane_bytes(planes[ch])
    &&& samples == (if planes.len() > 0 {
        planes[0].len() as int % 0x1_0000_0000
    } else {
        0
    })
}

/// The samples per channel and the bytes of each plane of a decoded frame.
pub fn planar_s32(pcm: &Vec<Vec<i32>>, lfe: &Vec<i32>) -> (r: (u32, Vec<Vec<u8>>))
    ensures
        is_output(output_planes(pcm@, lfe@), r.0, r.1@),
{
    let ghost planes: Seq<Seq<i32>> = output_planes(pcm@, lfe@);
    let mut data: Vec<Vec<u8>> = Vec::new();
    let mut ch: usize = 0;
    while ch < pcm.len()
        invariant
            ch <= pcm@.len(),
            data@.len() == ch,
            planes == output_planes(pcm@, lfe@),
            forall|c: int| 0 <= c < ch ==> (#[trigger] data@[c])@ == plane_bytes(planes[c]),
        decreases pcm@.len() - ch,
    {
        data.push(plane_to_bytes(&pcm[ch]));
        ch = ch + 1;
    }
    let first: usize = if pcm.len() > 0 {
        pcm[0].len()
    } else {
        lfe.len()
    };
    if lfe.len() > 0 {
        data.push(plane_to_bytes(lfe));
    }
    let samples: u32 = (first as u64 % 0x1_0000_0000) as u32;
    (samples, data)
}

/// A plane takes four bytes for each sample.
pub proof fn law_plane_bytes_length(plane: Seq<i32>)
    ensures
        plane_bytes(plane).len() == 4 * plane.len(),
    decreases plane.len(),
{
    if plane.len() > 0 {
        law_plane_bytes_length(plane.drop_last());
    }
}

/// The four bytes of a sample tell the sample.
pub proof fn law_sample_bytes_tell_the_sample(a: i32, b: i32)
    requires
        sample_bytes(a) == sample_bytes(b),
    ensures
        a == b,
{
    let x: nat = unsigned(a);
    let y: nat = unsigned(b);
    let p: Seq<u8> = sample_bytes(a);
    let q: Seq<u8> = sample_bytes(b);
    assert(p[0] == q[0] && p[1] == q[1] && p[2] == q[2] && p[3] == q[3]);
    lemma_four_bytes(x);
    lemma_four_bytes(y);
}

proof fn lemma_four_bytes(x: nat)
    requires
        x < 0x1_0000_0000,
    ensures
        x == x % 256 + 256 * ((x / 256) % 256) + 65536 * ((x / 65536) % 256) + 16777216 * (x
            / 16777216),
        x / 16777216 < 256,
{
    assert(x / 65536 == (x / 256) / 256);
    assert(x / 16777216 == (x / 65536) / 256);
}

/// A packet in 14-bit containers is kept as the raw frame that it carries: its
/// header is the one of the payload.
pub proof fn law_packed_packet_is_kept_raw(s: Seq<u8>, order: FourteenBitByteOrder)
    requires
        s.len() % 2 == 0,
        sync_of(s) matches Ok(sync) && FourteenBitByteOrder::of_sync(sync) == Some(order),
    ensures
        match parsed(unpacked(s, order)) {
            Ok(header) => packet_frame(s) == Ok::<(Seq<u8>, DtsFrameHeader), Error>(
                (unpacked(s, order), header),
            ),
            Err(e) => packet_frame(s) == Err::<(Seq<u8>, DtsFrameHeader), Error>(e),
        },
{
}

/// A raw big-endian frame that was packed into 14-bit containers of either byte
/// order is kept as it was before, with zero bytes behind it, and with the same
/// header.
pub proof fn law_packing_does_not_change_a_packet(
    s: Seq<u8>,
    order: FourteenBitByteOrder,
    header: DtsFrameHeader,
)
    requires
        raw_big_endian_sync(s),
        parsed(s) == Ok::<DtsFrameHeader, Error>(header),
    ensures
        packet_frame(s) == Ok::<(Seq<u8>, DtsFrameHeader), Error>((s, header)),
        packet_frame(packed(s, order)) == Ok::<(Seq<u8>, DtsFrameHeader), Error>(
            (zero_padded(s, ((14 * container_count(s.len()) + 7) / 8) as nat), header),
        ),
{
    let t: Seq<u8> = packed(s, order);
    let n: nat = ((14 * container_count(s.len()) + 7) / 8) as nat;
    lemma_packed_stream_sync(s, order, Seq::empty());
    assert(t + Seq::<u8>::empty() =~= t);
    law_unpack_undoes_pack(s, order);
    assert(n >= s.len());
    law_only_fifteen_bytes_count(s, zero_padded(s, n));
}

/// A plane is its samples in order, each in four bytes with the lowest first: byte `j` of
/// sample `i` tells the eight bits that lie `8 * j` bits up in the sample, taken as a
/// number of 32 bits.
pub proof fn law_plane_bytes_by_sample(plane: Seq<i32>, i: int)
    requires
        0 <= i < plane.len(),
    ensures
        plane_bytes(plane).len() == 4 * plane.len(),
        ({
            let number: int = if plane[i] >= 0 {
                plane[i] as int
            } else {
                plane[i] + 0x1_0000_0000
            };
            &&& plane_bytes(plane)[4 * i] == number % 0x100
            &&& plane_bytes(plane)[4 * i + 1] == (number / 0x100) % 0x100
            &&& plane_bytes(plane)[4 * i + 2] == (number / 0x1_0000) % 0x100
            &&& plane_bytes(plane)[4 * i + 3] == (number / 0x100_0000) % 0x100
        }),
    decreases plane.len(),
{
    law_plane_bytes_length(plane);
    law_plane_bytes_length(plane.drop_last());
    lemma_four_bytes(unsigned(plane[i]));
    if i < plane.len() - 1 {
        law_plane_bytes_by_sample(plane.drop_last(), i);
    }
}

/// The planes of a frame are those of its channels in order, with the
/// low-frequency-effects samples behind them, where there are any, and its number of
/// samples is that of the first plane, taken as a number of 32 bits.
pub proof fn law_output_holds_every_plane(
    pcm: Seq<Vec<i32>>,
    lfe: Seq<i32>,
    samples: u32,
    data: Seq<Vec<u8>>,
    ch: int,
)
    requires
        is_output(output_planes(pcm, lfe), samples, data),
        0 <= ch < pcm.len(),
    ensures
        samples == pcm[0]@.len() as int % 0x1_0000_0000,
        data[ch]@ == plane_bytes(pcm[ch]@),
        lfe.len() == 0 ==> data.len() == pcm.len(),
        lfe.len() > 0 ==> data.len() == pcm.len() + 1 && data[pcm.len() as int]@ == plane_bytes(
            lfe,
        ),
{
    let all: Seq<Seq<i32>> = output_planes(pcm, lfe);
    assert(all[ch] == pcm[ch]@ && all[0] == pcm[0]@);
    assert(data[ch]@ == plane_bytes(all[ch]));
    if lfe.len() > 0 {
        assert(all[pcm.len() as int] == lfe);
        assert(data[pcm.len() as int]@ == plane_bytes(all[pcm.len() as int]));
    }
}

/// A frame goes on with the running stream where that has as many channels, and else
/// starts a new one with both code books and nothing carried.
pub proof fn law_streams_go_on_by_channels<S, B: Fn(usize) -> S>(
    start: B,
    running: Option<StreamView<S>>,
    channels: usize,
    stream: StreamView<S>,
)
    requires
        continues(start, running, channels, stream),
    ensures
        stream.channels == channels,
        running matches Some(r) ==> (r.channels == channels ==> stream == r),
        running is None || running.unwrap().channels != channels ==> {
            &&& stream.books.hfreq && stream.books.adpcm
            &&& stream.carried.lfe.len() == 0
            &&& start.ensures((channels,), stream.carried.state)
        },
{
}

/// What a packet keeps: a raw frame as it is, and of a packed one its payload. Its header
/// is that of what it keeps.
pub proof fn law_what_a_packet_keeps(s: Seq<u8>, kept: Seq<u8>, header: DtsFrameHeader)
    requires
        packet_frame(s) == Ok::<(Seq<u8>, DtsFrameHeader), Error>((kept, header)),
    ensures
        parsed(kept) == Ok::<DtsFrameHeader, Error>(header),
        sync_of(s) is Ok,
        sync_of(s)->Ok_0.raw() ==> kept == s,
        sync_of(s) == Ok::<SyncWordEncoding, Error>(SyncWordEncoding::FourteenBitBigEndian)
            ==> s.len() % 2 == 0 && kept == unpacked(s, FourteenBitByteOrder::BigEndian),
        sync_of(s) == Ok::<SyncWordEncoding, Error>(SyncWordEncoding::FourteenBitLittleEndian)
            ==> s.len() % 2 == 0 && kept == unpacked(s, FourteenBitByteOrder::LittleEndian),
{
}

/// A packet that is refused is refused with the error of its sync sequence, or with that
/// of the header in what would be kept of it; a packed packet of an odd length ends too
/// early.
pub proof fn law_why_packets_are_refused(s: Seq<u8>, e: Error)
    requires
        packet_frame(s) == Err::<(Seq<u8>, DtsFrameHeader), Error>(e),
    ensures
        match sync_of(s) {
            Err(cause) => e == cause,
            Ok(SyncWordEncoding::FourteenBitBigEndian) => if s.len() % 2 == 1 {
                e == Error::UnexpectedEof
            } else {
                parsed(unpacked(s, FourteenBitByteOrder::BigEndian)) == Err::<
                    DtsFrameHeader,
                    Error,
                >(e)
            },
            Ok(SyncWordEncoding::FourteenBitLittleEndian) => if s.len() % 2 == 1 {
                e == Error::UnexpectedEof
            } else {
                parsed(unpacked(s, FourteenBitByteOrder::LittleEndian)) == Err::<
                    DtsFrameHeader,
                    Error,
                >(e)
            },
            Ok(_) => parsed(s) == Err::<DtsFrameHeader, Error>(e),
        },
{
}

/// The channels of a frame are those of the audio coding header behind its header.
pub proof fn law_channels_are_those_of_the_coding_header(s: Seq<u8>, header: DtsFrameHeader)
    ensures
        match audio_coding_header(
            s,
            if header.crc_present {
                120
            } else {
                104
            },
            header.crc_present,
        ) {
            Ok((coding, _)) => frame_channels(s, header) == Ok::<nat, Error>(coding.n_pchs),
            Err(e) => frame_channels(s, header) == Err::<nat, Error>(e),
        },
{
}

} // verus!
