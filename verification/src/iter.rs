//! Walking a byte buffer: sync scanning and the frame iterators.

use crate::error::Error;
use crate::header::{DtsFrameHeader, SyncWordEncoding};
use crate::header_codec::{
    detect_sync, parse_frame_header, parse_frame_header_14bit, parsed, parsed_14bit, sync_of,
};
use crate::rev2_aux::{
    last_rev2_candidate, parse_rev2_aux, rev2_aux_at, rev2_candidate, Rev2AuxChunk, Rev2AuxView,
};
use vstd::prelude::*;
use vstd::slice::slice_subrange;

verus! {

/// A sync sequence that was found.
#[derive(Debug, Clone, Copy, PartialEq, Eq, Structural)]
pub struct SyncMatch {
    /// The byte offset of the sequence.
    pub offset: usize,
    /// Which of the four sequences it is.
    pub encoding: SyncWordEncoding,
}

impl SyncMatch {
    /// The length of the sequence in bytes.
    pub fn sync_byte_length(&self) -> (r: usize)
        ensures
            r == (if self.encoding.raw() {
                4usize
            } else {
                6usize
            }),
    {
        self.encoding.sync_byte_length()
    }

    /// The byte range of the sequence.
    pub fn sync_byte_range(&self) -> (r: core::ops::Range<usize>)
        requires
            self.offset + (if self.encoding.raw() {
                4int
            } else {
                6int
            }) <= usize::MAX,
        ensures
            r.start == self.offset,
            r.end == self.offset + (if self.encoding.raw() {
                4int
            } else {
                6int
            }),
    {
        self.offset..self.offset + self.sync_byte_length()
    }
}

/// `s` from byte `i` on.
pub open spec fn rest(s: Seq<u8>, i: int) -> Seq<u8> {
    s.subrange(i, s.len() as int)
}

/// The first sync sequence at or behind byte `start`.
pub open spec fn next_sync(s: Seq<u8>, start: int) -> Option<SyncMatch>
    decreases s.len() - start,
{
    if start + 4 > s.len() {
        None
    } else {
        match sync_of(rest(s, start)) {
            Ok(encoding) => Some(SyncMatch { offset: start as usize, encoding }),
            Err(_) => next_sync(s, start + 1),
        }
    }
}

/// Whether a byte can start one of the four documented sync sequences.
pub fn is_sync_first_byte_candidate(b: u8) -> (r: bool)
    ensures
        r == (b == 0x7F || b == 0xFE || b == 0x1F || b == 0xFF),
{
    matches!(b, 0x7F | 0xFE | 0x1F | 0xFF)
}

/// The first sync sequence at or behind byte `start`. The two upper bits of a
/// container word do not count.
pub fn find_next_sync(bytes: &[u8], start: usize) -> (r: Option<SyncMatch>)
    ensures
        r == next_sync(bytes@, start as int),
{
    if start >= bytes.len() {
        return None;
    }
    let mut i: usize = start;
    while bytes.len() - i >= 4
        invariant
            start <= i <= bytes@.len(),
            next_sync(bytes@, start as int) == next_sync(bytes@, i as int),
        decreases bytes@.len() - i,
    {
        let first: u8 = bytes[i];
        if is_sync_first_byte_candidate(first) || is_sync_first_byte_candidate(first % 64) {
            if let Ok(encoding) = detect_sync(slice_subrange(bytes, i, bytes.len())) {
                return Some(SyncMatch { offset: i, encoding });
            }
        }
        i = i + 1;
    }
    None
}

/// Where a frame stands and what its header says.
pub struct FrameSpan {
    /// The header.
    pub header: DtsFrameHeader,
    /// The byte offset of the frame.
    pub offset: int,
    /// The length of the frame in bytes.
    pub len: int,
}

/// A frame of a raw 16-bit stream.
#[derive(Debug, Clone, Copy)]
pub struct FrameView<'a> {
    /// The header.
    pub header: DtsFrameHeader,
    /// The byte offset of the frame.
    pub offset: usize,
    /// The length of the frame in bytes.
    pub len: usize,
    /// The bytes of the frame.
    pub data: &'a [u8],
}

impl<'a> FrameView<'a> {
    /// The view is the given span of `s`.
    pub open spec fn shows(&self, span: FrameSpan, s: Seq<u8>) -> bool {
        &&& self.header == span.header
        &&& self.offset == span.offset
        &&& self.len == span.len
        &&& self.data@ == s.subrange(span.offset, span.offset + span.len)
    }

    /// The bytes of the frame behind its header.
    pub fn payload(&self) -> (r: &'a [u8])
        requires
            self.header.byte_length() <= self.data@.len(),
        ensures
            r@ == rest(self.data@, self.header.byte_length() as int),
    {
        slice_subrange(self.data, self.header.header_byte_length(), self.data.len())
    }

    /// The auxiliary data of the frame, of whatever kind `parse` makes of the bytes
    /// and the header of the frame.
    pub fn aux_data<D, F>(&self, parse: F) -> (r: Result<Option<D>, Error>) where
        F: Fn(&[u8], &DtsFrameHeader) -> Result<Option<D>, Error>,

        requires
            parse.requires((self.data, &self.header)),
        ensures
            parse.ensures((self.data, &self.header), r),
    {
        parse(self.data, &self.header)
    }

    /// The auxiliary chunk of the frame, where it has one.
    pub fn rev2_aux(&self) -> (r: Result<Option<Rev2AuxChunk>, Error>)
        requires
            8 * self.data@.len() <= usize::MAX,
        ensures
            match r {
                Ok(None) => forall|i: int| !rev2_candidate(self.data@, i),
                Ok(Some(chunk)) => last_rev2_candidate(self.data@, chunk@.offset) && rev2_aux_at(
                    self.data@,
                    chunk@.offset,
                    self.header.blocks_per_frame,
                ) == Ok::<Rev2AuxView, Error>(chunk@),
                Err(e) => exists|i: int| #[trigger]
                    last_rev2_candidate(self.data@, i) && rev2_aux_at(
                        self.data@,
                        i,
                        self.header.blocks_per_frame,
                    ) == Err::<Rev2AuxView, Error>(e),
            },
    {
        parse_rev2_aux(self.data, &self.header)
    }
}

/// What one step of a frame walk gives, and where the walk stands afterwards.
pub struct FrameStep {
    /// The frame, the error that ends the walk, or nothing at its end.
    pub item: Option<Result<FrameSpan, Error>>,
    /// The cursor after the step.
    pub cursor: int,
    /// Whether an error has ended the walk.
    pub done: bool,
}

/// The step of the raw walk from `cursor` on.
pub open spec fn frame_step(s: Seq<u8>, cursor: int, done: bool) -> FrameStep {
    if done {
        FrameStep { item: None, cursor, done }
    } else {
        match next_sync(s, cursor) {
            None => FrameStep { item: None, cursor, done },
            Some(m) => if !m.encoding.raw() {
                FrameStep {
                    item: Some(Err(Error::UnsupportedFourteenBit)),
                    cursor: m.offset as int,
                    done: true,
                }
            } else {
                match parsed(rest(s, m.offset as int)) {
                    Err(e) => FrameStep {
                        item: Some(Err(e)),
                        cursor: m.offset as int,
                        done: true,
                    },
                    Ok(header) => framed(s, m.offset as int, header, header.frame_size_bytes as int),
                }
            },
        }
    }
}

/// The step onto a frame of `len` bytes at `offset`, which must lie inside `s`.
pub open spec fn framed(s: Seq<u8>, offset: int, header: DtsFrameHeader, len: int) -> FrameStep {
    if offset + len > s.len() {
        FrameStep { item: Some(Err(Error::UnexpectedEof)), cursor: offset, done: true }
    } else {
        FrameStep {
            item: Some(Ok(FrameSpan { header, offset, len })),
            cursor: offset + len,
            done: false,
        }
    }
}

/// Walks a raw 16-bit stream frame by frame and stops at the first error.
#[derive(Debug)]
pub struct FrameIterator<'a> {
    bytes: &'a [u8],
    cursor: usize,
    done: bool,
}

impl<'a> FrameIterator<'a> {
    /// The bytes that are walked.
    pub closed spec fn data(&self) -> Seq<u8> {
        self.bytes@
    }

    /// The position of the walk.
    pub closed spec fn at(&self) -> int {
        self.cursor as int
    }

    /// Whether an error has ended the walk.
    pub closed spec fn ended(&self) -> bool {
        self.done
    }

    /// A walk from the first byte of `bytes` on.
    pub fn new(bytes: &'a [u8]) -> (r: Self)
        ensures
            r.data() == bytes@,
            r.at() == 0,
            !r.ended(),
    {
        FrameIterator { bytes, cursor: 0, done: false }
    }

    /// The position of the walk.
    pub fn cursor(&self) -> (r: usize)
        ensures
            r == self.at(),
    {
        self.cursor
    }

    /// The next frame, or the error that ends the walk.
    pub fn next(&mut self) -> (r: Option<Result<FrameView<'a>, Error>>)
        ensures
            final(self).data() == old(self).data(),
            ({
                let step = frame_step(old(self).data(), old(self).at(), old(self).ended());
                &&& final(self).at() == step.cursor
                &&& final(self).ended() == step.done
                &&& match r {
                    None => step.item is None,
                    Some(Err(e)) => step.item == Some(Err::<FrameSpan, Error>(e)),
                    Some(Ok(view)) => step.item matches Some(Ok(span)) && view.shows(
                        span,
                        old(self).data(),
                    ),
                }
            }),
    {
        if self.done {
            return None;
        }
        let sync_match = match find_next_sync(self.bytes, self.cursor) {
            Some(m) => m,
            None => {
                return None;
            },
        };
        let total: usize = self.bytes.len();
        proof {
            lemma_next_sync_in_range(self.bytes@, self.cursor as int);
        }
        let offset: usize = sync_match.offset;
        if sync_match.encoding.is_14bit_packed() {
            self.done = true;
            self.cursor = offset;
            return Some(Err(Error::UnsupportedFourteenBit));
        }
        let header = match parse_frame_header(slice_subrange(self.bytes, offset, total)) {
            Ok(header) => header,
            Err(e) => {
                self.done = true;
                self.cursor = offset;
                return Some(Err(e));
            },
        };
        let len: usize = header.frame_size_bytes as usize;
        if len > total - offset {
            self.done = true;
            self.cursor = offset;
            return Some(Err(Error::UnexpectedEof));
        }
        self.cursor = offset + len;
        Some(
            Ok(
                FrameView {
                    header,
                    offset,
                    len,
                    data: slice_subrange(self.bytes, offset, offset + len),
                },
            ),
        )
    }
}

/// A walk over the frames of a raw 16-bit stream.
pub fn iter_frames(bytes: &[u8]) -> (r: FrameIterator<'_>)
    ensures
        r.data() == bytes@,
        r.at() == 0,
        !r.ended(),
{
    FrameIterator::new(bytes)
}

/// A found sync sequence lies between the start of the search and the end.
pub proof fn lemma_next_sync_in_range(s: Seq<u8>, start: int)
    requires
        0 <= start,
        s.len() <= usize::MAX,
    ensures
        next_sync(s, start) matches Some(m) ==> {
            &&& start <= m.offset
            &&& m.offset + 4 <= s.len()
            &&& sync_of(rest(s, m.offset as int)) == Ok::<SyncWordEncoding, Error>(m.encoding)
        },
    decreases s.len() - start,
{
    if start + 4 <= s.len() {
        lemma_next_sync_in_range(s, start + 1);
    }
}

/// Why a resynchronizing walk passed over a sync sequence.
#[derive(Debug, Clone, Copy, PartialEq, Eq)]
pub enum ResyncCause {
    /// The header behind the sequence breaks a bound.
    StructuralBoundFailed(Error),
    /// The input ends inside the header.
    HeaderEof,
    /// The frame would reach past the end of the input.
    FrameLengthOverrunsBuffer {
        /// The frame size that the header declares.
        declared_len: u16,
    },
    /// The sequence opens a 14-bit container frame.
    FourteenBitSyncSkipped,
}

/// A sync sequence that a resynchronizing walk passed over.
#[derive(Debug, Clone, Copy, PartialEq, Eq)]
pub struct ResyncEvent {
    /// The byte offset of the sequence.
    pub offset: usize,
    /// Which of the four sequences it is.
    pub encoding: SyncWordEncoding,
    /// Why it was passed over.
    pub cause: ResyncCause,
}

/// What one step of a resynchronizing walk gives, and where it stands afterwards.
pub struct ResyncStep {
    /// The frame, the sequence that was passed over, or nothing at the end.
    pub item: Option<Result<FrameSpan, ResyncEvent>>,
    /// The cursor after the step.
    pub cursor: int,
}

/// The cause of a header error.
pub open spec fn resync_cause(e: Error) -> ResyncCause {
    match e {
        Error::UnexpectedEof => ResyncCause::HeaderEof,
        _ => ResyncCause::StructuralBoundFailed(e),
    }
}

/// The step that passes over the sync sequence `m`.
pub open spec fn passed_over(m: SyncMatch, cause: ResyncCause) -> ResyncStep {
    ResyncStep {
        item: Some(Err(ResyncEvent { offset: m.offset, encoding: m.encoding, cause })),
        cursor: m.offset + 1,
    }
}

/// The step of the resynchronizing walk from `cursor` on.
pub open spec fn resync_step(s: Seq<u8>, cursor: int) -> ResyncStep {
    match next_sync(s, cursor) {
        None => ResyncStep { item: None, cursor },
        Some(m) => if !m.encoding.raw() {
            passed_over(m, ResyncCause::FourteenBitSyncSkipped)
        } else {
            match parsed(rest(s, m.offset as int)) {
                Err(e) => passed_over(m, resync_cause(e)),
                Ok(header) => if m.offset + header.frame_size_bytes > s.len() {
                    passed_over(
                        m,
                        ResyncCause::FrameLengthOverrunsBuffer {
                            declared_len: header.frame_size_bytes,
                        },
                    )
                } else {
                    ResyncStep {
                        item: Some(
                            Ok(
                                FrameSpan {
                                    header,
                                    offset: m.offset as int,
                                    len: header.frame_size_bytes as int,
                                },
                            ),
                        ),
                        cursor: m.offset + header.frame_size_bytes,
                    }
                },
            }
        },
    }
}

/// Walks a raw 16-bit stream frame by frame and passes over sync sequences
/// that open no frame.
#[derive(Debug)]
pub struct FrameIteratorResync<'a> {
    bytes: &'a [u8],
    cursor: usize,
}

impl<'a> FrameIteratorResync<'a> {
    /// The bytes that are walked.
    pub closed spec fn data(&self) -> Seq<u8> {
        self.bytes@
    }

    /// The position of the walk.
    pub closed spec fn at(&self) -> int {
        self.cursor as int
    }

    /// A walk from the first byte of `bytes` on.
    pub fn new(bytes: &'a [u8]) -> (r: Self)
        ensures
            r.data() == bytes@,
            r.at() == 0,
    {
        FrameIteratorResync { bytes, cursor: 0 }
    }

    /// The position of the walk.
    pub fn cursor(&self) -> (r: usize)
        ensures
            r == self.at(),
    {
        self.cursor
    }

    /// The next frame, or the next sync sequence that opens none.
    pub fn next(&mut self) -> (r: Option<Result<FrameView<'a>, ResyncEvent>>)
        ensures
            final(self).data() == old(self).data(),
            ({
                let step = resync_step(old(self).data(), old(self).at());
                &&& final(self).at() == step.cursor
                &&& match r {
                    None => step.item is None,
                    Some(Err(e)) => step.item == Some(Err::<FrameSpan, ResyncEvent>(e)),
                    Some(Ok(view)) => step.item matches Some(Ok(span)) && view.shows(
                        span,
                        old(self).data(),
                    ),
                }
            }),
    {
        let sync_match = match find_next_sync(self.bytes, self.cursor) {
            Some(m) => m,
            None => {
                return None;
            },
        };
        let total: usize = self.bytes.len();
        proof {
            lemma_next_sync_in_range(self.bytes@, self.cursor as int);
        }
        let offset: usize = sync_match.offset;
        let encoding = sync_match.encoding;
        if encoding.is_14bit_packed() {
            self.cursor = offset + 1;
            return Some(
                Err(ResyncEvent { offset, encoding, cause: ResyncCause::FourteenBitSyncSkipped }),
            );
        }
        match parse_frame_header(slice_subrange(self.bytes, offset, total)) {
            Ok(header) => {
                let len: usize = header.frame_size_bytes as usize;
                if len > total - offset {
                    self.cursor = offset + 1;
                    let cause = ResyncCause::FrameLengthOverrunsBuffer {
                        declared_len: header.frame_size_bytes,
                    };
                    return Some(Err(ResyncEvent { offset, encoding, cause }));
                }
                self.cursor = offset + len;
                Some(
                    Ok(
                        FrameView {
                            header,
                            offset,
                            len,
                            data: slice_subrange(self.bytes, offset, offset + len),
                        },
                    ),
                )
            },
            Err(e) => {
                let cause = match e {
                    Error::UnexpectedEof => ResyncCause::HeaderEof,
                    _ => ResyncCause::StructuralBoundFailed(e),
                };
                self.cursor = offset + 1;
                Some(Err(ResyncEvent { offset, encoding, cause }))
            },
        }
    }
}

/// A resynchronizing walk over the frames of a raw 16-bit stream.
pub fn iter_frames_resync(bytes: &[u8]) -> (r: FrameIteratorResync<'_>)
    ensures
        r.data() == bytes@,
        r.at() == 0,
{
    FrameIteratorResync::new(bytes)
}

/// The sync sequences from byte `start` on, in order.
pub open spec fn all_syncs(s: Seq<u8>, start: int) -> Seq<SyncMatch>
    decreases s.len() - start,
{
    if start + 4 > s.len() {
        Seq::empty()
    } else {
        match sync_of(rest(s, start)) {
            Ok(encoding) => seq![SyncMatch { offset: start as usize, encoding }] + all_syncs(
                s,
                start + 1,
            ),
            Err(_) => all_syncs(s, start + 1),
        }
    }
}

/// The search for one sync sequence splits the search for all of them.
proof fn lemma_all_syncs_step(s: Seq<u8>, start: int)
    requires
        0 <= start,
        s.len() <= usize::MAX,
    ensures
        match next_sync(s, start) {
            None => all_syncs(s, start) == Seq::<SyncMatch>::empty(),
            Some(m) => all_syncs(s, start) == seq![m] + all_syncs(s, m.offset + 1),
        },
    decreases s.len() - start,
{
    if start + 4 <= s.len() && sync_of(rest(s, start)) is Err {
        lemma_all_syncs_step(s, start + 1);
    }
}

/// Every sync sequence in the buffer, in order.
pub fn find_all_syncs(bytes: &[u8]) -> (r: Vec<SyncMatch>)
    ensures
        r@ == all_syncs(bytes@, 0),
{
    let mut out: Vec<SyncMatch> = Vec::new();
    let mut cursor: usize = 0;
    let total: usize = bytes.len();
    proof {
        assert(out@ + all_syncs(bytes@, 0) =~= all_syncs(bytes@, 0));
    }
    loop
        invariant
            total == bytes@.len(),
            cursor <= total,
            out@ + all_syncs(bytes@, cursor as int) == all_syncs(bytes@, 0),
        decreases total - cursor,
    {
        proof {
            lemma_all_syncs_step(bytes@, cursor as int);
            lemma_next_sync_in_range(bytes@, cursor as int);
        }
        match find_next_sync(bytes, cursor) {
            None => {
                assert(out@ + Seq::<SyncMatch>::empty() =~= out@);
                return out;
            },
            Some(m) => {
                proof {
                    let later: Seq<SyncMatch> = all_syncs(bytes@, m.offset + 1);
                    assert(out@ + (seq![m] + later) =~= out@.push(m) + later);
                }
                out.push(m);
                cursor = m.offset + 1;
            },
        }
    }
}

/// The byte at which a search from `start` on gives up: from there on too few
/// bytes are left for a sync sequence.
pub open spec fn gave_up_at(s: Seq<u8>, start: int) -> int {
    if start + 3 < s.len() {
        s.len() - 3
    } else {
        start
    }
}

/// Finds the sync sequences of a buffer one at a time.
#[derive(Debug)]
pub struct SyncIterator<'a> {
    bytes: &'a [u8],
    cursor: usize,
}

impl<'a> SyncIterator<'a> {
    /// The bytes that are searched.
    pub closed spec fn data(&self) -> Seq<u8> {
        self.bytes@
    }

    /// The position of the search.
    pub closed spec fn at(&self) -> int {
        self.cursor as int
    }

    /// The sync sequences that are still to come.
    pub open spec fn remaining(&self) -> Seq<SyncMatch> {
        all_syncs(self.data(), self.at())
    }

    /// A search from the first byte of `bytes` on.
    pub fn new(bytes: &'a [u8]) -> (r: Self)
        ensures
            r.data() == bytes@,
            r.at() == 0,
    {
        SyncIterator { bytes, cursor: 0 }
    }

    /// The position of the search.
    pub fn cursor(&self) -> (r: usize)
        ensures
            r == self.at(),
    {
        self.cursor
    }

    /// The next sync sequence. Where there is none, the search rests where it gave
    /// up.
    pub fn next(&mut self) -> (r: Option<SyncMatch>)
        ensures
            final(self).data() == old(self).data(),
            r == next_sync(old(self).data(), old(self).at()),
            match r {
                Some(m) => {
                    &&& final(self).at() == m.offset + 1
                    &&& old(self).remaining() == seq![m] + final(self).remaining()
                },
                None => {
                    &&& final(self).at() == gave_up_at(old(self).data(), old(self).at())
                    &&& old(self).remaining().len() == 0
                    &&& final(self).remaining().len() == 0
                },
            },
    {
        let total: usize = self.bytes.len();
        proof {
            lemma_all_syncs_step(self.bytes@, self.cursor as int);
            lemma_next_sync_in_range(self.bytes@, self.cursor as int);
        }
        match find_next_sync(self.bytes, self.cursor) {
            Some(m) => {
                self.cursor = m.offset + 1;
                Some(m)
            },
            None => {
                if total > 3 && self.cursor < total - 3 {
                    self.cursor = total - 3;
                }
                None
            },
        }
    }
}

/// A search for the sync sequences of a buffer, one at a time.
pub fn iter_syncs(bytes: &[u8]) -> (r: SyncIterator<'_>)
    ensures
        r.data() == bytes@,
        r.at() == 0,
{
    SyncIterator::new(bytes)
}

/// A frame of a 14-bit container stream.
#[derive(Debug, Clone, Copy)]
pub struct FrameView14<'a> {
    /// The header.
    pub header: DtsFrameHeader,
    /// The byte offset of the frame in the container stream.
    pub offset: usize,
    /// The number of container bytes that the frame takes.
    pub len: usize,
    /// The container bytes of the frame.
    pub data: &'a [u8],
}

impl<'a> FrameView14<'a> {
    /// The view is the given span of `s`.
    pub open spec fn shows(&self, span: FrameSpan, s: Seq<u8>) -> bool {
        &&& self.header == span.header
        &&& self.offset == span.offset
        &&& self.len == span.len
        &&& self.data@ == s.subrange(span.offset, span.offset + span.len)
    }
}

/// The step of the container walk from `cursor` on.
pub open spec fn frame_step_14bit(s: Seq<u8>, cursor: int, done: bool) -> FrameStep {
    if done {
        FrameStep { item: None, cursor, done }
    } else {
        match next_sync(s, cursor) {
            None => FrameStep { item: None, cursor, done },
            Some(m) => if m.encoding.raw() {
                FrameStep {
                    item: Some(Err(Error::UnsupportedRaw16Bit)),
                    cursor: m.offset as int,
                    done: true,
                }
            } else {
                match parsed_14bit(rest(s, m.offset as int)) {
                    Err(e) => FrameStep {
                        item: Some(Err(e)),
                        cursor: m.offset as int,
                        done: true,
                    },
                    Ok(header) => framed(
                        s,
                        m.offset as int,
                        header,
                        header.container_bytes(m.encoding) as int,
                    ),
                }
            },
        }
    }
}

/// Walks a 14-bit container stream frame by frame and stops at the first error.
#[derive(Debug)]
pub struct FrameIterator14<'a> {
    bytes: &'a [u8],
    cursor: usize,
    done: bool,
}

impl<'a> FrameIterator14<'a> {
    /// The bytes that are walked.
    pub closed spec fn data(&self) -> Seq<u8> {
        self.bytes@
    }

    /// The position of the walk.
    pub closed spec fn at(&self) -> int {
        self.cursor as int
    }

    /// Whether an error has ended the walk.
    pub closed spec fn ended(&self) -> bool {
        self.done
    }

    /// A walk from the first byte of `bytes` on.
    pub fn new(bytes: &'a [u8]) -> (r: Self)
        ensures
            r.data() == bytes@,
            r.at() == 0,
            !r.ended(),
    {
        FrameIterator14 { bytes, cursor: 0, done: false }
    }

    /// The position of the walk.
    pub fn cursor(&self) -> (r: usize)
        ensures
            r == self.at(),
    {
        self.cursor
    }

    /// The next frame, or the error that ends the walk.
    pub fn next(&mut self) -> (r: Option<Result<FrameView14<'a>, Error>>)
        ensures
            final(self).data() == old(self).data(),
            ({
                let step = frame_step_14bit(old(self).data(), old(self).at(), old(self).ended());
                &&& final(self).at() == step.cursor
                &&& final(self).ended() == step.done
                &&& match r {
                    None => step.item is None,
                    Some(Err(e)) => step.item == Some(Err::<FrameSpan, Error>(e)),
                    Some(Ok(view)) => step.item matches Some(Ok(span)) && view.shows(
                        span,
                        old(self).data(),
                    ),
                }
            }),
    {
        if self.done {
            return None;
        }
        let sync_match = match find_next_sync(self.bytes, self.cursor) {
            Some(m) => m,
            None => {
                return None;
            },
        };
        let total: usize = self.bytes.len();
        proof {
            lemma_next_sync_in_range(self.bytes@, self.cursor as int);
        }
        let offset: usize = sync_match.offset;
        if sync_match.encoding.is_raw_16bit() {
            self.done = true;
            self.cursor = offset;
            return Some(Err(Error::UnsupportedRaw16Bit));
        }
        let header = match parse_frame_header_14bit(slice_subrange(self.bytes, offset, total)) {
            Ok(header) => header,
            Err(e) => {
                self.done = true;
                self.cursor = offset;
                return Some(Err(e));
            },
        };
        let len: usize = header.frame_size_container_bytes(sync_match.encoding) as usize;
        if len > total - offset {
            self.done = true;
            self.cursor = offset;
            return Some(Err(Error::UnexpectedEof));
        }
        self.cursor = offset + len;
        Some(
            Ok(
                FrameView14 {
                    header,
                    offset,
                    len,
                    data: slice_subrange(self.bytes, offset, offset + len),
                },
            ),
        )
    }
}

/// A walk over the frames of a 14-bit container stream.
pub fn iter_frames_14bit(bytes: &[u8]) -> (r: FrameIterator14<'_>)
    ensures
        r.data() == bytes@,
        r.at() == 0,
        !r.ended(),
{
    FrameIterator14::new(bytes)
}

} // verus!
