//! What holds of every sync scan and every frame walk.

use crate::bits::{lemma_field_bound, swapped};
use crate::error::Error;
use crate::header::{DtsFrameHeader, SyncWordEncoding};
use crate::header_codec::{
    header_in, lemma_checked_header_prefix, lemma_unpacked_prefix, parsed, parsed_14bit, sync_of,
};
use crate::iter::{
    all_syncs, frame_step, frame_step_14bit, gave_up_at, lemma_next_sync_in_range, next_sync, rest,
    resync_step, FrameSpan, FrameView, FrameView14, ResyncCause, SyncMatch,
};
use crate::unpack14::{unpacked, FourteenBitByteOrder};
use vstd::arithmetic::power2::*;
use vstd::prelude::*;

verus! {

/// A search finds the first sync sequence at or behind its start, and fails
/// only where there is none.
pub proof fn law_next_sync_is_the_first(s: Seq<u8>, start: int)
    requires
        0 <= start,
        s.len() <= usize::MAX,
    ensures
        match next_sync(s, start) {
            Some(m) => {
                &&& start <= m.offset < s.len()
                &&& sync_of(rest(s, m.offset as int)) == Ok::<SyncWordEncoding, Error>(m.encoding)
                &&& forall|i: int| start <= i < m.offset ==> sync_of(#[trigger] rest(s, i)) is Err
            },
            None => forall|i: int|
                start <= i <= s.len() ==> sync_of(#[trigger] rest(s, i)) is Err,
        },
    decreases s.len() - start,
{
    if start + 4 <= s.len() && sync_of(rest(s, start)) is Err {
        law_next_sync_is_the_first(s, start + 1);
    }
}

/// The list of all sync sequences is in ascending order, holds nothing but
/// sync sequences, and leaves none out.
pub proof fn law_all_syncs_are_listed(s: Seq<u8>, start: int)
    requires
        0 <= start,
        s.len() <= usize::MAX,
    ensures
        forall|a: int, b: int|
            0 <= a < b < all_syncs(s, start).len() ==> all_syncs(s, start)[a].offset < all_syncs(
                s,
                start,
            )[b].offset,
        forall|a: int|
            0 <= a < all_syncs(s, start).len() ==> {
                let m = #[trigger] all_syncs(s, start)[a];
                start <= m.offset < s.len() && sync_of(rest(s, m.offset as int)) == Ok::<
                    SyncWordEncoding,
                    Error,
                >(m.encoding)
            },
        forall|i: int|
            start <= i <= s.len() && sync_of(#[trigger] rest(s, i)) is Ok ==> exists|a: int|
                0 <= a < all_syncs(s, start).len() && #[trigger] all_syncs(s, start)[a].offset == i,
    decreases s.len() - start,
{
    let all: Seq<SyncMatch> = all_syncs(s, start);
    if start + 4 <= s.len() {
        law_all_syncs_are_listed(s, start + 1);
        let later: Seq<SyncMatch> = all_syncs(s, start + 1);
        match sync_of(rest(s, start)) {
            Ok(encoding) => {
                let first = SyncMatch { offset: start as usize, encoding };
                assert(all == seq![first] + later);
                assert forall|i: int| start <= i <= s.len() && sync_of(#[trigger] rest(s, i)) is Ok
                    implies exists|a: int| 0 <= a < all.len() && #[trigger] all[a].offset == i by {
                    if i == start {
                        assert(all[0].offset == i);
                    } else {
                        let a: int = choose|a: int|
                            0 <= a < later.len() && #[trigger] later[a].offset == i;
                        assert(all[a + 1].offset == i);
                    }
                }
            },
            Err(_) => {},
        }
    }
}

/// Two sync sequences do not overlap, but for one case: the last byte of a
/// big-endian container sync can be the first byte of another sequence.
pub proof fn law_syncs_do_not_overlap(s: Seq<u8>, i: int, j: int, encoding: SyncWordEncoding)
    requires
        0 <= i < j <= s.len(),
        sync_of(rest(s, i)) == Ok::<SyncWordEncoding, Error>(encoding),
        sync_of(rest(s, j)) is Ok,
        !(encoding == SyncWordEncoding::FourteenBitBigEndian && j == i + 5),
    ensures
        j >= i + (if encoding.raw() {
            4int
        } else {
            6int
        }),
{
    let a: Seq<u8> = rest(s, i);
    let b: Seq<u8> = rest(s, j);
    let d: int = j - i;
    if d < 6 {
        assert(b[0] == a[d]);
        assert(b[1] == a[d + 1]);
        assert(b[2] == a[d + 2]);
        assert(b[3] == a[d + 3]);
        assert(swapped(a)[0] == a[1] && swapped(a)[1] == a[0] && swapped(a)[2] == a[3] && swapped(
            a,
        )[3] == a[2]);
        assert(swapped(b)[0] == b[1] && swapped(b)[1] == b[0] && swapped(b)[2] == b[3] && swapped(
            b,
        )[3] == b[2]);
        if a.len() >= 6 {
            assert(swapped(a)[4] == a[5]);
        }
    }
}

/// The bounds of a header that was read.
proof fn lemma_parsed_size(s: Seq<u8>)
    ensures
        parsed(s) matches Ok(h) ==> 95 <= h.frame_size_bytes <= 16384,
        parsed_14bit(s) matches Ok(h) ==> 95 <= h.frame_size_bytes <= 16384,
{
    let t: Seq<u8> = swapped(s.subrange(0, 16));
    let be: Seq<u8> = unpacked(s, FourteenBitByteOrder::BigEndian);
    let le: Seq<u8> = unpacked(s, FourteenBitByteOrder::LittleEndian);
    reveal(header_in);
    lemma2_to64();
    lemma_field_bound(s, 46, 14);
    lemma_field_bound(t, 46, 14);
    lemma_field_bound(be, 46, 14);
    lemma_field_bound(le, 46, 14);
}

/// A step of the raw walk that gives a frame moves the cursor past it: the
/// frame lies between the old cursor and the new one, inside the buffer, and
/// is 95 to 16384 bytes long. A step that fails ends the walk at the sync
/// sequence that it failed at, and a step that finds none leaves the cursor.
pub proof fn law_frame_walk_advances(s: Seq<u8>, cursor: int)
    requires
        0 <= cursor,
        s.len() <= usize::MAX,
    ensures
        ({
            let step = frame_step(s, cursor, false);
            match step.item {
                Some(Ok(span)) => {
                    &&& cursor <= span.offset
                    &&& 95 <= span.len <= 16384
                    &&& span.len == span.header.frame_size_bytes
                    &&& step.cursor == span.offset + span.len
                    &&& step.cursor <= s.len()
                    &&& !step.done
                },
                Some(Err(_)) => {
                    &&& step.done
                    &&& step.cursor >= cursor
                    &&& next_sync(s, cursor) matches Some(m) && step.cursor == m.offset
                },
                None => step.cursor == cursor && !step.done,
            }
        }),
{
    lemma_next_sync_in_range(s, cursor);
    if let Some(m) = next_sync(s, cursor) {
        lemma_parsed_size(rest(s, m.offset as int));
    }
}

/// A frame that the raw walk gives has at least 80 bytes behind its header.
pub proof fn law_walked_frame_has_payload(s: Seq<u8>, cursor: int, span: FrameSpan)
    requires
        0 <= cursor,
        s.len() <= usize::MAX,
        frame_step(s, cursor, false).item == Some(Ok::<FrameSpan, Error>(span)),
    ensures
        span.len - span.header.byte_length() >= 80,
{
    law_frame_walk_advances(s, cursor);
}

/// An ended walk stays ended.
pub proof fn law_ended_walk_stays_ended(s: Seq<u8>, cursor: int)
    ensures
        frame_step(s, cursor, true).item is None,
        frame_step(s, cursor, true).done,
        frame_step(s, cursor, true).cursor == cursor,
        frame_step_14bit(s, cursor, true).item is None,
        frame_step_14bit(s, cursor, true).done,
        frame_step_14bit(s, cursor, true).cursor == cursor,
{
}

/// A step of the container walk that gives a frame moves the cursor past it,
/// by an even number of bytes that is larger than the frame it carries. A step
/// that fails ends the walk at the sync sequence that it failed at, and a step
/// that finds none leaves the cursor.
pub proof fn law_packed_walk_advances(s: Seq<u8>, cursor: int)
    requires
        0 <= cursor,
        s.len() <= usize::MAX,
    ensures
        ({
            let step = frame_step_14bit(s, cursor, false);
            match step.item {
                Some(Ok(span)) => {
                    &&& cursor <= span.offset
                    &&& span.len % 2 == 0
                    &&& span.len > span.header.frame_size_bytes
                    &&& step.cursor == span.offset + span.len
                    &&& step.cursor <= s.len()
                    &&& !step.done
                },
                Some(Err(_)) => {
                    &&& step.done
                    &&& step.cursor >= cursor
                    &&& next_sync(s, cursor) matches Some(m) && step.cursor == m.offset
                },
                None => step.cursor == cursor && !step.done,
            }
        }),
{
    lemma_next_sync_in_range(s, cursor);
    if let Some(m) = next_sync(s, cursor) {
        lemma_parsed_size(rest(s, m.offset as int));
    }
}

/// Every step of the resynchronizing walk that gives anything moves the cursor
/// forward inside the buffer, so that the walk comes to its end: by one byte
/// past a sync sequence that opens no frame, and past the frame otherwise.
pub proof fn law_resync_walk_advances(s: Seq<u8>, cursor: int)
    requires
        0 <= cursor,
        s.len() <= usize::MAX,
    ensures
        ({
            let step = resync_step(s, cursor);
            match step.item {
                Some(Ok(span)) => {
                    &&& cursor <= span.offset
                    &&& 95 <= span.len <= 16384
                    &&& step.cursor == span.offset + span.len
                    &&& step.cursor <= s.len()
                },
                Some(Err(event)) => {
                    &&& cursor <= event.offset
                    &&& step.cursor == event.offset + 1
                    &&& step.cursor <= s.len()
                },
                None => step.cursor == cursor,
            }
        }),
{
    lemma_next_sync_in_range(s, cursor);
    if let Some(m) = next_sync(s, cursor) {
        lemma_parsed_size(rest(s, m.offset as int));
    }
}

/// Where the raw walk gives a frame, the resynchronizing walk gives the same
/// frame and moves the cursor to the same place, and the other way round.
pub proof fn law_resync_walk_agrees_on_frames(s: Seq<u8>, cursor: int, span: FrameSpan)
    ensures
        frame_step(s, cursor, false).item == Some(Ok::<FrameSpan, Error>(span)) <==> resync_step(
            s,
            cursor,
        ).item == Some(Ok::<FrameSpan, crate::iter::ResyncEvent>(span)),
        frame_step(s, cursor, false).item == Some(Ok::<FrameSpan, Error>(span)) ==> frame_step(
            s,
            cursor,
            false,
        ).cursor == resync_step(s, cursor).cursor,
{
}

/// The first 16 bytes decide which sync sequence stands at the start.
proof fn lemma_sync_prefix(a: Seq<u8>, b: Seq<u8>)
    requires
        a.len() >= 16,
        b.len() >= 16,
        forall|i: int| 0 <= i < 16 ==> a[i] == b[i],
    ensures
        sync_of(a) == sync_of(b),
{
    assert(forall|i: int| 0 <= i < 6 ==> swapped(a)[i] == swapped(b)[i]);
}

/// The bytes of a frame that the raw walk gives read as the header that came
/// with them.
pub proof fn law_walked_frame_reads_alone(s: Seq<u8>, cursor: int, span: FrameSpan)
    requires
        0 <= cursor,
        s.len() <= usize::MAX,
        frame_step(s, cursor, false).item == Some(Ok::<FrameSpan, Error>(span)),
    ensures
        parsed(s.subrange(span.offset, span.offset + span.len)) == Ok::<DtsFrameHeader, Error>(
            span.header,
        ),
{
    law_frame_walk_advances(s, cursor);
    lemma_next_sync_in_range(s, cursor);
    let a: Seq<u8> = rest(s, span.offset);
    let b: Seq<u8> = s.subrange(span.offset, span.offset + span.len);
    assert(forall|i: int| 0 <= i < 16 ==> a[i] == b[i]);
    lemma_sync_prefix(a, b);
    lemma_checked_header_prefix(a, b, SyncWordEncoding::RawBigEndian);
    assert(a.subrange(0, 16) =~= b.subrange(0, 16));
}

/// The bytes of a frame that the container walk gives read as the header that
/// came with them.
pub proof fn law_walked_packed_frame_reads_alone(s: Seq<u8>, cursor: int, span: FrameSpan)
    requires
        0 <= cursor,
        s.len() <= usize::MAX,
        frame_step_14bit(s, cursor, false).item == Some(Ok::<FrameSpan, Error>(span)),
    ensures
        parsed_14bit(s.subrange(span.offset, span.offset + span.len)) == Ok::<
            DtsFrameHeader,
            Error,
        >(span.header),
{
    law_packed_walk_advances(s, cursor);
    lemma_next_sync_in_range(s, cursor);
    let a: Seq<u8> = rest(s, span.offset);
    let b: Seq<u8> = s.subrange(span.offset, span.offset + span.len);
    lemma_parsed_size(a);
    assert(forall|i: int| 0 <= i < 18 ==> a[i] == b[i]);
    lemma_sync_prefix(a, b);
    if let Ok(sync) = sync_of(a) {
        if let Some(order) = FourteenBitByteOrder::of_sync(sync) {
            lemma_unpacked_prefix(a, order);
            lemma_unpacked_prefix(b, order);
            assert(a.subrange(0, 18) =~= b.subrange(0, 18));
            lemma_checked_header_prefix(unpacked(a, order), unpacked(b, order), sync);
        }
    }
}

/// The first sync sequence is the one that a search finds.
proof fn lemma_first_is_found(s: Seq<u8>, cursor: int, at: int, encoding: SyncWordEncoding)
    requires
        0 <= cursor <= at <= s.len() <= usize::MAX,
        sync_of(rest(s, at)) == Ok::<SyncWordEncoding, Error>(encoding),
        forall|i: int| cursor <= i < at ==> sync_of(#[trigger] rest(s, i)) is Err,
    ensures
        next_sync(s, cursor) == Some(SyncMatch { offset: at as usize, encoding }),
{
    law_next_sync_is_the_first(s, cursor);
    let m: SyncMatch = next_sync(s, cursor).unwrap();
    assert(rest(s, at).len() == s.len() - at);
    if m.offset < at {
        assert(sync_of(rest(s, m.offset as int)) is Ok);
    }
}

/// What a step of the raw walk gives where `at` is the first sync sequence at or behind
/// the cursor: the error of the other form for a container sequence, the error of the
/// header where that cannot be read, an end of input where the frame that the header
/// declares reaches past the end, and else that frame.
pub proof fn law_frame_walk_step(s: Seq<u8>, cursor: int, at: int, encoding: SyncWordEncoding)
    requires
        0 <= cursor <= at <= s.len() <= usize::MAX,
        sync_of(rest(s, at)) == Ok::<SyncWordEncoding, Error>(encoding),
        forall|i: int| cursor <= i < at ==> sync_of(#[trigger] rest(s, i)) is Err,
    ensures
        ({
            let packed: bool = encoding == SyncWordEncoding::FourteenBitBigEndian || encoding
                == SyncWordEncoding::FourteenBitLittleEndian;
            let step = frame_step(s, cursor, false);
            if packed {
                step.item == Some(Err::<FrameSpan, Error>(Error::UnsupportedFourteenBit))
            } else {
                match parsed(rest(s, at)) {
                    Err(e) => step.item == Some(Err::<FrameSpan, Error>(e)),
                    Ok(header) => if header.frame_size_bytes > s.len() - at {
                        step.item == Some(Err::<FrameSpan, Error>(Error::UnexpectedEof))
                    } else {
                        &&& step.item matches Some(Ok(span))
                        &&& span.header == header
                        &&& span.offset == at
                        &&& span.len == header.frame_size_bytes
                    },
                }
            }
        }),
{
    lemma_first_is_found(s, cursor, at, encoding);
}

/// What a step of the container walk gives where `at` is the first sync sequence at or
/// behind the cursor: the error of the other form for a raw sequence, the error of the
/// header where that cannot be read, and else the words that carry the frame, which are
/// as few as have room for its bits at 14 bits each, or an end of input where these
/// reach past the end.
pub proof fn law_packed_walk_step(s: Seq<u8>, cursor: int, at: int, encoding: SyncWordEncoding)
    requires
        0 <= cursor <= at <= s.len() <= usize::MAX,
        sync_of(rest(s, at)) == Ok::<SyncWordEncoding, Error>(encoding),
        forall|i: int| cursor <= i < at ==> sync_of(#[trigger] rest(s, i)) is Err,
    ensures
        ({
            let packed: bool = encoding == SyncWordEncoding::FourteenBitBigEndian || encoding
                == SyncWordEncoding::FourteenBitLittleEndian;
            let step = frame_step_14bit(s, cursor, false);
            if !packed {
                step.item == Some(Err::<FrameSpan, Error>(Error::UnsupportedRaw16Bit))
            } else {
                match parsed_14bit(rest(s, at)) {
                    Err(e) => step.item == Some(Err::<FrameSpan, Error>(e)),
                    Ok(header) => match step.item {
                        Some(Ok(span)) => {
                            &&& span.header == header
                            &&& span.offset == at
                            &&& span.len % 2 == 0
                            &&& 7 * span.len >= 8 * header.frame_size_bytes
                            &&& 7 * (span.len - 2) < 8 * header.frame_size_bytes
                            &&& at + span.len <= s.len()
                        },
                        Some(Err(e)) => e == Error::UnexpectedEof && 7 * (s.len() - at - 1) < 8
                            * header.frame_size_bytes,
                        None => false,
                    },
                }
            }
        }),
{
    lemma_first_is_found(s, cursor, at, encoding);
}

/// What a step of the resynchronizing walk gives where `at` is the first sync sequence
/// at or behind the cursor: a frame, or what is wrong with the sequence, which is named
/// with its place and form.
pub proof fn law_resync_walk_step(s: Seq<u8>, cursor: int, at: int, encoding: SyncWordEncoding)
    requires
        0 <= cursor <= at <= s.len() <= usize::MAX,
        sync_of(rest(s, at)) == Ok::<SyncWordEncoding, Error>(encoding),
        forall|i: int| cursor <= i < at ==> sync_of(#[trigger] rest(s, i)) is Err,
    ensures
        ({
            let packed: bool = encoding == SyncWordEncoding::FourteenBitBigEndian || encoding
                == SyncWordEncoding::FourteenBitLittleEndian;
            match resync_step(s, cursor).item {
                Some(Ok(span)) => {
                    &&& !packed
                    &&& span.offset == at
                    &&& parsed(rest(s, at)) == Ok::<DtsFrameHeader, Error>(span.header)
                    &&& span.len == span.header.frame_size_bytes
                    &&& at + span.len <= s.len()
                },
                Some(Err(event)) => {
                    &&& event.offset == at
                    &&& event.encoding == encoding
                    &&& match event.cause {
                        ResyncCause::FourteenBitSyncSkipped => packed,
                        ResyncCause::HeaderEof => !packed && parsed(rest(s, at)) == Err::<
                            DtsFrameHeader,
                            Error,
                        >(Error::UnexpectedEof),
                        ResyncCause::StructuralBoundFailed(e) => !packed && e
                            != Error::UnexpectedEof && parsed(rest(s, at)) == Err::<
                            DtsFrameHeader,
                            Error,
                        >(e),
                        ResyncCause::FrameLengthOverrunsBuffer { declared_len } => {
                            &&& !packed
                            &&& parsed(rest(s, at)) matches Ok(header)
                            &&& declared_len == header.frame_size_bytes
                            &&& at + declared_len > s.len()
                        },
                    }
                },
                None => false,
            }
        }),
{
    lemma_first_is_found(s, cursor, at, encoding);
}

/// A search that finds nothing rests at the first byte behind which less than a sync
/// sequence is left, and where it already was if that lies before it. So a later search
/// in the same bytes finds nothing either.
pub proof fn law_spent_search_stays_spent(s: Seq<u8>, cursor: int)
    requires
        0 <= cursor,
        s.len() <= usize::MAX,
        next_sync(s, cursor) is None,
    ensures
        ({
            let stop: int = gave_up_at(s, cursor);
            &&& stop >= cursor
            &&& stop + 4 > s.len()
            &&& stop > cursor ==> stop + 3 == s.len()
            &&& next_sync(s, stop) is None
        }),
{
}

/// What a walk gives out of a frame are the bytes at its place, as many as it has.
pub proof fn law_frames_show_their_bytes<'a>(
    raw: FrameView<'a>,
    packed: FrameView14<'a>,
    s: Seq<u8>,
    span: FrameSpan,
    i: int,
)
    requires
        0 <= span.offset,
        0 <= span.len,
        span.offset + span.len <= s.len(),
        raw.shows(span, s),
        packed.shows(span, s),
        0 <= i < span.len,
    ensures
        raw.header == span.header && packed.header == span.header,
        raw.offset == span.offset && packed.offset == span.offset,
        raw.len == span.len && packed.len == span.len,
        raw.data@.len() == span.len && packed.data@.len() == span.len,
        raw.data@[i] == s[span.offset + i] && packed.data@[i] == s[span.offset + i],
{
}

} // verus!
