//! The second-revision auxiliary data chunk near the end of a frame.

use crate::bitreader::{field_at, flag_at};
use crate::bits::{field, flag, lemma_field_bound};
use crate::crc16::{crc16_of, dts_crc16};
use crate::error::Error;
use crate::header::DtsFrameHeader;
use vstd::arithmetic::power2::*;
use vstd::prelude::*;
use vstd::slice::slice_subrange;

verus! {

/// The sync word of the chunk.
pub const REV2_AUX_SYNC_WORD: u32 = 0x7004_C070;

/// The dynamic range version with one code for each subsubframe.
pub const REV2_DRC_VERSION_SINGLE_BAND: u8 = 1;

/// Broadcast dynamic range control.
#[derive(Debug, Clone, PartialEq, Eq)]
pub struct Rev2Drc {
    /// The version of the codes.
    pub version: u8,
    /// One code for each subsubframe; none for another version.
    pub codes: Vec<u8>,
}

/// The fields of an auxiliary chunk.
#[derive(Debug, Clone, PartialEq, Eq)]
pub struct Rev2AuxChunk {
    /// The byte offset of the sync word in the frame.
    pub offset: usize,
    /// The size of the chunk behind the sync word in bytes, check word and all.
    pub data_byte_size: u8,
    /// The downmix scale index of embedded extended surround.
    pub es_downmix_scale_index: Option<u8>,
    /// The dynamic range codes.
    pub drc: Option<Rev2Drc>,
    /// The dialog normalization code.
    pub dialnorm: Option<u8>,
    /// The check word.
    pub crc16: u16,
    /// Whether the check word fits the bytes that it covers.
    pub crc_valid: bool,
}

/// The contents of an auxiliary chunk.
#[verifier::ext_equal]
pub struct Rev2AuxView {
    /// The byte offset of the sync word.
    pub offset: int,
    /// The size behind the sync word.
    pub data_byte_size: nat,
    /// The downmix scale index.
    pub es_downmix_scale_index: Option<u8>,
    /// The dynamic range version and codes.
    pub drc: Option<(u8, Seq<u8>)>,
    /// The dialog normalization code.
    pub dialnorm: Option<u8>,
    /// The check word.
    pub crc16: u16,
    /// Whether the check word fits.
    pub crc_valid: bool,
}

impl View for Rev2AuxChunk {
    type V = Rev2AuxView;

    open spec fn view(&self) -> Rev2AuxView {
        Rev2AuxView {
            offset: self.offset as int,
            data_byte_size: self.data_byte_size as nat,
            es_downmix_scale_index: self.es_downmix_scale_index,
            drc: match self.drc {
                Some(drc) => Some((drc.version, drc.codes@)),
                None => None,
            },
            dialnorm: self.dialnorm,
            crc16: self.crc16,
            crc_valid: self.crc_valid,
        }
    }
}

/// A gain code taken as a signed number of quarter decibels.
pub open spec fn quarter_db(code: u8) -> int {
    if code < 128 {
        code as int
    } else {
        code - 256
    }
}

/// A gain code taken as a signed number of quarter decibels.
pub fn gain_quarter_db(code: u8) -> (r: i8)
    ensures
        r == quarter_db(code),
{
    if code < 128 {
        code as i8
    } else {
        (code as i16 - 256) as i8
    }
}

impl Rev2Drc {
    /// The gain of each subsubframe, of whatever kind `gain` makes of a number of
    /// quarter decibels.
    #[must_use]
    pub fn gains_db<T, F: Fn(i8) -> T>(&self, gain: F) -> (r: Vec<T>)
        requires
            forall|q: i8| #[trigger] gain.requires((q,)),
        ensures
            r@.len() == self.codes@.len(),
            forall|i: int|
                0 <= i < r@.len() ==> gain.ensures(
                    (quarter_db(self.codes@[i]) as i8,),
                    #[trigger] r@[i],
                ),
    {
        let mut out: Vec<T> = Vec::new();
        let mut i: usize = 0;
        while i < self.codes.len()
            invariant
                forall|q: i8| #[trigger] gain.requires((q,)),
                i <= self.codes@.len(),
                out@.len() == i,
                forall|n: int|
                    0 <= n < i ==> gain.ensures(
                        (quarter_db(self.codes@[n]) as i8,),
                        #[trigger] out@[n],
                    ),
            decreases self.codes@.len() - i,
        {
            let one: T = gain(gain_quarter_db(self.codes[i]));
            out.push(one);
            i = i + 1;
        }
        out
    }

    /// The multiplier of each subsubframe, of whatever kind `linear` makes of a
    /// gain code.
    #[must_use]
    pub fn multipliers<T, F: Fn(u8) -> T>(&self, linear: F) -> (r: Vec<T>)
        requires
            forall|code: u8| #[trigger] linear.requires((code,)),
        ensures
            r@.len() == self.codes@.len(),
            forall|i: int|
                0 <= i < r@.len() ==> linear.ensures((self.codes@[i],), #[trigger] r@[i]),
    {
        let mut out: Vec<T> = Vec::new();
        let mut i: usize = 0;
        while i < self.codes.len()
            invariant
                forall|code: u8| #[trigger] linear.requires((code,)),
                i <= self.codes@.len(),
                out@.len() == i,
                forall|n: int|
                    0 <= n < i ==> linear.ensures((self.codes@[n],), #[trigger] out@[n]),
            decreases self.codes@.len() - i,
        {
            let one: T = linear(self.codes[i]);
            out.push(one);
            i = i + 1;
        }
        out
    }
}

impl Rev2AuxChunk {
    /// The entry of a table of downmix scales that the index selects, where there
    /// is an index and the table reaches so far.
    #[must_use]
    pub fn es_downmix_scale<T: Copy>(&self, scales: &[T]) -> (r: Option<T>)
        ensures
            r == (match self.es_downmix_scale_index {
                Some(index) => if index < scales@.len() {
                    Some(scales@[index as int])
                } else {
                    None
                },
                None => None,
            }),
    {
        match self.es_downmix_scale_index {
            Some(index) => if (index as usize) < scales.len() {
                Some(scales[index as usize])
            } else {
                None
            },
            None => None,
        }
    }

    /// The dialog normalization gain in decibels: the code, taken as a signed
    /// byte, with the sign changed.
    #[must_use]
    pub fn dialog_normalization_gain_db(&self) -> (r: Option<i8>)
        requires
            self.dialnorm != Some(128u8),
        ensures
            match self.dialnorm {
                Some(code) => r matches Some(db) && db == (if code < 128 {
                    -(code as int)
                } else {
                    256 - code as int
                }),
                None => r is None,
            },
    {
        match self.dialnorm {
            Some(code) => if code < 128 {
                Some(-(code as i8))
            } else {
                Some((256 - code as i16) as i8)
            },
            None => None,
        }
    }
}

/// The sync word stands at byte `i`.
pub open spec fn rev2_sync_at(s: Seq<u8>, i: int) -> bool {
    s[i] == 0x70 && s[i + 1] == 0x04 && s[i + 2] == 0xC0 && s[i + 3] == 0x70
}

/// Whether byte `i` of `s` can be the start of a chunk: it is aligned to four
/// bytes, has four bytes from there on, and the sync word is there.
pub open spec fn rev2_candidate(s: Seq<u8>, i: int) -> bool {
    0 <= i && i + 4 <= s.len() && i % 4 == 0 && rev2_sync_at(s, i)
}

/// The offset of the last aligned sync word in the frame.
#[must_use]
pub fn find_rev2_aux(frame: &[u8]) -> (r: Option<usize>)
    ensures
        match r {
            Some(offset) => rev2_candidate(frame@, offset as int) && forall|i: int|
                offset < i ==> !rev2_candidate(frame@, i),
            None => forall|i: int| !rev2_candidate(frame@, i),
        },
{
    if frame.len() < 4 {
        return None;
    }
    let last: usize = frame.len() - 4;
    let mut offset: usize = last - last % 4;
    loop
        invariant
            offset % 4 == 0,
            offset + 4 <= frame@.len(),
            forall|i: int| offset < i ==> !rev2_candidate(frame@, i),
        decreases offset,
    {
        if frame[offset] == 0x70 && frame[offset + 1] == 0x04 && frame[offset + 2] == 0xC0
            && frame[offset + 3] == 0x70 {
            return Some(offset);
        }
        if offset == 0 {
            return None;
        }
        offset = offset - 4;
    }
}

/// The number of subsubframes in a frame of a block count code, or the error
/// for a frame that is no whole number of them long.
pub open spec fn subsubframes_of(blocks_per_frame: u8) -> Result<nat, Error> {
    let blocks: int = blocks_per_frame + 1;
    if blocks % 8 != 0 {
        Err(Error::Rev2AuxDrcCountUnresolved { blocks: blocks as u8 })
    } else {
        Ok((blocks / 8) as nat)
    }
}

/// The number of subsubframes in the frame.
pub fn subsubframes_per_frame(header: &DtsFrameHeader) -> (r: Result<usize, Error>)
    ensures
        match r {
            Ok(n) => subsubframes_of(header.blocks_per_frame) == Ok::<nat, Error>(n as nat),
            Err(e) => subsubframes_of(header.blocks_per_frame) == Err::<nat, Error>(e),
        },
{
    let blocks: usize = header.blocks_per_frame as usize + 1;
    if blocks % 8 != 0 {
        return Err(Error::Rev2AuxDrcCountUnresolved { blocks: blocks as u8 });
    }
    Ok(blocks / 8)
}

/// The bits of a chunk whose sync word stands at byte `off`.
pub struct Rev2Layout {
    /// The frame.
    pub s: Seq<u8>,
    /// The byte offset of the sync word.
    pub off: int,
}

/// The broadcast part of a chunk: what it holds and the bit behind it.
pub struct BroadcastView {
    /// The dynamic range version and codes.
    pub drc: Option<(u8, Seq<u8>)>,
    /// The dialog normalization code.
    pub dialnorm: Option<u8>,
    /// The first bit behind the broadcast part.
    pub end: int,
}

impl Rev2Layout {
    /// The size of the chunk behind the sync word, its check word counted.
    pub open spec fn size(self) -> nat {
        field(self.s, 8 * self.off + 32, 7) + 1
    }

    /// The byte offset of the check word.
    pub open spec fn crc_offset(self) -> int {
        self.off + 4 + self.size() - 2
    }

    /// Whether a downmix scale index is present.
    pub open spec fn has_scale(self) -> bool {
        flag(self.s, 8 * self.off + 39)
    }

    /// The downmix scale index.
    pub open spec fn scale(self) -> nat {
        field(self.s, 8 * self.off + 40, 8)
    }

    /// The first bit behind the downmix scale.
    pub open spec fn scale_end(self) -> int {
        if self.has_scale() {
            8 * self.off + 48
        } else {
            8 * self.off + 40
        }
    }

    /// Whether a broadcast part is present. A chunk of up to four bytes has none.
    pub open spec fn has_broadcast(self) -> bool {
        self.size() > 4 && flag(self.s, self.scale_end())
    }

    /// The first bit behind the broadcast flag, where there is one.
    pub open spec fn flag_end(self) -> int {
        if self.size() > 4 {
            self.scale_end() + 1
        } else {
            self.scale_end()
        }
    }

    /// Whether dynamic range codes are present.
    pub open spec fn has_drc(self) -> bool {
        flag(self.s, self.scale_end() + 1)
    }

    /// Whether a dialog normalization is present.
    pub open spec fn has_dialnorm(self) -> bool {
        flag(self.s, self.scale_end() + 2)
    }

    /// The dynamic range version.
    pub open spec fn version(self) -> nat {
        field(self.s, self.scale_end() + 3, 4)
    }

    /// The first byte of the dynamic range codes: the flags are filled up to a
    /// whole byte.
    pub open spec fn codes_at(self) -> int {
        (self.scale_end() + (if self.has_drc() {
            7int
        } else {
            3int
        }) + 7) / 8
    }

    /// The broadcast part of a frame of `n` subsubframes, or why it cannot be
    /// read. Behind codes of another version nothing can be located.
    pub open spec fn broadcast(self, blocks_per_frame: u8) -> Result<BroadcastView, Error> {
        let at: int = self.codes_at();
        let single: bool = self.has_drc() && self.version() == 1;
        let walkable: bool = self.has_drc() ==> self.version() == 1;
        if single && subsubframes_of(blocks_per_frame) is Err {
            Err(subsubframes_of(blocks_per_frame)->Err_0)
        } else {
            let n: nat = if single {
                subsubframes_of(blocks_per_frame)->Ok_0
            } else {
                0
            };
            let norm_bits: int = if self.has_dialnorm() && walkable {
                5
            } else {
                0
            };
            if n > 0 && at + n > self.s.len() || norm_bits > 0 && 8 * (at + n) + 5 > 8
                * self.s.len() {
                Err(Error::UnexpectedEof)
            } else {
                Ok(
                    BroadcastView {
                        drc: if self.has_drc() {
                            Some((self.version() as u8, self.s.subrange(at, at + n)))
                        } else {
                            None
                        },
                        dialnorm: if norm_bits > 0 {
                            Some(field(self.s, 8 * (at + n), 5) as u8)
                        } else {
                            None
                        },
                        end: 8 * (at + n) + norm_bits,
                    },
                )
            }
        }
    }

    /// The optional part of the chunk.
    pub open spec fn optional(self, blocks_per_frame: u8) -> Result<BroadcastView, Error> {
        if self.has_broadcast() {
            self.broadcast(blocks_per_frame)
        } else {
            Ok(BroadcastView { drc: None, dialnorm: None, end: self.flag_end() })
        }
    }

    /// The chunk, given its optional part.
    pub open spec fn chunk(self, part: BroadcastView) -> Rev2AuxView {
        let crc: u16 = field(self.s, 8 * self.crc_offset(), 16) as u16;
        Rev2AuxView {
            offset: self.off,
            data_byte_size: self.size(),
            es_downmix_scale_index: if self.has_scale() {
                Some(self.scale() as u8)
            } else {
                None
            },
            drc: part.drc,
            dialnorm: part.dialnorm,
            crc16: crc,
            crc_valid: crc16_of(self.s.subrange(self.off + 4, self.crc_offset())) == crc,
        }
    }
}

/// The chunk at byte `off` of the frame `s`, or why it cannot be read.
pub open spec fn rev2_aux_at(s: Seq<u8>, off: int, blocks_per_frame: u8) -> Result<
    Rev2AuxView,
    Error,
> {
    let l: Rev2Layout = Rev2Layout { s, off };
    if off + 4 > s.len() {
        Err(Error::UnexpectedEof)
    } else if field(s, 8 * off, 32) != REV2_AUX_SYNC_WORD {
        Err(Error::Rev2AuxSyncMismatch { found: field(s, 8 * off, 32) as u32 })
    } else if off + 5 > s.len() {
        Err(Error::UnexpectedEof)
    } else if l.size() < 3 {
        Err(Error::Rev2AuxSizeOutOfRange { size: l.size() as u8 })
    } else if l.crc_offset() + 2 > s.len() {
        Err(Error::UnexpectedEof)
    } else if l.has_scale() && !(40 <= l.scale() <= 240) {
        Err(Error::Rev2AuxEsScaleIndexOutOfRange { index: l.scale() as u8 })
    } else {
        match l.optional(blocks_per_frame) {
            Err(e) => Err(e),
            Ok(part) => if part.end > 8 * l.crc_offset() {
                Err(Error::Rev2AuxSizeOutOfRange { size: l.size() as u8 })
            } else {
                Ok(l.chunk(part))
            },
        }
    }
}

/// What a function that gives a chunk returns for an expected outcome.
pub open spec fn chunk_matches(
    r: Result<Rev2AuxChunk, Error>,
    want: Result<Rev2AuxView, Error>,
) -> bool {
    match r {
        Ok(chunk) => want == Ok::<Rev2AuxView, Error>(chunk@),
        Err(e) => want == Err::<Rev2AuxView, Error>(e),
    }
}

/// The broadcast part of a chunk: codes, dialog normalization and the bit behind.
fn read_broadcast(
    frame: &[u8],
    scale_end: usize,
    header: &DtsFrameHeader,
    Ghost(l): Ghost<Rev2Layout>,
) -> (r: Result<(Option<Rev2Drc>, Option<u8>, usize), Error>)
    requires
        8 * frame@.len() <= usize::MAX,
        l.s == frame@,
        scale_end == l.scale_end(),
        scale_end + 16 <= 8 * frame@.len(),
    ensures
        match r {
            Ok((drc, dialnorm, end)) => l.broadcast(header.blocks_per_frame) == Ok::<
                BroadcastView,
                Error,
            >(
                BroadcastView {
                    drc: match drc {
                        Some(d) => Some((d.version, d.codes@)),
                        None => None,
                    },
                    dialnorm,
                    end: end as int,
                },
            ),
            Err(e) => l.broadcast(header.blocks_per_frame) == Err::<BroadcastView, Error>(e),
        },
{
    let drc_present: bool = flag_at(frame, scale_end + 1);
    let dialnorm_present: bool = flag_at(frame, scale_end + 2);
    proof {
        lemma2_to64();
        lemma_field_bound(frame@, scale_end + 3, 4);
    }
    let version: u8 = if drc_present {
        field_at(frame, scale_end + 3, 4) as u8
    } else {
        0
    };
    let flags_end: usize = if drc_present {
        scale_end + 7
    } else {
        scale_end + 3
    };
    let at: usize = (flags_end + 7) / 8;
    assert(at == l.codes_at());
    let mut walkable: bool = true;
    let mut drc: Option<Rev2Drc> = None;
    let mut next: usize = at;
    let ghost none: Seq<u8> = frame@.subrange(at as int, at as int);
    if drc_present {
        let mut codes: Vec<u8> = Vec::new();
        if version == REV2_DRC_VERSION_SINGLE_BAND {
            let n: usize = subsubframes_per_frame(header)?;
            if n > frame.len() - at {
                return Err(Error::UnexpectedEof);
            }
            let stop: usize = at + n;
            while next < stop
                invariant
                    stop <= frame@.len(),
                    at <= next <= stop,
                    codes@ == frame@.subrange(at as int, next as int),
                decreases stop - next,
            {
                codes.push(frame[next]);
                next = next + 1;
                assert(codes@ =~= frame@.subrange(at as int, next as int));
            }
        } else {
            walkable = false;
            assert(codes@ =~= none);
        }
        drc = Some(Rev2Drc { version, codes });
    }
    let mut dialnorm: Option<u8> = None;
    let mut end: usize = 8 * next;
    if dialnorm_present && walkable {
        if frame.len() - next < 1 {
            return Err(Error::UnexpectedEof);
        }
        proof {
            lemma_field_bound(frame@, 8 * next as int, 5);
        }
        dialnorm = Some(field_at(frame, 8 * next, 5) as u8);
        end = end + 5;
    }
    Ok((drc, dialnorm, end))
}

/// Reads the chunk whose sync word stands at `byte_offset` of the frame.
pub fn parse_rev2_aux_at(frame: &[u8], byte_offset: usize, header: &DtsFrameHeader) -> (r: Result<
    Rev2AuxChunk,
    Error,
>)
    requires
        8 * frame@.len() <= usize::MAX,
    ensures
        chunk_matches(r, rev2_aux_at(frame@, byte_offset as int, header.blocks_per_frame)),
{
    let ghost l: Rev2Layout = Rev2Layout { s: frame@, off: byte_offset as int };
    if byte_offset > frame.len() || frame.len() - byte_offset < 4 {
        return Err(Error::UnexpectedEof);
    }
    let start: usize = byte_offset * 8;
    let sync: u32 = field_at(frame, start, 32);
    if sync != REV2_AUX_SYNC_WORD {
        return Err(Error::Rev2AuxSyncMismatch { found: sync });
    }
    if frame.len() - byte_offset < 5 {
        return Err(Error::UnexpectedEof);
    }
    proof {
        lemma2_to64();
        lemma_field_bound(frame@, start + 32, 7);
        lemma_field_bound(frame@, start + 40, 8);
    }
    let data_byte_size: u8 = (field_at(frame, start + 32, 7) + 1) as u8;
    if data_byte_size < 3 {
        return Err(Error::Rev2AuxSizeOutOfRange { size: data_byte_size });
    }
    if frame.len() - byte_offset - 4 < data_byte_size as usize {
        return Err(Error::UnexpectedEof);
    }
    let crc_byte_offset: usize = byte_offset + 4 + data_byte_size as usize - 2;
    let mut es_downmix_scale_index: Option<u8> = None;
    let mut scale_end: usize = start + 40;
    if flag_at(frame, start + 39) {
        let index: u8 = field_at(frame, start + 40, 8) as u8;
        if index < 40 || index > 240 {
            return Err(Error::Rev2AuxEsScaleIndexOutOfRange { index });
        }
        es_downmix_scale_index = Some(index);
        scale_end = start + 48;
    }
    assert(scale_end == l.scale_end());
    let mut drc: Option<Rev2Drc> = None;
    let mut dialnorm: Option<u8> = None;
    let mut end: usize = scale_end;
    if data_byte_size > 4 {
        end = scale_end + 1;
        if flag_at(frame, scale_end) {
            let part: (Option<Rev2Drc>, Option<u8>, usize) = read_broadcast(
                frame,
                scale_end,
                header,
                Ghost(l),
            )?;
            drc = part.0;
            dialnorm = part.1;
            end = part.2;
        }
    }
    if end > crc_byte_offset * 8 {
        return Err(Error::Rev2AuxSizeOutOfRange { size: data_byte_size });
    }
    proof {
        lemma_field_bound(frame@, 8 * crc_byte_offset as int, 16);
    }
    let crc16: u16 = field_at(frame, crc_byte_offset * 8, 16) as u16;
    let covered: &[u8] = slice_subrange(frame, byte_offset + 4, crc_byte_offset);
    let crc_valid: bool = dts_crc16(covered) == crc16;
    Ok(
        Rev2AuxChunk {
            offset: byte_offset,
            data_byte_size,
            es_downmix_scale_index,
            drc,
            dialnorm,
            crc16,
            crc_valid,
        },
    )
}

/// Finds and reads the chunk of the frame; a frame without one gives `None`.
pub fn parse_rev2_aux(frame: &[u8], header: &DtsFrameHeader) -> (r: Result<
    Option<Rev2AuxChunk>,
    Error,
>)
    requires
        8 * frame@.len() <= usize::MAX,
    ensures
        match r {
            Ok(None) => forall|i: int| !rev2_candidate(frame@, i),
            Ok(Some(chunk)) => last_rev2_candidate(frame@, chunk@.offset) && rev2_aux_at(
                frame@,
                chunk@.offset,
                header.blocks_per_frame,
            ) == Ok::<Rev2AuxView, Error>(chunk@),
            Err(e) => exists|i: int| #[trigger]
                last_rev2_candidate(frame@, i) && rev2_aux_at(frame@, i, header.blocks_per_frame)
                    == Err::<Rev2AuxView, Error>(e),
        },
{
    match find_rev2_aux(frame) {
        Some(offset) => {
            assert(last_rev2_candidate(frame@, offset as int));
            match parse_rev2_aux_at(frame, offset, header) {
                Ok(chunk) => Ok(Some(chunk)),
                Err(e) => Err(e),
            }
        },
        None => Ok(None),
    }
}

/// The last place in `s` at which a chunk can start.
pub open spec fn last_rev2_candidate(s: Seq<u8>, i: int) -> bool {
    rev2_candidate(s, i) && forall|j: int| i < j ==> !rev2_candidate(s, j)
}

/// A chunk that was read lies inside its frame, and its fields are in range: a
/// downmix scale index from 40 to 240, a five-bit dialog normalization, and one
/// gain code for each subsubframe or none at all.
pub proof fn law_chunk_is_in_range(s: Seq<u8>, off: int, blocks_per_frame: u8)
    requires
        0 <= off,
    ensures
        rev2_aux_at(s, off, blocks_per_frame) matches Ok(chunk) ==> {
            &&& 3 <= chunk.data_byte_size <= 128
            &&& off + 4 + chunk.data_byte_size <= s.len()
            &&& chunk.es_downmix_scale_index matches Some(index) ==> 40 <= index <= 240
            &&& chunk.dialnorm matches Some(code) ==> code < 32
            &&& chunk.drc matches Some((version, codes)) ==> version < 16 && (if version == 1 {
                8 * codes.len() == blocks_per_frame + 1
            } else {
                codes.len() == 0
            })
        },
{
    let l: Rev2Layout = Rev2Layout { s, off };
    lemma2_to64();
    lemma_field_bound(s, 8 * off + 32, 7);
    lemma_field_bound(s, 8 * off + 40, 8);
    lemma_field_bound(s, l.scale_end() + 3, 4);
    lemma_field_bound(s, 8 * l.codes_at(), 5);
    if let Ok(n) = subsubframes_of(blocks_per_frame) {
        lemma_field_bound(s, 8 * (l.codes_at() + n), 5);
    }
}

} // verus!
