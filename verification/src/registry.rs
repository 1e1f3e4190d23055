//! What a codec registry asks: how errors are to be reported, how sure it is
//! that bytes are a frame, and which codes are claimed.

use crate::error::Error;
use crate::header::DtsFrameHeader;
use crate::header_codec::{
    detect_sync, parse_frame_header, parse_frame_header_14bit, parsed, parsed_14bit, sync_of,
};
use oxideav_core::CodecTag;
use vstd::prelude::*;

verus! {

/// The name of the codec.
pub const CODEC_ID_STR: &'static str = "dts";

/// How an error is to be reported.
#[derive(Debug, Clone, Copy, PartialEq, Eq, Structural)]
pub enum ErrorClass {
    /// More input is needed.
    NeedMore,
    /// The input is corrupt.
    InvalidData,
    /// The input is of a kind that is not handled.
    Unsupported,
}

/// How an error is to be reported: a short input needs more, a frame in the
/// wrong encoding is not handled, and anything else is corrupt.
pub open spec fn class_of(e: Error) -> ErrorClass {
    match e {
        Error::UnexpectedEof => ErrorClass::NeedMore,
        Error::UnsupportedFourteenBit => ErrorClass::Unsupported,
        Error::UnsupportedRaw16Bit => ErrorClass::Unsupported,
        _ => ErrorClass::InvalidData,
    }
}

/// How an error is to be reported.
pub fn error_class(e: &Error) -> (r: ErrorClass)
    ensures
        r == class_of(*e),
{
    match e {
        Error::UnexpectedEof => ErrorClass::NeedMore,
        Error::UnsupportedFourteenBit | Error::UnsupportedRaw16Bit => ErrorClass::Unsupported,
        _ => ErrorClass::InvalidData,
    }
}

/// How sure it is that a buffer starts with a frame.
#[derive(Debug, Clone, Copy, PartialEq, Eq, Structural)]
pub enum ProbeConfidence {
    /// A header was read.
    Certain,
    /// The buffer is too short to tell.
    Possible,
    /// There is no frame.
    No,
}

/// The confidence of a header that was read or not.
pub open spec fn confidence_of(r: Result<DtsFrameHeader, Error>) -> ProbeConfidence {
    match r {
        Ok(_) => ProbeConfidence::Certain,
        Err(Error::UnexpectedEof) => ProbeConfidence::Possible,
        Err(_) => ProbeConfidence::No,
    }
}

/// How sure it is that `bytes` starts with a frame in any of the four encodings.
pub fn probe_dts(bytes: &[u8]) -> (r: ProbeConfidence)
    ensures
        r == (match sync_of(bytes@) {
            Ok(sync) => confidence_of(
                if sync.raw() {
                    parsed(bytes@)
                } else {
                    parsed_14bit(bytes@)
                },
            ),
            Err(Error::UnexpectedEof) => ProbeConfidence::Possible,
            Err(_) => ProbeConfidence::No,
        }),
{
    match detect_sync(bytes) {
        Ok(sync) => {
            let header: Result<DtsFrameHeader, Error> = if sync.is_raw_16bit() {
                parse_frame_header(bytes)
            } else {
                parse_frame_header_14bit(bytes)
            };
            match header {
                Ok(_) => ProbeConfidence::Certain,
                Err(Error::UnexpectedEof) => ProbeConfidence::Possible,
                Err(_) => ProbeConfidence::No,
            }
        },
        Err(Error::UnexpectedEof) => ProbeConfidence::Possible,
        Err(_) => ProbeConfidence::No,
    }
}

/// The confidence of a probe by tag: without a packet the tag decides.
pub fn probe_dts_tag(packet: Option<&[u8]>) -> (r: ProbeConfidence)
    ensures
        packet is None ==> r == ProbeConfidence::Certain,
        packet matches Some(bytes) ==> r == (match sync_of(bytes@) {
            Ok(sync) => confidence_of(
                if sync.raw() {
                    parsed(bytes@)
                } else {
                    parsed_14bit(bytes@)
                },
            ),
            Err(Error::UnexpectedEof) => ProbeConfidence::Possible,
            Err(_) => ProbeConfidence::No,
        }),
{
    match packet {
        Some(bytes) => probe_dts(bytes),
        None => ProbeConfidence::Certain,
    }
}

/// A byte in upper case, where it is an ASCII letter.
pub open spec fn ascii_upper(b: u8) -> u8 {
    if 97 <= b <= 122 {
        (b - 32) as u8
    } else {
        b
    }
}

/// The code of the tag that `CodecTag::fourcc` makes of four bytes: it is a
/// four-character tag, and its letters are those of `raw` in upper case.
#[verifier::external_body]
fn fourcc_code(raw: &[u8; 4]) -> (r: Option<[u8; 4]>)
    ensures
        r matches Some(code) && forall|i: int|
            0 <= i < 4 ==> #[trigger] code@[i] == ascii_upper(raw@[i]),
{
    match CodecTag::fourcc(raw) {
        CodecTag::Fourcc(code) => Some(code),
        CodecTag::WaveFormat(_) => None,
        CodecTag::Mp4ObjectType(_) => None,
        CodecTag::Matroska(_) => None,
    }
}

/// Whether a four-character code is one of the two that the codec claims, in
/// whatever case: `dts ` and `dtsc`.
pub fn claims_fourcc(raw: &[u8; 4]) -> (r: bool)
    ensures
        r == (ascii_upper(raw@[0]) == 0x44 && ascii_upper(raw@[1]) == 0x54 && ascii_upper(raw@[2])
            == 0x53 && (raw@[3] == 0x20 || ascii_upper(raw@[3]) == 0x43)),
{
    match fourcc_code(raw) {
        Some(code) => code[0] == 0x44 && code[1] == 0x54 && code[2] == 0x53 && (code[3] == 0x20
            || code[3] == 0x43),
        None => false,
    }
}

/// The four-character codes that the codec claims.
pub fn claimed_fourccs() -> (r: [[u8; 4]; 2])
    ensures
        r@[0]@ == seq![0x64u8, 0x74u8, 0x73u8, 0x20u8],
        r@[1]@ == seq![0x64u8, 0x74u8, 0x73u8, 0x63u8],
{
    let plain: [u8; 4] = [0x64, 0x74, 0x73, 0x20];
    let coherent: [u8; 4] = [0x64, 0x74, 0x73, 0x63];
    assert(plain@ =~= seq![0x64u8, 0x74u8, 0x73u8, 0x20u8]);
    assert(coherent@ =~= seq![0x64u8, 0x74u8, 0x73u8, 0x63u8]);
    [plain, coherent]
}

} // verus!
