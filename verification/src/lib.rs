//! DTS Coherent Acoustics core streams: frame headers in their four encodings,
//! sync scanning and frame walking, the 14-bit container transform, the audio
//! coding header, auxiliary chunks, and the way from a frame to samples. What
//! only floating-point arithmetic can do is left to the caller, who hands it in
//! as functions on samples.

#![allow(unused_imports)]

pub mod audio_data;
pub mod audio_header;
pub mod audio_header_laws;
pub mod bitreader;
pub mod bits;
pub mod chunk_laws;
pub mod core_frame;
pub mod cos_mod;
pub mod crc16;
pub mod decode_laws;
pub mod decoder;
pub mod determined;
pub mod dsync;
pub mod error;
pub mod failure_laws;
pub mod filter_bank;
pub mod frame_laws;
pub mod gain;
pub mod handle;
pub mod header;
pub mod header_codec;
pub mod header_field_laws;
pub mod header_laws;
pub mod iter;
pub mod iter_laws;
pub mod lengths;
pub mod lfe_interp;
pub mod lfe_synth;
pub mod mix_laws;
pub mod plan_laws;
pub mod registry;
pub mod rev2_aux;
pub mod side_info;
pub mod stream;
pub mod stream_laws;
pub mod subband_mix;
pub mod subframe;
pub mod subframe_pcm;
pub mod sums;
pub mod table_laws;
pub mod unpack14;
pub mod workers;

pub use audio_data::{
    audio_quant_type, terminal_sel_index, AudioQuantType, ABITS_MAX_BLOCK_CODE, ABITS_MAX_SEL,
    ABITS_TABLE_LEN, CODEBOOK_GROUP_SIZE, QUANT_LEVELS,
};
pub use audio_header::{
    adj_transmitted, decode_audio_coding_header_at, sel_bit_width, AudioCodingHeader,
    SEL_PLANE_LEN,
};
pub use bitreader::BitReader;
pub use core_frame::{append_block, find_override_codes, Subframe};
pub use cos_mod::{
    cos_mod_stage, precal_cos_mod, CosModEntry, COS_MOD_BLOCK1_START, COS_MOD_BLOCK2_START,
    COS_MOD_BLOCK3_START, COS_MOD_BLOCK4_START, COS_MOD_LEN,
};
pub use crc16::dts_crc16;
pub use decoder::SubframePcmDecoder;
pub use dsync::{decode_dsync_at, dsync_present, DSYNC_WIRE_BITS, DSYNC_WORD};
pub use error::Error;
pub use filter_bank::FilterBankSelection;
pub use gain::{apply_range, apply_rev2_drc};
pub use handle::{
    frame_channel_count, planar_s32, DtsDecoderHandle, OutputFrame, ReceiveError,
};
pub use header::{
    amode_arrangement_from_index, dialog_normalization_from_codes, sample_frequency_from_index,
    source_pcm_resolution_from_index, targeted_bit_rate_from_index, AmodeArrangement,
    DialogNormalization, DtsFrameHeader, FrameType, LfeMode, SampleFrequency, SourcePcmResolution,
    SyncWordEncoding, TargetedBitRate,
};
pub use header_codec::{
    detect_sync, encode_frame_header_14bit_be, encode_frame_header_14bit_le,
    encode_frame_header_be, encode_frame_header_le, parse_frame_header, parse_frame_header_14bit,
};
pub use iter::{
    find_all_syncs, find_next_sync, is_sync_first_byte_candidate, iter_frames, iter_frames_14bit,
    iter_frames_resync, iter_syncs, FrameIterator, FrameIterator14, FrameIteratorResync, FrameView,
    FrameView14, ResyncCause, ResyncEvent, SyncIterator, SyncMatch,
};
pub use lfe_interp::LfeInterpolationSelection;
pub use lfe_synth::{
    LfeChannel, LfeChannelError, LfeInterpError, LfeInterpolator, LFE_FIR_COEFF_LEN,
    LFE_HISTORY_LEN,
};
pub use registry::{
    claimed_fourccs, claims_fourcc, error_class, probe_dts, probe_dts_tag, ErrorClass,
    ProbeConfidence, CODEC_ID_STR,
};
pub use rev2_aux::{
    find_rev2_aux, parse_rev2_aux, parse_rev2_aux_at, subsubframes_per_frame, Rev2AuxChunk,
    Rev2Drc, REV2_AUX_SYNC_WORD, REV2_DRC_VERSION_SINGLE_BAND,
};
pub use side_info::{AbitsCodebook, ScaleFactorAdjustment, ScalesCodebook, TmodeCodebook};
pub use stream::{decode_core_frame, decode_core_frame_with_info, CoreStreamDecoder};
pub use subband_mix::{apply_joint_subband, apply_sum_difference, mix_subframe};
pub use subframe::{
    ChannelSideInfo, ChannelSideInfoParams, SideInfoTail, SubframeSideInfo, VqCodebooks,
    MAX_PRIMARY_CHANNELS, NUM_SUBBAND, SAMPLES_PER_SUBSUBFRAME,
};
pub use subframe_pcm::{
    plan_subframe, AudioArrayDecodeError, AudioArrayError, CoreFrameDecodeError,
    MultiChannelQmfError, SubframePcm, SubframePcmError, SubframePlan,
    PCM_PER_SUBBAND_ROW,
};
pub use unpack14::{pack_16bit_to_14bit, unpack_14bit_to_16bit, FourteenBitByteOrder};
pub use workers::{
    AudioJob, AudioReply, FrameWorkers, IndexReply, LowReply, SideReply, SubframeWorkers,
    SynthesisReply, TailReply,
};
