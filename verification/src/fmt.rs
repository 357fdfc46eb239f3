//! The `fmt ` chunk: the format of the samples in a WAV file.
use crate::bytes::{four_at, le_u16, le_u32, read_u16_le, read_u32_le, tag, tag_at, utf8_string};
use crate::errors::{ChunkError, lift, lift_result};
use vstd::prelude::*;
use vstd::utf8::*;

verus! {

/// The body of a `fmt ` chunk with format code 1 (integer PCM).
#[derive(Debug, Clone, Copy, PartialEq, Eq)]
pub struct PCMFmt {
    pub format_code: u16,
    pub number_of_channels: u16,
    pub sample_rate: u32,
    pub bytes_per_second: u32,
    pub block_align: u16,
    pub bits_per_sample: u16,
}

/// The body of a `fmt ` chunk with format code 0xFFFE (WAVE_FORMAT_EXTENSIBLE).
#[derive(Debug, Clone, Copy, PartialEq, Eq)]
pub struct ExtensibleFmt {
    pub format_code: u16,
    pub number_of_channels: u16,
    pub sample_rate: u32,
    pub bytes_per_second: u32,
    pub block_align: u16,
    pub bits_per_sample: u16,
    pub cb_size: u16,
    pub valid_bits_per_sample: u16,
    pub channel_mask: u32,
    pub sub_format: [u8; 16],
}

/// A decoded `fmt ` chunk.
#[derive(Debug)]
pub enum FmtChunk {
    Pcm(PCMFmt),
    Extensible(ExtensibleFmt),
    Unknown { fmt_code: u16, data: Vec<u8> },
}

/// The model of a `fmt ` chunk.
pub enum FmtModel {
    Pcm(PCMFmt),
    Extensible(ExtensibleModel),
    Unknown { fmt_code: u16, data: Seq<u8> },
}

impl View for PCMFmt {
    type V = PCMFmt;

    open spec fn view(&self) -> PCMFmt {
        *self
    }
}

/// The model of an extensible format body, with the sub-format GUID as a sequence.
pub struct ExtensibleModel {
    pub format_code: u16,
    pub number_of_channels: u16,
    pub sample_rate: u32,
    pub bytes_per_second: u32,
    pub block_align: u16,
    pub bits_per_sample: u16,
    pub cb_size: u16,
    pub valid_bits_per_sample: u16,
    pub channel_mask: u32,
    pub sub_format: Seq<u8>,
}

impl View for ExtensibleFmt {
    type V = ExtensibleModel;

    open spec fn view(&self) -> ExtensibleModel {
        ExtensibleModel {
            format_code: self.format_code,
            number_of_channels: self.number_of_channels,
            sample_rate: self.sample_rate,
            bytes_per_second: self.bytes_per_second,
            block_align: self.block_align,
            bits_per_sample: self.bits_per_sample,
            cb_size: self.cb_size,
            valid_bits_per_sample: self.valid_bits_per_sample,
            channel_mask: self.channel_mask,
            sub_format: self.sub_format@,
        }
    }
}

impl View for FmtChunk {
    type V = FmtModel;

    open spec fn view(&self) -> FmtModel {
        match self {
            FmtChunk::Pcm(p) => FmtModel::Pcm(*p),
            FmtChunk::Extensible(x) => FmtModel::Extensible(x@),
            FmtChunk::Unknown { fmt_code, data } => FmtModel::Unknown {
                fmt_code: *fmt_code,
                data: data@,
            },
        }
    }
}

/// The PCM fields stored little-endian at the start of `w`.
pub open spec fn pcm_fields(w: Seq<u8>) -> PCMFmt {
    PCMFmt {
        format_code: le_u16(w, 0),
        number_of_channels: le_u16(w, 2),
        sample_rate: le_u32(w, 4),
        bytes_per_second: le_u32(w, 8),
        block_align: le_u16(w, 12),
        bits_per_sample: le_u16(w, 14),
    }
}

/// Decoding a PCM format body `w` (the `fmt ` chunk without its 8-byte header).
/// A format code other than 1 is rejected; a body shorter than its 16 bytes of
/// fields is not handled.
pub open spec fn spec_pcm_fmt(w: Seq<u8>) -> Option<Result<PCMFmt, ChunkError>> {
    if w.len() < 2 {
        None
    } else if le_u16(w, 0) != 1 {
        Some(Err(ChunkError::FormatCodeError()))
    } else if w.len() < 16 {
        None
    } else {
        Some(Ok(pcm_fields(w)))
    }
}

/// The extensible-format fields stored little-endian at the start of `w`.
pub open spec fn extensible_fields(w: Seq<u8>) -> ExtensibleModel {
    ExtensibleModel {
        format_code: le_u16(w, 0),
        number_of_channels: le_u16(w, 2),
        sample_rate: le_u32(w, 4),
        bytes_per_second: le_u32(w, 8),
        block_align: le_u16(w, 12),
        bits_per_sample: le_u16(w, 14),
        cb_size: le_u16(w, 16),
        valid_bits_per_sample: le_u16(w, 18),
        channel_mask: le_u32(w, 20),
        sub_format: w.subrange(24, 40),
    }
}

/// Decoding an extensible format body `w`: all 40 bytes of fields are read, whatever
/// the format code; a shorter body is not handled.
pub open spec fn spec_extensible_fmt(w: Seq<u8>) -> Option<Result<ExtensibleModel, ChunkError>> {
    if w.len() < 40 {
        None
    } else {
        Some(Ok(extensible_fields(w)))
    }
}

/// Decoding a whole `fmt ` chunk `v`, header included. The format code at bytes 8..10
/// chooses the body: 1 for PCM, 0xFFFE for the extensible format; any other code, or a
/// body too short for its fields, is not handled.
pub open spec fn spec_fmt_chunk(v: Seq<u8>) -> Option<Result<FmtModel, ChunkError>> {
    if v.len() < 8 {
        Some(Err(ChunkError::SizeError()))
    } else if !valid_utf8(four_at(v, 0)) || four_at(v, 0) != tag('f', 'm', 't', ' ') {
        Some(Err(ChunkError::IdError()))
    } else if v.len() < 10 {
        None
    } else if le_u16(v, 8) == 1 {
        match spec_pcm_fmt(v.skip(8)) {
            None => None,
            Some(Err(_)) => Some(Err(ChunkError::FormatCodeError())),
            Some(Ok(p)) => Some(Ok(FmtModel::Pcm(p))),
        }
    } else if le_u16(v, 8) == 0xFFFE {
        match spec_extensible_fmt(v.skip(8)) {
            None => None,
            Some(Err(_)) => Some(Err(ChunkError::FormatCodeError())),
            Some(Ok(x)) => Some(Ok(FmtModel::Extensible(x))),
        }
    } else {
        None
    }
}

impl PCMFmt {
    /// Decodes a PCM format body; `None` where the body is not handled (see [`spec_pcm_fmt`]).
    pub fn decode(value: &[u8]) -> (res: Option<Result<PCMFmt, ChunkError>>)
        ensures
            res == spec_pcm_fmt(value@),
    {
        if value.len() < 2 {
            return None;
        }
        let format_code: u16 = read_u16_le(value, 0);
        if format_code != 1 {
            return Some(Err(ChunkError::FormatCodeError()));
        }
        if value.len() < 16 {
            return None;
        }
        Some(
            Ok(
                PCMFmt {
                    format_code,
                    number_of_channels: read_u16_le(value, 2),
                    sample_rate: read_u32_le(value, 4),
                    bytes_per_second: read_u32_le(value, 8),
                    block_align: read_u16_le(value, 12),
                    bits_per_sample: read_u16_le(value, 14),
                },
            ),
        )
    }

    /// Decodes a PCM format body that [`spec_pcm_fmt`] handles.
    pub fn try_from(value: &[u8]) -> (res: Result<PCMFmt, ChunkError>)
        requires
            spec_pcm_fmt(value@) is Some,
        ensures
            Some(res) == spec_pcm_fmt(value@),
    {
        match Self::decode(value) {
            Some(r) => r,
            None => Err(ChunkError::FormatCodeError()),
        }
    }
}

impl ExtensibleFmt {
    /// Decodes an extensible format body; `None` where it is shorter than 40 bytes.
    pub fn decode(value: &[u8]) -> (res: Option<Result<ExtensibleFmt, ChunkError>>)
        ensures
            lift(res) == spec_extensible_fmt(value@),
    {
        if value.len() < 40 {
            return None;
        }
        let sub_format: [u8; 16] = [
            value[24],
            value[25],
            value[26],
            value[27],
            value[28],
            value[29],
            value[30],
            value[31],
            value[32],
            value[33],
            value[34],
            value[35],
            value[36],
            value[37],
            value[38],
            value[39],
        ];
        assert(sub_format@ =~= value@.subrange(24, 40));
        Some(
            Ok(
                ExtensibleFmt {
                    format_code: read_u16_le(value, 0),
                    number_of_channels: read_u16_le(value, 2),
                    sample_rate: read_u32_le(value, 4),
                    bytes_per_second: read_u32_le(value, 8),
                    block_align: read_u16_le(value, 12),
                    bits_per_sample: read_u16_le(value, 14),
                    cb_size: read_u16_le(value, 16),
                    valid_bits_per_sample: read_u16_le(value, 18),
                    channel_mask: read_u32_le(value, 20),
                    sub_format,
                },
            ),
        )
    }

    /// Decodes an extensible format body of at least 40 bytes.
    pub fn try_from(value: &[u8]) -> (res: Result<ExtensibleFmt, ChunkError>)
        requires
            spec_extensible_fmt(value@) is Some,
        ensures
            Some(lift_result(res)) == spec_extensible_fmt(value@),
    {
        match Self::decode(value) {
            Some(r) => r,
            None => Err(ChunkError::FormatCodeError()),
        }
    }
}

impl FmtChunk {
    /// Decodes a whole `fmt ` chunk, header included; `None` where the chunk is not
    /// handled (see [`spec_fmt_chunk`]).
    pub fn decode(value: &[u8]) -> (res: Option<Result<FmtChunk, ChunkError>>)
        ensures
            lift(res) == spec_fmt_chunk(value@),
    {
        if value.len() < 8 {
            return Some(Err(ChunkError::SizeError()));
        }
        let id = utf8_string(value, 0, 4);
        if id.is_none() || !tag_at(value, 0, 'f' as u8, 'm' as u8, 't' as u8, ' ' as u8) {
            return Some(Err(ChunkError::IdError()));
        }
        if value.len() < 10 {
            return None;
        }
        let format_code: u16 = read_u16_le(value, 8);
        let body = &value[8..value.len()];
        assert(body@ == value@.skip(8));
        if format_code == 1 {
            match PCMFmt::decode(body) {
                None => None,
                Some(Err(_)) => Some(Err(ChunkError::FormatCodeError())),
                Some(Ok(p)) => Some(Ok(FmtChunk::Pcm(p))),
            }
        } else if format_code == 0xFFFE {
            match ExtensibleFmt::decode(body) {
                None => None,
                Some(Err(_)) => Some(Err(ChunkError::FormatCodeError())),
                Some(Ok(x)) => Some(Ok(FmtChunk::Extensible(x))),
            }
        } else {
            None
        }
    }

    /// Decodes a whole `fmt ` chunk that [`spec_fmt_chunk`] handles.
    pub fn try_from(value: &[u8]) -> (res: Result<FmtChunk, ChunkError>)
        requires
            spec_fmt_chunk(value@) is Some,
        ensures
            Some(lift_result(res)) == spec_fmt_chunk(value@),
    {
        match Self::decode(value) {
            Some(r) => r,
            None => Err(ChunkError::FormatCodeError()),
        }
    }
}

} // verus!
