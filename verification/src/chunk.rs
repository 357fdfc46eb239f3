//! A chunk of a RIFF stream: a 4-byte id, a little-endian 32-bit size and `size` bytes
//! of body; and the `LIST` chunk, whose body starts with a 4-byte list type.
use crate::bytes::{four_at, le_u32, read_u32_le, tag, tag_at, utf8_string};
use crate::errors::{ChunkError, lift, lift_result};
use crate::fmt::{FmtChunk, FmtModel, spec_fmt_chunk};
use crate::info::{InfoData, spec_info};
use vstd::prelude::*;
use vstd::slice::slice_to_vec;
use vstd::utf8::{decode_utf8, valid_utf8};

verus! {

/// One chunk: its id, its declared size and its decoded body.
#[derive(Debug)]
pub struct Chunk {
    pub id: String,
    pub size: u32,
    pub data: ChunkData,
}

/// The body of a chunk.
#[derive(Debug)]
pub enum ChunkData {
    Riff { file_type: String, subchunks: Vec<Chunk> },
    List(ListChunk),
    Fmt(FmtChunk),
    Data(Vec<u8>),
    Unknown(Vec<u8>),
}

/// A `LIST` chunk: its list type and its entries.
#[derive(Debug)]
pub struct ListChunk {
    pub list_type: String,
    pub data: ListData,
}

/// The entries of a `LIST` chunk: decoded for the `INFO` type, raw bytes otherwise.
#[derive(Debug)]
pub enum ListData {
    Info(InfoData),
    Other(Vec<u8>),
}

/// The model of a chunk.
pub struct ChunkModel {
    pub id: Seq<char>,
    pub size: u32,
    pub data: ChunkDataModel,
}

/// The model of a chunk body.
pub enum ChunkDataModel {
    Riff { file_type: Seq<char>, subchunks: Seq<ChunkModel> },
    List(ListChunkModel),
    Fmt(FmtModel),
    Data(Seq<u8>),
    Unknown(Seq<u8>),
}

/// The model of a `LIST` chunk.
pub struct ListChunkModel {
    pub list_type: Seq<char>,
    pub data: ListDataModel,
}

/// The model of the entries of a `LIST` chunk.
pub enum ListDataModel {
    Info(Seq<Option<Seq<char>>>),
    Other(Seq<u8>),
}

impl View for ListData {
    type V = ListDataModel;

    open spec fn view(&self) -> ListDataModel {
        match self {
            ListData::Info(d) => ListDataModel::Info(d@),
            ListData::Other(b) => ListDataModel::Other(b@),
        }
    }
}

impl View for ListChunk {
    type V = ListChunkModel;

    open spec fn view(&self) -> ListChunkModel {
        ListChunkModel { list_type: self.list_type@, data: self.data@ }
    }
}

/// The model of a chunk.
pub open spec fn chunk_model(c: Chunk) -> ChunkModel
    decreases c,
{
    ChunkModel { id: c.id@, size: c.size, data: chunk_data_model(c.data) }
}

/// The model of a chunk body.
pub open spec fn chunk_data_model(d: ChunkData) -> ChunkDataModel
    decreases d,
{
    match d {
        ChunkData::Riff { file_type, subchunks } => ChunkDataModel::Riff {
            file_type: file_type@,
            subchunks: Seq::new(
                subchunks@.len(),
                |i: int|
                    if 0 <= i < subchunks@.len() {
                        chunk_model(subchunks@[i])
                    } else {
                        arbitrary()
                    },
            ),
        },
        ChunkData::List(l) => ChunkDataModel::List(l@),
        ChunkData::Fmt(f) => ChunkDataModel::Fmt(f@),
        ChunkData::Data(b) => ChunkDataModel::Data(b@),
        ChunkData::Unknown(b) => ChunkDataModel::Unknown(b@),
    }
}

impl View for Chunk {
    type V = ChunkModel;

    open spec fn view(&self) -> ChunkModel {
        chunk_model(*self)
    }
}

/// Decoding a whole `LIST` chunk `v`, header included. Its list type sits at bytes 8..12
/// and its entries run from byte 12 to the end `size + 8` of the chunk. Entries of type
/// `INFO` are read as such, and any error in them is reported as `InfoError`; the entries
/// of other types are kept as raw bytes. A list that ends before byte 12 or past the end
/// of `v`, or `INFO` entries that are not handled, are not handled.
pub open spec fn spec_list_chunk(v: Seq<u8>) -> Option<Result<ListChunkModel, ChunkError>> {
    if v.len() < 8 {
        Some(Err(ChunkError::SizeError()))
    } else if !valid_utf8(four_at(v, 0)) || four_at(v, 0) != tag('L', 'I', 'S', 'T') {
        Some(Err(ChunkError::IdError()))
    } else if v.len() < 12 {
        None
    } else if !valid_utf8(four_at(v, 8)) {
        Some(Err(ChunkError::ListTypeError()))
    } else {
        let end: int = le_u32(v, 4) + 8;
        if end < 12 || end > v.len() {
            None
        } else {
            let body = v.subrange(12, end);
            let list_type = decode_utf8(four_at(v, 8));
            if four_at(v, 8) == tag('I', 'N', 'F', 'O') {
                match spec_info(body) {
                    None => None,
                    Some(Err(_)) => Some(Err(ChunkError::InfoError())),
                    Some(Ok(entries)) => Some(
                        Ok(ListChunkModel { list_type, data: ListDataModel::Info(entries) }),
                    ),
                }
            } else {
                Some(Ok(ListChunkModel { list_type, data: ListDataModel::Other(body) }))
            }
        }
    }
}

/// Decoding the chunk at the start of `v`. The chunk needs its 8-byte header and
/// `size` bytes of body. Its id chooses the body: `data` keeps the bytes, `fmt ` and
/// `LIST` are decoded from the whole chunk, any other id keeps the bytes as unknown.
/// A size above `u32::MAX - 8`, or a `fmt ` or `LIST` chunk that is not handled, is not
/// handled.
#[verifier::opaque]
pub open spec fn spec_chunk(v: Seq<u8>) -> Option<Result<ChunkModel, ChunkError>> {
    if v.len() < 8 {
        Some(Err(ChunkError::SizeError()))
    } else if !valid_utf8(four_at(v, 0)) {
        Some(Err(ChunkError::IdError()))
    } else {
        let size: u32 = le_u32(v, 4);
        if size > u32::MAX - 8 {
            None
        } else if v.len() < size + 8 {
            Some(Err(ChunkError::SizeError()))
        } else {
            let id_bytes = four_at(v, 0);
            let id = decode_utf8(id_bytes);
            let raw = v.subrange(8, size + 8);
            if id_bytes == tag('d', 'a', 't', 'a') {
                Some(Ok(ChunkModel { id, size, data: ChunkDataModel::Data(raw) }))
            } else if id_bytes == tag('f', 'm', 't', ' ') {
                match spec_fmt_chunk(v) {
                    None => None,
                    Some(Err(e)) => Some(Err(e)),
                    Some(Ok(f)) => Some(Ok(ChunkModel { id, size, data: ChunkDataModel::Fmt(f) })),
                }
            } else if id_bytes == tag('L', 'I', 'S', 'T') {
                match spec_list_chunk(v) {
                    None => None,
                    Some(Err(e)) => Some(Err(e)),
                    Some(Ok(l)) => Some(Ok(ChunkModel { id, size, data: ChunkDataModel::List(l) })),
                }
            } else {
                Some(Ok(ChunkModel { id, size, data: ChunkDataModel::Unknown(raw) }))
            }
        }
    }
}

impl ListChunk {
    /// Decodes a whole `LIST` chunk; `None` where it is not handled (see [`spec_list_chunk`]).
    pub fn decode(value: &[u8]) -> (res: Option<Result<ListChunk, ChunkError>>)
        ensures
            lift(res) == spec_list_chunk(value@),
    {
        if value.len() < 8 {
            return Some(Err(ChunkError::SizeError()));
        }
        let id = utf8_string(value, 0, 4);
        if id.is_none() || !tag_at(value, 0, 'L' as u8, 'I' as u8, 'S' as u8, 'T' as u8) {
            return Some(Err(ChunkError::IdError()));
        }
        let size: u32 = read_u32_le(value, 4);
        if value.len() < 12 {
            return None;
        }
        let list_type = match utf8_string(value, 8, 12) {
            Some(t) => t,
            None => {
                return Some(Err(ChunkError::ListTypeError()));
            },
        };
        if size < 4 || size as usize > value.len() - 8 {
            return None;
        }
        let end: usize = size as usize + 8;
        let body = &value[12..end];
        if tag_at(value, 8, 'I' as u8, 'N' as u8, 'F' as u8, 'O' as u8) {
            match InfoData::decode(body) {
                None => None,
                Some(Err(_)) => Some(Err(ChunkError::InfoError())),
                Some(Ok(entries)) => Some(Ok(ListChunk { list_type, data: ListData::Info(entries) })),
            }
        } else {
            Some(Ok(ListChunk { list_type, data: ListData::Other(slice_to_vec(body)) }))
        }
    }

    /// Decodes a whole `LIST` chunk that [`spec_list_chunk`] handles.
    pub fn try_from(value: &[u8]) -> (res: Result<ListChunk, ChunkError>)
        requires
            spec_list_chunk(value@) is Some,
        ensures
            Some(lift_result(res)) == spec_list_chunk(value@),
    {
        match Self::decode(value) {
            Some(r) => r,
            None => Err(ChunkError::ListTypeError()),
        }
    }
}

impl Chunk {
    /// Decodes the chunk at the start of `value`; `None` where it is not handled
    /// (see [`spec_chunk`]).
    pub fn decode(value: &[u8]) -> (res: Option<Result<Chunk, ChunkError>>)
        ensures
            lift(res) == spec_chunk(value@),
    {
        reveal(spec_chunk);
        if value.len() < 8 {
            return Some(Err(ChunkError::SizeError()));
        }
        let id = match utf8_string(value, 0, 4) {
            Some(t) => t,
            None => {
                return Some(Err(ChunkError::IdError()));
            },
        };
        let size: u32 = read_u32_le(value, 4);
        if size > u32::MAX - 8 {
            return None;
        }
        if value.len() < (size + 8) as usize {
            return Some(Err(ChunkError::SizeError()));
        }
        let end: usize = size as usize + 8;
        if tag_at(value, 0, 'd' as u8, 'a' as u8, 't' as u8, 'a' as u8) {
            let raw = &value[8..end];
            Some(Ok(Chunk { id, size, data: ChunkData::Data(slice_to_vec(raw)) }))
        } else if tag_at(value, 0, 'f' as u8, 'm' as u8, 't' as u8, ' ' as u8) {
            match FmtChunk::decode(value) {
                None => None,
                Some(Err(e)) => Some(Err(e)),
                Some(Ok(f)) => Some(Ok(Chunk { id, size, data: ChunkData::Fmt(f) })),
            }
        } else if tag_at(value, 0, 'L' as u8, 'I' as u8, 'S' as u8, 'T' as u8) {
            match ListChunk::decode(value) {
                None => None,
                Some(Err(e)) => Some(Err(e)),
                Some(Ok(l)) => Some(Ok(Chunk { id, size, data: ChunkData::List(l) })),
            }
        } else {
            let raw = &value[8..end];
            Some(Ok(Chunk { id, size, data: ChunkData::Unknown(slice_to_vec(raw)) }))
        }
    }

    /// Decodes the chunk at the start of `value`, where [`spec_chunk`] handles it.
    pub fn try_from(value: &[u8]) -> (res: Result<Chunk, ChunkError>)
        requires
            spec_chunk(value@) is Some,
        ensures
            Some(lift_result(res)) == spec_chunk(value@),
    {
        match Self::decode(value) {
            Some(r) => r,
            None => Err(ChunkError::SizeError()),
        }
    }
}

} // verus!
