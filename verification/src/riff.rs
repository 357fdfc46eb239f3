//! The outer `RIFF` chunk: the `RIFF` tag, a declared size, the file type, and the
//! chunks that follow one another up to the end of the stream.
use crate::bytes::{four_at, le_u32, read_u32_le, tag, tag_at, utf8_string};
use crate::chunk::{Chunk, ChunkModel, spec_chunk};
use crate::errors::{ChunkError, lift, lift_result};
use vstd::prelude::*;
use vstd::utf8::{decode_utf8, valid_utf8};

verus! {

/// A RIFF stream: its header and its chunks in the order they appear.
#[derive(Debug)]
pub struct RiffChunk {
    pub id: String,
    pub size: u32,
    pub file_type: String,
    pub data: Vec<Chunk>,
}

/// The model of a RIFF stream.
pub struct RiffModel {
    pub id: Seq<char>,
    pub size: u32,
    pub file_type: Seq<char>,
    pub data: Seq<ChunkModel>,
}

impl View for RiffChunk {
    type V = RiffModel;

    open spec fn view(&self) -> RiffModel {
        RiffModel {
            id: self.id@,
            size: self.size,
            file_type: self.file_type@,
            data: self.data@.map_values(|c: Chunk| c@),
        }
    }
}

/// The number of bytes from the start of a chunk to the start of the next one: the
/// 8-byte header, the body, and one byte of padding after an odd-sized body.
pub open spec fn stride(c: ChunkModel) -> int {
    c.size + 8 + c.size % 2
}

/// Decoding the chunks that follow one another in `rest` up to its end. The first chunk
/// that fails stops the decoding with its outcome.
pub open spec fn spec_chunks(rest: Seq<u8>) -> Option<Result<Seq<ChunkModel>, ChunkError>>
    decreases rest.len(),
{
    if rest.len() == 0 {
        Some(Ok(seq![]))
    } else {
        match spec_chunk(rest) {
            None => None,
            Some(Err(e)) => Some(Err(e)),
            Some(Ok(c)) => if stride(c) >= rest.len() {
                Some(Ok(seq![c]))
            } else {
                match spec_chunks(rest.skip(stride(c))) {
                    None => None,
                    Some(Err(e)) => Some(Err(e)),
                    Some(Ok(cs)) => Some(Ok(seq![c] + cs)),
                }
            },
        }
    }
}

/// Decoding a RIFF stream `v`. It starts with the tag `RIFF`, a little-endian 32-bit
/// size and a 4-byte file type; the chunks follow from byte 12 on. A missing tag, or a tag
/// or file type that is not valid UTF-8, gives `RiffError`. A stream shorter than its
/// header (once its tag is found), or holding a chunk that is not handled, is not handled.
pub open spec fn spec_riff(v: Seq<u8>) -> Option<Result<RiffModel, ChunkError>> {
    if v.len() < 4 {
        None
    } else if !valid_utf8(four_at(v, 0)) || four_at(v, 0) != tag('R', 'I', 'F', 'F') {
        Some(Err(ChunkError::RiffError()))
    } else if v.len() < 12 {
        None
    } else if !valid_utf8(four_at(v, 8)) {
        Some(Err(ChunkError::RiffError()))
    } else {
        match spec_chunks(v.skip(12)) {
            None => None,
            Some(Err(e)) => Some(Err(e)),
            Some(Ok(cs)) => Some(
                Ok(
                    RiffModel {
                        id: decode_utf8(four_at(v, 0)),
                        size: le_u32(v, 4),
                        file_type: decode_utf8(four_at(v, 8)),
                        data: cs,
                    },
                ),
            ),
        }
    }
}

/// The chunks `done` already decoded, followed by the outcome `r` for the rest.
pub open spec fn followed_by(done: Seq<ChunkModel>, r: Option<Result<Seq<ChunkModel>, ChunkError>>) -> Option<
    Result<Seq<ChunkModel>, ChunkError>,
> {
    match r {
        None => None,
        Some(Err(e)) => Some(Err(e)),
        Some(Ok(cs)) => Some(Ok(done + cs)),
    }
}

/// The outcome of a chunk-list decoder, with each chunk replaced by its model.
pub open spec fn chunks_outcome(r: Option<Result<Vec<Chunk>, ChunkError>>) -> Option<
    Result<Seq<ChunkModel>, ChunkError>,
> {
    match r {
        None => None,
        Some(Err(e)) => Some(Err(e)),
        Some(Ok(cs)) => Some(Ok(cs@.map_values(|c: Chunk| c@))),
    }
}

/// One step of [`spec_chunks`]: a chunk that does not reach the end is followed by the
/// chunks after it.
proof fn lemma_chunks_step(rest: Seq<u8>, c: ChunkModel)
    requires
        rest.len() > 0,
        spec_chunk(rest) == Some(Ok::<ChunkModel, ChunkError>(c)),
    ensures
        stride(c) >= rest.len() ==> spec_chunks(rest) == Some(Ok::<Seq<ChunkModel>, ChunkError>(seq![c])),
        stride(c) < rest.len() ==> spec_chunks(rest) == followed_by(seq![c], spec_chunks(rest.skip(stride(c)))),
{
}

/// Appending to the chunks already decoded.
proof fn lemma_followed_by_push(
    done: Seq<ChunkModel>,
    c: ChunkModel,
    r: Option<Result<Seq<ChunkModel>, ChunkError>>,
)
    ensures
        followed_by(done, followed_by(seq![c], r)) == followed_by(done.push(c), r),
{
    match r {
        None => {},
        Some(Err(e)) => {},
        Some(Ok(cs)) => {
            assert(done + (seq![c] + cs) =~= done.push(c) + cs);
        },
    }
}

/// Decodes the chunks from `start` to the end of `value`.
pub fn decode_chunks(value: &[u8], start: usize) -> (res: Option<Result<Vec<Chunk>, ChunkError>>)
    requires
        start <= value@.len(),
    ensures
        chunks_outcome(res) == spec_chunks(value@.skip(start as int)),
{
    let len: usize = value.len();
    let mut index: usize = start;
    let mut data: Vec<Chunk> = Vec::new();
    assert(data@.map_values(|c: Chunk| c@) + seq![] =~= seq![]);
    while index < len
        invariant
            len == value@.len(),
            start <= index <= len,
            spec_chunks(value@.skip(start as int)) == followed_by(
                data@.map_values(|c: Chunk| c@),
                spec_chunks(value@.skip(index as int)),
            ),
        decreases len - index,
    {
        let rest = &value[index..len];
        assert(rest@ =~= value@.skip(index as int));
        let chunk = match Chunk::decode(rest) {
            None => {
                return None;
            },
            Some(Err(e)) => {
                return Some(Err(e));
            },
            Some(Ok(c)) => c,
        };
        let ghost c = chunk@;
        let ghost before = data@.map_values(|c: Chunk| c@);
        proof {
            crate::laws::lemma_chunk_fits(rest@);
            lemma_chunks_step(rest@, c);
            lemma_followed_by_push(before, c, spec_chunks(rest@.skip(stride(c))));
        }
        let padding: usize = (chunk.size % 2) as usize;
        let base: usize = chunk.size as usize + 8;
        let remaining: usize = len - index;
        data.push(chunk);
        assert(data@.map_values(|c: Chunk| c@) =~= before.push(c));
        if base >= remaining || remaining - base <= padding {
            assert(before + seq![c] =~= before.push(c));
            return Some(Ok(data));
        }
        assert(rest@.skip(stride(c)) =~= value@.skip(index + base + padding));
        index = index + base + padding;
    }
    assert(value@.skip(index as int).len() == 0);
    assert(data@.map_values(|c: Chunk| c@) + seq![] =~= data@.map_values(|c: Chunk| c@));
    Some(Ok(data))
}

impl RiffChunk {
    /// Decodes a RIFF stream; `None` where it is not handled (see [`spec_riff`]).
    pub fn decode(value: &[u8]) -> (res: Option<Result<RiffChunk, ChunkError>>)
        ensures
            lift(res) == spec_riff(value@),
    {
        if value.len() < 4 {
            return None;
        }
        let id = match utf8_string(value, 0, 4) {
            Some(t) => t,
            None => {
                return Some(Err(ChunkError::RiffError()));
            },
        };
        if !tag_at(value, 0, 'R' as u8, 'I' as u8, 'F' as u8, 'F' as u8) {
            return Some(Err(ChunkError::RiffError()));
        }
        if value.len() < 12 {
            return None;
        }
        let size: u32 = read_u32_le(value, 4);
        let file_type = match utf8_string(value, 8, 12) {
            Some(t) => t,
            None => {
                return Some(Err(ChunkError::RiffError()));
            },
        };
        match decode_chunks(value, 12) {
            None => None,
            Some(Err(e)) => Some(Err(e)),
            Some(Ok(data)) => Some(Ok(RiffChunk { id, size, file_type, data })),
        }
    }

    /// Decodes a RIFF stream that [`spec_riff`] handles.
    pub fn try_from(value: &[u8]) -> (res: Result<RiffChunk, ChunkError>)
        requires
            spec_riff(value@) is Some,
        ensures
            Some(lift_result(res)) == spec_riff(value@),
    {
        match Self::decode(value) {
            Some(r) => r,
            None => Err(ChunkError::RiffError()),
        }
    }
}

} // verus!
