//! Properties of the decoders that span several chunks or several functions.
use crate::bytes::{four_at, le_u16, le_u32, tag};
use crate::chunk::{ChunkDataModel, ChunkModel, spec_chunk, spec_list_chunk};
use crate::errors::ChunkError;
use crate::info::{info_entry_count, info_field_of, no_entries, spec_info, spec_info_from};
use crate::fmt::{pcm_fields, spec_extensible_fmt, spec_fmt_chunk, spec_pcm_fmt};
use crate::riff::{RiffModel, spec_chunks, spec_riff, stride};
use vstd::prelude::*;
use vstd::utf8::*;

verus! {

/// Where chunk `k` of `cs` starts, counted from the start of the first one, when the
/// chunks are laid end to end with their padding.
pub open spec fn chunk_offset(cs: Seq<ChunkModel>, k: int) -> int
    decreases k,
{
    if k <= 0 {
        0
    } else {
        chunk_offset(cs, k - 1) + stride(cs[k - 1])
    }
}

/// Putting a chunk in front moves every later offset by its stride.
proof fn lemma_offset_shift(c: ChunkModel, cs: Seq<ChunkModel>, k: int)
    requires
        1 <= k <= cs.len() + 1,
    ensures
        chunk_offset(seq![c] + cs, k) == stride(c) + chunk_offset(cs, k - 1),
    decreases k,
{
    let all = seq![c] + cs;
    assert(all[0] == c);
    if k > 1 {
        lemma_offset_shift(c, cs, k - 1);
        assert(all[k - 1] == cs[k - 2]);
        assert(chunk_offset(all, k) == chunk_offset(all, k - 1) + stride(all[k - 1]));
        assert(chunk_offset(cs, k - 1) == chunk_offset(cs, k - 2) + stride(cs[k - 2]));
    } else {
        assert(chunk_offset(all, 1) == chunk_offset(all, 0) + stride(all[0]));
        assert(chunk_offset(cs, 0) == 0);
    }
}

/// A tag written with ASCII characters is valid UTF-8 and decodes to those characters.
pub proof fn lemma_ascii_tag(a: char, b: char, c: char, d: char)
    requires
        a <= '\u{7f}',
        b <= '\u{7f}',
        c <= '\u{7f}',
        d <= '\u{7f}',
    ensures
        valid_utf8(tag(a, b, c, d)),
        decode_utf8(tag(a, b, c, d)) == seq![a, b, c, d],
{
    let chars = seq![a, b, c, d];
    assert(is_ascii_chars(chars));
    is_ascii_chars_encode_utf8(chars);
    assert(encode_utf8(chars) =~= tag(a, b, c, d));
    encode_utf8_valid_utf8(chars);
    encode_utf8_decode_utf8(chars);
}

/// A decoded chunk lies within the bytes it was decoded from: its declared size is the
/// little-endian size field, and its 8-byte header and its body fit in the input.
pub proof fn lemma_chunk_fits(v: Seq<u8>)
    requires
        spec_chunk(v) is Some,
        spec_chunk(v).unwrap() is Ok,
    ensures
        spec_chunk(v).unwrap().unwrap().size == le_u32(v, 4),
        spec_chunk(v).unwrap().unwrap().size + 8 <= v.len(),
{
    reveal(spec_chunk);
}

/// The bytes kept by a `data` chunk, or by a chunk of unknown id, are exactly the
/// `size` bytes that follow its header.
pub proof fn lemma_chunk_payload(v: Seq<u8>)
    requires
        spec_chunk(v) is Some,
        spec_chunk(v).unwrap() is Ok,
    ensures
        ({
            let c = spec_chunk(v).unwrap().unwrap();
            &&& c.data matches ChunkDataModel::Data(b) ==> b == v.subrange(8, 8 + c.size)
            &&& c.data matches ChunkDataModel::Unknown(b) ==> b == v.subrange(8, 8 + c.size)
            &&& c.data is Data <==> four_at(v, 0) == tag('d', 'a', 't', 'a')
            &&& c.data is Data ==> c.id == seq!['d', 'a', 't', 'a']
        }),
{
    reveal(spec_chunk);
    lemma_ascii_tag('d', 'a', 't', 'a');
}

/// The chunks decoded from `rest` are the chunks laid end to end from its start: chunk
/// `k` is what decoding at its offset gives, every offset is even and inside `rest`,
/// and the last chunk, with its padding, reaches the end of `rest`.
pub proof fn lemma_chunks_tile(rest: Seq<u8>)
    requires
        spec_chunks(rest) is Some,
        spec_chunks(rest).unwrap() is Ok,
    ensures
        ({
            let cs = spec_chunks(rest).unwrap().unwrap();
            &&& forall|k: int|
                0 <= k < cs.len() ==> {
                    &&& 0 <= #[trigger] chunk_offset(cs, k) < rest.len()
                    &&& chunk_offset(cs, k) % 2 == 0
                    &&& spec_chunk(rest.skip(chunk_offset(cs, k))) == Some(
                        Ok::<ChunkModel, crate::errors::ChunkError>(cs[k]),
                    )
                }
            &&& chunk_offset(cs, cs.len() as int) >= rest.len()
        }),
    decreases rest.len(),
{
    let cs = spec_chunks(rest).unwrap().unwrap();
    if rest.len() == 0 {
    } else {
        let c = spec_chunk(rest).unwrap().unwrap();
        assert(rest.skip(0) =~= rest);
        assert(chunk_offset(cs, 0) == 0);
        if stride(c) >= rest.len() {
            assert(cs == seq![c]);
            assert(chunk_offset(cs, 1) == stride(c));
        } else {
            let next = rest.skip(stride(c));
            lemma_chunks_tile(next);
            let tail = spec_chunks(next).unwrap().unwrap();
            assert(cs == seq![c] + tail);
            assert forall|k: int| 0 <= k < cs.len() implies {
                &&& 0 <= #[trigger] chunk_offset(cs, k) < rest.len()
                &&& chunk_offset(cs, k) % 2 == 0
                &&& spec_chunk(rest.skip(chunk_offset(cs, k))) == Some(
                    Ok::<ChunkModel, crate::errors::ChunkError>(cs[k]),
                )
            } by {
                if k >= 1 {
                    lemma_offset_shift(c, tail, k);
                    let o = chunk_offset(tail, k - 1);
                    assert(0 <= chunk_offset(tail, k - 1) < next.len());
                    assert(rest.skip(stride(c) + o) =~= next.skip(o));
                    assert(cs[k] == tail[k - 1]);
                }
            }
            lemma_offset_shift(c, tail, cs.len() as int);
        }
    }
}

/// A decoded RIFF stream starts with the tag `RIFF`, its size is the little-endian field at
/// bytes 4..8, and its chunks are laid end to end from byte 12: chunk `k` is what decoding
/// at offset `12 + chunk_offset(chunks, k)` gives, every such offset is even (chunks start
/// on 16-bit word boundaries), and the chunks reach the end of the stream.
pub proof fn lemma_riff_layout(v: Seq<u8>)
    requires
        spec_riff(v) is Some,
        spec_riff(v).unwrap() is Ok,
    ensures
        ({
            let r = spec_riff(v).unwrap().unwrap();
            &&& four_at(v, 0) == tag('R', 'I', 'F', 'F')
            &&& r.id == seq!['R', 'I', 'F', 'F']
            &&& r.size == le_u32(v, 4)
            &&& forall|k: int|
                0 <= k < r.data.len() ==> {
                    &&& (12 + #[trigger] chunk_offset(r.data, k)) % 2 == 0
                    &&& 12 + chunk_offset(r.data, k) < v.len()
                    &&& spec_chunk(v.skip(12 + chunk_offset(r.data, k))) == Some(
                        Ok::<ChunkModel, crate::errors::ChunkError>(r.data[k]),
                    )
                }
            &&& 12 + chunk_offset(r.data, r.data.len() as int) >= v.len()
        }),
{
    let r = spec_riff(v).unwrap().unwrap();
    lemma_ascii_tag('R', 'I', 'F', 'F');
    let rest = v.skip(12);
    lemma_chunks_tile(rest);
    assert forall|k: int| 0 <= k < r.data.len() implies {
        &&& (12 + #[trigger] chunk_offset(r.data, k)) % 2 == 0
        &&& 12 + chunk_offset(r.data, k) < v.len()
        &&& spec_chunk(v.skip(12 + chunk_offset(r.data, k))) == Some(
            Ok::<ChunkModel, crate::errors::ChunkError>(r.data[k]),
        )
    } by {
        assert(v.skip(12 + chunk_offset(r.data, k)) =~= rest.skip(chunk_offset(r.data, k)));
    }
}

/// A `LIST` chunk is what the list decoder gives for it, wrapped with the id `LIST` and
/// the declared size; an error of the list decoder is returned unchanged. This holds for
/// every chunk whose header and body fit in the input (a size above `u32::MAX - 8` is not
/// handled by the chunk decoder).
pub proof fn lemma_list_chunk_wraps(v: Seq<u8>)
    requires
        v.len() >= 8,
        four_at(v, 0) == tag('L', 'I', 'S', 'T'),
        le_u32(v, 4) <= u32::MAX - 8,
        v.len() >= 8 + le_u32(v, 4),
    ensures
        spec_chunk(v) == match spec_list_chunk(v) {
            None => None,
            Some(Err(e)) => Some(Err(e)),
            Some(Ok(l)) => Some(
                Ok::<ChunkModel, ChunkError>(
                    ChunkModel {
                        id: seq!['L', 'I', 'S', 'T'],
                        size: le_u32(v, 4),
                        data: ChunkDataModel::List(l),
                    },
                ),
            ),
        },
{
    reveal(spec_chunk);
    lemma_ascii_tag('L', 'I', 'S', 'T');
    lemma_ascii_tag('d', 'a', 't', 'a');
    lemma_ascii_tag('f', 'm', 't', ' ');
    assert(tag('L', 'I', 'S', 'T') != tag('d', 'a', 't', 'a'));
    assert(tag('L', 'I', 'S', 'T') != tag('f', 'm', 't', ' '));
}

/// A `fmt ` chunk is what the format decoder gives for the whole chunk, wrapped with the
/// id `fmt ` and the declared size; an error of the format decoder is returned unchanged.
/// This holds for every chunk whose header and body fit in the input.
pub proof fn lemma_fmt_chunk_wraps(v: Seq<u8>)
    requires
        v.len() >= 8,
        four_at(v, 0) == tag('f', 'm', 't', ' '),
        le_u32(v, 4) <= u32::MAX - 8,
        v.len() >= 8 + le_u32(v, 4),
    ensures
        spec_chunk(v) == match spec_fmt_chunk(v) {
            None => None,
            Some(Err(e)) => Some(Err(e)),
            Some(Ok(f)) => Some(
                Ok::<ChunkModel, ChunkError>(
                    ChunkModel {
                        id: seq!['f', 'm', 't', ' '],
                        size: le_u32(v, 4),
                        data: ChunkDataModel::Fmt(f),
                    },
                ),
            ),
        },
{
    reveal(spec_chunk);
    lemma_ascii_tag('f', 'm', 't', ' ');
    lemma_ascii_tag('d', 'a', 't', 'a');
    assert(tag('f', 'm', 't', ' ') != tag('d', 'a', 't', 'a'));
}

/// For a chunk that is neither `fmt ` nor `LIST`, the bytes after its declared body do not
/// change what it decodes to.
pub proof fn lemma_chunk_ignores_trailing_bytes(v: Seq<u8>)
    requires
        v.len() >= 8,
        four_at(v, 0) != tag('f', 'm', 't', ' '),
        four_at(v, 0) != tag('L', 'I', 'S', 'T'),
        v.len() >= 8 + le_u32(v, 4),
    ensures
        spec_chunk(v) == spec_chunk(v.subrange(0, 8 + le_u32(v, 4))),
{
    reveal(spec_chunk);
    let w = v.subrange(0, 8 + le_u32(v, 4));
    assert(four_at(w, 0) =~= four_at(v, 0));
    assert(w[4] == v[4] && w[5] == v[5] && w[6] == v[6] && w[7] == v[7]);
    assert(le_u32(w, 4) == le_u32(v, 4));
    assert(w.subrange(8, le_u32(v, 4) + 8) =~= v.subrange(8, le_u32(v, 4) + 8));
}

/// The size field of a `fmt ` chunk (bytes 4..8) is never read: two chunks that differ
/// only there decode alike.
pub proof fn lemma_fmt_ignores_size_field(a: Seq<u8>, b: Seq<u8>)
    requires
        a.len() == b.len(),
        a.len() >= 8,
        four_at(a, 0) == four_at(b, 0),
        a.skip(8) == b.skip(8),
    ensures
        spec_fmt_chunk(a) == spec_fmt_chunk(b),
{
    if a.len() >= 10 {
        assert(a.skip(8)[0] == a[8] && b.skip(8)[0] == b[8]);
        assert(a.skip(8)[1] == a[9] && b.skip(8)[1] == b[9]);
        assert(le_u16(a, 8) == le_u16(b, 8));
    }
}

/// Offsets never go below the start.
proof fn lemma_offset_nonneg(cs: Seq<ChunkModel>, k: int)
    ensures
        chunk_offset(cs, k) >= 0,
    decreases k,
{
    if k > 0 {
        lemma_offset_nonneg(cs, k - 1);
    }
}

/// In a stream whose first chunks decode, laid end to end, and whose next chunk fails, the
/// chunk list fails with that chunk's error, unchanged.
pub proof fn lemma_chunks_first_error(rest: Seq<u8>, cs: Seq<ChunkModel>, e: ChunkError)
    requires
        forall|j: int|
            0 <= j < cs.len() ==> #[trigger] chunk_offset(cs, j) < rest.len() && spec_chunk(
                rest.skip(chunk_offset(cs, j)),
            ) == Some(Ok::<ChunkModel, ChunkError>(cs[j])),
        chunk_offset(cs, cs.len() as int) < rest.len(),
        spec_chunk(rest.skip(chunk_offset(cs, cs.len() as int))) == Some(
            Err::<ChunkModel, ChunkError>(e),
        ),
    ensures
        spec_chunks(rest) == Some(Err::<Seq<ChunkModel>, ChunkError>(e)),
    decreases cs.len(),
{
    assert(rest.skip(0) =~= rest);
    assert(chunk_offset(cs, 0) == 0);
    if cs.len() > 0 {
        let c = cs[0];
        let tail = cs.drop_first();
        assert(cs =~= seq![c] + tail);
        assert forall|j: int| 1 <= j <= cs.len() implies chunk_offset(cs, j) == stride(c)
            + chunk_offset(tail, j - 1) by {
            lemma_offset_shift(c, tail, j);
        }
        lemma_offset_nonneg(tail, cs.len() - 1);
        let next = rest.skip(stride(c));
        assert forall|j: int| 0 <= j < tail.len() implies #[trigger] chunk_offset(tail, j)
            < next.len() && spec_chunk(next.skip(chunk_offset(tail, j))) == Some(
            Ok::<ChunkModel, ChunkError>(tail[j]),
        ) by {
            assert(chunk_offset(cs, j + 1) < rest.len());
            lemma_offset_shift(c, tail, j + 1);
            lemma_offset_nonneg(tail, j);
            assert(cs[j + 1] == tail[j]);
            assert(next.skip(chunk_offset(tail, j)) =~= rest.skip(chunk_offset(cs, j + 1)));
        }
        assert(next.skip(chunk_offset(tail, tail.len() as int)) =~= rest.skip(
            chunk_offset(cs, cs.len() as int),
        ));
        lemma_chunks_first_error(next, tail, e);
    }
}

/// In a RIFF stream with a good header whose first chunks decode, laid end to end from
/// byte 12, and whose next chunk fails, the stream fails with that chunk's error, unchanged.
pub proof fn lemma_riff_first_error(v: Seq<u8>, cs: Seq<ChunkModel>, e: ChunkError)
    requires
        v.len() >= 12,
        four_at(v, 0) == tag('R', 'I', 'F', 'F'),
        valid_utf8(four_at(v, 8)),
        forall|j: int|
            0 <= j < cs.len() ==> 12 + #[trigger] chunk_offset(cs, j) < v.len() && spec_chunk(
                v.skip(12 + chunk_offset(cs, j)),
            ) == Some(Ok::<ChunkModel, ChunkError>(cs[j])),
        12 + chunk_offset(cs, cs.len() as int) < v.len(),
        spec_chunk(v.skip(12 + chunk_offset(cs, cs.len() as int))) == Some(
            Err::<ChunkModel, ChunkError>(e),
        ),
    ensures
        spec_riff(v) == Some(Err::<RiffModel, ChunkError>(e)),
{
    lemma_ascii_tag('R', 'I', 'F', 'F');
    let rest = v.skip(12);
    assert forall|j: int| 0 <= j <= cs.len() implies #[trigger] rest.skip(chunk_offset(cs, j))
        =~= v.skip(12 + chunk_offset(cs, j)) by {
        lemma_offset_nonneg(cs, j);
    }
    lemma_chunks_first_error(rest, cs, e);
}

/// A handled PCM body keeps its outcome when bytes are appended.
proof fn lemma_pcm_extend(w: Seq<u8>, t: Seq<u8>)
    requires
        spec_pcm_fmt(w) is Some,
        spec_pcm_fmt(w).unwrap() is Ok,
    ensures
        spec_pcm_fmt(w + t) == spec_pcm_fmt(w),
{
    let x = w + t;
    assert(forall|i: int| 0 <= i < 16 ==> x[i] == w[i]);
    assert(pcm_fields(x) == pcm_fields(w));
}

/// A handled `fmt ` chunk keeps its outcome when bytes are appended.
proof fn lemma_fmt_extend(v: Seq<u8>, t: Seq<u8>)
    requires
        spec_fmt_chunk(v) is Some,
        spec_fmt_chunk(v).unwrap() is Ok,
    ensures
        spec_fmt_chunk(v + t) == spec_fmt_chunk(v),
{
    let x = v + t;
    assert(four_at(x, 0) =~= four_at(v, 0));
    assert(x[8] == v[8] && x[9] == v[9]);
    assert(x.skip(8) =~= v.skip(8) + t);
    if le_u16(v, 8) == 1 {
        lemma_pcm_extend(v.skip(8), t);
    } else {
        let w = v.skip(8);
        assert(x.skip(8).subrange(24, 40) =~= w.subrange(24, 40));
        assert(forall|i: int| 0 <= i < 40 ==> x.skip(8)[i] == w[i]);
        assert(spec_extensible_fmt(x.skip(8)) == spec_extensible_fmt(w));
    }
}

/// A handled `LIST` chunk keeps its outcome when bytes are appended.
proof fn lemma_list_extend(v: Seq<u8>, t: Seq<u8>)
    requires
        spec_list_chunk(v) is Some,
        spec_list_chunk(v).unwrap() is Ok,
    ensures
        spec_list_chunk(v + t) == spec_list_chunk(v),
{
    let x = v + t;
    assert(four_at(x, 0) =~= four_at(v, 0));
    assert(four_at(x, 8) =~= four_at(v, 8));
    assert(x[4] == v[4] && x[5] == v[5] && x[6] == v[6] && x[7] == v[7]);
    let end = le_u32(v, 4) + 8;
    assert(x.subrange(12, end) =~= v.subrange(12, end));
}

/// A chunk that decodes keeps its outcome when bytes are appended.
pub proof fn lemma_chunk_extend(v: Seq<u8>, t: Seq<u8>)
    requires
        spec_chunk(v) is Some,
        spec_chunk(v).unwrap() is Ok,
    ensures
        spec_chunk(v + t) == spec_chunk(v),
{
    reveal(spec_chunk);
    let x = v + t;
    assert(four_at(x, 0) =~= four_at(v, 0));
    assert(x[4] == v[4] && x[5] == v[5] && x[6] == v[6] && x[7] == v[7]);
    let size = le_u32(v, 4);
    assert(x.subrange(8, size + 8) =~= v.subrange(8, size + 8));
    if four_at(v, 0) == tag('d', 'a', 't', 'a') {
    } else if four_at(v, 0) == tag('f', 'm', 't', ' ') {
        lemma_fmt_extend(v, t);
    } else if four_at(v, 0) == tag('L', 'I', 'S', 'T') {
        lemma_list_extend(v, t);
    }
}

/// Appending one whole chunk, padding included, to chunks that end exactly at the end of
/// `rest` appends that chunk to the decoded list.
pub proof fn lemma_chunks_append(rest: Seq<u8>, w: Seq<u8>)
    requires
        spec_chunks(rest) is Some,
        spec_chunks(rest).unwrap() is Ok,
        chunk_offset(
            spec_chunks(rest).unwrap().unwrap(),
            spec_chunks(rest).unwrap().unwrap().len() as int,
        ) == rest.len(),
        spec_chunk(w) is Some,
        spec_chunk(w).unwrap() is Ok,
        w.len() == stride(spec_chunk(w).unwrap().unwrap()),
    ensures
        spec_chunks(rest + w) == Some(
            Ok::<Seq<ChunkModel>, ChunkError>(
                spec_chunks(rest).unwrap().unwrap().push(spec_chunk(w).unwrap().unwrap()),
            ),
        ),
    decreases rest.len(),
{
    let cs = spec_chunks(rest).unwrap().unwrap();
    let c = spec_chunk(w).unwrap().unwrap();
    let x = rest + w;
    if rest.len() == 0 {
        assert(x =~= w);
        assert(cs =~= seq![]);
        assert(seq![c] =~= cs.push(c));
    } else {
        let c0 = spec_chunk(rest).unwrap().unwrap();
        lemma_chunk_extend(rest, w);
        assert(x.len() > 0);
        if stride(c0) >= rest.len() {
            assert(cs == seq![c0]);
            assert(chunk_offset(cs, 1) == chunk_offset(cs, 0) + stride(cs[0]));
            assert(stride(c0) == rest.len());
            assert(x.skip(stride(c0)) =~= w);
            assert(spec_chunks(w) == Some(Ok::<Seq<ChunkModel>, ChunkError>(seq![c])));
            assert(seq![c0] + seq![c] =~= cs.push(c));
        } else {
            let next = rest.skip(stride(c0));
            let tail = spec_chunks(next).unwrap().unwrap();
            assert(cs == seq![c0] + tail);
            lemma_offset_shift(c0, tail, cs.len() as int);
            lemma_chunks_append(next, w);
            assert(x.skip(stride(c0)) =~= next + w);
            assert(seq![c0] + tail.push(c) =~= cs.push(c));
        }
    }
}

/// Appending one whole chunk, padding included, to a RIFF stream whose chunks end exactly
/// at its end appends that chunk to the stream's chunks, leaving the header as it was.
pub proof fn lemma_riff_append_chunk(v: Seq<u8>, w: Seq<u8>)
    requires
        spec_riff(v) is Some,
        spec_riff(v).unwrap() is Ok,
        12 + chunk_offset(
            spec_riff(v).unwrap().unwrap().data,
            spec_riff(v).unwrap().unwrap().data.len() as int,
        ) == v.len(),
        spec_chunk(w) is Some,
        spec_chunk(w).unwrap() is Ok,
        w.len() == stride(spec_chunk(w).unwrap().unwrap()),
    ensures
        ({
            let r = spec_riff(v).unwrap().unwrap();
            spec_riff(v + w) == Some(
                Ok::<RiffModel, ChunkError>(
                    RiffModel {
                        id: r.id,
                        size: r.size,
                        file_type: r.file_type,
                        data: r.data.push(spec_chunk(w).unwrap().unwrap()),
                    },
                ),
            )
        }),
{
    let x = v + w;
    assert(four_at(x, 0) =~= four_at(v, 0));
    assert(four_at(x, 8) =~= four_at(v, 8));
    assert(x[4] == v[4] && x[5] == v[5] && x[6] == v[6] && x[7] == v[7]);
    assert(x.skip(12) =~= v.skip(12) + w);
    lemma_chunks_append(v.skip(12), w);
}

/// The entries of `earlier` with those present in `later` put in their place.
pub open spec fn merge_entries(
    earlier: Seq<Option<Seq<char>>>,
    later: Seq<Option<Seq<char>>>,
) -> Seq<Option<Seq<char>>> {
    Seq::new(
        info_entry_count(),
        |k: int|
            if later[k] is Some {
                later[k]
            } else {
                earlier[k]
            },
    )
}

/// Where the walk over the entries of an `INFO` body `v`, started at `index`, stops:
/// each entry moves it on by its 8-byte header, its size and its padding byte.
pub open spec fn info_walk_end(v: Seq<u8>, index: int) -> int
    decreases v.len() + 2 - index,
{
    if index < 0 || index >= v.len() || index + 8 > v.len() {
        index
    } else {
        let size = le_u32(v, index + 4);
        let end = index + 8 + size - 1;
        if size == 0 || end > v.len() {
            index
        } else {
            info_walk_end(v, end + 1 + size % 2)
        }
    }
}

/// Reading entries keeps the number of entry slots.
proof fn lemma_info_len(v: Seq<u8>, index: int, acc: Seq<Option<Seq<char>>>)
    requires
        acc.len() == info_entry_count(),
        spec_info_from(v, index, acc) is Some,
        spec_info_from(v, index, acc).unwrap() is Ok,
    ensures
        spec_info_from(v, index, acc).unwrap().unwrap().len() == acc.len(),
    decreases v.len() + 2 - index,
{
    if 0 <= index < v.len() {
        let size = le_u32(v, index + 4);
        let end = index + 8 + size - 1;
        let k = info_field_of(four_at(v, index)).unwrap();
        lemma_info_len(
            v,
            end + 1 + size % 2,
            acc.update(k, Some(decode_utf8(v.subrange(index + 8, end)))),
        );
    }
}

/// Reading entries into `acc` gives the entries read into an empty list put over `acc`;
/// whether the reading fails, and how, does not depend on `acc`.
proof fn lemma_info_acc(v: Seq<u8>, index: int, acc: Seq<Option<Seq<char>>>)
    requires
        acc.len() == info_entry_count(),
    ensures
        spec_info_from(v, index, acc) == match spec_info_from(v, index, no_entries()) {
            Some(Ok(m)) => Some(Ok::<Seq<Option<Seq<char>>>, ChunkError>(merge_entries(acc, m))),
            other => other,
        },
    decreases v.len() + 2 - index,
{
    if index < 0 || index >= v.len() {
        assert(merge_entries(acc, no_entries()) =~= acc);
    } else if index + 8 <= v.len() {
        let size = le_u32(v, index + 4);
        let end = index + 8 + size - 1;
        if size != 0 && end <= v.len() && valid_utf8(v.subrange(index + 8, end)) && valid_utf8(
            four_at(v, index),
        ) {
            if let Some(k) = info_field_of(four_at(v, index)) {
                let text = Some(decode_utf8(v.subrange(index + 8, end)));
                let next = end + 1 + size % 2;
                let a1 = acc.update(k, text);
                let n1 = no_entries().update(k, text);
                lemma_info_acc(v, next, a1);
                lemma_info_acc(v, next, n1);
                match spec_info_from(v, next, no_entries()) {
                    Some(Ok(m)) => {
                        assert(merge_entries(acc, merge_entries(n1, m)) =~= merge_entries(a1, m));
                    },
                    _ => {},
                }
            }
        }
    }
}

/// Reading entries at an offset past `a` in `a + b` is reading them in `b`.
proof fn lemma_info_shift(a: Seq<u8>, b: Seq<u8>, j: int, acc: Seq<Option<Seq<char>>>)
    requires
        0 <= j,
    ensures
        spec_info_from(a + b, a.len() + j, acc) == spec_info_from(b, j, acc),
    decreases b.len() + 2 - j,
{
    let x = a + b;
    let i = a.len() + j;
    if j < b.len() && j + 4 <= b.len() {
        assert(four_at(x, i) =~= four_at(b, j));
        if j + 8 <= b.len() {
            assert(x[i + 4] == b[j + 4] && x[i + 5] == b[j + 5] && x[i + 6] == b[j + 6] && x[i
                + 7] == b[j + 7]);
            let size = le_u32(b, j + 4);
            assert(le_u32(x, i + 4) == size);
            let end = j + 8 + size - 1;
            if size != 0 && end <= b.len() {
                assert(x.subrange(i + 8, i + 8 + size - 1) =~= b.subrange(j + 8, end));
                if let Some(k) = info_field_of(four_at(b, j)) {
                    lemma_info_shift(
                        a,
                        b,
                        end + 1 + size % 2,
                        acc.update(k, Some(decode_utf8(b.subrange(j + 8, end)))),
                    );
                }
            }
        }
    }
}

/// Entries of `a` that end exactly at its end are read alike in `a + b`, and reading goes
/// on from the end of `a`.
proof fn lemma_info_prefix(a: Seq<u8>, b: Seq<u8>, i: int, acc: Seq<Option<Seq<char>>>)
    requires
        0 <= i,
        spec_info_from(a, i, acc) is Some,
        spec_info_from(a, i, acc).unwrap() is Ok,
        info_walk_end(a, i) == a.len(),
    ensures
        spec_info_from(a + b, i, acc) == spec_info_from(
            a + b,
            a.len() as int,
            spec_info_from(a, i, acc).unwrap().unwrap(),
        ),
    decreases a.len() + 2 - i,
{
    let x = a + b;
    if i < a.len() {
        let size = le_u32(a, i + 4);
        let end = i + 8 + size - 1;
        let next = end + 1 + size % 2;
        assert(four_at(x, i) =~= four_at(a, i));
        assert(x[i + 4] == a[i + 4] && x[i + 5] == a[i + 5] && x[i + 6] == a[i + 6] && x[i + 7]
            == a[i + 7]);
        assert(le_u32(x, i + 4) == size);
        assert(x.subrange(i + 8, end) =~= a.subrange(i + 8, end));
        let k = info_field_of(four_at(a, i)).unwrap();
        lemma_info_prefix(
            a,
            b,
            next,
            acc.update(k, Some(decode_utf8(a.subrange(i + 8, end)))),
        );
    }
}

/// Reading two whole `INFO` bodies placed one after the other, the first ending exactly
/// at its end with every padding byte present, gives the entries of the second where it
/// has them and those of the first elsewhere: a later entry replaces an earlier one.
pub proof fn lemma_info_concat(a: Seq<u8>, b: Seq<u8>)
    requires
        spec_info(a) is Some,
        spec_info(a).unwrap() is Ok,
        info_walk_end(a, 0) == a.len(),
        spec_info(b) is Some,
        spec_info(b).unwrap() is Ok,
    ensures
        spec_info(a + b) == Some(
            Ok::<Seq<Option<Seq<char>>>, ChunkError>(
                merge_entries(spec_info(a).unwrap().unwrap(), spec_info(b).unwrap().unwrap()),
            ),
        ),
{
    let ma = spec_info(a).unwrap().unwrap();
    lemma_info_prefix(a, b, 0, no_entries());
    lemma_info_shift(a, b, 0, ma);
    lemma_info_len(a, 0, no_entries());
    lemma_info_acc(b, 0, ma);
}

} // verus!
