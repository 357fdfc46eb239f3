//! What the decoders read, stated on the raw bytes: each field of a format body, the
//! entry an `INFO` tag fills, the id of a chunk, and the header of a RIFF stream.
use crate::bytes::{four_at, le_u16, le_u32, tag};
use crate::chunk::{Chunk, ChunkData, ChunkDataModel, ListChunk, ListData, ListDataModel, spec_chunk, spec_list_chunk};
use crate::errors::ChunkError;
use crate::fmt::{ExtensibleFmt, spec_extensible_fmt, spec_pcm_fmt};
use crate::info::{InfoData, info_field_of, no_entries, spec_info, spec_info_from, text_of};
use crate::laws::lemma_ascii_tag;
use crate::riff::{RiffChunk, RiffModel, spec_chunks, spec_riff};
use crate::samples::spec_samples;
use vstd::prelude::*;
use vstd::utf8::{decode_utf8, valid_utf8};

verus! {

/// The little-endian readers take every byte of their field at its weight.
pub proof fn lemma_le_reads(s: Seq<u8>, i: int)
    requires
        0 <= i,
        i + 4 <= s.len(),
    ensures
        le_u16(s, i) == s[i] + 256 * s[i + 1],
        le_u32(s, i) == s[i] + 256 * s[i + 1] + 65536 * s[i + 2] + 16777216 * s[i + 3],
{
}

/// A decoded PCM body has format code 1, and each field is the little-endian value of its
/// bytes: channels at 2..4, sample rate at 4..8, byte rate at 8..12, block align at 12..14,
/// bits per sample at 14..16.
pub proof fn lemma_pcm_fields_from_bytes(w: Seq<u8>)
    requires
        spec_pcm_fmt(w) is Some,
        spec_pcm_fmt(w).unwrap() is Ok,
    ensures
        ({
            let p = spec_pcm_fmt(w).unwrap().unwrap();
            &&& w.len() >= 16
            &&& p.format_code == 1
            &&& p.format_code == w[0] + 256 * w[1]
            &&& p.number_of_channels == w[2] + 256 * w[3]
            &&& p.sample_rate == w[4] + 256 * w[5] + 65536 * w[6] + 16777216 * w[7]
            &&& p.bytes_per_second == w[8] + 256 * w[9] + 65536 * w[10] + 16777216 * w[11]
            &&& p.block_align == w[12] + 256 * w[13]
            &&& p.bits_per_sample == w[14] + 256 * w[15]
        }),
{
}

/// A PCM body of at least 16 bytes with format code 1 always decodes.
pub proof fn lemma_pcm_accepts(w: Seq<u8>)
    requires
        w.len() >= 16,
        w[0] == 1,
        w[1] == 0,
    ensures
        spec_pcm_fmt(w) is Some,
        spec_pcm_fmt(w).unwrap() is Ok,
{
}

/// Every body of at least 40 bytes decodes as an extensible body, and each field is the
/// little-endian value of its bytes; the sub-format is bytes 24..40.
pub proof fn lemma_extensible_fields_from_bytes(w: Seq<u8>)
    requires
        w.len() >= 40,
    ensures
        spec_extensible_fmt(w) is Some,
        spec_extensible_fmt(w).unwrap() is Ok,
        ({
            let x = spec_extensible_fmt(w).unwrap().unwrap();
            &&& x.format_code == w[0] + 256 * w[1]
            &&& x.number_of_channels == w[2] + 256 * w[3]
            &&& x.sample_rate == w[4] + 256 * w[5] + 65536 * w[6] + 16777216 * w[7]
            &&& x.bytes_per_second == w[8] + 256 * w[9] + 65536 * w[10] + 16777216 * w[11]
            &&& x.block_align == w[12] + 256 * w[13]
            &&& x.bits_per_sample == w[14] + 256 * w[15]
            &&& x.cb_size == w[16] + 256 * w[17]
            &&& x.valid_bits_per_sample == w[18] + 256 * w[19]
            &&& x.channel_mask == w[20] + 256 * w[21] + 65536 * w[22] + 16777216 * w[23]
            &&& x.sub_format.len() == 16
            &&& forall|i: int| 0 <= i < 16 ==> #[trigger] x.sub_format[i] == w[24 + i]
        }),
{
}

/// An `INFO` body holding one whole entry, with a known tag `id`, fills the entry that
/// [`info_field_of`] names with the decoded text and leaves all others empty.
proof fn lemma_info_one_entry(id: Seq<u8>, size_bytes: Seq<u8>, text: Seq<u8>, pad: Seq<u8>)
    requires
        id.len() == 4,
        valid_utf8(id),
        info_field_of(id) is Some,
        size_bytes.len() == 4,
        size_bytes[0] + 256 * size_bytes[1] + 65536 * size_bytes[2] + 16777216 * size_bytes[3]
            == text.len() + 1,
        valid_utf8(text),
        pad.len() == (text.len() + 1) % 2,
    ensures
        spec_info(id + size_bytes + text + seq![0u8] + pad) == Some(
            Ok::<Seq<Option<Seq<char>>>, ChunkError>(
                no_entries().update(info_field_of(id).unwrap(), Some(decode_utf8(text))),
            ),
        ),
{
    let v = id + size_bytes + text + seq![0u8] + pad;
    assert(four_at(v, 0) =~= id);
    assert(v[4] == size_bytes[0] && v[5] == size_bytes[1] && v[6] == size_bytes[2] && v[7]
        == size_bytes[3]);
    assert(le_u32(v, 4) == text.len() + 1);
    assert(v.subrange(8, 8 + text.len() as int) =~= text);
    let k = info_field_of(id).unwrap();
    let acc = no_entries().update(k, Some(decode_utf8(text)));
    let next: int = 8 + text.len() + 1 + (text.len() + 1) as int % 2;
    assert(next == v.len());
    assert(spec_info_from(v, next, acc) == Some(
        Ok::<Seq<Option<Seq<char>>>, ChunkError>(acc),
    ));
}

/// One whole `IARL` entry fills position 0.
proof fn lemma_info_entry_iarl(size_bytes: Seq<u8>, text: Seq<u8>, pad: Seq<u8>)
    requires
        size_bytes.len() == 4,
        size_bytes[0] + 256 * size_bytes[1] + 65536 * size_bytes[2] + 16777216 * size_bytes[3]
            == text.len() + 1,
        valid_utf8(text),
        pad.len() == (text.len() + 1) % 2,
    ensures
        spec_info(tag('I', 'A', 'R', 'L') + size_bytes + text + seq![0u8] + pad) == Some(
            Ok::<Seq<Option<Seq<char>>>, ChunkError>(no_entries().update(0, Some(decode_utf8(text)))),
        ),
{
    lemma_ascii_tag('I', 'A', 'R', 'L');
    assert(info_field_of(tag('I', 'A', 'R', 'L')) == Some(0int));
    lemma_info_one_entry(tag('I', 'A', 'R', 'L'), size_bytes, text, pad);
}

/// One whole `IART` entry fills position 1.
proof fn lemma_info_entry_iart(size_bytes: Seq<u8>, text: Seq<u8>, pad: Seq<u8>)
    requires
        size_bytes.len() == 4,
        size_bytes[0] + 256 * size_bytes[1] + 65536 * size_bytes[2] + 16777216 * size_bytes[3]
            == text.len() + 1,
        valid_utf8(text),
        pad.len() == (text.len() + 1) % 2,
    ensures
        spec_info(tag('I', 'A', 'R', 'T') + size_bytes + text + seq![0u8] + pad) == Some(
            Ok::<Seq<Option<Seq<char>>>, ChunkError>(no_entries().update(1, Some(decode_utf8(text)))),
        ),
{
    lemma_ascii_tag('I', 'A', 'R', 'T');
    assert(info_field_of(tag('I', 'A', 'R', 'T')) == Some(1int));
    lemma_info_one_entry(tag('I', 'A', 'R', 'T'), size_bytes, text, pad);
}

/// One whole `ICMS` entry fills position 2.
proof fn lemma_info_entry_icms(size_bytes: Seq<u8>, text: Seq<u8>, pad: Seq<u8>)
    requires
        size_bytes.len() == 4,
        size_bytes[0] + 256 * size_bytes[1] + 65536 * size_bytes[2] + 16777216 * size_bytes[3]
            == text.len() + 1,
        valid_utf8(text),
        pad.len() == (text.len() + 1) % 2,
    ensures
        spec_info(tag('I', 'C', 'M', 'S') + size_bytes + text + seq![0u8] + pad) == Some(
            Ok::<Seq<Option<Seq<char>>>, ChunkError>(no_entries().update(2, Some(decode_utf8(text)))),
        ),
{
    lemma_ascii_tag('I', 'C', 'M', 'S');
    assert(info_field_of(tag('I', 'C', 'M', 'S')) == Some(2int));
    lemma_info_one_entry(tag('I', 'C', 'M', 'S'), size_bytes, text, pad);
}

/// One whole `ICMT` entry fills position 3.
proof fn lemma_info_entry_icmt(size_bytes: Seq<u8>, text: Seq<u8>, pad: Seq<u8>)
    requires
        size_bytes.len() == 4,
        size_bytes[0] + 256 * size_bytes[1] + 65536 * size_bytes[2] + 16777216 * size_bytes[3]
            == text.len() + 1,
        valid_utf8(text),
        pad.len() == (text.len() + 1) % 2,
    ensures
        spec_info(tag('I', 'C', 'M', 'T') + size_bytes + text + seq![0u8] + pad) == Some(
            Ok::<Seq<Option<Seq<char>>>, ChunkError>(no_entries().update(3, Some(decode_utf8(text)))),
        ),
{
    lemma_ascii_tag('I', 'C', 'M', 'T');
    assert(info_field_of(tag('I', 'C', 'M', 'T')) == Some(3int));
    lemma_info_one_entry(tag('I', 'C', 'M', 'T'), size_bytes, text, pad);
}

/// One whole `ICOP` entry fills position 4.
proof fn lemma_info_entry_icop(size_bytes: Seq<u8>, text: Seq<u8>, pad: Seq<u8>)
    requires
        size_bytes.len() == 4,
        size_bytes[0] + 256 * size_bytes[1] + 65536 * size_bytes[2] + 16777216 * size_bytes[3]
            == text.len() + 1,
        valid_utf8(text),
        pad.len() == (text.len() + 1) % 2,
    ensures
        spec_info(tag('I', 'C', 'O', 'P') + size_bytes + text + seq![0u8] + pad) == Some(
            Ok::<Seq<Option<Seq<char>>>, ChunkError>(no_entries().update(4, Some(decode_utf8(text)))),
        ),
{
    lemma_ascii_tag('I', 'C', 'O', 'P');
    assert(info_field_of(tag('I', 'C', 'O', 'P')) == Some(4int));
    lemma_info_one_entry(tag('I', 'C', 'O', 'P'), size_bytes, text, pad);
}

/// One whole `ICRD` entry fills position 5.
proof fn lemma_info_entry_icrd(size_bytes: Seq<u8>, text: Seq<u8>, pad: Seq<u8>)
    requires
        size_bytes.len() == 4,
        size_bytes[0] + 256 * size_bytes[1] + 65536 * size_bytes[2] + 16777216 * size_bytes[3]
            == text.len() + 1,
        valid_utf8(text),
        pad.len() == (text.len() + 1) % 2,
    ensures
        spec_info(tag('I', 'C', 'R', 'D') + size_bytes + text + seq![0u8] + pad) == Some(
            Ok::<Seq<Option<Seq<char>>>, ChunkError>(no_entries().update(5, Some(decode_utf8(text)))),
        ),
{
    lemma_ascii_tag('I', 'C', 'R', 'D');
    assert(info_field_of(tag('I', 'C', 'R', 'D')) == Some(5int));
    lemma_info_one_entry(tag('I', 'C', 'R', 'D'), size_bytes, text, pad);
}

/// One whole `ICRP` entry fills position 6.
proof fn lemma_info_entry_icrp(size_bytes: Seq<u8>, text: Seq<u8>, pad: Seq<u8>)
    requires
        size_bytes.len() == 4,
        size_bytes[0] + 256 * size_bytes[1] + 65536 * size_bytes[2] + 16777216 * size_bytes[3]
            == text.len() + 1,
        valid_utf8(text),
        pad.len() == (text.len() + 1) % 2,
    ensures
        spec_info(tag('I', 'C', 'R', 'P') + size_bytes + text + seq![0u8] + pad) == Some(
            Ok::<Seq<Option<Seq<char>>>, ChunkError>(no_entries().update(6, Some(decode_utf8(text)))),
        ),
{
    lemma_ascii_tag('I', 'C', 'R', 'P');
    assert(info_field_of(tag('I', 'C', 'R', 'P')) == Some(6int));
    lemma_info_one_entry(tag('I', 'C', 'R', 'P'), size_bytes, text, pad);
}

/// One whole `IDIM` entry fills position 7.
proof fn lemma_info_entry_idim(size_bytes: Seq<u8>, text: Seq<u8>, pad: Seq<u8>)
    requires
        size_bytes.len() == 4,
        size_bytes[0] + 256 * size_bytes[1] + 65536 * size_bytes[2] + 16777216 * size_bytes[3]
            == text.len() + 1,
        valid_utf8(text),
        pad.len() == (text.len() + 1) % 2,
    ensures
        spec_info(tag('I', 'D', 'I', 'M') + size_bytes + text + seq![0u8] + pad) == Some(
            Ok::<Seq<Option<Seq<char>>>, ChunkError>(no_entries().update(7, Some(decode_utf8(text)))),
        ),
{
    lemma_ascii_tag('I', 'D', 'I', 'M');
    assert(info_field_of(tag('I', 'D', 'I', 'M')) == Some(7int));
    lemma_info_one_entry(tag('I', 'D', 'I', 'M'), size_bytes, text, pad);
}

/// One whole `IDPI` entry fills position 8.
proof fn lemma_info_entry_idpi(size_bytes: Seq<u8>, text: Seq<u8>, pad: Seq<u8>)
    requires
        size_bytes.len() == 4,
        size_bytes[0] + 256 * size_bytes[1] + 65536 * size_bytes[2] + 16777216 * size_bytes[3]
            == text.len() + 1,
        valid_utf8(text),
        pad.len() == (text.len() + 1) % 2,
    ensures
        spec_info(tag('I', 'D', 'P', 'I') + size_bytes + text + seq![0u8] + pad) == Some(
            Ok::<Seq<Option<Seq<char>>>, ChunkError>(no_entries().update(8, Some(decode_utf8(text)))),
        ),
{
    lemma_ascii_tag('I', 'D', 'P', 'I');
    assert(info_field_of(tag('I', 'D', 'P', 'I')) == Some(8int));
    lemma_info_one_entry(tag('I', 'D', 'P', 'I'), size_bytes, text, pad);
}

/// One whole `IENG` entry fills position 9.
proof fn lemma_info_entry_ieng(size_bytes: Seq<u8>, text: Seq<u8>, pad: Seq<u8>)
    requires
        size_bytes.len() == 4,
        size_bytes[0] + 256 * size_bytes[1] + 65536 * size_bytes[2] + 16777216 * size_bytes[3]
            == text.len() + 1,
        valid_utf8(text),
        pad.len() == (text.len() + 1) % 2,
    ensures
        spec_info(tag('I', 'E', 'N', 'G') + size_bytes + text + seq![0u8] + pad) == Some(
            Ok::<Seq<Option<Seq<char>>>, ChunkError>(no_entries().update(9, Some(decode_utf8(text)))),
        ),
{
    lemma_ascii_tag('I', 'E', 'N', 'G');
    assert(info_field_of(tag('I', 'E', 'N', 'G')) == Some(9int));
    lemma_info_one_entry(tag('I', 'E', 'N', 'G'), size_bytes, text, pad);
}

/// One whole `IGNR` entry fills position 10.
proof fn lemma_info_entry_ignr(size_bytes: Seq<u8>, text: Seq<u8>, pad: Seq<u8>)
    requires
        size_bytes.len() == 4,
        size_bytes[0] + 256 * size_bytes[1] + 65536 * size_bytes[2] + 16777216 * size_bytes[3]
            == text.len() + 1,
        valid_utf8(text),
        pad.len() == (text.len() + 1) % 2,
    ensures
        spec_info(tag('I', 'G', 'N', 'R') + size_bytes + text + seq![0u8] + pad) == Some(
            Ok::<Seq<Option<Seq<char>>>, ChunkError>(no_entries().update(10, Some(decode_utf8(text)))),
        ),
{
    lemma_ascii_tag('I', 'G', 'N', 'R');
    assert(info_field_of(tag('I', 'G', 'N', 'R')) == Some(10int));
    lemma_info_one_entry(tag('I', 'G', 'N', 'R'), size_bytes, text, pad);
}

/// One whole `IKEY` entry fills position 11.
proof fn lemma_info_entry_ikey(size_bytes: Seq<u8>, text: Seq<u8>, pad: Seq<u8>)
    requires
        size_bytes.len() == 4,
        size_bytes[0] + 256 * size_bytes[1] + 65536 * size_bytes[2] + 16777216 * size_bytes[3]
            == text.len() + 1,
        valid_utf8(text),
        pad.len() == (text.len() + 1) % 2,
    ensures
        spec_info(tag('I', 'K', 'E', 'Y') + size_bytes + text + seq![0u8] + pad) == Some(
            Ok::<Seq<Option<Seq<char>>>, ChunkError>(no_entries().update(11, Some(decode_utf8(text)))),
        ),
{
    lemma_ascii_tag('I', 'K', 'E', 'Y');
    assert(info_field_of(tag('I', 'K', 'E', 'Y')) == Some(11int));
    lemma_info_one_entry(tag('I', 'K', 'E', 'Y'), size_bytes, text, pad);
}

/// One whole `ILGT` entry fills position 12.
proof fn lemma_info_entry_ilgt(size_bytes: Seq<u8>, text: Seq<u8>, pad: Seq<u8>)
    requires
        size_bytes.len() == 4,
        size_bytes[0] + 256 * size_bytes[1] + 65536 * size_bytes[2] + 16777216 * size_bytes[3]
            == text.len() + 1,
        valid_utf8(text),
        pad.len() == (text.len() + 1) % 2,
    ensures
        spec_info(tag('I', 'L', 'G', 'T') + size_bytes + text + seq![0u8] + pad) == Some(
            Ok::<Seq<Option<Seq<char>>>, ChunkError>(no_entries().update(12, Some(decode_utf8(text)))),
        ),
{
    lemma_ascii_tag('I', 'L', 'G', 'T');
    assert(info_field_of(tag('I', 'L', 'G', 'T')) == Some(12int));
    lemma_info_one_entry(tag('I', 'L', 'G', 'T'), size_bytes, text, pad);
}

/// One whole `IMED` entry fills position 13.
proof fn lemma_info_entry_imed(size_bytes: Seq<u8>, text: Seq<u8>, pad: Seq<u8>)
    requires
        size_bytes.len() == 4,
        size_bytes[0] + 256 * size_bytes[1] + 65536 * size_bytes[2] + 16777216 * size_bytes[3]
            == text.len() + 1,
        valid_utf8(text),
        pad.len() == (text.len() + 1) % 2,
    ensures
        spec_info(tag('I', 'M', 'E', 'D') + size_bytes + text + seq![0u8] + pad) == Some(
            Ok::<Seq<Option<Seq<char>>>, ChunkError>(no_entries().update(13, Some(decode_utf8(text)))),
        ),
{
    lemma_ascii_tag('I', 'M', 'E', 'D');
    assert(info_field_of(tag('I', 'M', 'E', 'D')) == Some(13int));
    lemma_info_one_entry(tag('I', 'M', 'E', 'D'), size_bytes, text, pad);
}

/// One whole `INAM` entry fills position 14.
proof fn lemma_info_entry_inam(size_bytes: Seq<u8>, text: Seq<u8>, pad: Seq<u8>)
    requires
        size_bytes.len() == 4,
        size_bytes[0] + 256 * size_bytes[1] + 65536 * size_bytes[2] + 16777216 * size_bytes[3]
            == text.len() + 1,
        valid_utf8(text),
        pad.len() == (text.len() + 1) % 2,
    ensures
        spec_info(tag('I', 'N', 'A', 'M') + size_bytes + text + seq![0u8] + pad) == Some(
            Ok::<Seq<Option<Seq<char>>>, ChunkError>(no_entries().update(14, Some(decode_utf8(text)))),
        ),
{
    lemma_ascii_tag('I', 'N', 'A', 'M');
    assert(info_field_of(tag('I', 'N', 'A', 'M')) == Some(14int));
    lemma_info_one_entry(tag('I', 'N', 'A', 'M'), size_bytes, text, pad);
}

/// One whole `IPLT` entry fills position 15.
proof fn lemma_info_entry_iplt(size_bytes: Seq<u8>, text: Seq<u8>, pad: Seq<u8>)
    requires
        size_bytes.len() == 4,
        size_bytes[0] + 256 * size_bytes[1] + 65536 * size_bytes[2] + 16777216 * size_bytes[3]
            == text.len() + 1,
        valid_utf8(text),
        pad.len() == (text.len() + 1) % 2,
    ensures
        spec_info(tag('I', 'P', 'L', 'T') + size_bytes + text + seq![0u8] + pad) == Some(
            Ok::<Seq<Option<Seq<char>>>, ChunkError>(no_entries().update(15, Some(decode_utf8(text)))),
        ),
{
    lemma_ascii_tag('I', 'P', 'L', 'T');
    assert(info_field_of(tag('I', 'P', 'L', 'T')) == Some(15int));
    lemma_info_one_entry(tag('I', 'P', 'L', 'T'), size_bytes, text, pad);
}

/// One whole `IPRD` entry fills position 16.
proof fn lemma_info_entry_iprd(size_bytes: Seq<u8>, text: Seq<u8>, pad: Seq<u8>)
    requires
        size_bytes.len() == 4,
        size_bytes[0] + 256 * size_bytes[1] + 65536 * size_bytes[2] + 16777216 * size_bytes[3]
            == text.len() + 1,
        valid_utf8(text),
        pad.len() == (text.len() + 1) % 2,
    ensures
        spec_info(tag('I', 'P', 'R', 'D') + size_bytes + text + seq![0u8] + pad) == Some(
            Ok::<Seq<Option<Seq<char>>>, ChunkError>(no_entries().update(16, Some(decode_utf8(text)))),
        ),
{
    lemma_ascii_tag('I', 'P', 'R', 'D');
    assert(info_field_of(tag('I', 'P', 'R', 'D')) == Some(16int));
    lemma_info_one_entry(tag('I', 'P', 'R', 'D'), size_bytes, text, pad);
}

/// One whole `ISBJ` entry fills position 17.
proof fn lemma_info_entry_isbj(size_bytes: Seq<u8>, text: Seq<u8>, pad: Seq<u8>)
    requires
        size_bytes.len() == 4,
        size_bytes[0] + 256 * size_bytes[1] + 65536 * size_bytes[2] + 16777216 * size_bytes[3]
            == text.len() + 1,
        valid_utf8(text),
        pad.len() == (text.len() + 1) % 2,
    ensures
        spec_info(tag('I', 'S', 'B', 'J') + size_bytes + text + seq![0u8] + pad) == Some(
            Ok::<Seq<Option<Seq<char>>>, ChunkError>(no_entries().update(17, Some(decode_utf8(text)))),
        ),
{
    lemma_ascii_tag('I', 'S', 'B', 'J');
    assert(info_field_of(tag('I', 'S', 'B', 'J')) == Some(17int));
    lemma_info_one_entry(tag('I', 'S', 'B', 'J'), size_bytes, text, pad);
}

/// One whole `ISFT` entry fills position 18.
proof fn lemma_info_entry_isft(size_bytes: Seq<u8>, text: Seq<u8>, pad: Seq<u8>)
    requires
        size_bytes.len() == 4,
        size_bytes[0] + 256 * size_bytes[1] + 65536 * size_bytes[2] + 16777216 * size_bytes[3]
            == text.len() + 1,
        valid_utf8(text),
        pad.len() == (text.len() + 1) % 2,
    ensures
        spec_info(tag('I', 'S', 'F', 'T') + size_bytes + text + seq![0u8] + pad) == Some(
            Ok::<Seq<Option<Seq<char>>>, ChunkError>(no_entries().update(18, Some(decode_utf8(text)))),
        ),
{
    lemma_ascii_tag('I', 'S', 'F', 'T');
    assert(info_field_of(tag('I', 'S', 'F', 'T')) == Some(18int));
    lemma_info_one_entry(tag('I', 'S', 'F', 'T'), size_bytes, text, pad);
}

/// One whole `ISRC` entry fills position 19.
proof fn lemma_info_entry_isrc(size_bytes: Seq<u8>, text: Seq<u8>, pad: Seq<u8>)
    requires
        size_bytes.len() == 4,
        size_bytes[0] + 256 * size_bytes[1] + 65536 * size_bytes[2] + 16777216 * size_bytes[3]
            == text.len() + 1,
        valid_utf8(text),
        pad.len() == (text.len() + 1) % 2,
    ensures
        spec_info(tag('I', 'S', 'R', 'C') + size_bytes + text + seq![0u8] + pad) == Some(
            Ok::<Seq<Option<Seq<char>>>, ChunkError>(no_entries().update(19, Some(decode_utf8(text)))),
        ),
{
    lemma_ascii_tag('I', 'S', 'R', 'C');
    assert(info_field_of(tag('I', 'S', 'R', 'C')) == Some(19int));
    lemma_info_one_entry(tag('I', 'S', 'R', 'C'), size_bytes, text, pad);
}

/// One whole `ISRF` entry fills position 20.
proof fn lemma_info_entry_isrf(size_bytes: Seq<u8>, text: Seq<u8>, pad: Seq<u8>)
    requires
        size_bytes.len() == 4,
        size_bytes[0] + 256 * size_bytes[1] + 65536 * size_bytes[2] + 16777216 * size_bytes[3]
            == text.len() + 1,
        valid_utf8(text),
        pad.len() == (text.len() + 1) % 2,
    ensures
        spec_info(tag('I', 'S', 'R', 'F') + size_bytes + text + seq![0u8] + pad) == Some(
            Ok::<Seq<Option<Seq<char>>>, ChunkError>(no_entries().update(20, Some(decode_utf8(text)))),
        ),
{
    lemma_ascii_tag('I', 'S', 'R', 'F');
    assert(info_field_of(tag('I', 'S', 'R', 'F')) == Some(20int));
    lemma_info_one_entry(tag('I', 'S', 'R', 'F'), size_bytes, text, pad);
}

/// One whole `ITCH` entry fills position 21.
proof fn lemma_info_entry_itch(size_bytes: Seq<u8>, text: Seq<u8>, pad: Seq<u8>)
    requires
        size_bytes.len() == 4,
        size_bytes[0] + 256 * size_bytes[1] + 65536 * size_bytes[2] + 16777216 * size_bytes[3]
            == text.len() + 1,
        valid_utf8(text),
        pad.len() == (text.len() + 1) % 2,
    ensures
        spec_info(tag('I', 'T', 'C', 'H') + size_bytes + text + seq![0u8] + pad) == Some(
            Ok::<Seq<Option<Seq<char>>>, ChunkError>(no_entries().update(21, Some(decode_utf8(text)))),
        ),
{
    lemma_ascii_tag('I', 'T', 'C', 'H');
    assert(info_field_of(tag('I', 'T', 'C', 'H')) == Some(21int));
    lemma_info_one_entry(tag('I', 'T', 'C', 'H'), size_bytes, text, pad);
}

/// An `INFO` body holding one whole entry (tag, little-endian size counting the closing NUL,
/// text, NUL, padding byte after an odd size) fills the field its tag names, and no other:
/// `IARL` to `iarl` (0), `IART` to `iart` (1), `ICMS` to `icms` (2), `ICMT` to `icmt` (3),
/// `ICOP` to `icop` (4), `ICRD` to `icrd` (5), `ICRP` to `icrp` (6), `IDIM` to `idim` (7),
/// `IDPI` to `idpi` (8), `IENG` to `ieng` (9), `IGNR` to `ignr` (10),
/// `IKEY` to `ikey` (11), `ILGT` to `ilgt` (12), `IMED` to `imed` (13),
/// `INAM` to `inam` (14), `IPLT` to `iplt` (15), `IPRD` to `iprd` (16),
/// `ISBJ` to `isbj` (17), `ISFT` to `isft` (18), `ISRC` to `isrc` (19),
/// `ISRF` to `isrf` (20), `ITCH` to `itch` (21), in the order of the fields of [`crate::info::InfoData`] and of its view.
pub proof fn lemma_info_entry_fills_its_field(size_bytes: Seq<u8>, text: Seq<u8>, pad: Seq<u8>)
    requires
        size_bytes.len() == 4,
        size_bytes[0] + 256 * size_bytes[1] + 65536 * size_bytes[2] + 16777216 * size_bytes[3]
            == text.len() + 1,
        valid_utf8(text),
        pad.len() == (text.len() + 1) % 2,
    ensures
        spec_info(tag('I', 'A', 'R', 'L') + size_bytes + text + seq![0u8] + pad) == Some(
            Ok::<Seq<Option<Seq<char>>>, ChunkError>(no_entries().update(0, Some(decode_utf8(text)))),
        ),
        spec_info(tag('I', 'A', 'R', 'T') + size_bytes + text + seq![0u8] + pad) == Some(
            Ok::<Seq<Option<Seq<char>>>, ChunkError>(no_entries().update(1, Some(decode_utf8(text)))),
        ),
        spec_info(tag('I', 'C', 'M', 'S') + size_bytes + text + seq![0u8] + pad) == Some(
            Ok::<Seq<Option<Seq<char>>>, ChunkError>(no_entries().update(2, Some(decode_utf8(text)))),
        ),
        spec_info(tag('I', 'C', 'M', 'T') + size_bytes + text + seq![0u8] + pad) == Some(
            Ok::<Seq<Option<Seq<char>>>, ChunkError>(no_entries().update(3, Some(decode_utf8(text)))),
        ),
        spec_info(tag('I', 'C', 'O', 'P') + size_bytes + text + seq![0u8] + pad) == Some(
            Ok::<Seq<Option<Seq<char>>>, ChunkError>(no_entries().update(4, Some(decode_utf8(text)))),
        ),
        spec_info(tag('I', 'C', 'R', 'D') + size_bytes + text + seq![0u8] + pad) == Some(
            Ok::<Seq<Option<Seq<char>>>, ChunkError>(no_entries().update(5, Some(decode_utf8(text)))),
        ),
        spec_info(tag('I', 'C', 'R', 'P') + size_bytes + text + seq![0u8] + pad) == Some(
            Ok::<Seq<Option<Seq<char>>>, ChunkError>(no_entries().update(6, Some(decode_utf8(text)))),
        ),
        spec_info(tag('I', 'D', 'I', 'M') + size_bytes + text + seq![0u8] + pad) == Some(
            Ok::<Seq<Option<Seq<char>>>, ChunkError>(no_entries().update(7, Some(decode_utf8(text)))),
        ),
        spec_info(tag('I', 'D', 'P', 'I') + size_bytes + text + seq![0u8] + pad) == Some(
            Ok::<Seq<Option<Seq<char>>>, ChunkError>(no_entries().update(8, Some(decode_utf8(text)))),
        ),
        spec_info(tag('I', 'E', 'N', 'G') + size_bytes + text + seq![0u8] + pad) == Some(
            Ok::<Seq<Option<Seq<char>>>, ChunkError>(no_entries().update(9, Some(decode_utf8(text)))),
        ),
        spec_info(tag('I', 'G', 'N', 'R') + size_bytes + text + seq![0u8] + pad) == Some(
            Ok::<Seq<Option<Seq<char>>>, ChunkError>(no_entries().update(10, Some(decode_utf8(text)))),
        ),
        spec_info(tag('I', 'K', 'E', 'Y') + size_bytes + text + seq![0u8] + pad) == Some(
            Ok::<Seq<Option<Seq<char>>>, ChunkError>(no_entries().update(11, Some(decode_utf8(text)))),
        ),
        spec_info(tag('I', 'L', 'G', 'T') + size_bytes + text + seq![0u8] + pad) == Some(
            Ok::<Seq<Option<Seq<char>>>, ChunkError>(no_entries().update(12, Some(decode_utf8(text)))),
        ),
        spec_info(tag('I', 'M', 'E', 'D') + size_bytes + text + seq![0u8] + pad) == Some(
            Ok::<Seq<Option<Seq<char>>>, ChunkError>(no_entries().update(13, Some(decode_utf8(text)))),
        ),
        spec_info(tag('I', 'N', 'A', 'M') + size_bytes + text + seq![0u8] + pad) == Some(
            Ok::<Seq<Option<Seq<char>>>, ChunkError>(no_entries().update(14, Some(decode_utf8(text)))),
        ),
        spec_info(tag('I', 'P', 'L', 'T') + size_bytes + text + seq![0u8] + pad) == Some(
            Ok::<Seq<Option<Seq<char>>>, ChunkError>(no_entries().update(15, Some(decode_utf8(text)))),
        ),
        spec_info(tag('I', 'P', 'R', 'D') + size_bytes + text + seq![0u8] + pad) == Some(
            Ok::<Seq<Option<Seq<char>>>, ChunkError>(no_entries().update(16, Some(decode_utf8(text)))),
        ),
        spec_info(tag('I', 'S', 'B', 'J') + size_bytes + text + seq![0u8] + pad) == Some(
            Ok::<Seq<Option<Seq<char>>>, ChunkError>(no_entries().update(17, Some(decode_utf8(text)))),
        ),
        spec_info(tag('I', 'S', 'F', 'T') + size_bytes + text + seq![0u8] + pad) == Some(
            Ok::<Seq<Option<Seq<char>>>, ChunkError>(no_entries().update(18, Some(decode_utf8(text)))),
        ),
        spec_info(tag('I', 'S', 'R', 'C') + size_bytes + text + seq![0u8] + pad) == Some(
            Ok::<Seq<Option<Seq<char>>>, ChunkError>(no_entries().update(19, Some(decode_utf8(text)))),
        ),
        spec_info(tag('I', 'S', 'R', 'F') + size_bytes + text + seq![0u8] + pad) == Some(
            Ok::<Seq<Option<Seq<char>>>, ChunkError>(no_entries().update(20, Some(decode_utf8(text)))),
        ),
        spec_info(tag('I', 'T', 'C', 'H') + size_bytes + text + seq![0u8] + pad) == Some(
            Ok::<Seq<Option<Seq<char>>>, ChunkError>(no_entries().update(21, Some(decode_utf8(text)))),
        ),
{
    lemma_info_entry_iarl(size_bytes, text, pad);
    lemma_info_entry_iart(size_bytes, text, pad);
    lemma_info_entry_icms(size_bytes, text, pad);
    lemma_info_entry_icmt(size_bytes, text, pad);
    lemma_info_entry_icop(size_bytes, text, pad);
    lemma_info_entry_icrd(size_bytes, text, pad);
    lemma_info_entry_icrp(size_bytes, text, pad);
    lemma_info_entry_idim(size_bytes, text, pad);
    lemma_info_entry_idpi(size_bytes, text, pad);
    lemma_info_entry_ieng(size_bytes, text, pad);
    lemma_info_entry_ignr(size_bytes, text, pad);
    lemma_info_entry_ikey(size_bytes, text, pad);
    lemma_info_entry_ilgt(size_bytes, text, pad);
    lemma_info_entry_imed(size_bytes, text, pad);
    lemma_info_entry_inam(size_bytes, text, pad);
    lemma_info_entry_iplt(size_bytes, text, pad);
    lemma_info_entry_iprd(size_bytes, text, pad);
    lemma_info_entry_isbj(size_bytes, text, pad);
    lemma_info_entry_isft(size_bytes, text, pad);
    lemma_info_entry_isrc(size_bytes, text, pad);
    lemma_info_entry_isrf(size_bytes, text, pad);
    lemma_info_entry_itch(size_bytes, text, pad);
}

/// The id of every decoded chunk is its four tag bytes, which are valid UTF-8, decoded;
/// its size is the little-endian value of bytes 4..8.
pub proof fn lemma_chunk_id_is_its_tag(v: Seq<u8>)
    requires
        spec_chunk(v) is Some,
        spec_chunk(v).unwrap() is Ok,
    ensures
        valid_utf8(v.subrange(0, 4)),
        spec_chunk(v).unwrap().unwrap().id == decode_utf8(v.subrange(0, 4)),
        spec_chunk(v).unwrap().unwrap().size == v[4] + 256 * v[5] + 65536 * v[6] + 16777216
            * v[7],
{
    reveal(spec_chunk);
}

/// A decoded `LIST` chunk has as list type bytes 8..12 decoded; an `INFO` list holds the
/// entries read from bytes 12 to the end of the chunk, any other list holds those bytes.
pub proof fn lemma_list_chunk_from_bytes(v: Seq<u8>)
    requires
        spec_list_chunk(v) is Some,
        spec_list_chunk(v).unwrap() is Ok,
    ensures
        ({
            let l = spec_list_chunk(v).unwrap().unwrap();
            let end = v[4] + 256 * v[5] + 65536 * v[6] + 16777216 * v[7] + 8;
            &&& 12 <= end <= v.len()
            &&& l.list_type == decode_utf8(v.subrange(8, 12))
            &&& v.subrange(8, 12) == tag('I', 'N', 'F', 'O') ==> l.data is Info && spec_info(
                v.subrange(12, end),
            ) == Some(Ok::<Seq<Option<Seq<char>>>, ChunkError>(l.data->Info_0))
            &&& v.subrange(8, 12) != tag('I', 'N', 'F', 'O') ==> l.data == ListDataModel::Other(
                v.subrange(12, end),
            )
        }),
{
}

/// A stream with the tag `RIFF`, a form type that is valid UTF-8 (whatever it is: `WAVE`,
/// `AVI `, ...) and chunks that decode from byte 12 on, decodes to those chunks, with id
/// `RIFF`, the size at bytes 4..8 and the form type decoded.
pub proof fn lemma_riff_accepts_any_form_type(v: Seq<u8>)
    requires
        v.len() >= 12,
        v.subrange(0, 4) == tag('R', 'I', 'F', 'F'),
        valid_utf8(v.subrange(8, 12)),
        spec_chunks(v.skip(12)) is Some,
        spec_chunks(v.skip(12)).unwrap() is Ok,
    ensures
        spec_riff(v) == Some(
            Ok::<RiffModel, ChunkError>(
                RiffModel {
                    id: seq!['R', 'I', 'F', 'F'],
                    size: (v[4] + 256 * v[5] + 65536 * v[6] + 16777216 * v[7]) as u32,
                    file_type: decode_utf8(v.subrange(8, 12)),
                    data: spec_chunks(v.skip(12)).unwrap().unwrap(),
                },
            ),
        ),
{
    lemma_ascii_tag('R', 'I', 'F', 'F');
}

/// Sample `k` is bytes `2k` and `2k + 1` read as a little-endian two's complement value.
pub proof fn lemma_samples_from_bytes(b: Seq<u8>, k: int)
    requires
        0 <= k < b.len() / 2,
    ensures
        spec_samples(b).len() == b.len() / 2,
        b[2 * k + 1] < 128 ==> spec_samples(b)[k] == b[2 * k] + 256 * b[2 * k + 1],
        b[2 * k + 1] >= 128 ==> spec_samples(b)[k] == b[2 * k] + 256 * b[2 * k + 1] - 65536,
{
}

/// The view of an `INFO` list puts each named field at its position: `d@[k]` is the text of
/// the field that tag `k` of [`lemma_info_entry_fills_its_field`] names.
pub proof fn lemma_info_view_positions(d: InfoData)
    ensures
        d@.len() == 22,
        d@[0] == text_of(d.iarl),
        d@[1] == text_of(d.iart),
        d@[2] == text_of(d.icms),
        d@[3] == text_of(d.icmt),
        d@[4] == text_of(d.icop),
        d@[5] == text_of(d.icrd),
        d@[6] == text_of(d.icrp),
        d@[7] == text_of(d.idim),
        d@[8] == text_of(d.idpi),
        d@[9] == text_of(d.ieng),
        d@[10] == text_of(d.ignr),
        d@[11] == text_of(d.ikey),
        d@[12] == text_of(d.ilgt),
        d@[13] == text_of(d.imed),
        d@[14] == text_of(d.inam),
        d@[15] == text_of(d.iplt),
        d@[16] == text_of(d.iprd),
        d@[17] == text_of(d.isbj),
        d@[18] == text_of(d.isft),
        d@[19] == text_of(d.isrc),
        d@[20] == text_of(d.isrf),
        d@[21] == text_of(d.itch),
{
}

/// The view of an extensible body keeps each field under its own name.
pub proof fn lemma_extensible_view_fields(x: ExtensibleFmt)
    ensures
        x@.format_code == x.format_code,
        x@.number_of_channels == x.number_of_channels,
        x@.sample_rate == x.sample_rate,
        x@.bytes_per_second == x.bytes_per_second,
        x@.block_align == x.block_align,
        x@.bits_per_sample == x.bits_per_sample,
        x@.cb_size == x.cb_size,
        x@.valid_bits_per_sample == x.valid_bits_per_sample,
        x@.channel_mask == x.channel_mask,
        x@.sub_format == x.sub_format@,
{
}

/// The view of a chunk keeps its id, its size, and the bytes of a `data` or unknown body.
pub proof fn lemma_chunk_view_fields(c: Chunk)
    ensures
        c@.id == c.id@,
        c@.size == c.size,
        c.data matches ChunkData::Data(b) ==> c@.data == ChunkDataModel::Data(b@),
        c.data matches ChunkData::Unknown(b) ==> c@.data == ChunkDataModel::Unknown(b@),
        c.data matches ChunkData::List(l) ==> c@.data == ChunkDataModel::List(l@),
        c.data matches ChunkData::Fmt(x) ==> c@.data == ChunkDataModel::Fmt(x@),
{
}

/// The view of a `LIST` chunk keeps its list type and its entries.
pub proof fn lemma_list_view_fields(l: ListChunk)
    ensures
        l@.list_type == l.list_type@,
        l.data matches ListData::Info(d) ==> l@.data == ListDataModel::Info(d@),
        l.data matches ListData::Other(b) ==> l@.data == ListDataModel::Other(b@),
{
}

/// The view of a RIFF stream keeps its id, size, form type and each of its chunks in order.
pub proof fn lemma_riff_view_fields(r: RiffChunk)
    ensures
        r@.id == r.id@,
        r@.size == r.size,
        r@.file_type == r.file_type@,
        r@.data.len() == r.data@.len(),
        forall|i: int| 0 <= i < r.data@.len() ==> #[trigger] r@.data[i] == r.data@[i]@,
{
}

} // verus!
