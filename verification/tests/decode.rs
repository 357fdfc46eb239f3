use riff::bytes::utf8_string;
use riff::{
    pcm16_samples, Chunk, ChunkData, ChunkError, ExtensibleFmt, FmtChunk, InfoData, ListChunk,
    ListData, PCMFmt, RiffChunk,
};

fn le32(n: u32) -> Vec<u8> {
    n.to_le_bytes().to_vec()
}

fn chunk(id: &[u8; 4], body: &[u8]) -> Vec<u8> {
    let mut v = id.to_vec();
    v.extend(le32(body.len() as u32));
    v.extend_from_slice(body);
    v
}

fn pcm_body() -> Vec<u8> {
    let mut b = Vec::new();
    b.extend(1u16.to_le_bytes());
    b.extend(2u16.to_le_bytes());
    b.extend(44100u32.to_le_bytes());
    b.extend(176400u32.to_le_bytes());
    b.extend(4u16.to_le_bytes());
    b.extend(16u16.to_le_bytes());
    b
}

fn info_entry(id: &[u8; 4], text: &[u8]) -> Vec<u8> {
    let mut v = id.to_vec();
    v.extend(le32(text.len() as u32 + 1));
    v.extend_from_slice(text);
    v.push(0);
    if (text.len() + 1) % 2 == 1 {
        v.push(0);
    }
    v
}

fn wav(chunks: &[Vec<u8>]) -> Vec<u8> {
    let mut body = b"WAVE".to_vec();
    for c in chunks {
        body.extend_from_slice(c);
        if c.len() % 2 == 1 {
            body.push(0);
        }
    }
    let mut v = b"RIFF".to_vec();
    v.extend(le32(body.len() as u32));
    v.extend(body);
    v
}

#[test]
fn riff_with_fmt_list_and_data() {
    let mut list = b"INFO".to_vec();
    list.extend(info_entry(b"INAM", b"Song"));
    list.extend(info_entry(b"IART", b"Band"));
    let bytes = wav(&[
        chunk(b"fmt ", &pcm_body()),
        chunk(b"LIST", &list),
        chunk(b"data", &[1, 0, 2, 0]),
    ]);
    let r = RiffChunk::try_from(&bytes).unwrap();
    assert_eq!(r.id, "RIFF");
    assert_eq!(r.size as usize, bytes.len() - 8);
    assert_eq!(r.file_type, "WAVE");
    assert_eq!(r.data.len(), 3);
    assert_eq!(r.data[0].id, "fmt ");
    assert_eq!(r.data[0].size, 16);
    match &r.data[0].data {
        ChunkData::Fmt(FmtChunk::Pcm(p)) => {
            assert_eq!(
                *p,
                PCMFmt {
                    format_code: 1,
                    number_of_channels: 2,
                    sample_rate: 44100,
                    bytes_per_second: 176400,
                    block_align: 4,
                    bits_per_sample: 16,
                }
            );
        }
        other => panic!("unexpected {:?}", other),
    }
    assert_eq!(r.data[1].id, "LIST");
    match &r.data[1].data {
        ChunkData::List(l) => {
            assert_eq!(l.list_type, "INFO");
            match &l.data {
                ListData::Info(i) => {
                    assert_eq!(i.inam.as_deref(), Some("Song"));
                    assert_eq!(i.iart.as_deref(), Some("Band"));
                    assert_eq!(i.icmt, None);
                }
                other => panic!("unexpected {:?}", other),
            }
        }
        other => panic!("unexpected {:?}", other),
    }
    assert_eq!(r.data[2].id, "data");
    match &r.data[2].data {
        ChunkData::Data(d) => assert_eq!(d, &vec![1u8, 0, 2, 0]),
        other => panic!("unexpected {:?}", other),
    }
}

#[test]
fn riff_missing_tag_is_riff_error() {
    let mut bytes = wav(&[chunk(b"data", &[1, 2])]);
    bytes[0] = b'X';
    assert!(matches!(RiffChunk::try_from(&bytes), Err(ChunkError::RiffError())));
}

#[test]
fn riff_tag_not_utf8_is_riff_error() {
    let bytes = vec![0xff, 0xfe, 0xfd, 0xfc, 0, 0, 0, 0];
    assert!(matches!(RiffChunk::decode(&bytes), Some(Err(ChunkError::RiffError()))));
}

#[test]
fn riff_file_type_not_utf8_is_riff_error() {
    let mut bytes = b"RIFF".to_vec();
    bytes.extend(le32(4));
    bytes.extend([0xc3, 0x28, 0x41, 0x41]);
    assert!(matches!(RiffChunk::decode(&bytes), Some(Err(ChunkError::RiffError()))));
}

#[test]
fn riff_short_header_is_not_handled() {
    assert!(RiffChunk::decode(b"RIF").is_none());
    assert!(RiffChunk::decode(b"RIFF\x04\x00\x00\x00WA").is_none());
}

#[test]
fn riff_header_only_has_no_chunks() {
    let bytes = wav(&[]);
    let r = RiffChunk::try_from(&bytes).unwrap();
    assert_eq!(r.file_type, "WAVE");
    assert!(r.data.is_empty());
}

#[test]
fn odd_sized_chunk_is_padded() {
    let bytes = wav(&[chunk(b"abcd", &[9, 8, 7]), chunk(b"data", &[5, 6])]);
    let r = RiffChunk::try_from(&bytes).unwrap();
    assert_eq!(r.data.len(), 2);
    assert_eq!(r.data[0].id, "abcd");
    match &r.data[0].data {
        ChunkData::Unknown(b) => assert_eq!(b, &vec![9u8, 8, 7]),
        other => panic!("unexpected {:?}", other),
    }
    match &r.data[1].data {
        ChunkData::Data(b) => assert_eq!(b, &vec![5u8, 6]),
        other => panic!("unexpected {:?}", other),
    }
}

#[test]
fn missing_last_padding_byte_is_accepted() {
    let mut bytes = b"RIFF".to_vec();
    bytes.extend(le32(15));
    bytes.extend(b"WAVE");
    bytes.extend(chunk(b"data", &[1, 2, 3]));
    let r = RiffChunk::try_from(&bytes).unwrap();
    assert_eq!(r.data.len(), 1);
    assert_eq!(r.data[0].size, 3);
}

#[test]
fn chunk_error_propagates_to_riff() {
    let mut bytes = wav(&[chunk(b"data", &[1, 2])]);
    bytes.extend([b'x', b'y', b'z']);
    assert!(matches!(RiffChunk::try_from(&bytes), Err(ChunkError::SizeError())));
}

#[test]
fn chunk_shorter_than_header_is_size_error() {
    assert!(matches!(Chunk::try_from(b"data\x01\x00"), Err(ChunkError::SizeError())));
}

#[test]
fn chunk_body_past_end_is_size_error() {
    assert!(matches!(
        Chunk::try_from(b"data\x05\x00\x00\x00abc"),
        Err(ChunkError::SizeError())
    ));
}

#[test]
fn chunk_id_not_utf8_is_id_error() {
    assert!(matches!(
        Chunk::try_from(b"\xff\xffab\x00\x00\x00\x00"),
        Err(ChunkError::IdError())
    ));
}

#[test]
fn chunk_with_non_ascii_id_keeps_it() {
    let bytes = chunk(&[0xc3, 0xa9, b'x', b'y'], &[4]);
    let c = Chunk::try_from(&bytes).unwrap();
    assert_eq!(c.id, "\u{e9}xy");
    assert!(matches!(c.data, ChunkData::Unknown(ref b) if b == &vec![4u8]));
}

#[test]
fn chunk_size_overflowing_is_not_handled() {
    assert!(Chunk::decode(b"data\xfc\xff\xff\xffab").is_none());
    assert!(matches!(
        Chunk::decode(b"data\xf7\xff\xff\xffab"),
        Some(Err(ChunkError::SizeError()))
    ));
}

#[test]
fn fmt_extensible() {
    let mut body = Vec::new();
    body.extend(0xFFFEu16.to_le_bytes());
    body.extend(6u16.to_le_bytes());
    body.extend(48000u32.to_le_bytes());
    body.extend(864000u32.to_le_bytes());
    body.extend(18u16.to_le_bytes());
    body.extend(24u16.to_le_bytes());
    body.extend(22u16.to_le_bytes());
    body.extend(20u16.to_le_bytes());
    body.extend(0x3Fu32.to_le_bytes());
    body.extend(0u8..16);
    let c = Chunk::try_from(&chunk(b"fmt ", &body)).unwrap();
    match c.data {
        ChunkData::Fmt(FmtChunk::Extensible(x)) => {
            let want: [u8; 16] = [0, 1, 2, 3, 4, 5, 6, 7, 8, 9, 10, 11, 12, 13, 14, 15];
            assert_eq!(
                x,
                ExtensibleFmt {
                    format_code: 0xFFFE,
                    number_of_channels: 6,
                    sample_rate: 48000,
                    bytes_per_second: 864000,
                    block_align: 18,
                    bits_per_sample: 24,
                    cb_size: 22,
                    valid_bits_per_sample: 20,
                    channel_mask: 0x3F,
                    sub_format: want,
                }
            );
        }
        other => panic!("unexpected {:?}", other),
    }
}

#[test]
fn fmt_unknown_code_is_not_handled() {
    let mut body = pcm_body();
    body[0] = 3;
    assert!(Chunk::decode(&chunk(b"fmt ", &body)).is_none());
    assert!(FmtChunk::decode(&chunk(b"fmt ", &body)).is_none());
}

#[test]
fn fmt_short_pcm_is_not_handled() {
    let body = &pcm_body()[..10];
    assert!(FmtChunk::decode(&chunk(b"fmt ", body)).is_none());
}

#[test]
fn fmt_wrong_id_is_id_error() {
    assert!(matches!(
        FmtChunk::try_from(&chunk(b"data", &pcm_body())),
        Err(ChunkError::IdError())
    ));
    assert!(matches!(FmtChunk::try_from(b"fmt "), Err(ChunkError::SizeError())));
}

#[test]
fn pcm_wrong_code_is_format_code_error() {
    let mut body = pcm_body();
    body[0] = 2;
    assert!(matches!(PCMFmt::try_from(&body), Err(ChunkError::FormatCodeError())));
    assert!(PCMFmt::decode(&body[..1]).is_none());
}

#[test]
fn extensible_short_is_not_handled() {
    assert!(ExtensibleFmt::decode(&[0u8; 39]).is_none());
    assert!(ExtensibleFmt::try_from(&[0u8; 40]).is_ok());
}

#[test]
fn list_other_type_keeps_bytes() {
    let l = ListChunk::try_from(&chunk(b"LIST", b"adtlxyz1")).unwrap();
    assert_eq!(l.list_type, "adtl");
    assert!(matches!(l.data, ListData::Other(ref b) if b == &b"xyz1".to_vec()));
}

#[test]
fn list_type_not_utf8_is_list_type_error() {
    assert!(matches!(
        ListChunk::try_from(&chunk(b"LIST", &[0xff, 0xff, 0xff, 0xff])),
        Err(ChunkError::ListTypeError())
    ));
}

#[test]
fn list_wrong_id_is_id_error() {
    assert!(matches!(
        ListChunk::try_from(&chunk(b"LISX", b"INFO")),
        Err(ChunkError::IdError())
    ));
    assert!(matches!(ListChunk::try_from(b"LIST"), Err(ChunkError::SizeError())));
}

#[test]
fn list_shorter_than_its_type_is_not_handled() {
    assert!(ListChunk::decode(&chunk(b"LIST", b"IN")).is_none());
}

#[test]
fn info_text_not_utf8_is_info_error() {
    let mut list = b"INFO".to_vec();
    list.extend(info_entry(b"INAM", &[0xff, 0xfe]));
    assert!(matches!(
        ListChunk::try_from(&chunk(b"LIST", &list)),
        Err(ChunkError::InfoError())
    ));
    assert!(matches!(
        Chunk::try_from(&chunk(b"LIST", &list)),
        Err(ChunkError::InfoError())
    ));
}

#[test]
fn info_unknown_tag_is_not_handled() {
    let mut list = b"INFO".to_vec();
    list.extend(info_entry(b"IXYZ", b"a"));
    assert!(ListChunk::decode(&chunk(b"LIST", &list)).is_none());
}

#[test]
fn info_later_entry_replaces_earlier() {
    let mut body = info_entry(b"ICMT", b"first");
    body.extend(info_entry(b"ISFT", b"tool"));
    body.extend(info_entry(b"ICMT", b"second"));
    let d = InfoData::try_from(&body).unwrap();
    assert_eq!(d.icmt.as_deref(), Some("second"));
    assert_eq!(d.isft.as_deref(), Some("tool"));
    assert_eq!(d.inam, None);
}

#[test]
fn info_tag_not_utf8_is_id_error() {
    let body = info_entry(&[0xff, b'N', b'A', b'M'], b"x");
    assert!(matches!(InfoData::try_from(&body), Err(ChunkError::IdError())));
}

#[test]
fn info_zero_size_or_truncated_is_not_handled() {
    assert!(InfoData::decode(b"INAM\x00\x00\x00\x00").is_none());
    assert!(InfoData::decode(b"INAM\x09\x00\x00\x00ab").is_none());
    assert!(InfoData::decode(b"INA").is_none());
}

#[test]
fn info_initialize_is_empty() {
    let d = InfoData::initialize();
    assert!(d.iarl.is_none() && d.inam.is_none() && d.itch.is_none());
}

#[test]
fn samples_are_little_endian_pairs() {
    assert_eq!(
        pcm16_samples(&[0x01, 0x00, 0xff, 0xff, 0x00, 0x80, 0xff, 0x7f, 0x05]),
        vec![1i16, -1, -32768, 32767]
    );
}

#[test]
fn data_samples_lists_data_chunks() {
    let bytes = wav(&[
        chunk(b"data", &[2, 0, 0xfe, 0xff]),
        chunk(b"junk", &[1, 1]),
        chunk(b"data", &[3, 0, 7]),
    ]);
    let r = RiffChunk::try_from(&bytes).unwrap();
    let s = r.data_samples();
    assert_eq!(s, vec![(4u32, vec![2i16, -2]), (3u32, vec![3i16])]);
}

#[test]
fn utf8_string_decodes_and_rejects() {
    let bytes = [b'x', 0xc3, 0xa9, 0xff];
    assert_eq!(utf8_string(&bytes, 0, 3).as_deref(), Some("x\u{e9}"));
    assert_eq!(utf8_string(&bytes, 1, 3).as_deref(), Some("\u{e9}"));
    assert_eq!(utf8_string(&bytes, 1, 2), None);
    assert_eq!(utf8_string(&bytes, 0, 4), None);
}

#[test]
fn info_bodies_concatenated_merge_later_wins() {
    let mut a = info_entry(b"INAM", b"old");
    a.extend(info_entry(b"IART", b"artist"));
    let mut b = info_entry(b"INAM", b"new");
    b.extend(info_entry(b"ICMT", b"c"));
    let da = InfoData::try_from(&a).unwrap();
    let db = InfoData::try_from(&b).unwrap();
    let mut ab = a.clone();
    ab.extend(&b);
    let d = InfoData::try_from(&ab).unwrap();
    assert_eq!(da.inam.as_deref(), Some("old"));
    assert_eq!(db.inam.as_deref(), Some("new"));
    assert_eq!(d.inam.as_deref(), Some("new"));
    assert_eq!(d.iart.as_deref(), Some("artist"));
    assert_eq!(d.icmt.as_deref(), Some("c"));
    assert_eq!(d.itch, None);
}

#[test]
fn first_failing_chunk_error_is_returned() {
    let good = chunk(b"data", &[1, 2]);
    let mut bytes = wav(&[good]);
    bytes.extend([0xff, 0xff, b'a', b'b', 0, 0, 0, 0]);
    bytes.extend(chunk(b"data", &[3]));
    assert!(matches!(RiffChunk::try_from(&bytes), Err(ChunkError::IdError())));
}

#[test]
fn appending_a_whole_chunk_appends_it() {
    let v = wav(&[chunk(b"data", &[1, 2]), chunk(b"junk", &[7])]);
    let r = RiffChunk::try_from(&v).unwrap();
    let mut w = chunk(b"abcd", &[4, 5, 6]);
    w.push(0);
    let mut vw = v.clone();
    vw.extend(&w);
    let r2 = RiffChunk::try_from(&vw).unwrap();
    assert_eq!(r2.size, r.size);
    assert_eq!(r2.file_type, r.file_type);
    assert_eq!(r2.data.len(), r.data.len() + 1);
    assert_eq!(r2.data[2].id, "abcd");
    assert!(matches!(r2.data[2].data, ChunkData::Unknown(ref b) if b == &vec![4u8, 5, 6]));
}

#[test]
fn list_chunk_is_list_decoder_wrapped() {
    let v = chunk(b"LIST", b"adtlq");
    let c = Chunk::try_from(&v).unwrap();
    let l = ListChunk::try_from(&v).unwrap();
    assert_eq!(c.id, "LIST");
    assert_eq!(c.size, 5);
    match c.data {
        ChunkData::List(cl) => {
            assert_eq!(cl.list_type, l.list_type);
            assert!(matches!((cl.data, l.data), (ListData::Other(x), ListData::Other(y)) if x == y));
        }
        other => panic!("unexpected {:?}", other),
    }
    let bad = chunk(b"LIST", &[0xff, 0, 0, 0]);
    assert!(matches!(Chunk::try_from(&bad), Err(ChunkError::ListTypeError())));
}

#[test]
fn fmt_chunk_is_fmt_decoder_wrapped() {
    let v = chunk(b"fmt ", &pcm_body());
    let c = Chunk::try_from(&v).unwrap();
    let f = FmtChunk::try_from(&v).unwrap();
    assert_eq!(c.id, "fmt ");
    match (c.data, f) {
        (ChunkData::Fmt(FmtChunk::Pcm(x)), FmtChunk::Pcm(y)) => assert_eq!(x, y),
        other => panic!("unexpected {:?}", other),
    }
}

#[test]
fn bytes_after_body_do_not_change_chunk() {
    let v = chunk(b"data", &[1, 2, 3]);
    let mut longer = v.clone();
    longer.extend([9, 9, 9, 9]);
    let a = Chunk::try_from(&v).unwrap();
    let b = Chunk::try_from(&longer).unwrap();
    assert_eq!(a.id, b.id);
    assert_eq!(a.size, b.size);
    assert!(matches!((a.data, b.data), (ChunkData::Data(x), ChunkData::Data(y)) if x == y));
}

#[test]
fn fmt_size_field_is_not_read() {
    let a = chunk(b"fmt ", &pcm_body());
    let mut b = a.clone();
    b[4] = 0x77;
    b[7] = 0x01;
    match (FmtChunk::try_from(&a).unwrap(), FmtChunk::try_from(&b).unwrap()) {
        (FmtChunk::Pcm(x), FmtChunk::Pcm(y)) => assert_eq!(x, y),
        other => panic!("unexpected {:?}", other),
    }
}
