//! Little-endian integers, four-byte tags and UTF-8 text read out of a byte slice.
use vstd::prelude::*;
use vstd::string::StringSliceAdditionalSpecFns;
use vstd::utf8::*;

verus! {

/// The unsigned 16-bit integer stored little-endian at `s[i..i + 2]`.
pub open spec fn le_u16(s: Seq<u8>, i: int) -> u16 {
    (s[i] + 256 * s[i + 1]) as u16
}

/// The unsigned 32-bit integer stored little-endian at `s[i..i + 4]`.
pub open spec fn le_u32(s: Seq<u8>, i: int) -> u32 {
    (s[i] + 256 * s[i + 1] + 65536 * s[i + 2] + 16777216 * s[i + 3]) as u32
}

/// The signed 16-bit integer stored little-endian, in two's complement, at `s[i..i + 2]`.
pub open spec fn le_i16(s: Seq<u8>, i: int) -> i16 {
    let u: int = s[i] + 256 * s[i + 1];
    if u < 32768 {
        u as i16
    } else {
        (u - 65536) as i16
    }
}

/// The four bytes of a chunk tag, written as characters.
pub open spec fn tag(a: char, b: char, c: char, d: char) -> Seq<u8> {
    seq![a as u8, b as u8, c as u8, d as u8]
}

/// The four bytes at `s[i..i + 4]`.
pub open spec fn four_at(s: Seq<u8>, i: int) -> Seq<u8> {
    s.subrange(i, i + 4)
}

/// Reads a little-endian `u16` at `at`.
pub fn read_u16_le(s: &[u8], at: usize) -> (r: u16)
    requires
        at + 2 <= s@.len(),
    ensures
        r == le_u16(s@, at as int),
{
    (s[at] as u16) + (s[at + 1] as u16) * 256
}

/// Reads a little-endian `u32` at `at`.
pub fn read_u32_le(s: &[u8], at: usize) -> (r: u32)
    requires
        at + 4 <= s@.len(),
    ensures
        r == le_u32(s@, at as int),
{
    (s[at] as u32) + (s[at + 1] as u32) * 256 + (s[at + 2] as u32) * 65536 + (s[at + 3] as u32)
        * 16777216
}

/// Reads a little-endian two's complement `i16` at `at`.
pub fn read_i16_le(s: &[u8], at: usize) -> (r: i16)
    requires
        at + 2 <= s@.len(),
    ensures
        r == le_i16(s@, at as int),
{
    let u: u16 = (s[at] as u16) + (s[at + 1] as u16) * 256;
    if u < 32768 {
        u as i16
    } else {
        ((u - 32768) as i16) - 32767 - 1
    }
}

/// Whether the four bytes at `at` are the tag `a b c d`.
pub fn tag_at(s: &[u8], at: usize, a: u8, b: u8, c: u8, d: u8) -> (r: bool)
    requires
        at + 4 <= s@.len(),
    ensures
        r == (four_at(s@, at as int) == seq![a, b, c, d]),
{
    let r = s[at] == a && s[at + 1] == b && s[at + 2] == c && s[at + 3] == d;
    proof {
        let f = four_at(s@, at as int);
        if r {
            assert(f =~= seq![a, b, c, d]);
        } else {
            if f == seq![a, b, c, d] {
                assert(f[0] == a && f[1] == b && f[2] == c && f[3] == d);
            }
        }
    }
    r
}

/// `std::str::from_utf8`: the bytes read as a string slice, or `None` where they are
/// not valid UTF-8. Claimed: the result is present exactly when the bytes are valid
/// UTF-8, and then its bytes are the input bytes.
#[verifier::external_body]
fn str_from_utf8(bytes: &[u8]) -> (res: Option<&str>)
    ensures
        res is Some <==> valid_utf8(bytes@),
        res matches Some(s) ==> s.spec_bytes() == bytes@,
{
    std::str::from_utf8(bytes).ok()
}

/// The bytes `s[start..end]` decoded as UTF-8 text, or `None` where they are not valid UTF-8.
pub fn utf8_string(s: &[u8], start: usize, end: usize) -> (res: Option<String>)
    requires
        start <= end <= s@.len(),
    ensures
        res is Some <==> valid_utf8(s@.subrange(start as int, end as int)),
        res matches Some(t) ==> t@ == decode_utf8(s@.subrange(start as int, end as int)),
{
    let part = &s[start..end];
    match str_from_utf8(part) {
        Some(text) => {
            proof {
                encode_utf8_decode_utf8(text@);
            }
            Some(text.to_owned())
        },
        None => None,
    }
}

} // verus!
