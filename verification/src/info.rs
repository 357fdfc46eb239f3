//! The `INFO` list: text entries such as the title, artist or software of a file.
use crate::bytes::{four_at, le_u32, read_u32_le, tag, tag_at, utf8_string};
use crate::errors::{ChunkError, lift, lift_result};
use vstd::prelude::*;
use vstd::utf8::{decode_utf8, valid_utf8};

verus! {

/// The entries of an `INFO` list, each present when the list held it.
#[derive(Debug)]
pub struct InfoData {
    /// The location where the subject of the file is archived (`IARL`).
    pub iarl: Option<String>,
    /// The artist of the original subject of the file (`IART`).
    pub iart: Option<String>,
    /// The name of the person or organization that commissioned the original subject of the file (`ICMS`).
    pub icms: Option<String>,
    /// General comments about the file or its subject (`ICMT`).
    pub icmt: Option<String>,
    /// Copyright information about the file (`ICOP`).
    pub icop: Option<String>,
    /// The date the subject of the file was created (`ICRD`).
    pub icrd: Option<String>,
    /// Whether and how an image was cropped (`ICRP`).
    pub icrp: Option<String>,
    /// The dimensions of the original subject of the file (`IDIM`).
    pub idim: Option<String>,
    /// Dots per inch settings used to digitize the file (`IDPI`).
    pub idpi: Option<String>,
    /// The name of the engineer who worked on the file (`IENG`).
    pub ieng: Option<String>,
    /// The genre of the subject (`IGNR`).
    pub ignr: Option<String>,
    /// A list of keywords for the file or its subject (`IKEY`).
    pub ikey: Option<String>,
    /// Lightness settings used to digitize the file (`ILGT`).
    pub ilgt: Option<String>,
    /// Medium for the original subject of the file (`IMED`).
    pub imed: Option<String>,
    /// Title of the subject of the file (`INAM`).
    pub inam: Option<String>,
    /// The number of colors in the color palette used to digitize the file (`IPLT`).
    pub iplt: Option<String>,
    /// Name of the title the subject was originally intended for (`IPRD`).
    pub iprd: Option<String>,
    /// Description of the contents of the file (`ISBJ`).
    pub isbj: Option<String>,
    /// Name of the software package used to create the file (`ISFT`).
    pub isft: Option<String>,
    /// The name of the person or organization that supplied the original subject of the file (`ISRC`).
    pub isrc: Option<String>,
    /// The original form of the material that was digitized (`ISRF`).
    pub isrf: Option<String>,
    /// The name of the technician who digitized the subject file (`ITCH`).
    pub itch: Option<String>,
}

/// The text of an optional entry.
pub open spec fn text_of(o: Option<String>) -> Option<Seq<char>> {
    match o {
        Some(s) => Some(s@),
        None => None,
    }
}

/// The number of entries an `INFO` list can hold.
pub open spec fn info_entry_count() -> nat {
    22
}

impl View for InfoData {
    /// The entries in the order of [`info_field_of`].
    type V = Seq<Option<Seq<char>>>;

    open spec fn view(&self) -> Seq<Option<Seq<char>>> {
        seq![
            text_of(self.iarl),
            text_of(self.iart),
            text_of(self.icms),
            text_of(self.icmt),
            text_of(self.icop),
            text_of(self.icrd),
            text_of(self.icrp),
            text_of(self.idim),
            text_of(self.idpi),
            text_of(self.ieng),
            text_of(self.ignr),
            text_of(self.ikey),
            text_of(self.ilgt),
            text_of(self.imed),
            text_of(self.inam),
            text_of(self.iplt),
            text_of(self.iprd),
            text_of(self.isbj),
            text_of(self.isft),
            text_of(self.isrc),
            text_of(self.isrf),
            text_of(self.itch),
        ]
    }
}

/// The position, in the model of [`InfoData`], of the entry with tag `id`;
/// `None` for a tag that is not one of the known entries.
pub open spec fn info_field_of(id: Seq<u8>) -> Option<int> {
    if id == tag('I', 'A', 'R', 'L') {
        Some(0)
    } else if id == tag('I', 'A', 'R', 'T') {
        Some(1)
    } else if id == tag('I', 'C', 'M', 'S') {
        Some(2)
    } else if id == tag('I', 'C', 'M', 'T') {
        Some(3)
    } else if id == tag('I', 'C', 'O', 'P') {
        Some(4)
    } else if id == tag('I', 'C', 'R', 'D') {
        Some(5)
    } else if id == tag('I', 'C', 'R', 'P') {
        Some(6)
    } else if id == tag('I', 'D', 'I', 'M') {
        Some(7)
    } else if id == tag('I', 'D', 'P', 'I') {
        Some(8)
    } else if id == tag('I', 'E', 'N', 'G') {
        Some(9)
    } else if id == tag('I', 'G', 'N', 'R') {
        Some(10)
    } else if id == tag('I', 'K', 'E', 'Y') {
        Some(11)
    } else if id == tag('I', 'L', 'G', 'T') {
        Some(12)
    } else if id == tag('I', 'M', 'E', 'D') {
        Some(13)
    } else if id == tag('I', 'N', 'A', 'M') {
        Some(14)
    } else if id == tag('I', 'P', 'L', 'T') {
        Some(15)
    } else if id == tag('I', 'P', 'R', 'D') {
        Some(16)
    } else if id == tag('I', 'S', 'B', 'J') {
        Some(17)
    } else if id == tag('I', 'S', 'F', 'T') {
        Some(18)
    } else if id == tag('I', 'S', 'R', 'C') {
        Some(19)
    } else if id == tag('I', 'S', 'R', 'F') {
        Some(20)
    } else if id == tag('I', 'T', 'C', 'H') {
        Some(21)
    } else {
        None
    }
}

/// No entry present.
pub open spec fn no_entries() -> Seq<Option<Seq<char>>> {
    Seq::new(info_entry_count(), |i: int| None)
}

/// Reading the entries of an `INFO` list body `v` from offset `index` on, into `acc`.
/// Each entry is a 4-byte tag, a little-endian 32-bit size that counts a closing NUL
/// byte, the text, and one byte of padding after an odd size. A later entry with the same
/// tag replaces an earlier one. A tag that is not valid UTF-8 gives `IdError`, a text that
/// is not valid UTF-8 gives `InfoError`; a truncated entry, an entry of size 0 or an
/// unknown tag is not handled.
pub open spec fn spec_info_from(v: Seq<u8>, index: int, acc: Seq<Option<Seq<char>>>) -> Option<
    Result<Seq<Option<Seq<char>>>, ChunkError>,
>
    decreases v.len() + 2 - index,
{
    if index < 0 || index >= v.len() {
        Some(Ok(acc))
    } else if index + 4 > v.len() {
        None
    } else if !valid_utf8(four_at(v, index)) {
        Some(Err(ChunkError::IdError()))
    } else if index + 8 > v.len() {
        None
    } else {
        let size: u32 = le_u32(v, index + 4);
        let end: int = index + 8 + size - 1;
        if size == 0 || end > v.len() {
            None
        } else if !valid_utf8(v.subrange(index + 8, end)) {
            Some(Err(ChunkError::InfoError()))
        } else {
            match info_field_of(four_at(v, index)) {
                None => None,
                Some(k) => spec_info_from(
                    v,
                    end + 1 + size % 2,
                    acc.update(k, Some(decode_utf8(v.subrange(index + 8, end)))),
                ),
            }
        }
    }
}

/// Reading a whole `INFO` list body.
pub open spec fn spec_info(v: Seq<u8>) -> Option<Result<Seq<Option<Seq<char>>>, ChunkError>> {
    spec_info_from(v, 0, no_entries())
}

/// The position of the entry whose tag is at `s[at..at + 4]`, as [`info_field_of`] gives it.
fn info_field_at(s: &[u8], at: usize) -> (r: Option<usize>)
    requires
        at + 4 <= s@.len(),
    ensures
        match r {
            Some(k) => info_field_of(four_at(s@, at as int)) == Some(k as int),
            None => info_field_of(four_at(s@, at as int)) is None,
        },
{
    if tag_at(s, at, 'I' as u8, 'A' as u8, 'R' as u8, 'L' as u8) {
        Some(0)
    } else if tag_at(s, at, 'I' as u8, 'A' as u8, 'R' as u8, 'T' as u8) {
        Some(1)
    } else if tag_at(s, at, 'I' as u8, 'C' as u8, 'M' as u8, 'S' as u8) {
        Some(2)
    } else if tag_at(s, at, 'I' as u8, 'C' as u8, 'M' as u8, 'T' as u8) {
        Some(3)
    } else if tag_at(s, at, 'I' as u8, 'C' as u8, 'O' as u8, 'P' as u8) {
        Some(4)
    } else if tag_at(s, at, 'I' as u8, 'C' as u8, 'R' as u8, 'D' as u8) {
        Some(5)
    } else if tag_at(s, at, 'I' as u8, 'C' as u8, 'R' as u8, 'P' as u8) {
        Some(6)
    } else if tag_at(s, at, 'I' as u8, 'D' as u8, 'I' as u8, 'M' as u8) {
        Some(7)
    } else if tag_at(s, at, 'I' as u8, 'D' as u8, 'P' as u8, 'I' as u8) {
        Some(8)
    } else if tag_at(s, at, 'I' as u8, 'E' as u8, 'N' as u8, 'G' as u8) {
        Some(9)
    } else if tag_at(s, at, 'I' as u8, 'G' as u8, 'N' as u8, 'R' as u8) {
        Some(10)
    } else if tag_at(s, at, 'I' as u8, 'K' as u8, 'E' as u8, 'Y' as u8) {
        Some(11)
    } else if tag_at(s, at, 'I' as u8, 'L' as u8, 'G' as u8, 'T' as u8) {
        Some(12)
    } else if tag_at(s, at, 'I' as u8, 'M' as u8, 'E' as u8, 'D' as u8) {
        Some(13)
    } else if tag_at(s, at, 'I' as u8, 'N' as u8, 'A' as u8, 'M' as u8) {
        Some(14)
    } else if tag_at(s, at, 'I' as u8, 'P' as u8, 'L' as u8, 'T' as u8) {
        Some(15)
    } else if tag_at(s, at, 'I' as u8, 'P' as u8, 'R' as u8, 'D' as u8) {
        Some(16)
    } else if tag_at(s, at, 'I' as u8, 'S' as u8, 'B' as u8, 'J' as u8) {
        Some(17)
    } else if tag_at(s, at, 'I' as u8, 'S' as u8, 'F' as u8, 'T' as u8) {
        Some(18)
    } else if tag_at(s, at, 'I' as u8, 'S' as u8, 'R' as u8, 'C' as u8) {
        Some(19)
    } else if tag_at(s, at, 'I' as u8, 'S' as u8, 'R' as u8, 'F' as u8) {
        Some(20)
    } else if tag_at(s, at, 'I' as u8, 'T' as u8, 'C' as u8, 'H' as u8) {
        Some(21)
    } else {
        None
    }
}

impl InfoData {
    /// An `INFO` list with no entry.
    pub fn initialize() -> (res: Self)
        ensures
            res@ == no_entries(),
    {
        let res = InfoData {
            iarl: None,
            iart: None,
            icms: None,
            icmt: None,
            icop: None,
            icrd: None,
            icrp: None,
            idim: None,
            idpi: None,
            ieng: None,
            ignr: None,
            ikey: None,
            ilgt: None,
            imed: None,
            inam: None,
            iplt: None,
            iprd: None,
            isbj: None,
            isft: None,
            isrc: None,
            isrf: None,
            itch: None,
        };
        assert(res@ =~= no_entries());
        res
    }

    /// Stores `text` as the entry at position `k`.
    fn set_entry(&mut self, k: usize, text: String)
        requires
            k < info_entry_count(),
        ensures
            final(self)@ == old(self)@.update(k as int, Some(text@)),
    {
        let ghost t = text@;
        match k {
            0 => self.iarl = Some(text),
            1 => self.iart = Some(text),
            2 => self.icms = Some(text),
            3 => self.icmt = Some(text),
            4 => self.icop = Some(text),
            5 => self.icrd = Some(text),
            6 => self.icrp = Some(text),
            7 => self.idim = Some(text),
            8 => self.idpi = Some(text),
            9 => self.ieng = Some(text),
            10 => self.ignr = Some(text),
            11 => self.ikey = Some(text),
            12 => self.ilgt = Some(text),
            13 => self.imed = Some(text),
            14 => self.inam = Some(text),
            15 => self.iplt = Some(text),
            16 => self.iprd = Some(text),
            17 => self.isbj = Some(text),
            18 => self.isft = Some(text),
            19 => self.isrc = Some(text),
            20 => self.isrf = Some(text),
            21 => self.itch = Some(text),
            _ => self.itch = Some(text),
        }
        assert(final(self)@ =~= old(self)@.update(k as int, Some(t)));
    }

    /// Reads the entries of an `INFO` list body; `None` where the body is not handled
    /// (see [`spec_info_from`]).
    pub fn decode(value: &[u8]) -> (res: Option<Result<InfoData, ChunkError>>)
        ensures
            lift(res) == spec_info(value@),
    {
        let mut data = InfoData::initialize();
        let mut index: usize = 0;
        let len: usize = value.len();
        while index < len
            invariant
                len == value@.len(),
                index <= len,
                spec_info(value@) == spec_info_from(value@, index as int, data@),
            decreases len - index,
        {
            if len - index < 4 {
                return None;
            }
            if utf8_string(value, index, index + 4).is_none() {
                return Some(Err(ChunkError::IdError()));
            }
            if len - index < 8 {
                return None;
            }
            let size: u32 = read_u32_le(value, index + 4);
            let avail: usize = len - index - 8;
            if size == 0 || (size - 1) as usize > avail {
                return None;
            }
            let end: usize = index + 8 + (size - 1) as usize;
            let text = match utf8_string(value, index + 8, end) {
                Some(t) => t,
                None => {
                    return Some(Err(ChunkError::InfoError()));
                },
            };
            let k: usize = match info_field_at(value, index) {
                Some(k) => k,
                None => {
                    return None;
                },
            };
            data.set_entry(k, text);
            let step: usize = 1 + (size % 2) as usize;
            if step >= len - end {
                proof {
                    let next = end + 1 + size % 2;
                    assert(spec_info_from(value@, next, data@) == Some(
                        Ok::<Seq<Option<Seq<char>>>, ChunkError>(data@),
                    ));
                }
                return Some(Ok(data));
            }
            index = end + step;
        }
        Some(Ok(data))
    }

    /// Reads the entries of an `INFO` list body that [`spec_info`] handles.
    pub fn try_from(value: &[u8]) -> (res: Result<InfoData, ChunkError>)
        requires
            spec_info(value@) is Some,
        ensures
            Some(lift_result(res)) == spec_info(value@),
    {
        match Self::decode(value) {
            Some(r) => r,
            None => Err(ChunkError::InfoError()),
        }
    }
}

} // verus!
