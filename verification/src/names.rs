//! Names stored in file headers.
use vstd::prelude::*;
use vstd::string::*;
use crate::bytes::{advance, fits, le32, read_le32, within};
use crate::numbers::{field_number, padded_field_number, parse_field, parse_padded_field};
use crate::search::{find_byte, first_byte};
use crate::text::{lossy, lossy_text, trim, trimmed};

verus! {

broadcast use crate::slices::slice_len_bound;

/// The bytes before the first NUL.
pub open spec fn until_nul(bytes: Seq<u8>) -> Seq<u8> {
    match first_byte(bytes, 0, 0) {
        Some(nul) => bytes.take(nul),
        None => bytes,
    }
}

/// The text in a fixed-width field: up to the first NUL, without white space at
/// either end.
pub open spec fn field_text(bytes: Seq<u8>) -> Seq<char> {
    trim(lossy(until_nul(bytes)))
}

/// A text, unless it is empty.
pub open spec fn nonempty_text(text: Seq<char>) -> Option<Seq<char>> {
    if text.len() == 0 {
        None
    } else {
        Some(text)
    }
}

/// What a name extractor reports, as characters.
pub open spec fn name_of(r: Option<String>) -> Option<Seq<char>> {
    match r {
        Some(name) => Some(name@),
        None => None,
    }
}

/// The text in the field `from..to` of `data`.
pub fn read_field_text(data: &[u8], from: usize, to: usize) -> (r: String)
    requires
        from <= to <= data@.len(),
    ensures
        r@ == field_text(data@.subrange(from as int, to as int)),
{
    let field = vstd::slice::slice_subrange(data, from, to);
    let end = match find_byte(field, 0, 0) {
        Some(nul) => nul,
        None => field.len(),
    };
    let text = vstd::slice::slice_subrange(field, 0, end);
    assert(text@ == until_nul(field@));
    trimmed(lossy_text(text).as_str())
}

/// The text in the field `from..to` of `data`, unless it is empty.
pub fn bytes_to_trimmed_string(data: &[u8], from: usize, to: usize) -> (r: Option<String>)
    requires
        from <= to <= data@.len(),
    ensures
        name_of(r) == nonempty_text(field_text(data@.subrange(from as int, to as int))),
{
    let text = read_field_text(data, from, to);
    if text.as_str().unicode_len() == 0 {
        None
    } else {
        Some(text)
    }
}

/// The name of the first entry of a TAR archive at `start`, with its path prefix
/// where it has one.
pub open spec fn tar_name(s: Seq<u8>, start: int) -> Option<Seq<char>> {
    if !within(s, start, 512) {
        None
    } else {
        let name = field_text(s.subrange(start, start + 100));
        let prefix = field_text(s.subrange(start + 345, start + 500));
        if name.len() == 0 {
            None
        } else if prefix.len() == 0 {
            Some(name)
        } else {
            Some(prefix + "/"@ + name)
        }
    }
}

/// TAR: the name field, and the prefix field of long paths.
pub fn extract_tar_name(data: &[u8], start: usize) -> (r: Option<String>)
    ensures
        name_of(r) == tar_name(data@, start as int),
{
    if !fits(data, start, 512) {
        return None;
    }
    let name = bytes_to_trimmed_string(data, start, start + 100)?;
    match bytes_to_trimmed_string(data, start + 345, start + 500) {
        Some(prefix) => {
            let mut path = prefix;
            path.append("/");
            path.append(name.as_str());
            Some(path)
        },
        None => Some(name),
    }
}

/// The name of the first entry of a "newc" CPIO archive at `start`.
pub open spec fn newc_name(s: Seq<u8>, start: int) -> Option<Seq<char>> {
    if !within(s, start, 110) {
        None
    } else {
        match field_number(s.subrange(start + 94, start + 102), 16) {
            Some(n) if within(s, start + 110, n) => nonempty_text(
                field_text(s.subrange(start + 110, start + 110 + n)),
            ),
            _ => None,
        }
    }
}

/// CPIO "newc" and "crc": the name follows the header.
pub fn extract_cpio_newc_name(data: &[u8], start: usize) -> (r: Option<String>)
    ensures
        name_of(r) == newc_name(data@, start as int),
{
    if !fits(data, start, 110) {
        return None;
    }
    let n = parse_field(data, start + 94, start + 102, 16)?;
    let end = match advance(data, start + 110, n) {
        Some(end) => end,
        None => {
            return None;
        },
    };
    bytes_to_trimmed_string(data, start + 110, end)
}

/// The name of the first entry of an "odc" CPIO archive at `start`.
pub open spec fn odc_name(s: Seq<u8>, start: int) -> Option<Seq<char>> {
    if !within(s, start, 76) {
        None
    } else {
        match padded_field_number(s.subrange(start + 59, start + 65), 8) {
            Some(n) if within(s, start + 76, n) => nonempty_text(
                field_text(s.subrange(start + 76, start + 76 + n)),
            ),
            _ => None,
        }
    }
}

/// CPIO "odc": the name follows the header.
pub fn extract_cpio_odc_name(data: &[u8], start: usize) -> (r: Option<String>)
    ensures
        name_of(r) == odc_name(data@, start as int),
{
    if !fits(data, start, 76) {
        return None;
    }
    let n = parse_padded_field(data, start + 59, start + 65, 8)?;
    let end = match advance(data, start + 76, n) {
        Some(end) => end,
        None => {
            return None;
        },
    };
    bytes_to_trimmed_string(data, start + 76, end)
}

/// The name of the first member of an `ar` archive at `start`.
pub open spec fn ar_name(s: Seq<u8>, start: int) -> Option<Seq<char>> {
    if within(s, start + 8, 16) {
        nonempty_text(field_text(s.subrange(start + 8, start + 24)))
    } else {
        None
    }
}

/// Unix `ar`: the name field of the first member header. The symbol table and
/// the table of long names keep their special names.
pub fn extract_ar_name(data: &[u8], start: usize) -> (r: Option<String>)
    ensures
        name_of(r) == ar_name(data@, start as int),
{
    if !fits(data, start, 24) {
        return None;
    }
    bytes_to_trimmed_string(data, start + 8, start + 24)
}

/// The name of the first lump in the directory of a WAD file at `start`.
pub open spec fn wad_name(s: Seq<u8>, start: int) -> Option<Seq<char>> {
    let entry = start + le32(s, start + 8);
    if within(s, start, 12) && within(s, entry, 16) {
        nonempty_text(field_text(s.subrange(entry + 8, entry + 16)))
    } else {
        None
    }
}

/// WAD: the first lump of the directory, wherever its data lie.
pub fn extract_wad_name(data: &[u8], start: usize) -> (r: Option<String>)
    ensures
        name_of(r) == wad_name(data@, start as int),
{
    if !fits(data, start, 12) {
        return None;
    }
    let entry = match advance(data, start, read_le32(data, start + 8) as u64) {
        Some(entry) => entry,
        None => {
            return None;
        },
    };
    if !fits(data, entry, 16) {
        return None;
    }
    bytes_to_trimmed_string(data, entry + 8, entry + 16)
}

/// The name of the first file in the directory of a Quake PAK file at `start`.
pub open spec fn pak_name(s: Seq<u8>, start: int) -> Option<Seq<char>> {
    let entry = start + le32(s, start + 4);
    if within(s, start, 8) && within(s, entry, 56) {
        nonempty_text(field_text(s.subrange(entry, entry + 56)))
    } else {
        None
    }
}

/// PAK: the first file of the directory.
pub fn extract_pak_name(data: &[u8], start: usize) -> (r: Option<String>)
    ensures
        name_of(r) == pak_name(data@, start as int),
{
    if !fits(data, start, 8) {
        return None;
    }
    let entry = match advance(data, start, read_le32(data, start + 4) as u64) {
        Some(entry) => entry,
        None => {
            return None;
        },
    };
    if !fits(data, entry, 56) {
        return None;
    }
    bytes_to_trimmed_string(data, entry, entry + 56)
}

} // verus!
