//! The files inside archives.
use vstd::prelude::*;
use vstd::string::*;
use vstd::utf8::{decode_utf8, valid_utf8};
use crate::archives::{
    ar_member_end, ar_size, find_next_pk_marker, is_iso_image, is_trailer_name, is_ustar,
    newc_entry_end, newc_sizes, next_pk, odc_sizes, read_ar_size, read_newc_sizes, read_odc_sizes,
    starts_with_trailer, tar_padded, tar_size, zeros, all_zero, ar_end, AR_MAGIC, ISO_DESCRIPTOR,
    RAR_END_BLOCK, RAR_MARKER_LEN, TAR_BLOCK, ZIP_LOCAL, newc_end, odc_end, parse_octal,
    rar_block_end, has_iso_descriptor,
};
use crate::bytes::{
    advance, be32, be64, fits, le16, le32, read_be32, read_be64, read_le16, read_le32, within,
};
use crate::entries::{
    entries_of, joined, listing, no_entries, nonempty, prepend, push_entry, some_entries,
    ArchiveEntry,
};
use crate::names::{field_text, name_of, read_field_text};
use crate::search::{find_byte, first_byte};
use crate::text::{
    before_first, before_last, lossy, lossy_text, same_text, text_before_first, text_before_last,
    utf8_text,
};

verus! {

broadcast use {crate::slices::slice_len_bound, crate::entries::group_joined};

/// The ZIP local entries from `pos` on: names and uncompressed sizes.
pub open spec fn zip_entries(s: Seq<u8>, pos: int) -> Option<Seq<(Seq<char>, int)>>
    decreases s.len() - pos,
{
    if !within(s, pos, 4) {
        None
    } else if be32(s, pos) != ZIP_LOCAL {
        Some(Seq::empty())
    } else if !within(s, pos, 30) || !within(s, pos + 30, le16(s, pos + 26)) {
        None
    } else {
        let name_end = pos + 30 + le16(s, pos + 26);
        let header_end = name_end + le16(s, pos + 28);
        let entry = (lossy(s.subrange(pos + 30, name_end)), le32(s, pos + 22));
        if (le16(s, pos + 6) / 8) % 2 == 1 {
            match next_pk(s, header_end) {
                Some(next) if pos < next <= s.len() => prepend(entry, zip_entries(s, next)),
                _ => None,
            }
        } else {
            let next = header_end + le32(s, pos + 18);
            if next > s.len() {
                Some(seq![entry])
            } else {
                prepend(entry, zip_entries(s, next))
            }
        }
    }
}

/// ZIP: the files that the local entries name.
pub fn list_zip_entries(data: &[u8]) -> (r: Option<Vec<ArchiveEntry>>)
    ensures
        listing(r) == nonempty(zip_entries(data@, 0)),
{
    let mut pos: usize = 0;
    let mut entries = no_entries();
    loop
        invariant_except_break
            zip_entries(data@, 0) == joined(entries_of(entries@), zip_entries(data@, pos as int)),
        ensures
            zip_entries(data@, 0) == Some(entries_of(entries@)),
        decreases data@.len() - pos,
    {
        if !fits(data, pos, 4) {
            return None;
        }
        if read_be32(data, pos) != ZIP_LOCAL {
            break;
        }
        if !fits(data, pos, 30) {
            return None;
        }
        let flags = read_le16(data, pos + 6);
        let compressed_size = read_le32(data, pos + 18);
        let uncompressed_size = read_le32(data, pos + 22);
        let name_len = read_le16(data, pos + 26) as usize;
        let extra_len = read_le16(data, pos + 28) as u64;
        if !fits(data, pos + 30, name_len) {
            return None;
        }
        let name_end = pos + 30 + name_len;
        let name = lossy_text(vstd::slice::slice_subrange(data, pos + 30, name_end));
        push_entry(&mut entries, name, uncompressed_size as u64);
        pos = if (flags / 8) % 2 == 1 {
            let header_end = match advance(data, name_end, extra_len) {
                Some(header_end) => header_end,
                None => {
                    return None;
                },
            };
            match find_next_pk_marker(data, header_end) {
                Some(next) => next,
                None => {
                    return None;
                },
            }
        } else {
            match advance(data, name_end, extra_len + compressed_size as u64) {
                Some(next) => next,
                None => break,
            }
        };
    }
    some_entries(entries)
}

/// The TAR entries from `pos` on: names and sizes. They end at a zero block or
/// at the first block that is no sound header.
pub open spec fn tar_entries(s: Seq<u8>, pos: int) -> Seq<(Seq<char>, int)>
    decreases s.len() - pos,
{
    if !within(s, pos, 512) || zeros(s, pos, 512) || !is_ustar(s, pos) {
        Seq::empty()
    } else {
        match tar_size(s, pos) {
            Some(size) => {
                let entry = (field_text(s.subrange(pos, pos + 100)), size);
                let next = pos + 512 + tar_padded(size);
                if pos < next <= s.len() {
                    seq![entry] + tar_entries(s, next)
                } else {
                    seq![entry]
                }
            },
            None => Seq::empty(),
        }
    }
}

/// TAR: the files that the headers name.
pub fn list_tar_entries(data: &[u8]) -> (r: Option<Vec<ArchiveEntry>>)
    ensures
        listing(r) == nonempty(Some(tar_entries(data@, 0))),
{
    let mut pos: usize = 0;
    let mut entries = no_entries();
    while fits(data, pos, TAR_BLOCK)
        invariant_except_break
            Some(tar_entries(data@, 0)) == joined(
                entries_of(entries@),
                Some(tar_entries(data@, pos as int)),
            ),
        ensures
            tar_entries(data@, 0) == entries_of(entries@),
        decreases data@.len() - pos,
    {
        if all_zero(data, pos, TAR_BLOCK) || read_be32(data, pos + 257) != 0x7573_7461 || data[pos
            + 261] != 0x72 || data[pos + 124] >= 0x80 {
            break;
        }
        let size = match parse_octal(data, pos + 124, pos + 136) {
            Some(size) => size,
            None => break,
        };
        let name = read_field_text(data, pos, pos + 100);
        let ghost before = entries_of(entries@);
        let ghost entry = (name@, size as int);
        push_entry(&mut entries, name, size);
        let next = pos as u128 + 512 + (size as u128 + 511) / 512 * 512;
        proof {
            if next <= data@.len() {
                let rest = tar_entries(data@, next as int);
                assert(prepend(entry, Some(rest)) == Some(tar_entries(data@, pos as int)));
                assert(joined(before.push(entry), Some(rest)) == joined(
                    before,
                    Some(tar_entries(data@, pos as int)),
                ));
            } else {
                assert(before + seq![entry] == before.push(entry));
            }
        }
        if next > data.len() as u128 {
            break;
        }
        pos = next as usize;
    }
    some_entries(entries)
}

/// The "newc" CPIO entries from `pos` on, up to the trailer: names and sizes. A
/// last entry that lies beyond the data is left out.
pub open spec fn newc_entries(s: Seq<u8>, pos: int) -> Option<Seq<(Seq<char>, int)>>
    decreases s.len() - pos,
{
    if !within(s, pos, 110) {
        None
    } else {
        match newc_sizes(s, pos) {
            Some(sizes) => {
                let end = newc_entry_end(0, pos, sizes);
                if !within(s, pos + 110, sizes.0) {
                    None
                } else if is_trailer_name(s, pos + 110, sizes.0) || end > s.len() || end <= pos {
                    Some(Seq::empty())
                } else {
                    let name = s.subrange(pos + 110, pos + 110 + sizes.0);
                    prepend((field_text(name), sizes.1), newc_entries(s, end))
                }
            },
            None => None,
        }
    }
}

/// CPIO "newc" and "crc": the files up to the trailer.
pub fn list_cpio_newc_entries(data: &[u8]) -> (r: Option<Vec<ArchiveEntry>>)
    ensures
        listing(r) == nonempty(newc_entries(data@, 0)),
{
    let mut pos: usize = 0;
    let mut entries = no_entries();
    loop
        invariant_except_break
            newc_entries(data@, 0) == joined(entries_of(entries@), newc_entries(data@, pos as int)),
        ensures
            newc_entries(data@, 0) == Some(entries_of(entries@)),
        decreases data@.len() - pos,
    {
        if !fits(data, pos, 110) {
            return None;
        }
        let (name_len, size) = match read_newc_sizes(data, pos) {
            Some(sizes) => sizes,
            None => {
                return None;
            },
        };
        let name_end = match advance(data, pos + 110, name_len) {
            Some(name_end) => name_end,
            None => {
                return None;
            },
        };
        if starts_with_trailer(data, pos + 110, name_len as usize) {
            break;
        }
        let end = match newc_end(data, 0, pos, name_len, size) {
            Some(end) => end,
            None => break,
        };
        let name = read_field_text(data, pos + 110, name_end);
        push_entry(&mut entries, name, size);
        pos = end;
    }
    some_entries(entries)
}

/// The "odc" CPIO entries from `pos` on, up to the trailer: names and sizes. A
/// last entry that lies beyond the data is left out.
pub open spec fn odc_entries(s: Seq<u8>, pos: int) -> Option<Seq<(Seq<char>, int)>>
    decreases s.len() - pos,
{
    if !within(s, pos, 76) {
        None
    } else {
        match odc_sizes(s, pos) {
            Some(sizes) => {
                let end = pos + 76 + sizes.0 + sizes.1;
                if !within(s, pos + 76, sizes.0) {
                    None
                } else if is_trailer_name(s, pos + 76, sizes.0) || end > s.len() || end <= pos {
                    Some(Seq::empty())
                } else {
                    let name = s.subrange(pos + 76, pos + 76 + sizes.0);
                    prepend((field_text(name), sizes.1), odc_entries(s, end))
                }
            },
            None => None,
        }
    }
}

/// CPIO "odc": the files up to the trailer.
pub fn list_cpio_odc_entries(data: &[u8]) -> (r: Option<Vec<ArchiveEntry>>)
    ensures
        listing(r) == nonempty(odc_entries(data@, 0)),
{
    let mut pos: usize = 0;
    let mut entries = no_entries();
    loop
        invariant_except_break
            odc_entries(data@, 0) == joined(entries_of(entries@), odc_entries(data@, pos as int)),
        ensures
            odc_entries(data@, 0) == Some(entries_of(entries@)),
        decreases data@.len() - pos,
    {
        if !fits(data, pos, 76) {
            return None;
        }
        let (name_len, size) = match read_odc_sizes(data, pos) {
            Some(sizes) => sizes,
            None => {
                return None;
            },
        };
        let name_end = match advance(data, pos + 76, name_len) {
            Some(name_end) => name_end,
            None => {
                return None;
            },
        };
        if starts_with_trailer(data, pos + 76, name_len as usize) {
            break;
        }
        let end = match odc_end(data, pos, name_len, size) {
            Some(end) => end,
            None => break,
        };
        let name = read_field_text(data, pos + 76, name_end);
        push_entry(&mut entries, name, size);
        pos = end;
    }
    some_entries(entries)
}

/// The members of an `ar` archive from `pos` on: names and sizes. They end at
/// the first header that is not sound.
pub open spec fn ar_entries(s: Seq<u8>, pos: int) -> Option<Seq<(Seq<char>, int)>>
    decreases s.len() - pos,
{
    match ar_size(s, pos) {
        Some(size) => prepend(
            (field_text(s.subrange(pos, pos + 16)), size),
            match ar_member_end(s, pos) {
                Some(next) if next > pos => ar_entries(s, next),
                _ => Some(Seq::empty()),
            },
        ),
        None => Some(Seq::empty()),
    }
}

/// The members of an `ar` archive.
pub open spec fn ar_listing(s: Seq<u8>) -> Option<Seq<(Seq<char>, int)>> {
    if within(s, 0, 8) && be64(s, 0) == AR_MAGIC {
        nonempty(ar_entries(s, 8))
    } else {
        None
    }
}

/// Unix `ar`: the members. Names that refer to the table of long names are kept
/// as they are.
pub fn list_ar_entries(data: &[u8]) -> (r: Option<Vec<ArchiveEntry>>)
    ensures
        listing(r) == ar_listing(data@),
{
    if !fits(data, 0, 8) || read_be64(data, 0) != AR_MAGIC {
        return None;
    }
    let mut pos: usize = 8;
    let mut entries = no_entries();
    loop
        invariant_except_break
            ar_entries(data@, 8) == joined(entries_of(entries@), ar_entries(data@, pos as int)),
        ensures
            ar_entries(data@, 8) == Some(entries_of(entries@)),
        decreases data@.len() - pos,
    {
        let size = match read_ar_size(data, pos) {
            Some(size) => size,
            None => break,
        };
        let name = read_field_text(data, pos, pos + 16);
        push_entry(&mut entries, name, size);
        pos = match ar_end(data, pos) {
            Some(next) => next,
            None => break,
        };
    }
    some_entries(entries)
}

/// The first `n` lumps in the WAD directory at `base`: names and sizes.
pub open spec fn wad_entries(s: Seq<u8>, base: int, n: nat) -> Seq<(Seq<char>, int)> {
    Seq::new(
        n,
        |i: int|
            (field_text(s.subrange(base + 16 * i + 8, base + 16 * i + 16)), le32(s, base + 16 * i + 4)),
    )
}

/// The lumps of a WAD file.
pub open spec fn wad_listing(s: Seq<u8>) -> Option<Seq<(Seq<char>, int)>> {
    if within(s, 0, 12) && within(s, le32(s, 8), 16 * le32(s, 4)) {
        nonempty(Some(wad_entries(s, le32(s, 8), le32(s, 4) as nat)))
    } else {
        None
    }
}

/// WAD: the lumps in the directory.
pub fn list_wad_entries(data: &[u8]) -> (r: Option<Vec<ArchiveEntry>>)
    ensures
        listing(r) == wad_listing(data@),
{
    if !fits(data, 0, 12) {
        return None;
    }
    let count = read_le32(data, 4) as u64;
    let base = match advance(data, 0, read_le32(data, 8) as u64) {
        Some(base) => base,
        None => {
            return None;
        },
    };
    if advance(data, base, 16 * count).is_none() {
        return None;
    }
    let n = count as usize;
    let mut entries = no_entries();
    let mut i: usize = 0;
    while i < n
        invariant
            i <= n,
            base + 16 * n <= data@.len(),
            entries_of(entries@) =~= wad_entries(data@, base as int, i as nat),
        decreases n - i,
    {
        let at = base + 16 * i;
        let name = read_field_text(data, at + 8, at + 16);
        push_entry(&mut entries, name, read_le32(data, at + 4) as u64);
        i = i + 1;
    }
    some_entries(entries)
}

/// The first `n` files in the PAK directory at `base`: names and sizes.
pub open spec fn pak_entries(s: Seq<u8>, base: int, n: nat) -> Seq<(Seq<char>, int)> {
    Seq::new(
        n,
        |i: int|
            (field_text(s.subrange(base + 64 * i, base + 64 * i + 56)), le32(s, base + 64 * i + 60)),
    )
}

/// The files of a Quake PAK file.
pub open spec fn pak_listing(s: Seq<u8>) -> Option<Seq<(Seq<char>, int)>> {
    if within(s, 0, 12) && within(s, le32(s, 4), le32(s, 8)) {
        nonempty(Some(pak_entries(s, le32(s, 4), (le32(s, 8) / 64) as nat)))
    } else {
        None
    }
}

/// PAK: the files in the directory.
pub fn list_pak_entries(data: &[u8]) -> (r: Option<Vec<ArchiveEntry>>)
    ensures
        listing(r) == pak_listing(data@),
{
    if !fits(data, 0, 12) {
        return None;
    }
    let len = read_le32(data, 8) as u64;
    let base = match advance(data, 0, read_le32(data, 4) as u64) {
        Some(base) => base,
        None => {
            return None;
        },
    };
    if advance(data, base, len).is_none() {
        return None;
    }
    let n = (len / 64) as usize;
    let mut entries = no_entries();
    let mut i: usize = 0;
    while i < n
        invariant
            i <= n,
            base + 64 * n <= data@.len(),
            entries_of(entries@) =~= pak_entries(data@, base as int, i as nat),
        decreases n - i,
    {
        let at = base + 64 * i;
        let name = read_field_text(data, at, at + 56);
        push_entry(&mut entries, name, read_le32(data, at + 60) as u64);
        i = i + 1;
    }
    some_entries(entries)
}

/// The name of an ISO 9660 directory record, without the file version.
pub open spec fn iso_name(id: Seq<u8>) -> Seq<char> {
    before_last(lossy(id), ';')
}

/// The record stands for the directory itself or for its parent.
pub open spec fn is_iso_dot(id: Seq<u8>) -> bool {
    id.len() == 1 && id[0] <= 1
}

/// The records from `pos` on of the ISO 9660 directory `d`: names and sizes. A
/// zero byte leads to the next sector.
pub open spec fn iso_entries(d: Seq<u8>, pos: int) -> Option<Seq<(Seq<char>, int)>>
    decreases d.len() - pos,
{
    if pos < 0 || pos >= d.len() {
        Some(Seq::empty())
    } else if d[pos] == 0 {
        let next = (pos / 2048 + 1) * 2048;
        if next >= d.len() {
            Some(Seq::empty())
        } else {
            iso_entries(d, next)
        }
    } else {
        let len = d[pos] as int;
        if !within(d, pos, len) || len < 33 || 33 + d[pos + 32] > len {
            None
        } else {
            let id = d.subrange(pos + 33, pos + 33 + d[pos + 32]);
            let rest = iso_entries(d, pos + len);
            if is_iso_dot(id) {
                rest
            } else {
                prepend((iso_name(id), le32(d, pos + 10)), rest)
            }
        }
    }
}

/// The top level of an ISO 9660 image.
pub open spec fn iso_listing(s: Seq<u8>) -> Option<Seq<(Seq<char>, int)>> {
    let root = ISO_DESCRIPTOR + 156;
    let start = 2048 * le32(s, root + 2);
    let len = le32(s, root + 10);
    if is_iso_image(s, 0) && within(s, start, len) {
        nonempty(iso_entries(s.subrange(start, start + len), 0))
    } else {
        None
    }
}

fn list_iso_directory(dir: &[u8]) -> (r: Option<Vec<ArchiveEntry>>)
    ensures
        listing(r) == nonempty(iso_entries(dir@, 0)),
{
    let mut pos: usize = 0;
    let mut entries = no_entries();
    while pos < dir.len()
        invariant
            iso_entries(dir@, 0) == joined(entries_of(entries@), iso_entries(dir@, pos as int)),
        decreases dir@.len() - pos,
    {
        let len = dir[pos] as usize;
        if len == 0 {
            let next = (pos as u128 / 2048 + 1) * 2048;
            pos = if next >= dir.len() as u128 {
                dir.len()
            } else {
                next as usize
            };
            continue;
        }
        if !fits(dir, pos, len) || len < 33 {
            return None;
        }
        let id_len = dir[pos + 32] as usize;
        if 33 + id_len > len {
            return None;
        }
        let id = vstd::slice::slice_subrange(dir, pos + 33, pos + 33 + id_len);
        if !(id.len() == 1 && id[0] <= 1) {
            let name = text_before_last(lossy_text(id), ';');
            push_entry(&mut entries, name, read_le32(dir, pos + 10) as u64);
        }
        pos = pos + len;
    }
    some_entries(entries)
}

/// ISO 9660: the root directory.
pub fn list_iso9660_entries(data: &[u8]) -> (r: Option<Vec<ArchiveEntry>>)
    ensures
        listing(r) == iso_listing(data@),
{
    if !has_iso_descriptor(data, 0) {
        return None;
    }
    let root = ISO_DESCRIPTOR + 156;
    let start = match advance(data, 0, 2048 * read_le32(data, root + 2) as u64) {
        Some(start) => start,
        None => {
            return None;
        },
    };
    let end = match advance(data, start, read_le32(data, root + 10) as u64) {
        Some(end) => end,
        None => {
            return None;
        },
    };
    list_iso_directory(vstd::slice::slice_subrange(data, start, end))
}

/// The NUL-terminated UTF-8 text at `pos` and the offset behind it.
pub open spec fn cstr(s: Seq<u8>, pos: int) -> Option<(Seq<char>, int)> {
    match first_byte(s, pos, 0) {
        Some(nul) => if valid_utf8(s.subrange(pos, nul)) {
            Some((decode_utf8(s.subrange(pos, nul)), nul + 1))
        } else {
            None
        },
        None => None,
    }
}

/// The full name of a file in a VPK tree. A single space stands for the root.
pub open spec fn vpk_name(path: Seq<char>, name: Seq<char>, extension: Seq<char>) -> Seq<char> {
    if path == " "@ {
        name + "."@ + extension
    } else {
        path + "/"@ + name + "."@ + extension
    }
}

/// The files in the VPK directory tree `t` from `pos` on: names and sizes. The
/// tree is a list of extensions; under each stands a list of paths, under each
/// of these a list of names with an 18-byte record each. An empty text ends a
/// list. `extension` and `path` are those of the lists that `pos` is in.
pub open spec fn vpk_entries(
    t: Seq<u8>,
    pos: int,
    extension: Option<Seq<char>>,
    path: Option<Seq<char>>,
) -> Option<Seq<(Seq<char>, int)>>
    decreases t.len() - pos,
{
    match cstr(t, pos) {
        Some((text, next)) if pos < next <= t.len() => match (extension, path) {
            (None, _) => if text.len() == 0 {
                Some(Seq::empty())
            } else {
                vpk_entries(t, next, Some(text), None)
            },
            (Some(_), None) => if text.len() == 0 {
                vpk_entries(t, next, None, None)
            } else {
                vpk_entries(t, next, extension, Some(text))
            },
            (Some(ext), Some(dir)) => if text.len() == 0 {
                vpk_entries(t, next, extension, None)
            } else if !within(t, next, 18) {
                None
            } else {
                prepend(
                    (vpk_name(dir, text, ext), le32(t, next + 12) + le16(t, next + 4)),
                    vpk_entries(t, next + 18, extension, path),
                )
            },
        },
        _ => None,
    }
}

/// The files of a VPK file of version 1 or 2.
pub open spec fn vpk_listing(s: Seq<u8>) -> Option<Seq<(Seq<char>, int)>> {
    let version = le32(s, 4);
    let start: int = if version == 1 {
        12
    } else {
        28
    };
    if within(s, 0, 12) && (version == 1 || version == 2) && within(s, start, le32(s, 8)) {
        nonempty(vpk_entries(s.subrange(start, start + le32(s, 8)), 0, None, None))
    } else {
        None
    }
}

fn read_cstr(data: &[u8], pos: usize) -> (r: Option<(String, usize)>)
    ensures
        r is Some <==> cstr(data@, pos as int) is Some,
        r matches Some((text, next)) ==> cstr(data@, pos as int) == Some((text@, next as int)) && pos
            < next <= data@.len(),
{
    let nul = find_byte(data, pos, 0)?;
    let text = utf8_text(vstd::slice::slice_subrange(data, pos, nul))?;
    Some((text.to_owned(), nul + 1))
}

fn vpk_full_name(path: &String, name: String, extension: &String) -> (r: String)
    ensures
        r@ == vpk_name(path@, name@, extension@),
{
    let mut out = if same_text(path.as_str(), " ") {
        name
    } else {
        let mut out = path.clone();
        out.append("/");
        out.append(name.as_str());
        out
    };
    out.append(".");
    out.append(extension.as_str());
    out
}

fn list_vpk_tree(tree: &[u8]) -> (r: Option<Vec<ArchiveEntry>>)
    ensures
        listing(r) == nonempty(vpk_entries(tree@, 0, None, None)),
{
    let mut pos: usize = 0;
    let mut extension: Option<String> = None;
    let mut path: Option<String> = None;
    let mut entries = no_entries();
    loop
        invariant_except_break
            vpk_entries(tree@, 0, None, None) == joined(
                entries_of(entries@),
                vpk_entries(tree@, pos as int, name_of(extension), name_of(path)),
            ),
        ensures
            vpk_entries(tree@, 0, None, None) == Some(entries_of(entries@)),
        decreases tree@.len() - pos,
    {
        let (text, next) = match read_cstr(tree, pos) {
            Some(read) => read,
            None => {
                return None;
            },
        };
        let is_empty = text.as_str().unicode_len() == 0;
        match (&extension, &path) {
            (None, _) => {
                if is_empty {
                    break;
                }
                extension = Some(text);
                path = None;
                pos = next;
            },
            (Some(_), None) => {
                if is_empty {
                    extension = None;
                } else {
                    path = Some(text);
                }
                pos = next;
            },
            (Some(ext), Some(dir)) => {
                if is_empty {
                    path = None;
                    pos = next;
                } else {
                    if !fits(tree, next, 18) {
                        return None;
                    }
                    let size = read_le32(tree, next + 12) as u64 + read_le16(tree, next + 4) as u64;
                    push_entry(&mut entries, vpk_full_name(dir, text, ext), size);
                    pos = next + 18;
                }
            },
        }
    }
    some_entries(entries)
}

/// VPK: the files in the directory tree.
pub fn list_vpk_entries(data: &[u8]) -> (r: Option<Vec<ArchiveEntry>>)
    ensures
        listing(r) == vpk_listing(data@),
{
    if !fits(data, 0, 12) {
        return None;
    }
    let version = read_le32(data, 4);
    let start: u64 = match version {
        1 => 12,
        2 => 28,
        _ => {
            return None;
        },
    };
    let start = match advance(data, 0, start) {
        Some(start) => start,
        None => {
            return None;
        },
    };
    let end = match advance(data, start, read_le32(data, 8) as u64) {
        Some(end) => end,
        None => {
            return None;
        },
    };
    list_vpk_tree(vstd::slice::slice_subrange(data, start, end))
}

/// The type of a RAR block that describes a file.
pub const RAR_FILE_BLOCK: u8 = 0x74;

/// The RAR block at `pos` describes a file, and its header lies inside `s`.
pub open spec fn is_rar_file(s: Seq<u8>, pos: int) -> bool {
    s[pos + 2] == RAR_FILE_BLOCK && within(s, pos, le16(s, pos + 5))
}

/// The entry that the RAR file block at `pos` gives: its name stands behind the
/// fixed fields, two more of them for large files; up to a NUL it is plain. A
/// name that does not fit in the header gives none.
pub open spec fn rar_file_entry(s: Seq<u8>, pos: int) -> Option<(Seq<char>, int)> {
    let from = pos + 7 + if (le16(s, pos + 3) / 0x100) % 2 == 1 {
        33int
    } else {
        25int
    };
    let to = from + le16(s, pos + 26);
    if to <= pos + le16(s, pos + 5) {
        Some((before_first(lossy(s.subrange(from, to)), '\0'), le32(s, pos + 11)))
    } else {
        None
    }
}

/// The files that the RAR blocks from `pos` on describe, up to the end block:
/// names and uncompressed sizes. The list ends at the first block that is not
/// sound; a file block too short for its fixed fields spoils all of it.
pub open spec fn rar_entries(s: Seq<u8>, pos: int) -> Option<Seq<(Seq<char>, int)>>
    decreases s.len() - pos,
{
    if !within(s, pos, 7) || le16(s, pos + 5) < 7 || (le16(s, pos + 3) >= 0x8000 && !within(s, pos, 11)) {
        Some(Seq::empty())
    } else if is_rar_file(s, pos) && le16(s, pos + 5) < 28 {
        None
    } else {
        let rest = match rar_block_end(s, pos) {
            Some(next) if s[pos + 2] != RAR_END_BLOCK && next > pos => rar_entries(s, next),
            _ => Some(Seq::empty()),
        };
        if is_rar_file(s, pos) {
            match rar_file_entry(s, pos) {
                Some(entry) => prepend(entry, rest),
                None => rest,
            }
        } else {
            rest
        }
    }
}

/// RAR (1.5 to 4.x): the files that the file blocks describe.
pub fn list_rar_entries(data: &[u8]) -> (r: Option<Vec<ArchiveEntry>>)
    ensures
        listing(r) == nonempty(rar_entries(data@, RAR_MARKER_LEN as int)),
{
    let mut pos: usize = RAR_MARKER_LEN;
    let mut entries = no_entries();
    while fits(data, pos, 7)
        invariant_except_break
            rar_entries(data@, RAR_MARKER_LEN as int) == joined(
                entries_of(entries@),
                rar_entries(data@, pos as int),
            ),
        ensures
            rar_entries(data@, RAR_MARKER_LEN as int) == Some(entries_of(entries@)),
        decreases data@.len() - pos,
    {
        let head_type = data[pos + 2];
        let head_flags = read_le16(data, pos + 3);
        let head_size = read_le16(data, pos + 5) as usize;
        if head_size < 7 {
            break;
        }
        let add_size: u32 = if head_flags >= 0x8000 {
            if !fits(data, pos, 11) {
                break;
            }
            read_le32(data, pos + 7)
        } else {
            0
        };
        let ghost before = entries_of(entries@);
        if head_type == RAR_FILE_BLOCK && fits(data, pos, head_size) {
            if head_size < 28 {
                return None;
            }
            let size = read_le32(data, pos + 11);
            let name_size = read_le16(data, pos + 26) as usize;
            let offset: usize = if (head_flags / 0x100) % 2 == 1 {
                40
            } else {
                32
            };
            if offset + name_size <= head_size {
                let name = lossy_text(
                    vstd::slice::slice_subrange(data, pos + offset, pos + offset + name_size),
                );
                push_entry(&mut entries, text_before_first(name.as_str(), '\0'), size as u64);
            }
        }
        pos = match advance(data, pos, head_size as u64 + add_size as u64) {
            Some(next) => next,
            None => break,
        };
        if head_type == RAR_END_BLOCK {
            break;
        }
    }
    some_entries(entries)
}

} // verus!
