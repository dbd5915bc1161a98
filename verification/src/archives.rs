//! Boundaries of archives and compressed streams.
use vstd::prelude::*;
use crate::bytes::{
    advance, be32, be64, extent, fits, flag, le16, le24, le32, le64, read_be32, read_be64,
    read_le16, read_le24, read_le32, read_le64, sized, sized_extent, walked, walked_extent, within,
};
use crate::inflate::{deflate_stream_len, stream_len};
use crate::numbers::{field_number, padded_field_number, parse_field, parse_padded_field};
use crate::search::{find_byte, find_bytes, first_byte, first_occurrence};

verus! {

broadcast use crate::slices::slice_len_bound;

/// `PK\x03\x04`
pub const ZIP_LOCAL: u32 = 0x504B_0304;

/// `PK\x01\x02`
pub const ZIP_CENTRAL: u32 = 0x504B_0102;

/// `PK\x05\x06`
pub const ZIP_END: u32 = 0x504B_0506;

/// The next offset from `from` on where `PK` stands.
pub open spec fn next_pk(s: Seq<u8>, from: int) -> Option<int> {
    first_occurrence(s, from, seq![0x50u8, 0x4Bu8])
}

/// Where the ZIP local entry at `pos` ends: behind its data, or, if its size is
/// only known behind the data, at the next `PK`.
pub open spec fn zip_local_end(s: Seq<u8>, pos: int) -> Option<int> {
    let header_end = pos + 30 + le16(s, pos + 26) + le16(s, pos + 28);
    if (le16(s, pos + 6) / 8) % 2 == 1 {
        next_pk(s, header_end)
    } else {
        let end = header_end + le32(s, pos + 18);
        if end <= s.len() {
            Some(end)
        } else {
            None
        }
    }
}

/// The offset behind the run of ZIP local entries at `pos`.
pub open spec fn zip_locals_end(s: Seq<u8>, pos: int) -> Option<int>
    decreases s.len() - pos,
{
    if !within(s, pos, 4) {
        None
    } else if be32(s, pos) != ZIP_LOCAL {
        Some(pos)
    } else if !within(s, pos, 30) {
        None
    } else {
        match zip_local_end(s, pos) {
            Some(next) => if pos < next <= s.len() {
                zip_locals_end(s, next)
            } else {
                None
            },
            None => None,
        }
    }
}

/// The offset behind the run of ZIP central directory headers at `pos`.
pub open spec fn zip_central_end(s: Seq<u8>, pos: int) -> Option<int>
    decreases s.len() - pos,
{
    if !within(s, pos, 4) {
        None
    } else if be32(s, pos) != ZIP_CENTRAL {
        Some(pos)
    } else if !within(s, pos, 34) {
        None
    } else {
        let next = pos + 46 + le16(s, pos + 28) + le16(s, pos + 30) + le16(s, pos + 32);
        if next <= s.len() {
            zip_central_end(s, next)
        } else {
            None
        }
    }
}

/// A ZIP archive at `start`: local entries, central directory headers, then the
/// end record with its comment.
pub open spec fn zip_extent(s: Seq<u8>, start: int) -> Option<(int, int)> {
    match zip_locals_end(s, start) {
        Some(central) => match zip_central_end(s, central) {
            Some(pos) => if within(s, pos, 22) && be32(s, pos) == ZIP_END {
                sized(s.len() as int, pos, 22 + le16(s, pos + 20), 95)
            } else {
                None
            },
            None => None,
        },
        None => None,
    }
}

/// The next offset from `from` on where `PK` stands.
pub fn find_next_pk_marker(data: &[u8], from: usize) -> (r: Option<usize>)
    ensures
        r is Some <==> next_pk(data@, from as int) is Some,
        r matches Some(i) ==> next_pk(data@, from as int) == Some(i as int) && from <= i
            && i + 2 <= data@.len(),
{
    let needle: [u8; 2] = [0x50, 0x4B];
    assert(needle@ == seq![0x50u8, 0x4Bu8]);
    find_bytes(data, from, &needle)
}

/// The offset behind the local entries from `start` on.
fn skip_zip_locals(data: &[u8], start: usize) -> (r: Option<usize>)
    ensures
        r is Some <==> zip_locals_end(data@, start as int) is Some,
        r matches Some(pos) ==> zip_locals_end(data@, start as int) == Some(pos as int)
            && pos <= data@.len(),
{
    let mut pos = start;
    loop
        invariant
            zip_locals_end(data@, start as int) == zip_locals_end(data@, pos as int),
        decreases data@.len() - pos,
    {
        if !fits(data, pos, 4) {
            return None;
        }
        if read_be32(data, pos) != ZIP_LOCAL {
            return Some(pos);
        }
        if !fits(data, pos, 30) {
            return None;
        }
        let flags = read_le16(data, pos + 6);
        let compressed_size = read_le32(data, pos + 18);
        let name_len = read_le16(data, pos + 26);
        let extra_len = read_le16(data, pos + 28);
        let header_len = 30 + name_len as u64 + extra_len as u64;
        pos = if (flags / 8) % 2 == 1 {
            let header_end = match advance(data, pos, header_len) {
                Some(header_end) => header_end,
                None => {
                    return None;
                },
            };
            find_next_pk_marker(data, header_end)?
        } else {
            advance(data, pos, header_len + compressed_size as u64)?
        };
    }
}

/// The offset behind the central directory headers from `start` on.
fn skip_zip_central(data: &[u8], start: usize) -> (r: Option<usize>)
    ensures
        r is Some <==> zip_central_end(data@, start as int) is Some,
        r matches Some(pos) ==> zip_central_end(data@, start as int) == Some(pos as int)
            && pos <= data@.len(),
{
    let mut pos = start;
    loop
        invariant
            zip_central_end(data@, start as int) == zip_central_end(data@, pos as int),
        decreases data@.len() - pos,
    {
        if !fits(data, pos, 4) {
            return None;
        }
        if read_be32(data, pos) != ZIP_CENTRAL {
            return Some(pos);
        }
        if !fits(data, pos, 34) {
            return None;
        }
        let name_len = read_le16(data, pos + 28);
        let extra_len = read_le16(data, pos + 30);
        let comment_len = read_le16(data, pos + 32);
        pos = advance(data, pos, 46 + name_len as u64 + extra_len as u64 + comment_len as u64)?;
    }
}

/// ZIP: walks the local entries and the central directory by their declared
/// sizes, so that files inside the archive are stepped over, up to the end
/// record of this archive.
pub fn validate_zip(data: &[u8], start: usize) -> (r: Option<(usize, u8)>)
    ensures
        extent(r) == zip_extent(data@, start as int),
{
    let central = skip_zip_locals(data, start)?;
    let pos = skip_zip_central(data, central)?;
    if !fits(data, pos, 22) || read_be32(data, pos) != ZIP_END {
        return None;
    }
    let comment_len = read_le16(data, pos + 20);
    sized_extent(data, pos, 22 + comment_len as u64, 95)
}

/// The offset behind the NUL-terminated text at `pos`.
pub open spec fn cstring_end(s: Seq<u8>, pos: int) -> Option<int> {
    match first_byte(s, pos, 0) {
        Some(nul) => Some(nul + 1),
        None => None,
    }
}

/// Behind the optional extra field of a GZIP header.
pub open spec fn gzip_extra_end(s: Seq<u8>, flags: u8, pos: int) -> Option<int> {
    if !flag(flags, 4) {
        Some(pos)
    } else if within(s, pos, 2) {
        Some(pos + 2 + le16(s, pos))
    } else {
        None
    }
}

/// Behind the optional text field of a GZIP header that `present` announces.
pub open spec fn gzip_text_end(s: Seq<u8>, present: bool, pos: int) -> Option<int> {
    if present {
        cstring_end(s, pos)
    } else {
        Some(pos)
    }
}

/// Where the compressed data of a GZIP file at `start` begin: behind the fixed
/// header and the optional extra field, name, comment and header checksum.
pub open spec fn gzip_stream_start(s: Seq<u8>, start: int) -> Option<int> {
    if !within(s, start, 4) {
        None
    } else {
        let flags = s[start + 3];
        match gzip_extra_end(s, flags, start + 10) {
            None => None,
            Some(name) => match gzip_text_end(s, flag(flags, 8), name) {
                None => None,
                Some(comment) => match gzip_text_end(s, flag(flags, 16), comment) {
                    None => None,
                    Some(pos) => {
                        let stream = if flag(flags, 2) {
                            pos + 2
                        } else {
                            pos
                        };
                        if stream <= s.len() {
                            Some(stream)
                        } else {
                            None
                        }
                    },
                },
            },
        }
    }
}

/// The extent of a GZIP file whose compressed data of `compressed_len` bytes
/// begin at `stream`: 8 bytes of trailer follow them.
pub open spec fn gzip_trailer_extent(len: int, stream: int, compressed_len: int) -> Option<(int, int)> {
    sized(len, stream, compressed_len + 8, 95)
}

/// A GZIP file at `start`.
pub open spec fn gzip_extent(s: Seq<u8>, start: int) -> Option<(int, int)> {
    match gzip_stream_start(s, start) {
        Some(stream) => match stream_len(false, s.skip(stream)) {
            Some(n) => gzip_trailer_extent(s.len() as int, stream, n),
            None => None,
        },
        None => None,
    }
}

/// The offset behind the NUL-terminated text at `from`.
pub fn skip_cstring(data: &[u8], from: usize) -> (r: Option<usize>)
    ensures
        r is Some <==> cstring_end(data@, from as int) is Some,
        r matches Some(pos) ==> cstring_end(data@, from as int) == Some(pos as int) && from < pos
            <= data@.len(),
{
    let nul = find_byte(data, from, 0)?;
    Some(nul + 1)
}

/// Where the compressed data of the GZIP file at `start` begin.
pub fn skip_gzip_header(data: &[u8], start: usize) -> (r: Option<usize>)
    ensures
        r is Some <==> gzip_stream_start(data@, start as int) is Some,
        r matches Some(pos) ==> gzip_stream_start(data@, start as int) == Some(pos as int)
            && pos <= data@.len(),
{
    if !fits(data, start, 4) {
        return None;
    }
    let flags = data[start + 3];
    let mut pos = match advance(data, start, 10) {
        Some(pos) => pos,
        None => {
            return None;
        },
    };
    if (flags / 4) % 2 == 1 {
        if !fits(data, pos, 2) {
            return None;
        }
        pos = match advance(data, pos, 2 + read_le16(data, pos) as u64) {
            Some(pos) => pos,
            None => {
                return None;
            },
        };
    }
    if (flags / 8) % 2 == 1 {
        pos = skip_cstring(data, pos)?;
    }
    if (flags / 16) % 2 == 1 {
        pos = skip_cstring(data, pos)?;
    }
    if (flags / 2) % 2 == 1 {
        pos = advance(data, pos, 2)?;
    }
    Some(pos)
}

/// The extent of a GZIP file whose compressed data of `compressed_len` bytes
/// begin at `stream`.
pub fn gzip_end(data: &[u8], stream: usize, compressed_len: usize) -> (r: Option<(usize, u8)>)
    ensures
        extent(r) == gzip_trailer_extent(data@.len() as int, stream as int, compressed_len as int),
{
    let total = (compressed_len as u64).checked_add(8)?;
    sized_extent(data, stream, total, 95)
}

/// GZIP: steps over the header and its optional fields, decompresses the data
/// only to learn how many bytes they take, and asks for the 8-byte trailer.
pub fn validate_gzip(data: &[u8], start: usize) -> (r: Option<(usize, u8)>)
    ensures
        extent(r) == gzip_extent(data@, start as int),
{
    let stream = skip_gzip_header(data, start)?;
    let rest = vstd::slice::slice_subrange(data, stream, data.len());
    assert(rest@ == data@.skip(stream as int));
    let compressed_len = deflate_stream_len(rest)?;
    gzip_end(data, stream, compressed_len)
}

/// The size of a TAR header or data block.
pub const TAR_BLOCK: usize = 512;

/// `n` bytes from `pos` on are zero.
pub open spec fn zeros(s: Seq<u8>, pos: int, n: int) -> bool {
    within(s, pos, n) && forall|i: int| pos <= i < pos + n ==> s[i] == 0
}

/// The bytes of `s` from `from` on that come before the first NUL or space,
/// but none from `to` on.
pub open spec fn word_end(s: Seq<u8>, from: int, to: int) -> int
    decreases to - from,
{
    if from >= to || s[from] == 0 || s[from] == 0x20 {
        from
    } else {
        word_end(s, from + 1, to)
    }
}

/// The octal number in the field `from..to`, which ends at a NUL or a space;
/// an empty one counts as zero.
pub open spec fn octal_field(s: Seq<u8>, from: int, to: int) -> Option<int> {
    let text = s.subrange(from, word_end(s, from, to));
    if text.len() == 0 {
        Some(0)
    } else {
        field_number(text, 8)
    }
}

/// The size that the TAR header at `pos` declares. A binary size is not
/// understood.
pub open spec fn tar_size(s: Seq<u8>, pos: int) -> Option<int> {
    if s[pos + 124] >= 0x80 {
        None
    } else {
        octal_field(s, pos + 124, pos + 136)
    }
}

/// `size` rounded up to whole TAR blocks.
pub open spec fn tar_padded(size: int) -> int {
    (size + 511) / 512 * 512
}

/// `ustar` stands in its place in the TAR header at `pos`.
pub open spec fn is_ustar(s: Seq<u8>, pos: int) -> bool {
    be32(s, pos + 257) == 0x7573_7461 && s[pos + 261] == 0x72
}

/// Where the TAR entry at `pos` ends, if there is a sound one that lies inside
/// `s`, header and padded data.
pub open spec fn tar_entry_end(s: Seq<u8>, pos: int) -> Option<int> {
    if !is_ustar(s, pos) {
        None
    } else {
        match tar_size(s, pos) {
            Some(size) if pos + 512 + tar_padded(size) <= s.len() => Some(
                pos + 512 + tar_padded(size),
            ),
            _ => None,
        }
    }
}

/// The extent of a TAR archive whose next block is at `pos`, when the entries
/// before it end at `last`. A zero block, with a second one where there is one,
/// ends the archive; without it the archive ends with the last sound entry,
/// which is less certain.
pub open spec fn tar_extent_from(s: Seq<u8>, pos: int, last: Option<int>) -> Option<(int, int)>
    decreases s.len() - pos,
{
    if within(s, pos, 512) && zeros(s, pos, 512) {
        if zeros(s, pos + 512, 512) {
            Some((pos + 1023, 95))
        } else {
            Some((pos + 511, 95))
        }
    } else {
        match (if within(s, pos, 512) {
            tar_entry_end(s, pos)
        } else {
            None
        }) {
            Some(next) if next > pos => tar_extent_from(s, next, Some(next - 1)),
            _ => match last {
                Some(end) => Some((end, 70)),
                None => None,
            },
        }
    }
}

/// A TAR archive at `start`.
pub open spec fn tar_extent(s: Seq<u8>, start: int) -> Option<(int, int)> {
    tar_extent_from(s, start, None)
}

/// Whether the `n` bytes from `pos` on exist and are zero.
pub fn all_zero(data: &[u8], pos: usize, n: usize) -> (r: bool)
    ensures
        r == zeros(data@, pos as int, n as int),
{
    if !fits(data, pos, n) {
        return false;
    }
    let mut i: usize = 0;
    while i < n
        invariant
            i <= n,
            pos + n <= data@.len(),
            forall|j: int| pos <= j < pos + i ==> data@[j] == 0,
        decreases n - i,
    {
        if data[pos + i] != 0 {
            return false;
        }
        i = i + 1;
    }
    true
}

/// The number in the octal field `from..to` of `data`.
pub fn parse_octal(data: &[u8], from: usize, to: usize) -> (r: Option<u64>)
    requires
        from <= to <= data@.len(),
    ensures
        r is Some <==> octal_field(data@, from as int, to as int) is Some,
        r matches Some(n) ==> octal_field(data@, from as int, to as int) == Some(n as int),
{
    let mut end = from;
    while end < to && data[end] != 0 && data[end] != 0x20
        invariant
            from <= end <= to <= data@.len(),
            word_end(data@, from as int, to as int) == word_end(data@, end as int, to as int),
        decreases to - end,
    {
        end = end + 1;
    }
    if end == from {
        return Some(0);
    }
    parse_field(data, from, end, 8)
}

/// TAR: walks the entries by the sizes that their headers declare up to the
/// zero blocks that end the archive, or to an entry that is damaged or cut off.
pub fn validate_tar(data: &[u8], start: usize) -> (r: Option<(usize, u8)>)
    ensures
        extent(r) == tar_extent(data@, start as int),
{
    let mut pos = start;
    let mut last: Option<usize> = None;
    while fits(data, pos, TAR_BLOCK)
        invariant_except_break
            tar_extent(data@, start as int) == tar_extent_from(
                data@,
                pos as int,
                match last {
                    Some(end) => Some(end as int),
                    None => None,
                },
            ),
        ensures
            tar_extent(data@, start as int) == match last {
                Some(end) => Some((end as int, 70int)),
                None => None,
            },
        decreases data@.len() - pos,
    {
        if all_zero(data, pos, TAR_BLOCK) {
            let second = all_zero(data, pos + TAR_BLOCK, TAR_BLOCK);
            let end = if second {
                pos + 2 * TAR_BLOCK - 1
            } else {
                pos + TAR_BLOCK - 1
            };
            return Some((end, 95));
        }
        if read_be32(data, pos + 257) != 0x7573_7461 || data[pos + 261] != 0x72 {
            break;
        }
        if data[pos + 124] >= 0x80 {
            break;
        }
        let size = match parse_octal(data, pos + 124, pos + 136) {
            Some(size) => size,
            None => break,
        };
        let padded = (size as u128 + 511) / 512 * 512;
        let next = pos as u128 + 512 + padded;
        if next > data.len() as u128 {
            break;
        }
        last = Some((next - 1) as usize);
        pos = next as usize;
    }
    match last {
        Some(end) => Some((end, 70)),
        None => None,
    }
}

/// The signature that opens a RAR archive takes 7 bytes.
pub const RAR_MARKER_LEN: usize = 7;

/// The type of the block that ends a RAR archive.
pub const RAR_END_BLOCK: u8 = 0x7B;

/// Where the RAR block at `pos` ends, if it has a sound header and lies inside
/// `s`: behind the header and, where a flag announces them, behind the data.
pub open spec fn rar_block_end(s: Seq<u8>, pos: int) -> Option<int> {
    if !within(s, pos, 7) || le16(s, pos + 5) < 7 {
        None
    } else {
        let long = le16(s, pos + 3) >= 0x8000;
        if long && !within(s, pos, 11) {
            None
        } else {
            let end = pos + le16(s, pos + 5) + if long {
                le32(s, pos + 7)
            } else {
                0
            };
            if end <= s.len() {
                Some(end)
            } else {
                None
            }
        }
    }
}

/// The extent of a RAR archive whose blocks begin at `first` and whose next
/// block is at `pos`.
pub open spec fn rar_extent_from(s: Seq<u8>, first: int, pos: int) -> Option<(int, int)>
    decreases s.len() - pos,
{
    match rar_block_end(s, pos) {
        Some(next) => if s[pos + 2] == RAR_END_BLOCK {
            Some((next - 1, 90))
        } else {
            rar_extent_from(s, first, next)
        },
        None => walked(first, pos, 65),
    }
}

/// A RAR archive at `start`: blocks behind the marker, up to the end block. If
/// there is none the archive ends with its last sound block, which is less
/// certain.
pub open spec fn rar_extent(s: Seq<u8>, start: int) -> Option<(int, int)> {
    rar_extent_from(s, start + RAR_MARKER_LEN, start + RAR_MARKER_LEN)
}

/// RAR (1.5 to 4.x): walks the blocks by their declared sizes.
pub fn validate_rar(data: &[u8], start: usize) -> (r: Option<(usize, u8)>)
    ensures
        extent(r) == rar_extent(data@, start as int),
{
    let first = match advance(data, start, RAR_MARKER_LEN as u64) {
        Some(first) => first,
        None => {
            return None;
        },
    };
    let mut pos = first;
    while fits(data, pos, 7)
        invariant_except_break
            first <= pos <= data@.len(),
            rar_extent(data@, start as int) == rar_extent_from(data@, first as int, pos as int),
        ensures
            first <= pos <= data@.len(),
            rar_extent(data@, start as int) == walked(first as int, pos as int, 65),
        decreases data@.len() - pos,
    {
        let head_type = data[pos + 2];
        let head_flags = read_le16(data, pos + 3);
        let head_size = read_le16(data, pos + 5);
        if head_size < 7 {
            break;
        }
        let add_size: u32 = if head_flags >= 0x8000 {
            if !fits(data, pos, 11) {
                break;
            }
            read_le32(data, pos + 7)
        } else {
            0
        };
        let next = match advance(data, pos, head_size as u64 + add_size as u64) {
            Some(next) => next,
            None => break,
        };
        if head_type == RAR_END_BLOCK {
            return Some((next - 1, 90));
        }
        pos = next;
    }
    walked_extent(first, pos, 65)
}

/// A 7-Zip archive at `start`: its 32-byte signature header says where the
/// closing header lies and how long it is.
pub open spec fn seven_zip_extent(s: Seq<u8>, start: int) -> Option<(int, int)> {
    if within(s, start, 32) {
        sized(s.len() as int, start, 32 + le64(s, start + 12) + le64(s, start + 20), 85)
    } else {
        None
    }
}

/// 7-Zip: the archive ends with the header that the signature header points at.
pub fn validate_7z(data: &[u8], start: usize) -> (r: Option<(usize, u8)>)
    ensures
        extent(r) == seven_zip_extent(data@, start as int),
{
    if !fits(data, start, 32) {
        return None;
    }
    let offset = read_le64(data, start + 12);
    let size = read_le64(data, start + 20);
    let total = 32u64.checked_add(offset)?.checked_add(size)?;
    sized_extent(data, start, total, 85)
}

/// `n` rounded up to a multiple of four.
pub open spec fn aligned4(n: int) -> int {
    (n + 3) / 4 * 4
}

/// `TRAILER!!!` stands at `pos`, inside the `n` bytes from there on.
pub open spec fn is_trailer_name(s: Seq<u8>, pos: int, n: int) -> bool {
    n >= 10 && be32(s, pos) == 0x5452_4149 && be32(s, pos + 4) == 0x4C45_5221 && s[pos + 8] == 0x21
        && s[pos + 9] == 0x21
}

/// The sizes of the name and of the data that the "newc" CPIO header at `pos`
/// declares, in hexadecimal.
pub open spec fn newc_sizes(s: Seq<u8>, pos: int) -> Option<(int, int)> {
    match (
        field_number(s.subrange(pos + 94, pos + 102), 16),
        field_number(s.subrange(pos + 54, pos + 62), 16),
    ) {
        (Some(name), Some(file)) => Some((name, file)),
        _ => None,
    }
}

/// Where the entry at `pos` of a "newc" CPIO archive at `first` ends: header, name
/// and data, the last two padded to multiples of four from `first` on.
pub open spec fn newc_entry_end(first: int, pos: int, sizes: (int, int)) -> int {
    first + aligned4(aligned4(pos - first + 110 + sizes.0) + sizes.1)
}

/// The extent of a "newc" CPIO archive at `first` whose next entry is at `pos`: it
/// ends with the entry named `TRAILER!!!`.
pub open spec fn newc_extent_from(s: Seq<u8>, first: int, pos: int) -> Option<(int, int)>
    decreases s.len() - pos,
{
    if !within(s, pos, 110) {
        None
    } else {
        match newc_sizes(s, pos) {
            Some(sizes) => {
                let end = newc_entry_end(first, pos, sizes);
                if end > s.len() || end <= pos {
                    None
                } else if is_trailer_name(s, pos + 110, sizes.0) {
                    Some((end - 1, 90))
                } else {
                    newc_extent_from(s, first, end)
                }
            },
            None => None,
        }
    }
}

/// A "newc" CPIO archive at `start`.
pub open spec fn newc_extent(s: Seq<u8>, start: int) -> Option<(int, int)> {
    newc_extent_from(s, start, start)
}

/// The sizes of the name and of the data that the "odc" CPIO header at `pos`
/// declares, in octal.
pub open spec fn odc_sizes(s: Seq<u8>, pos: int) -> Option<(int, int)> {
    match (
        padded_field_number(s.subrange(pos + 59, pos + 65), 8),
        padded_field_number(s.subrange(pos + 65, pos + 76), 8),
    ) {
        (Some(name), Some(file)) => Some((name, file)),
        _ => None,
    }
}

/// The extent of an "odc" CPIO archive whose next entry is at `pos`: nothing is
/// padded, and it ends with the entry named `TRAILER!!!`.
pub open spec fn odc_extent(s: Seq<u8>, pos: int) -> Option<(int, int)>
    decreases s.len() - pos,
{
    if !within(s, pos, 76) {
        None
    } else {
        match odc_sizes(s, pos) {
            Some(sizes) => {
                let end = pos + 76 + sizes.0 + sizes.1;
                if end > s.len() || end <= pos {
                    None
                } else if is_trailer_name(s, pos + 76, sizes.0) {
                    Some((end - 1, 90))
                } else {
                    odc_extent(s, end)
                }
            },
            None => None,
        }
    }
}

/// Whether the name of `n` bytes at `pos` is that of a CPIO trailer.
pub fn starts_with_trailer(data: &[u8], pos: usize, n: usize) -> (r: bool)
    requires
        within(data@, pos as int, n as int),
    ensures
        r == is_trailer_name(data@, pos as int, n as int),
{
    n >= 10 && read_be32(data, pos) == 0x5452_4149 && read_be32(data, pos + 4) == 0x4C45_5221 && data[pos
        + 8] == 0x21 && data[pos + 9] == 0x21
}

/// The sizes that the "newc" CPIO header at `pos` declares.
pub fn read_newc_sizes(data: &[u8], pos: usize) -> (r: Option<(u64, u64)>)
    requires
        within(data@, pos as int, 110),
    ensures
        r is Some <==> newc_sizes(data@, pos as int) is Some,
        r matches Some((name, file)) ==> newc_sizes(data@, pos as int) == Some(
            (name as int, file as int),
        ),
{
    let name = parse_field(data, pos + 94, pos + 102, 16)?;
    let file = parse_field(data, pos + 54, pos + 62, 16)?;
    Some((name, file))
}

/// The sizes that the "odc" CPIO header at `pos` declares.
pub fn read_odc_sizes(data: &[u8], pos: usize) -> (r: Option<(u64, u64)>)
    requires
        within(data@, pos as int, 76),
    ensures
        r is Some <==> odc_sizes(data@, pos as int) is Some,
        r matches Some((name, file)) ==> odc_sizes(data@, pos as int) == Some(
            (name as int, file as int),
        ),
{
    let name = parse_padded_field(data, pos + 59, pos + 65, 8)?;
    let file = parse_padded_field(data, pos + 65, pos + 76, 8)?;
    Some((name, file))
}

/// Where the entry at `pos` with these sizes of a "newc" CPIO archive at `first`
/// ends, if that is inside the data.
pub fn newc_end(data: &[u8], first: usize, pos: usize, name: u64, file: u64) -> (r: Option<usize>)
    requires
        first <= pos,
    ensures
        r is Some <==> newc_entry_end(first as int, pos as int, (name as int, file as int))
            <= data@.len(),
        r matches Some(end) ==> end == newc_entry_end(
            first as int,
            pos as int,
            (name as int, file as int),
        ) && end >= pos + 110 + name,
{
    let body = ((pos - first) as u128 + 110 + name as u128 + 3) / 4 * 4;
    let end = first as u128 + (body + file as u128 + 3) / 4 * 4;
    if end > data.len() as u128 {
        return None;
    }
    Some(end as usize)
}

/// CPIO "newc" and "crc".
pub fn validate_cpio_newc(data: &[u8], start: usize) -> (r: Option<(usize, u8)>)
    ensures
        extent(r) == newc_extent(data@, start as int),
{
    let mut pos = start;
    loop
        invariant
            start <= pos,
            newc_extent(data@, start as int) == newc_extent_from(data@, start as int, pos as int),
        decreases data@.len() - pos,
    {
        if !fits(data, pos, 110) {
            return None;
        }
        let (name, file) = read_newc_sizes(data, pos)?;
        let end = newc_end(data, start, pos, name, file)?;
        if starts_with_trailer(data, pos + 110, name as usize) {
            return Some((end - 1, 90));
        }
        pos = end;
    }
}

/// Where the "odc" CPIO entry at `pos` with these sizes ends, if that is inside
/// the data.
pub fn odc_end(data: &[u8], pos: usize, name: u64, file: u64) -> (r: Option<usize>)
    ensures
        r is Some <==> pos + 76 + name + file <= data@.len(),
        r matches Some(end) ==> end == pos + 76 + name + file,
{
    let end = pos as u128 + 76 + name as u128 + file as u128;
    if end > data.len() as u128 {
        return None;
    }
    Some(end as usize)
}

/// CPIO "odc".
pub fn validate_cpio_odc(data: &[u8], start: usize) -> (r: Option<(usize, u8)>)
    ensures
        extent(r) == odc_extent(data@, start as int),
{
    let mut pos = start;
    loop
        invariant
            odc_extent(data@, start as int) == odc_extent(data@, pos as int),
        decreases data@.len() - pos,
    {
        if !fits(data, pos, 76) {
            return None;
        }
        let (name, file) = read_odc_sizes(data, pos)?;
        let end = odc_end(data, pos, name, file)?;
        if starts_with_trailer(data, pos + 76, name as usize) {
            return Some((end - 1, 90));
        }
        pos = end;
    }
}

/// `!<arch>\n`
pub const AR_MAGIC: u64 = 0x213C_6172_6368_3E0A;

/// The size that the `ar` member header at `pos` declares, in decimal, if the
/// header is complete and closed by its two-byte marker.
pub open spec fn ar_size(s: Seq<u8>, pos: int) -> Option<int> {
    if !within(s, pos, 60) || le16(s, pos + 58) != 0x0A60 {
        None
    } else {
        padded_field_number(s.subrange(pos + 48, pos + 58), 10)
    }
}

/// Where the `ar` member at `pos` ends, if it is sound and lies inside `s`: its
/// data are padded to an even length.
pub open spec fn ar_member_end(s: Seq<u8>, pos: int) -> Option<int> {
    match ar_size(s, pos) {
        Some(size) => {
            let end = pos + 60 + size + size % 2;
            if end <= s.len() {
                Some(end)
            } else {
                None
            }
        },
        None => None,
    }
}

/// The extent of an `ar` archive whose members begin at `first` and whose next
/// member is at `pos`: the members reach the end of the data, or the archive
/// ends with its last sound member, which is less certain.
pub open spec fn ar_extent_from(s: Seq<u8>, first: int, pos: int) -> Option<(int, int)>
    decreases s.len() - pos,
{
    match ar_member_end(s, pos) {
        Some(next) if next > pos => if next == s.len() {
            Some((next - 1, 90))
        } else {
            ar_extent_from(s, first, next)
        },
        _ => walked(first, pos, 70),
    }
}

/// An `ar` archive at `start`.
pub open spec fn ar_extent(s: Seq<u8>, start: int) -> Option<(int, int)> {
    if within(s, start, 8) && be64(s, start) == AR_MAGIC {
        ar_extent_from(s, start + 8, start + 8)
    } else {
        None
    }
}

/// The size that the `ar` member header at `pos` declares.
pub fn read_ar_size(data: &[u8], pos: usize) -> (r: Option<u64>)
    ensures
        r is Some <==> ar_size(data@, pos as int) is Some,
        r matches Some(size) ==> ar_size(data@, pos as int) == Some(size as int),
{
    if !fits(data, pos, 60) || read_le16(data, pos + 58) != 0x0A60 {
        return None;
    }
    parse_padded_field(data, pos + 48, pos + 58, 10)
}

/// Where the `ar` member at `pos` ends.
pub fn ar_end(data: &[u8], pos: usize) -> (r: Option<usize>)
    ensures
        r is Some <==> ar_member_end(data@, pos as int) is Some,
        r matches Some(end) ==> ar_member_end(data@, pos as int) == Some(end as int) && pos < end
            <= data@.len(),
{
    let size = read_ar_size(data, pos)?;
    let end = pos as u128 + 60 + size as u128 + (size % 2) as u128;
    if end > data.len() as u128 {
        return None;
    }
    Some(end as usize)
}

/// Unix `ar`.
pub fn validate_ar(data: &[u8], start: usize) -> (r: Option<(usize, u8)>)
    ensures
        extent(r) == ar_extent(data@, start as int),
{
    if !fits(data, start, 8) || read_be64(data, start) != AR_MAGIC {
        return None;
    }
    let first = start + 8;
    let mut pos = first;
    loop
        invariant
            first <= pos <= data@.len(),
            ar_extent(data@, start as int) == ar_extent_from(data@, first as int, pos as int),
        decreases data@.len() - pos,
    {
        match ar_end(data, pos) {
            Some(next) => {
                if next == data.len() {
                    return Some((next - 1, 90));
                }
                pos = next;
            },
            None => {
                return walked_extent(first, pos, 70);
            },
        }
    }
}

/// The offset of the primary volume descriptor in an ISO 9660 image.
pub const ISO_DESCRIPTOR: usize = 32768;

/// A primary volume descriptor stands in its place in the image at `start`.
pub open spec fn is_iso_image(s: Seq<u8>, start: int) -> bool {
    let at = start + ISO_DESCRIPTOR;
    within(s, at, 2048) && s[at] == 1 && be32(s, at + 1) == 0x4344_3030 && s[at + 5] == 0x31
}

/// An ISO 9660 image at `start`: its descriptor gives its size in blocks and the
/// size of a block.
pub open spec fn iso_extent(s: Seq<u8>, start: int) -> Option<(int, int)> {
    let at = start + ISO_DESCRIPTOR;
    if is_iso_image(s, start) {
        sized(s.len() as int, start, le32(s, at + 80) * le16(s, at + 128), 90)
    } else {
        None
    }
}

/// Whether an ISO 9660 image is at `start`.
pub fn has_iso_descriptor(data: &[u8], start: usize) -> (r: bool)
    ensures
        r == is_iso_image(data@, start as int),
{
    match advance(data, start, ISO_DESCRIPTOR as u64) {
        Some(at) => fits(data, at, 2048) && data[at] == 1 && read_be32(data, at + 1) == 0x4344_3030
            && data[at + 5] == 0x31,
        None => false,
    }
}

/// ISO 9660.
pub fn validate_iso9660(data: &[u8], start: usize) -> (r: Option<(usize, u8)>)
    ensures
        extent(r) == iso_extent(data@, start as int),
{
    if !has_iso_descriptor(data, start) {
        return None;
    }
    let at = start + ISO_DESCRIPTOR;
    let blocks = read_le32(data, at + 80) as u64;
    let block_size = read_le16(data, at + 128) as u64;
    assert(blocks * block_size <= 0xFFFF_FFFF * 0xFFFF) by (nonlinear_arith)
        requires
            blocks <= 0xFFFF_FFFF,
            block_size <= 0xFFFF,
    ;
    sized_extent(data, start, blocks * block_size, 90)
}

/// The length of a Zstandard frame header with this descriptor, from the start
/// of the frame: magic number and descriptor, window descriptor unless the
/// frame is a single segment, dictionary ID and content size.
pub open spec fn zstd_header_len(descriptor: u8) -> int {
    let single_segment = flag(descriptor, 32);
    let window: int = if single_segment {
        0
    } else {
        1
    };
    let dictionary: int = match (descriptor % 4) as u8 {
        0 => 0,
        1 => 1,
        2 => 2,
        _ => 4,
    };
    let content_size: int = match (descriptor / 64) as u8 {
        0 => if single_segment {
            1
        } else {
            0
        },
        1 => 2,
        2 => 4,
        _ => 8,
    };
    5 + window + dictionary + content_size
}

/// The number of bytes that follow a Zstandard block header: one for a repeated
/// byte, else the declared size.
pub open spec fn zstd_block_len(header: int) -> int {
    if (header / 2) % 4 == 1 {
        1
    } else {
        header / 8
    }
}

/// Where the run of Zstandard blocks at `pos` ends: behind the block marked as
/// the last one. A block of the reserved type is not valid.
pub open spec fn zstd_blocks_end(s: Seq<u8>, pos: int) -> Option<int>
    decreases s.len() - pos,
{
    if !within(s, pos, 3) {
        None
    } else {
        let header = le24(s, pos);
        let next = pos + 3 + zstd_block_len(header);
        if (header / 2) % 4 == 3 || next > s.len() {
            None
        } else if header % 2 == 1 {
            Some(next)
        } else {
            zstd_blocks_end(s, next)
        }
    }
}

/// A Zstandard frame at `start`: header, blocks, and a checksum if the
/// descriptor announces one.
pub open spec fn zstd_extent(s: Seq<u8>, start: int) -> Option<(int, int)> {
    if within(s, start, 5) && be32(s, start) == 0x28B5_2FFD {
        let descriptor = s[start + 4];
        match zstd_blocks_end(s, start + zstd_header_len(descriptor)) {
            Some(end) => sized(
                s.len() as int,
                end,
                if flag(descriptor, 4) {
                    4
                } else {
                    0
                },
                85,
            ),
            None => None,
        }
    } else {
        None
    }
}

fn zstd_header(descriptor: u8) -> (r: u8)
    ensures
        r == zstd_header_len(descriptor),
{
    let single_segment = (descriptor / 32) % 2 == 1;
    let window: u8 = if single_segment {
        0
    } else {
        1
    };
    let dictionary: u8 = match descriptor % 4 {
        0 => 0,
        1 => 1,
        2 => 2,
        _ => 4,
    };
    let content_size: u8 = match descriptor / 64 {
        0 => if single_segment {
            1
        } else {
            0
        },
        1 => 2,
        2 => 4,
        _ => 8,
    };
    5 + window + dictionary + content_size
}

/// Where the run of Zstandard blocks at `from` ends.
fn skip_zstd_blocks(data: &[u8], from: usize) -> (r: Option<usize>)
    ensures
        r is Some <==> zstd_blocks_end(data@, from as int) is Some,
        r matches Some(end) ==> zstd_blocks_end(data@, from as int) == Some(end as int) && end
            <= data@.len(),
{
    let mut pos = from;
    loop
        invariant
            zstd_blocks_end(data@, from as int) == zstd_blocks_end(data@, pos as int),
        decreases data@.len() - pos,
    {
        if !fits(data, pos, 3) {
            return None;
        }
        let header = read_le24(data, pos);
        let kind = (header / 2) % 4;
        if kind == 3 {
            return None;
        }
        let len: u32 = if kind == 1 {
            1
        } else {
            header / 8
        };
        let next = advance(data, pos, 3 + len as u64)?;
        if header % 2 == 1 {
            return Some(next);
        }
        pos = next;
    }
}

/// Zstandard: steps over the optional header fields and walks the blocks.
pub fn validate_zstd(data: &[u8], start: usize) -> (r: Option<(usize, u8)>)
    ensures
        extent(r) == zstd_extent(data@, start as int),
{
    if !fits(data, start, 5) || read_be32(data, start) != 0x28B5_2FFD {
        return None;
    }
    let descriptor = data[start + 4];
    let blocks = match advance(data, start, zstd_header(descriptor) as u64) {
        Some(blocks) => blocks,
        None => {
            return None;
        },
    };
    let pos = skip_zstd_blocks(data, blocks)?;
    let checksum: u64 = if (descriptor / 4) % 2 == 1 {
        4
    } else {
        0
    };
    sized_extent(data, pos, checksum, 85)
}

/// An MPQ archive at `start`, which declares its own length.
pub open spec fn mpq_extent(s: Seq<u8>, start: int) -> Option<(int, int)> {
    if within(s, start, 12) {
        sized(s.len() as int, start, le32(s, start + 8), 85)
    } else {
        None
    }
}

/// MPQ: the length stands in the header.
pub fn validate_mpq(data: &[u8], start: usize) -> (r: Option<(usize, u8)>)
    ensures
        extent(r) == mpq_extent(data@, start as int),
{
    if !fits(data, start, 12) {
        return None;
    }
    sized_extent(data, start, read_le32(data, start + 8) as u64, 85)
}

/// A SquashFS image at `start`, which declares its own length.
pub open spec fn squashfs_extent(s: Seq<u8>, start: int) -> Option<(int, int)> {
    if within(s, start, 48) {
        sized(s.len() as int, start, le64(s, start + 40), 90)
    } else {
        None
    }
}

/// SquashFS: the length stands in the superblock.
pub fn validate_squashfs(data: &[u8], start: usize) -> (r: Option<(usize, u8)>)
    ensures
        extent(r) == squashfs_extent(data@, start as int),
{
    if !fits(data, start, 48) {
        return None;
    }
    sized_extent(data, start, read_le64(data, start + 40), 90)
}

/// A cabinet file at `start`, which declares its own length.
pub open spec fn cab_extent(s: Seq<u8>, start: int) -> Option<(int, int)> {
    if within(s, start, 12) {
        sized(s.len() as int, start, le32(s, start + 8), 90)
    } else {
        None
    }
}

/// CAB: the length stands in the header.
pub fn validate_cab(data: &[u8], start: usize) -> (r: Option<(usize, u8)>)
    ensures
        extent(r) == cab_extent(data@, start as int),
{
    if !fits(data, start, 12) {
        return None;
    }
    sized_extent(data, start, read_le32(data, start + 8) as u64, 90)
}

} // verus!
