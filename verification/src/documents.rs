//! Boundaries of databases, fonts, models and other documents.
use vstd::prelude::*;
use crate::bytes::{
    advance, be16, be32, extent, fits, le32, num32, read_be16, read_be32, read_le32,
    read_u32_at, sized, sized_extent, within,
};
use crate::tables::{larger, table_end, table_reach, Row};

verus! {

broadcast use crate::slices::slice_len_bound;

/// The page size that an SQLite header declares: a power of two from 512 to
/// 32768, or 1 for 65536.
pub open spec fn sqlite_page_size(raw: int) -> Option<int> {
    if raw == 1 {
        Some(65536)
    } else if raw == 512 || raw == 1024 || raw == 2048 || raw == 4096 || raw == 8192 || raw == 16384
        || raw == 32768 {
        Some(raw)
    } else {
        None
    }
}

/// An SQLite database at `start`: as many pages as its header counts. If the
/// change counter agrees with the version that the count is valid for, the
/// count is up to date and the match more certain.
pub open spec fn sqlite_extent(s: Seq<u8>, start: int) -> Option<(int, int)> {
    if !within(s, start, 100) {
        None
    } else {
        match sqlite_page_size(be16(s, start + 16)) {
            Some(page_size) if be32(s, start + 28) > 0 => sized(
                s.len() as int,
                start,
                page_size * be32(s, start + 28),
                if be32(s, start + 24) == be32(s, start + 92) {
                    90
                } else {
                    60
                },
            ),
            _ => None,
        }
    }
}

/// The page size that an SQLite header declares.
pub fn read_sqlite_page_size(raw: u16) -> (r: Option<u32>)
    ensures
        r is Some <==> sqlite_page_size(raw as int) is Some,
        r matches Some(size) ==> sqlite_page_size(raw as int) == Some(size as int) && 512 <= size <= 65536,
{
    if raw == 1 {
        Some(65536)
    } else if raw == 512 || raw == 1024 || raw == 2048 || raw == 4096 || raw == 8192 || raw == 16384
        || raw == 32768 {
        Some(raw as u32)
    } else {
        None
    }
}

/// SQLite: page size times page count.
pub fn validate_sqlite(data: &[u8], start: usize) -> (r: Option<(usize, u8)>)
    ensures
        extent(r) == sqlite_extent(data@, start as int),
{
    if !fits(data, start, 100) {
        return None;
    }
    let page_size = read_sqlite_page_size(read_be16(data, start + 16))? as u64;
    let page_count = read_be32(data, start + 28) as u64;
    if page_count == 0 {
        return None;
    }
    let confidence: u8 = if read_be32(data, start + 24) == read_be32(data, start + 92) {
        90
    } else {
        60
    };
    assert(page_size * page_count <= 65536 * 0xFFFF_FFFF) by (nonlinear_arith)
        requires
            page_size <= 65536,
            page_count <= 0xFFFF_FFFF,
    ;
    sized_extent(data, start, page_size * page_count, confidence)
}

/// A web font at `start`, which declares its own length.
pub open spec fn woff_extent(s: Seq<u8>, start: int) -> Option<(int, int)> {
    if within(s, start, 12) {
        sized(s.len() as int, start, be32(s, start + 8), 90)
    } else {
        None
    }
}

/// WOFF and WOFF2: the length stands in the header.
pub fn validate_woff(data: &[u8], start: usize) -> (r: Option<(usize, u8)>)
    ensures
        extent(r) == woff_extent(data@, start as int),
{
    if !fits(data, start, 12) {
        return None;
    }
    sized_extent(data, start, read_be32(data, start + 8) as u64, 90)
}

/// A binary glTF file at `start`, which declares its own length.
pub open spec fn glb_extent(s: Seq<u8>, start: int) -> Option<(int, int)> {
    if within(s, start, 12) && be32(s, start) == 0x676C_5446 {
        sized(s.len() as int, start, le32(s, start + 8), 90)
    } else {
        None
    }
}

/// GLB: the length stands in the header.
pub fn validate_glb(data: &[u8], start: usize) -> (r: Option<(usize, u8)>)
    ensures
        extent(r) == glb_extent(data@, start as int),
{
    if !fits(data, start, 12) || read_be32(data, start) != 0x676C_5446 {
        return None;
    }
    sized_extent(data, start, read_le32(data, start + 8) as u64, 90)
}

/// An entry of an AppleSingle or AppleDouble file.
pub open spec fn apple_row() -> Row {
    Row { width: 12, offset_at: 4, length_at: 8, is_be: true }
}

/// An AppleSingle or AppleDouble file at `start`: it ends with the furthest of
/// its entries.
pub open spec fn apple_extent(s: Seq<u8>, start: int) -> Option<(int, int)> {
    if !within(s, start, 26) {
        None
    } else {
        let count = be16(s, start + 24);
        let reach = table_reach(s, apple_row(), start + 26, count);
        if count > 0 && within(s, start + 26, 12 * count) && reach > 0 {
            sized(s.len() as int, start, reach, 90)
        } else {
            None
        }
    }
}

/// AppleSingle and AppleDouble: the entry table follows the header.
pub fn validate_apple_single_double(data: &[u8], start: usize) -> (r: Option<(usize, u8)>)
    ensures
        extent(r) == apple_extent(data@, start as int),
{
    if !fits(data, start, 26) {
        return None;
    }
    let count = read_be16(data, start + 24) as usize;
    if count == 0 || !fits(data, start + 26, 12 * count) {
        return None;
    }
    let row = Row { width: 12, offset_at: 4, length_at: 8, is_be: true };
    let max_end = table_end(data, row, start + 26, count);
    if max_end == 0 {
        return None;
    }
    sized_extent(data, start, max_end, 90)
}

/// `ENDB`
pub const ENDB: u32 = 0x454E_4442;

/// The length of a Blender block header in a file with pointers of that size.
pub open spec fn blend_header_len(pointer: u8) -> Option<int> {
    if pointer == 0x5F {
        Some(20)
    } else if pointer == 0x2D {
        Some(24)
    } else {
        None
    }
}

/// The byte order that a Blender file declares: whether it is big-endian.
pub open spec fn blend_order(order: u8) -> Option<bool> {
    if order == 0x76 {
        Some(false)
    } else if order == 0x56 {
        Some(true)
    } else {
        None
    }
}

/// The extent of a Blender file whose next block is at `pos`: it ends with the
/// block `ENDB`.
pub open spec fn blend_extent_from(s: Seq<u8>, pos: int, header_len: int, is_be: bool) -> Option<(int, int)>
    decreases s.len() - pos,
{
    if !within(s, pos, 8) || header_len < 8 {
        None
    } else {
        let next = pos + header_len + num32(s, pos + 4, is_be);
        if next > s.len() {
            None
        } else if be32(s, pos) == ENDB {
            Some((next - 1, 85))
        } else {
            blend_extent_from(s, next, header_len, is_be)
        }
    }
}

/// `BLENDER` stands at `pos`.
pub open spec fn is_blender(s: Seq<u8>, pos: int) -> bool {
    be32(s, pos) == 0x424C_454E && be16(s, pos + 4) == 0x4445 && s[pos + 6] == 0x52
}

/// A Blender file at `start`: its header names the pointer size and the byte
/// order, and blocks follow.
pub open spec fn blend_extent(s: Seq<u8>, start: int) -> Option<(int, int)> {
    if !within(s, start, 9) || !is_blender(s, start) {
        None
    } else {
        match (blend_header_len(s[start + 7]), blend_order(s[start + 8])) {
            (Some(header_len), Some(is_be)) => blend_extent_from(s, start + 12, header_len, is_be),
            _ => None,
        }
    }
}

fn walk_blend_blocks(data: &[u8], first: usize, header_len: u64, is_be: bool) -> (r: Option<(usize, u8)>)
    requires
        8 <= header_len <= 24,
    ensures
        extent(r) == blend_extent_from(data@, first as int, header_len as int, is_be),
{
    let mut pos = first;
    loop
        invariant
            8 <= header_len <= 24,
            blend_extent_from(data@, first as int, header_len as int, is_be) == blend_extent_from(
                data@,
                pos as int,
                header_len as int,
                is_be,
            ),
        decreases data@.len() - pos,
    {
        if !fits(data, pos, 8) {
            return None;
        }
        let size = read_u32_at(data, pos + 4, is_be)?;
        let next = advance(data, pos, header_len + size as u64)?;
        if read_be32(data, pos) == ENDB {
            return Some((next - 1, 85));
        }
        pos = next;
    }
}

/// Blender: walks the blocks.
pub fn validate_blend(data: &[u8], start: usize) -> (r: Option<(usize, u8)>)
    ensures
        extent(r) == blend_extent(data@, start as int),
{
    if !fits(data, start, 9) || read_be32(data, start) != 0x424C_454E || read_be16(data, start + 4)
        != 0x4445 || data[start + 6] != 0x52 {
        return None;
    }
    let header_len: u64 = if data[start + 7] == 0x5F {
        20
    } else if data[start + 7] == 0x2D {
        24
    } else {
        return None;
    };
    let is_be = if data[start + 8] == 0x76 {
        false
    } else if data[start + 8] == 0x56 {
        true
    } else {
        return None;
    };
    let first = match advance(data, start, 12) {
        Some(first) => first,
        None => {
            return None;
        },
    };
    walk_blend_blocks(data, first, header_len, is_be)
}

/// The exponent of the largest power of two that does not exceed `n`, for `n`
/// from 1 to 127.
pub open spec fn log2_floor(n: int) -> int {
    if n >= 64 {
        6
    } else if n >= 32 {
        5
    } else if n >= 16 {
        4
    } else if n >= 8 {
        3
    } else if n >= 4 {
        2
    } else if n >= 2 {
        1
    } else {
        0
    }
}

/// The largest power of two that does not exceed `n`, for `n` from 1 to 127.
pub open spec fn power_floor(n: int) -> int {
    if n >= 64 {
        64
    } else if n >= 32 {
        32
    } else if n >= 16 {
        16
    } else if n >= 8 {
        8
    } else if n >= 4 {
        4
    } else if n >= 2 {
        2
    } else {
        1
    }
}

/// A row of the table directory of an sfnt font.
pub open spec fn sfnt_row() -> Row {
    Row { width: 16, offset_at: 8, length_at: 12, is_be: true }
}

/// The search fields of the sfnt header at `start` fit its number of tables,
/// which is plausible. The third search field is often wrong in real fonts and
/// not looked at.
pub open spec fn is_sfnt_header(s: Seq<u8>, start: int) -> bool {
    let count = be16(s, start + 4);
    &&& within(s, start, 10)
    &&& 0 < count <= 100
    &&& be16(s, start + 6) == 16 * power_floor(count)
    &&& be16(s, start + 8) == log2_floor(count)
}

/// An sfnt font at `start`: it ends with its directory or with the furthest of
/// its tables.
pub open spec fn sfnt_extent(s: Seq<u8>, start: int) -> Option<(int, int)> {
    let count = be16(s, start + 4);
    if is_sfnt_header(s, start) && within(s, start + 12, 16 * count) {
        sized(
            s.len() as int,
            start,
            larger(12 + 16 * count, table_reach(s, sfnt_row(), start + 12, count)),
            90,
        )
    } else {
        None
    }
}

fn search_fields(count: u16) -> (r: (u16, u16))
    requires
        count <= 100,
    ensures
        r.0 == 16 * power_floor(count as int),
        r.1 == log2_floor(count as int),
{
    if count >= 64 {
        (1024, 6)
    } else if count >= 32 {
        (512, 5)
    } else if count >= 16 {
        (256, 4)
    } else if count >= 8 {
        (128, 3)
    } else if count >= 4 {
        (64, 2)
    } else if count >= 2 {
        (32, 1)
    } else {
        (16, 0)
    }
}

/// TrueType and OpenType: the header fields that follow from the number of
/// tables tell a font from chance matches; the directory gives the end.
pub fn validate_sfnt(data: &[u8], start: usize) -> (r: Option<(usize, u8)>)
    ensures
        extent(r) == sfnt_extent(data@, start as int),
{
    if !fits(data, start, 10) {
        return None;
    }
    let count = read_be16(data, start + 4);
    if count == 0 || count > 100 {
        return None;
    }
    let (range, selector) = search_fields(count);
    if read_be16(data, start + 6) != range || read_be16(data, start + 8) != selector {
        return None;
    }
    if !fits(data, start, 12) || !fits(data, start + 12, 16 * count as usize) {
        return None;
    }
    let row = Row { width: 16, offset_at: 8, length_at: 12, is_be: true };
    let reach = table_end(data, row, start + 12, count as usize);
    let directory_end = 12 + 16 * count as u64;
    let max_end = if directory_end > reach {
        directory_end
    } else {
        reach
    };
    sized_extent(data, start, max_end, 90)
}

} // verus!
