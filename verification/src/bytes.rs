//! Fixed-width fields of a byte sequence: what they mean and how they are read.
use vstd::prelude::*;

verus! {

broadcast use crate::slices::slice_len_bound;

/// The `n` bytes from `pos` on lie inside `s`.
pub open spec fn within(s: Seq<u8>, pos: int, n: int) -> bool {
    0 <= pos && 0 <= n && pos + n <= s.len()
}

/// The 16-bit little-endian number at `i`.
pub open spec fn le16(s: Seq<u8>, i: int) -> int {
    s[i] + 0x100 * s[i + 1]
}

/// The 16-bit big-endian number at `i`.
pub open spec fn be16(s: Seq<u8>, i: int) -> int {
    0x100 * s[i] + s[i + 1]
}

/// The 24-bit little-endian number at `i`.
pub open spec fn le24(s: Seq<u8>, i: int) -> int {
    le16(s, i) + 0x1_0000 * s[i + 2]
}

/// The 24-bit big-endian number at `i`.
pub open spec fn be24(s: Seq<u8>, i: int) -> int {
    0x1_0000 * s[i] + be16(s, i + 1)
}

/// The 32-bit little-endian number at `i`.
pub open spec fn le32(s: Seq<u8>, i: int) -> int {
    le16(s, i) + 0x1_0000 * le16(s, i + 2)
}

/// The 32-bit big-endian number at `i`.
pub open spec fn be32(s: Seq<u8>, i: int) -> int {
    0x1_0000 * be16(s, i) + be16(s, i + 2)
}

/// The 64-bit little-endian number at `i`.
pub open spec fn le64(s: Seq<u8>, i: int) -> int {
    le32(s, i) + 0x1_0000_0000 * le32(s, i + 4)
}

/// The 64-bit big-endian number at `i`.
pub open spec fn be64(s: Seq<u8>, i: int) -> int {
    0x1_0000_0000 * be32(s, i) + be32(s, i + 4)
}

/// The 32-bit number at `i` in the byte order that `is_be` selects.
pub open spec fn num32(s: Seq<u8>, i: int, is_be: bool) -> int {
    if is_be {
        be32(s, i)
    } else {
        le32(s, i)
    }
}

/// The 64-bit number at `i` in the byte order that `is_be` selects.
pub open spec fn num64(s: Seq<u8>, i: int, is_be: bool) -> int {
    if is_be {
        be64(s, i)
    } else {
        le64(s, i)
    }
}

/// The bit of that weight is set in a byte.
pub open spec fn flag(b: u8, weight: int) -> bool {
    (b as int / weight) % 2 == 1
}

/// What a validator reports, as mathematical integers: the offset of the last
/// byte and the confidence in percent.
pub open spec fn extent(r: Option<(usize, u8)>) -> Option<(int, int)> {
    match r {
        Some((end, confidence)) => Some((end as int, confidence as int)),
        None => None,
    }
}

/// The extent of `total` bytes from `start` on, if its last byte exists and
/// lies inside `len` bytes of data.
pub open spec fn sized(len: int, start: int, total: int, confidence: int) -> Option<(int, int)> {
    let end = start + total - 1;
    if 0 <= end < len {
        Some((end, confidence))
    } else {
        None
    }
}

/// The extent of the sound blocks between `first` and `pos`, if there are any.
pub open spec fn walked(first: int, pos: int, confidence: int) -> Option<(int, int)> {
    if pos > first {
        Some((pos - 1, confidence))
    } else {
        None
    }
}

/// Whether the `n` bytes from `pos` on lie inside `data`.
pub fn fits(data: &[u8], pos: usize, n: usize) -> (r: bool)
    ensures
        r == within(data@, pos as int, n as int),
{
    pos <= data.len() && n <= data.len() - pos
}

/// `pos + n`, if that is still inside `data` or its end.
pub fn advance(data: &[u8], pos: usize, n: u64) -> (r: Option<usize>)
    ensures
        r matches Some(next) ==> next == pos + n && next <= data@.len(),
        r is None <==> pos + n > data@.len(),
{
    if pos <= data.len() && n <= (data.len() - pos) as u64 {
        Some(pos + n as usize)
    } else {
        None
    }
}

/// Reads the 16-bit little-endian number at `i`.
pub fn read_le16(data: &[u8], i: usize) -> (r: u16)
    requires
        within(data@, i as int, 2),
    ensures
        r == le16(data@, i as int),
{
    data[i] as u16 + 0x100 * data[i + 1] as u16
}

/// Reads the 16-bit big-endian number at `i`.
pub fn read_be16(data: &[u8], i: usize) -> (r: u16)
    requires
        within(data@, i as int, 2),
    ensures
        r == be16(data@, i as int),
{
    0x100 * data[i] as u16 + data[i + 1] as u16
}

/// Reads the 24-bit little-endian number at `i`.
pub fn read_le24(data: &[u8], i: usize) -> (r: u32)
    requires
        within(data@, i as int, 3),
    ensures
        r == le24(data@, i as int),
{
    read_le16(data, i) as u32 + 0x1_0000 * data[i + 2] as u32
}

/// Reads the 24-bit big-endian number at `i`.
pub fn read_be24(data: &[u8], i: usize) -> (r: u32)
    requires
        within(data@, i as int, 3),
    ensures
        r == be24(data@, i as int),
{
    0x1_0000 * data[i] as u32 + read_be16(data, i + 1) as u32
}

/// Reads the 32-bit little-endian number at `i`.
pub fn read_le32(data: &[u8], i: usize) -> (r: u32)
    requires
        within(data@, i as int, 4),
    ensures
        r == le32(data@, i as int),
{
    read_le16(data, i) as u32 + 0x1_0000 * read_le16(data, i + 2) as u32
}

/// Reads the 32-bit big-endian number at `i`.
pub fn read_be32(data: &[u8], i: usize) -> (r: u32)
    requires
        within(data@, i as int, 4),
    ensures
        r == be32(data@, i as int),
{
    0x1_0000 * read_be16(data, i) as u32 + read_be16(data, i + 2) as u32
}

/// Reads the 64-bit little-endian number at `i`.
pub fn read_le64(data: &[u8], i: usize) -> (r: u64)
    requires
        within(data@, i as int, 8),
    ensures
        r == le64(data@, i as int),
{
    read_le32(data, i) as u64 + 0x1_0000_0000 * read_le32(data, i + 4) as u64
}

/// Reads the 64-bit big-endian number at `i`.
pub fn read_be64(data: &[u8], i: usize) -> (r: u64)
    requires
        within(data@, i as int, 8),
    ensures
        r == be64(data@, i as int),
{
    0x1_0000_0000 * read_be32(data, i) as u64 + read_be32(data, i + 4) as u64
}

/// The 32-bit number at `pos`, if all four of its bytes exist.
pub fn read_u32_at(data: &[u8], pos: usize, is_be: bool) -> (r: Option<u32>)
    ensures
        r is Some <==> within(data@, pos as int, 4),
        r matches Some(n) ==> n == num32(data@, pos as int, is_be),
{
    if !fits(data, pos, 4) {
        return None;
    }
    Some(if is_be { read_be32(data, pos) } else { read_le32(data, pos) })
}

/// The 64-bit number at `pos`, if all eight of its bytes exist.
pub fn read_u64_at(data: &[u8], pos: usize, is_be: bool) -> (r: Option<u64>)
    ensures
        r is Some <==> within(data@, pos as int, 8),
        r matches Some(n) ==> n == num64(data@, pos as int, is_be),
{
    if !fits(data, pos, 8) {
        return None;
    }
    Some(if is_be { read_be64(data, pos) } else { read_le64(data, pos) })
}

/// The extent of `total` bytes from `start` on, if `data` holds all of it.
pub fn sized_extent(data: &[u8], start: usize, total: u64, confidence: u8) -> (r: Option<(usize, u8)>)
    ensures
        extent(r) == sized(data@.len() as int, start as int, total as int, confidence as int),
{
    let end = (start as u64).checked_add(total)?.checked_sub(1)?;
    if end >= data.len() as u64 {
        return None;
    }
    Some((end as usize, confidence))
}

/// The extent of the sound blocks between `first` and `pos`, if there are any.
pub fn walked_extent(first: usize, pos: usize, confidence: u8) -> (r: Option<(usize, u8)>)
    ensures
        extent(r) == walked(first as int, pos as int, confidence as int),
{
    if pos > first {
        Some((pos - 1, confidence))
    } else {
        None
    }
}

} // verus!
