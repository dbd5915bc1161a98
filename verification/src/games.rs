//! Boundaries of game data formats.
use vstd::prelude::*;
use crate::archives::{cstring_end, skip_cstring};
use crate::bytes::{
    advance, be64, extent, fits, flag, le32, read_be64, read_le32, sized, sized_extent, within,
};
use crate::media::SIGN_64;
use crate::tables::{larger, table_end, table_reach, Row};

verus! {

broadcast use crate::slices::slice_len_bound;

/// A row of the directory of a WAD file.
pub open spec fn wad_row() -> Row {
    Row { width: 16, offset_at: 0, length_at: 4, is_be: false }
}

/// A WAD file at `start`: it ends with its directory or with the furthest of its
/// lumps.
pub open spec fn wad_extent(s: Seq<u8>, start: int) -> Option<(int, int)> {
    if !within(s, start, 12) {
        None
    } else {
        let count = le32(s, start + 4);
        let directory = le32(s, start + 8);
        if within(s, start + directory, 16 * count) {
            sized(
                s.len() as int,
                start,
                larger(directory + 16 * count, table_reach(s, wad_row(), start + directory, count)),
                90,
            )
        } else {
            None
        }
    }
}

/// WAD: the header points at the directory.
pub fn validate_wad(data: &[u8], start: usize) -> (r: Option<(usize, u8)>)
    ensures
        extent(r) == wad_extent(data@, start as int),
{
    if !fits(data, start, 12) {
        return None;
    }
    let count = read_le32(data, start + 4) as u64;
    let directory = read_le32(data, start + 8) as u64;
    let base = match advance(data, start, directory) {
        Some(base) => base,
        None => {
            return None;
        },
    };
    if advance(data, base, 16 * count).is_none() {
        return None;
    }
    let row = Row { width: 16, offset_at: 0, length_at: 4, is_be: false };
    let reach = table_end(data, row, base, count as usize);
    let max_end = if directory + 16 * count > reach {
        directory + 16 * count
    } else {
        reach
    };
    sized_extent(data, start, max_end, 90)
}

/// A row of the directory of a Quake PAK file.
pub open spec fn pak_row() -> Row {
    Row { width: 64, offset_at: 56, length_at: 60, is_be: false }
}

/// A Quake PAK file at `start`: it ends with its directory or with the furthest
/// of its files.
pub open spec fn pak_extent(s: Seq<u8>, start: int) -> Option<(int, int)> {
    if !within(s, start, 12) {
        None
    } else {
        let directory = le32(s, start + 4);
        let len = le32(s, start + 8);
        let reach = larger(directory + len, table_reach(s, pak_row(), start + directory, len / 64));
        if within(s, start + directory, len) && reach > 0 {
            sized(s.len() as int, start, reach, 90)
        } else {
            None
        }
    }
}

/// PAK: the header points at the directory.
pub fn validate_pak_quake(data: &[u8], start: usize) -> (r: Option<(usize, u8)>)
    ensures
        extent(r) == pak_extent(data@, start as int),
{
    if !fits(data, start, 12) {
        return None;
    }
    let directory = read_le32(data, start + 4) as u64;
    let len = read_le32(data, start + 8) as u64;
    let base = match advance(data, start, directory) {
        Some(base) => base,
        None => {
            return None;
        },
    };
    if advance(data, base, len).is_none() {
        return None;
    }
    let row = Row { width: 64, offset_at: 56, length_at: 60, is_be: false };
    let reach = table_end(data, row, base, (len / 64) as usize);
    let max_end = if directory + len > reach {
        directory + len
    } else {
        reach
    };
    if max_end == 0 {
        return None;
    }
    sized_extent(data, start, max_end, 90)
}

/// A row of the lump table of a Source engine map.
pub open spec fn vbsp_row() -> Row {
    Row { width: 16, offset_at: 0, length_at: 4, is_be: false }
}

/// A Source engine map at `start`: 17 lumps behind 8 bytes of header; it ends
/// with the furthest of them.
pub open spec fn vbsp_extent(s: Seq<u8>, start: int) -> Option<(int, int)> {
    if within(s, start, 280) {
        sized(s.len() as int, start, larger(280, table_reach(s, vbsp_row(), start + 8, 17)), 80)
    } else {
        None
    }
}

/// VBSP: the lump table follows the header.
pub fn validate_vbsp(data: &[u8], start: usize) -> (r: Option<(usize, u8)>)
    ensures
        extent(r) == vbsp_extent(data@, start as int),
{
    if !fits(data, start, 280) {
        return None;
    }
    let row = Row { width: 16, offset_at: 0, length_at: 4, is_be: false };
    let reach = table_end(data, row, start + 8, 17);
    let max_end = if 280 > reach {
        280
    } else {
        reach
    };
    sized_extent(data, start, max_end, 80)
}

/// An iNES ROM at `start`: header, optional trainer, program and character ROM
/// in units of 16 and 8 KiB.
pub open spec fn nes_extent(s: Seq<u8>, start: int) -> Option<(int, int)> {
    if within(s, start, 7) {
        let trainer: int = if flag(s[start + 6], 4) {
            512
        } else {
            0
        };
        sized(
            s.len() as int,
            start,
            16 + trainer + 16384 * s[start + 4] + 8192 * s[start + 5],
            85,
        )
    } else {
        None
    }
}

/// NES: the header counts the ROM units.
pub fn validate_nes(data: &[u8], start: usize) -> (r: Option<(usize, u8)>)
    ensures
        extent(r) == nes_extent(data@, start as int),
{
    if !fits(data, start, 7) {
        return None;
    }
    let trainer: u64 = if (data[start + 6] / 4) % 2 == 1 {
        512
    } else {
        0
    };
    let total = 16 + trainer + 16384 * data[start + 4] as u64 + 8192 * data[start + 5] as u64;
    sized_extent(data, start, total, 85)
}

/// A Unity asset bundle at `start`: behind two NUL-terminated texts its length
/// is declared, which cannot be negative.
pub open spec fn unityfs_extent(s: Seq<u8>, start: int) -> Option<(int, int)> {
    match cstring_end(s, start + 12) {
        None => None,
        Some(second) => match cstring_end(s, second) {
            None => None,
            Some(pos) => if within(s, pos, 8) && be64(s, pos) < SIGN_64 {
                sized(s.len() as int, start, be64(s, pos), 90)
            } else {
                None
            },
        },
    }
}

/// UnityFS: the length follows the version texts.
pub fn validate_unityfs(data: &[u8], start: usize) -> (r: Option<(usize, u8)>)
    ensures
        extent(r) == unityfs_extent(data@, start as int),
{
    let first = match advance(data, start, 12) {
        Some(first) => first,
        None => {
            return None;
        },
    };
    let second = skip_cstring(data, first)?;
    let pos = skip_cstring(data, second)?;
    if !fits(data, pos, 8) {
        return None;
    }
    let size = read_be64(data, pos);
    if size >= SIGN_64 {
        return None;
    }
    sized_extent(data, start, size, 90)
}

/// A version 2 VPK file at `start`: a 28-byte header that declares the sizes of
/// the five sections behind it.
pub open spec fn vpk_extent(s: Seq<u8>, start: int) -> Option<(int, int)> {
    if within(s, start, 28) && le32(s, start + 4) == 2 {
        sized(
            s.len() as int,
            start,
            28 + le32(s, start + 8) + le32(s, start + 12) + le32(s, start + 16) + le32(s, start + 20) + le32(
                s,
                start + 24,
            ),
            85,
        )
    } else {
        None
    }
}

/// VPK: the header declares the sizes of all sections.
pub fn validate_vpk(data: &[u8], start: usize) -> (r: Option<(usize, u8)>)
    ensures
        extent(r) == vpk_extent(data@, start as int),
{
    if !fits(data, start, 28) || read_le32(data, start + 4) != 2 {
        return None;
    }
    let tree = read_le32(data, start + 8) as u64;
    let files = read_le32(data, start + 12) as u64;
    let archive_md5 = read_le32(data, start + 16) as u64;
    let other_md5 = read_le32(data, start + 20) as u64;
    let signature = read_le32(data, start + 24) as u64;
    sized_extent(data, start, 28 + tree + files + archive_md5 + other_md5 + signature, 85)
}

} // verus!
