//! Boundaries of executables and object files.
use vstd::prelude::*;
use crate::bytes::{
    advance, be16, be32, be64, extent, fits, le32, num32, num64, read_be16, read_be32, read_be64,
    read_le32, read_u32_at, read_u64_at, sized, sized_extent, within,
};
use crate::goblin_model::{
    elf_model, parse_elf, parse_pe, pe_model, ElfLayout, ElfModel, PeSection,
};
use crate::tables::{larger, table_end, table_reach, Row};

verus! {

broadcast use crate::slices::slice_len_bound;

/// The load command of a 32-bit segment.
pub const LC_SEGMENT: u32 = 0x1;

/// The load command of the symbol table.
pub const LC_SYMTAB: u32 = 0x2;

/// The load command of a 64-bit segment.
pub const LC_SEGMENT_64: u32 = 0x19;

/// The load command of the code signature.
pub const LC_CODE_SIGNATURE: u32 = 0x1D;

/// How far the file range reaches, from the start of the image, that the
/// Mach-O load command at `pos` describes; 0 for a command without one. `None`
/// if the command lies outside `s`.
pub open spec fn macho_command_reach(s: Seq<u8>, pos: int, is64: bool, is_be: bool) -> Option<int> {
    let cmd = num32(s, pos, is_be);
    let size = num32(s, pos + 4, is_be);
    if cmd == LC_SEGMENT && size >= 56 {
        if within(s, pos, 40) {
            Some(num32(s, pos + 32, is_be) + num32(s, pos + 36, is_be))
        } else {
            None
        }
    } else if cmd == LC_SEGMENT_64 && size >= 72 {
        if within(s, pos, 56) {
            Some(num64(s, pos + 40, is_be) + num64(s, pos + 48, is_be))
        } else {
            None
        }
    } else if cmd == LC_SYMTAB && size >= 24 {
        if within(s, pos, 24) {
            let symbols = num32(s, pos + 8, is_be) + num32(s, pos + 12, is_be) * (if is64 {
                16int
            } else {
                12int
            });
            let strings = num32(s, pos + 16, is_be) + num32(s, pos + 20, is_be);
            Some(larger(symbols, strings))
        } else {
            None
        }
    } else if cmd == LC_CODE_SIGNATURE && size >= 16 {
        if within(s, pos, 16) {
            Some(num32(s, pos + 8, is_be) + num32(s, pos + 12, is_be))
        } else {
            None
        }
    } else {
        Some(0)
    }
}

/// How far the `n` Mach-O load commands from `pos` on and what came before them
/// (`reach`) extend.
pub open spec fn macho_reach(s: Seq<u8>, pos: int, n: int, is64: bool, is_be: bool, reach: int) -> Option<int>
    decreases n,
{
    if n <= 0 {
        Some(reach)
    } else if !within(s, pos, 8) || num32(s, pos + 4, is_be) < 8 {
        None
    } else {
        match macho_command_reach(s, pos, is64, is_be) {
            Some(r) => macho_reach(
                s,
                pos + num32(s, pos + 4, is_be),
                n - 1,
                is64,
                is_be,
                larger(reach, r),
            ),
            None => None,
        }
    }
}

/// A Mach-O image at `start`: it ends with the furthest of its load commands,
/// segments, symbol tables and code signature.
pub open spec fn macho_extent(s: Seq<u8>, start: int, is64: bool, is_be: bool) -> Option<(int, int)> {
    if !within(s, start, 24) {
        None
    } else {
        let header: int = if is64 {
            32
        } else {
            28
        };
        let n = num32(s, start + 16, is_be);
        match macho_reach(s, start + header, n, is64, is_be, header + num32(s, start + 20, is_be)) {
            Some(reach) => sized(s.len() as int, start, reach, 80),
            None => None,
        }
    }
}

fn command_reach(data: &[u8], pos: usize, is64: bool, is_be: bool) -> (r: Option<u128>)
    requires
        within(data@, pos as int, 8),
    ensures
        r is Some <==> macho_command_reach(data@, pos as int, is64, is_be) is Some,
        r matches Some(reach) ==> macho_command_reach(data@, pos as int, is64, is_be) == Some(
            reach as int,
        ) && reach < 0x2_0000_0000_0000_0000,
{
    let cmd = read_u32_at(data, pos, is_be)?;
    let size = read_u32_at(data, pos + 4, is_be)?;
    if cmd == LC_SEGMENT && size >= 56 {
        if !fits(data, pos, 40) {
            return None;
        }
        let offset = read_u32_at(data, pos + 32, is_be)?;
        let len = read_u32_at(data, pos + 36, is_be)?;
        Some(offset as u128 + len as u128)
    } else if cmd == LC_SEGMENT_64 && size >= 72 {
        if !fits(data, pos, 56) {
            return None;
        }
        let offset = read_u64_at(data, pos + 40, is_be)?;
        let len = read_u64_at(data, pos + 48, is_be)?;
        Some(offset as u128 + len as u128)
    } else if cmd == LC_SYMTAB && size >= 24 {
        if !fits(data, pos, 24) {
            return None;
        }
        let symbol_offset = read_u32_at(data, pos + 8, is_be)?;
        let symbol_count = read_u32_at(data, pos + 12, is_be)?;
        let string_offset = read_u32_at(data, pos + 16, is_be)?;
        let string_len = read_u32_at(data, pos + 20, is_be)?;
        let symbols = symbol_offset as u128 + if is64 {
            16 * symbol_count as u128
        } else {
            12 * symbol_count as u128
        };
        let strings = string_offset as u128 + string_len as u128;
        Some(if symbols > strings {
            symbols
        } else {
            strings
        })
    } else if cmd == LC_CODE_SIGNATURE && size >= 16 {
        if !fits(data, pos, 16) {
            return None;
        }
        let offset = read_u32_at(data, pos + 8, is_be)?;
        let len = read_u32_at(data, pos + 12, is_be)?;
        Some(offset as u128 + len as u128)
    } else {
        Some(0)
    }
}

fn validate_macho_generic(data: &[u8], start: usize, is64: bool, is_be: bool) -> (r: Option<(usize, u8)>)
    ensures
        extent(r) == macho_extent(data@, start as int, is64, is_be),
{
    if !fits(data, start, 24) {
        return None;
    }
    let header: u64 = if is64 {
        32
    } else {
        28
    };
    let ncmds = read_u32_at(data, start + 16, is_be)?;
    let sizeofcmds = read_u32_at(data, start + 20, is_be)?;
    let mut reach: u128 = header as u128 + sizeofcmds as u128;
    // `None` once the next command would begin outside the data.
    let mut next = advance(data, start, header);
    let ghost mut pos: int = start + header;
    let mut i: u32 = 0;
    while i < ncmds
        invariant
            i <= ncmds,
            next matches Some(p) ==> p == pos && p <= data@.len(),
            next is None ==> pos > data@.len(),
            reach < 0x2_0000_0000_0000_0000,
            macho_extent(data@, start as int, is64, is_be) == match macho_reach(
                data@,
                pos,
                ncmds - i,
                is64,
                is_be,
                reach as int,
            ) {
                Some(r) => sized(data@.len() as int, start as int, r, 80),
                None => None,
            },
        decreases ncmds - i,
    {
        let at = match next {
            Some(at) => at,
            None => {
                return None;
            },
        };
        if !fits(data, at, 8) {
            return None;
        }
        let size = read_u32_at(data, at + 4, is_be)?;
        if size < 8 {
            return None;
        }
        let end = command_reach(data, at, is64, is_be)?;
        if end > reach {
            reach = end;
        }
        next = advance(data, at, size as u64);
        proof {
            pos = pos + size;
        }
        i = i + 1;
    }
    if reach > u64::MAX as u128 {
        return None;
    }
    sized_extent(data, start, reach as u64, 80)
}

/// Mach-O, 32 bits, big-endian.
pub fn validate_macho_32be(data: &[u8], start: usize) -> (r: Option<(usize, u8)>)
    ensures
        extent(r) == macho_extent(data@, start as int, false, true),
{
    validate_macho_generic(data, start, false, true)
}

/// Mach-O, 32 bits, little-endian.
pub fn validate_macho_32le(data: &[u8], start: usize) -> (r: Option<(usize, u8)>)
    ensures
        extent(r) == macho_extent(data@, start as int, false, false),
{
    validate_macho_generic(data, start, false, false)
}

/// Mach-O, 64 bits, big-endian.
pub fn validate_macho_64be(data: &[u8], start: usize) -> (r: Option<(usize, u8)>)
    ensures
        extent(r) == macho_extent(data@, start as int, true, true),
{
    validate_macho_generic(data, start, true, true)
}

/// Mach-O, 64 bits, little-endian.
pub fn validate_macho_64le(data: &[u8], start: usize) -> (r: Option<(usize, u8)>)
    ensures
        extent(r) == macho_extent(data@, start as int, true, false),
{
    validate_macho_generic(data, start, true, false)
}

/// A universal binary with a plausible number of architectures, all of whose
/// directory entries lie inside `s`, begins at `start`.
pub open spec fn is_fat_header(s: Seq<u8>, start: int) -> bool {
    &&& within(s, start, 8)
    &&& be32(s, start) == 0xCAFE_BABE
    &&& 0 < be32(s, start + 4) <= 100
    &&& within(s, start + 8, 20 * be32(s, start + 4))
}

/// A row of the directory of a universal binary.
pub open spec fn fat_row() -> Row {
    Row { width: 20, offset_at: 8, length_at: 12, is_be: true }
}

/// A universal binary at `start`: it ends with the furthest of its images.
pub open spec fn macho_fat_extent(s: Seq<u8>, start: int) -> Option<(int, int)> {
    if is_fat_header(s, start) {
        image_extent(
            s.len() as int,
            start,
            table_reach(s, fat_row(), start + 8, be32(s, start + 4)),
            90,
        )
    } else {
        None
    }
}

/// Mach-O universal binary.
pub fn validate_macho_fat(data: &[u8], start: usize) -> (r: Option<(usize, u8)>)
    ensures
        extent(r) == macho_fat_extent(data@, start as int),
{
    if !fits(data, start, 8) || read_be32(data, start) != 0xCAFE_BABE {
        return None;
    }
    let count = read_be32(data, start + 4) as usize;
    if count == 0 || count > 100 || !fits(data, start + 8, 20 * count) {
        return None;
    }
    let row = Row { width: 20, offset_at: 8, length_at: 12, is_be: true };
    let max_end = table_end(data, row, start + 8, count);
    if max_end == 0 {
        return None;
    }
    sized_extent(data, start, max_end, 90)
}

/// A section header of a PEF container.
pub open spec fn pef_row() -> Row {
    Row { width: 28, offset_at: 20, length_at: 16, is_be: true }
}

/// A PEF container at `start`: it ends with the furthest of its sections.
pub open spec fn pef_extent(s: Seq<u8>, start: int) -> Option<(int, int)> {
    if within(s, start, 34) && be64(s, start) == 0x4A6F_7921_7065_6666 {
        let count = be16(s, start + 32);
        if count > 0 && within(s, start + 40, 28 * count) {
            image_extent(s.len() as int, start, table_reach(s, pef_row(), start + 40, count), 85)
        } else {
            None
        }
    } else {
        None
    }
}

/// PEF: the container header counts the section headers that follow it.
pub fn validate_pef(data: &[u8], start: usize) -> (r: Option<(usize, u8)>)
    ensures
        extent(r) == pef_extent(data@, start as int),
{
    if !fits(data, start, 34) || read_be64(data, start) != 0x4A6F_7921_7065_6666 {
        return None;
    }
    let count = read_be16(data, start + 32) as usize;
    if count == 0 || !fits(data, start, 40) || !fits(data, start + 40, 28 * count) {
        return None;
    }
    let row = Row { width: 28, offset_at: 20, length_at: 16, is_be: true };
    let max_end = table_end(data, row, start + 40, count);
    if max_end == 0 {
        return None;
    }
    sized_extent(data, start, max_end, 85)
}

/// How far the first `n` segments of an ELF image reach.
pub open spec fn segments_reach(segments: Seq<(u64, u64)>, n: int) -> int
    decreases n,
{
    if n <= 0 {
        0
    } else {
        larger(segments_reach(segments, n - 1), segments[n - 1].0 + segments[n - 1].1)
    }
}

/// How far an ELF image reaches: to the end of its section header table or of
/// its furthest segment.
pub open spec fn elf_reach(elf: ElfModel) -> int {
    let table = if elf.section_count > 0 {
        elf.section_table_offset + elf.section_entry_size * elf.section_count
    } else {
        0
    };
    larger(table, segments_reach(elf.segments, elf.segments.len() as int))
}

/// The extent of an image at `start` that reaches that far.
pub open spec fn image_extent(len: int, start: int, reach: int, confidence: int) -> Option<(int, int)> {
    if reach > 0 {
        sized(len, start, reach, confidence)
    } else {
        None
    }
}

/// An ELF image at `start`.
pub open spec fn elf_extent(s: Seq<u8>, start: int) -> Option<(int, int)> {
    if start > s.len() {
        None
    } else {
        match elf_model(s.skip(start)) {
            Some(elf) => image_extent(s.len() as int, start, elf_reach(elf), 80),
            None => None,
        }
    }
}

/// The extent of a parsed ELF image at `start`.
pub fn elf_image_extent(data: &[u8], start: usize, elf: &ElfLayout) -> (r: Option<(usize, u8)>)
    ensures
        extent(r) == image_extent(data@.len() as int, start as int, elf_reach(elf@), 80),
{
    let mut reach: u128 = 0;
    if elf.section_count > 0 {
        assert(elf.section_entry_size * elf.section_count <= 0xFFFF * 0xFFFF) by (nonlinear_arith)
            requires
                elf.section_entry_size <= 0xFFFF,
                elf.section_count <= 0xFFFF,
        ;
        let table = elf.section_entry_size as u64 * elf.section_count as u64;
        reach = elf.section_table_offset as u128 + table as u128;
    }
    let ghost table = reach as int;
    let mut i: usize = 0;
    while i < elf.segments.len()
        invariant
            i <= elf.segments@.len(),
            0 <= table,
            reach < 0x2_0000_0000_0000_0000,
            reach == larger(table, segments_reach(elf.segments@, i as int)),
        decreases elf.segments@.len() - i,
    {
        let end = elf.segments[i].0 as u128 + elf.segments[i].1 as u128;
        if end > reach {
            reach = end;
        }
        i = i + 1;
    }
    if reach == 0 || reach > u64::MAX as u128 {
        return None;
    }
    sized_extent(data, start, reach as u64, 80)
}

/// ELF: the end of the section header table or of the furthest segment.
pub fn validate_elf(data: &[u8], start: usize) -> (r: Option<(usize, u8)>)
    ensures
        extent(r) == elf_extent(data@, start as int),
{
    if start > data.len() {
        return None;
    }
    let bytes = vstd::slice::slice_subrange(data, start, data.len());
    assert(bytes@ == data@.skip(start as int));
    let elf = parse_elf(bytes)?;
    elf_image_extent(data, start, &elf)
}

/// How far the first `n` sections of a PE image reach.
pub open spec fn pe_reach(sections: Seq<(Option<Seq<char>>, u32, u32)>, n: int) -> int
    decreases n,
{
    if n <= 0 {
        0
    } else {
        larger(pe_reach(sections, n - 1), sections[n - 1].1 + sections[n - 1].2)
    }
}

/// A PE image at `start`: it ends with the furthest of its sections.
pub open spec fn pe_extent(s: Seq<u8>, start: int) -> Option<(int, int)> {
    if start > s.len() {
        None
    } else {
        match pe_model(s.skip(start)) {
            Some(sections) => image_extent(
                s.len() as int,
                start,
                pe_reach(sections, sections.len() as int),
                75,
            ),
            None => None,
        }
    }
}

/// The extent of a parsed PE image at `start`.
pub fn pe_image_extent(data: &[u8], start: usize, sections: &Vec<PeSection>) -> (r: Option<(usize, u8)>)
    ensures
        extent(r) == image_extent(
            data@.len() as int,
            start as int,
            pe_reach(
                sections@.map_values(|section: PeSection| section@),
                sections@.len() as int,
            ),
            75,
        ),
{
    let ghost model = sections@.map_values(|section: PeSection| section@);
    let mut reach: u64 = 0;
    let mut i: usize = 0;
    while i < sections.len()
        invariant
            i <= sections@.len(),
            model == sections@.map_values(|section: PeSection| section@),
            reach == pe_reach(model, i as int),
        decreases sections@.len() - i,
    {
        assert(model[i as int] == sections@[i as int]@);
        let end = sections[i].offset as u64 + sections[i].size as u64;
        if end > reach {
            reach = end;
        }
        i = i + 1;
    }
    if reach == 0 {
        return None;
    }
    sized_extent(data, start, reach, 75)
}

/// PE: the end of the furthest section. A signature behind the sections is not
/// counted.
pub fn validate_pe(data: &[u8], start: usize) -> (r: Option<(usize, u8)>)
    ensures
        extent(r) == pe_extent(data@, start as int),
{
    if start > data.len() {
        return None;
    }
    let bytes = vstd::slice::slice_subrange(data, start, data.len());
    assert(bytes@ == data@.skip(start as int));
    let sections = parse_pe(bytes)?;
    pe_image_extent(data, start, &sections)
}

/// A Dalvik executable at `start`, which declares its own length.
pub open spec fn dex_extent(s: Seq<u8>, start: int) -> Option<(int, int)> {
    if within(s, start, 36) {
        sized(s.len() as int, start, le32(s, start + 32), 90)
    } else {
        None
    }
}

/// DEX: the length stands in the header.
pub fn validate_dex(data: &[u8], start: usize) -> (r: Option<(usize, u8)>)
    ensures
        extent(r) == dex_extent(data@, start as int),
{
    if !fits(data, start, 36) {
        return None;
    }
    sized_extent(data, start, read_le32(data, start + 32) as u64, 90)
}

} // verus!
