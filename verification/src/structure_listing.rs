//! The chunks, boxes, tables and sections inside files that are no archives.
use vstd::prelude::*;
use vstd::string::*;
use crate::bytes::{
    advance, be16, be32, be64, fits, num32, num64, read_be16, read_be32, read_be64, read_le32,
    read_le64, read_u32_at, within,
};
use crate::entries::{
    entries_of, joined, listing, no_entries, nonempty, prepend, push_entry, some_entries,
    ArchiveEntry,
};
use crate::executables::{is_fat_header, LC_SEGMENT, LC_SEGMENT_64};
use crate::goblin_model::{
    elf_model, parse_elf, parse_pe, pe_model, ElfLayout, PeSection,
};
use crate::names::{field_text, read_field_text};
use crate::numbers::{hex, push_hex};
use crate::text::{lossy, lossy_text, text_trim_end_of, trim_end_of};

verus! {

broadcast use {crate::slices::slice_len_bound, crate::entries::group_joined};

/// The first `n` tables in the directory of an sfnt font: tags and lengths.
pub open spec fn sfnt_tables(s: Seq<u8>, n: nat) -> Seq<(Seq<char>, int)> {
    Seq::new(n, |i: int| (lossy(s.subrange(12 + 16 * i, 16 + 16 * i)), be32(s, 24 + 16 * i)))
}

/// The tables of an sfnt font.
pub open spec fn sfnt_listing(s: Seq<u8>) -> Option<Seq<(Seq<char>, int)>> {
    let count = be16(s, 4);
    if within(s, 0, 6) && 0 < count <= 100 && within(s, 12, 16 * count) {
        Some(sfnt_tables(s, count as nat))
    } else {
        None
    }
}

/// TrueType and OpenType: the tables in the directory.
pub fn list_sfnt_tables(data: &[u8]) -> (r: Option<Vec<ArchiveEntry>>)
    ensures
        listing(r) == sfnt_listing(data@),
{
    if !fits(data, 0, 6) {
        return None;
    }
    let count = read_be16(data, 4) as usize;
    if count == 0 || count > 100 || !fits(data, 12, 16 * count) {
        return None;
    }
    let mut entries = no_entries();
    let mut i: usize = 0;
    while i < count
        invariant
            i <= count,
            12 + 16 * count <= data@.len(),
            entries_of(entries@) =~= sfnt_tables(data@, i as nat),
        decreases count - i,
    {
        let at = 12 + 16 * i;
        let name = lossy_text(vstd::slice::slice_subrange(data, at, at + 4));
        push_entry(&mut entries, name, read_be32(data, at + 12) as u64);
        i = i + 1;
    }
    Some(entries)
}

/// The PNG-style chunks from `pos` on: types and lengths. A chunk that lies
/// beyond the data is left out.
pub open spec fn png_chunks(s: Seq<u8>, pos: int) -> Option<Seq<(Seq<char>, int)>>
    decreases s.len() - pos,
{
    if !within(s, pos, 8) {
        None
    } else {
        let next = pos + 12 + be32(s, pos);
        if next > s.len() {
            Some(Seq::empty())
        } else {
            prepend(
                (lossy(s.subrange(pos + 4, pos + 8)), be32(s, pos)),
                if next == s.len() {
                    Some(Seq::empty())
                } else {
                    png_chunks(s, next)
                },
            )
        }
    }
}

/// The chunks of a PNG-style file with that signature.
pub open spec fn png_listing(s: Seq<u8>, signature: int) -> Option<Seq<(Seq<char>, int)>> {
    if within(s, 0, 8) && be64(s, 0) == signature {
        nonempty(png_chunks(s, 8))
    } else {
        None
    }
}

/// PNG, MNG and JNG: the chunks.
pub fn list_png_chunks(data: &[u8], signature: u64) -> (r: Option<Vec<ArchiveEntry>>)
    ensures
        listing(r) == png_listing(data@, signature as int),
{
    if !fits(data, 0, 8) || read_be64(data, 0) != signature {
        return None;
    }
    let mut pos: usize = 8;
    let mut entries = no_entries();
    loop
        invariant_except_break
            png_chunks(data@, 8) == joined(entries_of(entries@), png_chunks(data@, pos as int)),
        ensures
            png_chunks(data@, 8) == Some(entries_of(entries@)),
        decreases data@.len() - pos,
    {
        if !fits(data, pos, 8) {
            return None;
        }
        let length = read_be32(data, pos) as u64;
        let next = match advance(data, pos, 12 + length) {
            Some(next) => next,
            None => break,
        };
        let name = lossy_text(vstd::slice::slice_subrange(data, pos + 4, pos + 8));
        push_entry(&mut entries, name, length);
        pos = next;
        if pos == data.len() {
            break;
        }
    }
    some_entries(entries)
}

/// The chunks from `pos` on of a container that ends at `end`: identifiers and
/// sizes. A chunk takes an even number of bytes.
pub open spec fn container_chunks(s: Seq<u8>, pos: int, end: int, is_be: bool) -> Seq<(Seq<char>, int)>
    decreases end - pos,
{
    if pos + 8 > end {
        Seq::empty()
    } else {
        let size = num32(s, pos + 4, is_be);
        let next = pos + 8 + size + size % 2;
        seq![(lossy(s.subrange(pos, pos + 4)), size)] + if pos < next <= end {
            container_chunks(s, next, end, is_be)
        } else {
            Seq::empty()
        }
    }
}

/// Where a chunk container ends: where it says, or with the data.
pub open spec fn container_end(s: Seq<u8>, is_be: bool) -> int {
    let declared = 8 + num32(s, 4, is_be);
    if declared < s.len() {
        declared
    } else {
        s.len() as int
    }
}

/// The chunks of a RIFF (little-endian) or IFF (big-endian) container.
pub open spec fn container_listing(s: Seq<u8>, is_be: bool) -> Option<Seq<(Seq<char>, int)>> {
    if within(s, 0, 8) {
        nonempty(Some(container_chunks(s, 12, container_end(s, is_be), is_be)))
    } else {
        None
    }
}

fn list_chunk_container(data: &[u8], is_be: bool) -> (r: Option<Vec<ArchiveEntry>>)
    ensures
        listing(r) == container_listing(data@, is_be),
{
    if !fits(data, 0, 8) {
        return None;
    }
    let declared = 8 + read_u32_at(data, 4, is_be)? as u64;
    let end = if declared < data.len() as u64 {
        declared as usize
    } else {
        data.len()
    };
    let mut pos: usize = 12;
    let mut entries = no_entries();
    let ghost all = container_chunks(data@, 12, end as int, is_be);
    while pos <= end && end - pos >= 8
        invariant_except_break
            end <= data@.len(),
            Some(all) == joined(
                entries_of(entries@),
                Some(container_chunks(data@, pos as int, end as int, is_be)),
            ),
        ensures
            all == entries_of(entries@),
        decreases end - pos,
    {
        let size = match read_u32_at(data, pos + 4, is_be) {
            Some(size) => size as u64,
            None => break,
        };
        let name = lossy_text(vstd::slice::slice_subrange(data, pos, pos + 4));
        let ghost before = entries_of(entries@);
        let ghost entry = (name@, size as int);
        push_entry(&mut entries, name, size);
        let next = advance(data, pos, 8 + size + size % 2);
        proof {
            let here = container_chunks(data@, pos as int, end as int, is_be);
            let rest = if pos + 8 + size + size % 2 <= end {
                container_chunks(data@, pos + 8 + size + size % 2, end as int, is_be)
            } else {
                Seq::empty()
            };
            assert(here == seq![entry] + rest);
            assert(before + here == before.push(entry) + rest);
        }
        pos = match next {
            Some(next) if next <= end => next,
            _ => break,
        };
    }
    some_entries(entries)
}

/// RIFF: the chunks.
pub fn list_riff_chunks(data: &[u8]) -> (r: Option<Vec<ArchiveEntry>>)
    ensures
        listing(r) == container_listing(data@, false),
{
    list_chunk_container(data, false)
}

/// IFF: the chunks.
pub fn list_iff_chunks(data: &[u8]) -> (r: Option<Vec<ArchiveEntry>>)
    ensures
        listing(r) == container_listing(data@, true),
{
    list_chunk_container(data, true)
}

/// The ISO base media boxes from `pos` on: types and sizes. A box of size 0
/// takes the rest of the data; a last box may claim more than there is, but one
/// whose size is cut off does not count.
pub open spec fn isobmff_boxes(s: Seq<u8>, pos: int) -> Seq<(Seq<char>, int)>
    decreases s.len() - pos,
{
    if !within(s, pos, 8) {
        Seq::empty()
    } else {
        let name = lossy(s.subrange(pos + 4, pos + 8));
        let size = if be32(s, pos) == 1 {
            be64(s, pos + 8)
        } else {
            be32(s, pos)
        };
        if be32(s, pos) == 0 {
            seq![(name, s.len() - pos)]
        } else if (be32(s, pos) == 1 && !within(s, pos, 16)) || size < 8 {
            Seq::empty()
        } else if pos + size > s.len() {
            seq![(name, size)]
        } else {
            seq![(name, size)] + isobmff_boxes(s, pos + size)
        }
    }
}

/// ISO base media: the top-level boxes.
pub fn list_isobmff_boxes(data: &[u8]) -> (r: Option<Vec<ArchiveEntry>>)
    ensures
        listing(r) == nonempty(Some(isobmff_boxes(data@, 0))),
{
    let mut pos: usize = 0;
    let mut entries = no_entries();
    while fits(data, pos, 8)
        invariant_except_break
            isobmff_boxes(data@, 0) == entries_of(entries@) + isobmff_boxes(data@, pos as int),
        ensures
            isobmff_boxes(data@, 0) == entries_of(entries@),
        decreases data@.len() - pos,
    {
        let short_size = read_be32(data, pos);
        let name = lossy_text(vstd::slice::slice_subrange(data, pos + 4, pos + 8));
        let ghost before = entries_of(entries@);
        assert(before + Seq::<(Seq<char>, int)>::empty() == before);
        if short_size == 0 {
            let size = (data.len() - pos) as u64;
            assert(before + seq![(name@, size as int)] == before.push((name@, size as int)));
            push_entry(&mut entries, name, size);
            break;
        }
        let size = if short_size == 1 {
            if !fits(data, pos, 16) {
                break;
            }
            read_be64(data, pos + 8)
        } else {
            short_size as u64
        };
        if size < 8 {
            break;
        }
        proof {
            let entry = (name@, size as int);
            let rest = isobmff_boxes(data@, pos + size);
            assert(before + seq![entry] == before.push(entry));
            assert(before + (seq![entry] + rest) == before.push(entry) + rest);
        }
        push_entry(&mut entries, name, size);
        pos = match advance(data, pos, size) {
            Some(next) => next,
            None => break,
        };
    }
    assert(entries_of(entries@) + Seq::<(Seq<char>, int)>::empty() == entries_of(entries@));
    some_entries(entries)
}

/// The named sections among the first `n` of an ELF image: names and sizes.
pub open spec fn elf_sections(sections: Seq<(Option<Seq<char>>, u64)>, n: int) -> Seq<(Seq<char>, int)>
    decreases n,
{
    if n <= 0 {
        Seq::empty()
    } else {
        let before = elf_sections(sections, n - 1);
        match sections[n - 1].0 {
            Some(name) if name.len() > 0 => before.push((name, sections[n - 1].1 as int)),
            _ => before,
        }
    }
}

/// The named sections of an ELF image.
pub open spec fn elf_listing(s: Seq<u8>) -> Option<Seq<(Seq<char>, int)>> {
    match elf_model(s) {
        Some(elf) => nonempty(Some(elf_sections(elf.sections, elf.sections.len() as int))),
        None => None,
    }
}

/// The named sections of a parsed ELF image.
pub fn elf_section_entries(elf: &ElfLayout) -> (r: Option<Vec<ArchiveEntry>>)
    ensures
        listing(r) == nonempty(Some(elf_sections(elf@.sections, elf@.sections.len() as int))),
{
    let mut entries = no_entries();
    let mut i: usize = 0;
    while i < elf.sections.len()
        invariant
            i <= elf.sections@.len(),
            entries_of(entries@) == elf_sections(elf@.sections, i as int),
        decreases elf.sections@.len() - i,
    {
        assert(elf@.sections[i as int] == elf.sections@[i as int]@);
        match &elf.sections[i].name {
            Some(name) => {
                if name.as_str().unicode_len() > 0 {
                    push_entry(&mut entries, name.clone(), elf.sections[i].size);
                }
            },
            None => {},
        }
        i = i + 1;
    }
    some_entries(entries)
}

/// ELF: the sections that have a name.
pub fn list_elf_sections(data: &[u8]) -> (r: Option<Vec<ArchiveEntry>>)
    ensures
        listing(r) == elf_listing(data@),
{
    let elf = parse_elf(data)?;
    elf_section_entries(&elf)
}

/// The sections of a PE image: names without trailing NULs, and sizes. A name
/// that is no readable text counts as empty.
pub open spec fn pe_sections(sections: Seq<(Option<Seq<char>>, u32, u32)>) -> Seq<(Seq<char>, int)> {
    sections.map_values(
        |section: (Option<Seq<char>>, u32, u32)|
            (
                match section.0 {
                    Some(name) => trim_end_of(name, '\0'),
                    None => Seq::empty(),
                },
                section.2 as int,
            ),
    )
}

/// The sections of a PE image.
pub open spec fn pe_listing(s: Seq<u8>) -> Option<Seq<(Seq<char>, int)>> {
    match pe_model(s) {
        Some(sections) => nonempty(Some(pe_sections(sections))),
        None => None,
    }
}

/// The sections of a parsed PE image.
pub fn pe_section_entries(sections: &Vec<PeSection>) -> (r: Option<Vec<ArchiveEntry>>)
    ensures
        listing(r) == nonempty(
            Some(pe_sections(sections@.map_values(|section: PeSection| section@))),
        ),
{
    let ghost all = pe_sections(sections@.map_values(|section: PeSection| section@));
    let mut entries = no_entries();
    let mut i: usize = 0;
    while i < sections.len()
        invariant
            i <= sections@.len() == all.len(),
            all == pe_sections(sections@.map_values(|section: PeSection| section@)),
            entries_of(entries@) =~= all.take(i as int),
        decreases sections@.len() - i,
    {
        let name = match &sections[i].name {
            Some(name) => text_trim_end_of(name.as_str(), '\0'),
            None => String::new(),
        };
        push_entry(&mut entries, name, sections[i].size as u64);
        i = i + 1;
    }
    assert(all.take(i as int) == all);
    some_entries(entries)
}

/// PE: the sections.
pub fn list_pe_sections(data: &[u8]) -> (r: Option<Vec<ArchiveEntry>>)
    ensures
        listing(r) == pe_listing(data@),
{
    let sections = parse_pe(data)?;
    pe_section_entries(&sections)
}

/// The shape of a Mach-O segment command: where the number of its sections
/// stands, where its section headers begin, and how long each of them is.
pub open spec fn macho_segment_shape(is64: bool) -> (int, int, int) {
    if is64 {
        (64, 72, 80)
    } else {
        (48, 56, 68)
    }
}

/// The section whose header is at `pos` in the segment named `segment`.
pub open spec fn macho_section(
    s: Seq<u8>,
    pos: int,
    segment: Seq<char>,
    is64: bool,
    is_be: bool,
) -> (Seq<char>, int) {
    (
        segment + ","@ + field_text(s.subrange(pos, pos + 16)),
        if is64 {
            num64(s, pos + 40, is_be)
        } else {
            num32(s, pos + 36, is_be)
        },
    )
}

/// The `n` sections whose headers begin at `pos`, followed by what comes behind
/// their segment. `None` if a header lies outside `s`.
pub open spec fn macho_sections(
    s: Seq<u8>,
    pos: int,
    n: int,
    segment: Seq<char>,
    is64: bool,
    is_be: bool,
    rest: Option<Seq<(Seq<char>, int)>>,
) -> Option<Seq<(Seq<char>, int)>>
    decreases n,
{
    let len = macho_segment_shape(is64).2;
    if n <= 0 {
        rest
    } else if !within(s, pos, len) {
        None
    } else {
        prepend(
            macho_section(s, pos, segment, is64, is_be),
            macho_sections(s, pos + len, n - 1, segment, is64, is_be, rest),
        )
    }
}

/// The sections of the segments among the `n` Mach-O load commands from `pos`
/// on, named by segment and section.
pub open spec fn macho_commands(s: Seq<u8>, pos: int, n: int, is64: bool, is_be: bool) -> Option<
    Seq<(Seq<char>, int)>,
>
    decreases n,
{
    if n <= 0 {
        Some(Seq::empty())
    } else if !within(s, pos, 8) || num32(s, pos + 4, is_be) < 8 {
        None
    } else {
        let rest = macho_commands(s, pos + num32(s, pos + 4, is_be), n - 1, is64, is_be);
        let wanted = if is64 {
            LC_SEGMENT_64
        } else {
            LC_SEGMENT
        };
        let (count_at, first, len) = macho_segment_shape(is64);
        if num32(s, pos, is_be) != wanted {
            rest
        } else if !within(s, pos, count_at + 4) {
            None
        } else {
            macho_sections(
                s,
                pos + first,
                num32(s, pos + count_at, is_be),
                field_text(s.subrange(pos + 8, pos + 24)),
                is64,
                is_be,
                rest,
            )
        }
    }
}

/// The sections of a Mach-O image.
pub open spec fn macho_listing(s: Seq<u8>, is64: bool, is_be: bool) -> Option<Seq<(Seq<char>, int)>> {
    let header: int = if is64 {
        32
    } else {
        28
    };
    if within(s, 16, 4) {
        nonempty(macho_commands(s, header, num32(s, 16, is_be), is64, is_be))
    } else {
        None
    }
}

/// Appends the `n` sections whose headers begin at `first`.
fn push_macho_sections(
    entries: &mut Vec<ArchiveEntry>,
    data: &[u8],
    first: Option<usize>,
    n: u32,
    segment: &String,
    is64: bool,
    is_be: bool,
    Ghost(at): Ghost<int>,
    Ghost(rest): Ghost<Option<Seq<(Seq<char>, int)>>>,
) -> (r: bool)
    requires
        first matches Some(p) ==> p == at && p <= data@.len(),
        first is None ==> at > data@.len(),
    ensures
        r ==> joined(entries_of(final(entries)@), rest) == joined(
            entries_of(old(entries)@),
            macho_sections(data@, at, n as int, segment@, is64, is_be, rest),
        ),
        !r ==> macho_sections(data@, at, n as int, segment@, is64, is_be, rest) is None,
{
    let len: usize = if is64 {
        80
    } else {
        68
    };
    let ghost before = entries_of(entries@);
    let ghost all = macho_sections(data@, at, n as int, segment@, is64, is_be, rest);
    let ghost mut here = at;
    let mut next = first;
    let mut left = n;
    while left > 0
        invariant
            len == macho_segment_shape(is64).2,
            next matches Some(p) ==> p == here && p <= data@.len(),
            next is None ==> here > data@.len(),
            joined(before, all) == joined(
                entries_of(entries@),
                macho_sections(data@, here, left as int, segment@, is64, is_be, rest),
            ),
            all == macho_sections(data@, at, n as int, segment@, is64, is_be, rest),
        decreases left,
    {
        let pos = match next {
            Some(pos) => pos,
            None => {
                return false;
            },
        };
        if !fits(data, pos, len) {
            return false;
        }
        let mut name = segment.clone();
        name.append(",");
        name.append(read_field_text(data, pos, pos + 16).as_str());
        let size = if is64 {
            if is_be {
                read_be64(data, pos + 40)
            } else {
                read_le64(data, pos + 40)
            }
        } else if is_be {
            read_be32(data, pos + 36) as u64
        } else {
            read_le32(data, pos + 36) as u64
        };
        push_entry(entries, name, size);
        next = advance(data, pos, len as u64);
        proof {
            here = here + len;
        }
        left = left - 1;
    }
    true
}

/// Mach-O: the sections of all segments.
pub fn list_macho_sections(data: &[u8], is64: bool, is_be: bool) -> (r: Option<Vec<ArchiveEntry>>)
    ensures
        listing(r) == macho_listing(data@, is64, is_be),
{
    let ncmds = read_u32_at(data, 16, is_be)?;
    let header: u64 = if is64 {
        32
    } else {
        28
    };
    let (count_at, first_at): (usize, u64) = if is64 {
        (64, 72)
    } else {
        (48, 56)
    };
    let wanted = if is64 {
        LC_SEGMENT_64
    } else {
        LC_SEGMENT
    };
    let ghost all = macho_commands(data@, header as int, ncmds as int, is64, is_be);
    let mut entries = no_entries();
    // `None` once the next command would begin outside the data.
    let mut next = advance(data, 0, header);
    let ghost mut at: int = header as int;
    let mut left = ncmds;
    while left > 0
        invariant
            macho_segment_shape(is64).0 == count_at,
            macho_segment_shape(is64).1 == first_at,
            count_at <= 64,
            first_at <= 72,
            wanted == if is64 {
                LC_SEGMENT_64
            } else {
                LC_SEGMENT
            },
            next matches Some(p) ==> p == at && p <= data@.len(),
            next is None ==> at > data@.len(),
            macho_listing(data@, is64, is_be) == nonempty(all),
            all == joined(
                entries_of(entries@),
                macho_commands(data@, at, left as int, is64, is_be),
            ),
        decreases left,
    {
        let pos = match next {
            Some(pos) => pos,
            None => {
                return None;
            },
        };
        if !fits(data, pos, 8) {
            return None;
        }
        let cmd = match read_u32_at(data, pos, is_be) {
            Some(cmd) => cmd,
            None => {
                return None;
            },
        };
        let size = match read_u32_at(data, pos + 4, is_be) {
            Some(size) => size,
            None => {
                return None;
            },
        };
        if size < 8 {
            return None;
        }
        if cmd == wanted {
            if !fits(data, pos, count_at + 4) {
                return None;
            }
            let segment = read_field_text(data, pos + 8, pos + 24);
            let count = match read_u32_at(data, pos + count_at, is_be) {
                Some(count) => count,
                None => {
                    return None;
                },
            };
            let first = advance(data, pos, first_at);
            let pushed = push_macho_sections(
                &mut entries,
                data,
                first,
                count,
                &segment,
                is64,
                is_be,
                Ghost(pos + first_at),
                Ghost(macho_commands(data@, at + size, left - 1, is64, is_be)),
            );
            if !pushed {
                return None;
            }
        }
        next = advance(data, pos, size as u64);
        proof {
            at = at + size;
        }
        left = left - 1;
    }
    some_entries(entries)
}

/// The name of a Mach-O processor type.
pub open spec fn cputype_name(cputype: int) -> Seq<char> {
    if cputype == 0x0000_0007 {
        "x86"@
    } else if cputype == 0x0100_0007 {
        "x86_64"@
    } else if cputype == 0x0000_000C {
        "arm"@
    } else if cputype == 0x0100_000C {
        "arm64"@
    } else if cputype == 0x0000_0012 {
        "ppc"@
    } else if cputype == 0x0100_0012 {
        "ppc64"@
    } else {
        "cputype 0x"@ + hex(cputype as nat)
    }
}

/// The name of a Mach-O processor type, given as its 32 bits; uncommon ones are
/// shown as a number.
pub fn macho_cputype_name(cputype: u32) -> (r: String)
    ensures
        r@ == cputype_name(cputype as int),
{
    if cputype == 0x0000_0007 {
        "x86".to_owned()
    } else if cputype == 0x0100_0007 {
        "x86_64".to_owned()
    } else if cputype == 0x0000_000C {
        "arm".to_owned()
    } else if cputype == 0x0100_000C {
        "arm64".to_owned()
    } else if cputype == 0x0000_0012 {
        "ppc".to_owned()
    } else if cputype == 0x0100_0012 {
        "ppc64".to_owned()
    } else {
        let mut name = "cputype 0x".to_owned();
        push_hex(&mut name, cputype as u64);
        name
    }
}

/// The first `n` images of a universal binary: processor types and sizes.
pub open spec fn fat_archs(s: Seq<u8>, n: nat) -> Seq<(Seq<char>, int)> {
    Seq::new(n, |i: int| (cputype_name(be32(s, 8 + 20 * i)), be32(s, 20 + 20 * i)))
}

/// The images of a universal binary.
pub open spec fn fat_listing(s: Seq<u8>) -> Option<Seq<(Seq<char>, int)>> {
    if is_fat_header(s, 0) {
        Some(fat_archs(s, be32(s, 4) as nat))
    } else {
        None
    }
}

/// Mach-O universal binary: the images.
pub fn list_macho_fat_archs(data: &[u8]) -> (r: Option<Vec<ArchiveEntry>>)
    ensures
        listing(r) == fat_listing(data@),
{
    if !fits(data, 0, 8) || read_be32(data, 0) != 0xCAFE_BABE {
        return None;
    }
    let count = read_be32(data, 4) as usize;
    if count == 0 || count > 100 || !fits(data, 8, 20 * count) {
        return None;
    }
    let mut entries = no_entries();
    let mut i: usize = 0;
    while i < count
        invariant
            i <= count,
            8 + 20 * count <= data@.len(),
            entries_of(entries@) =~= fat_archs(data@, i as nat),
        decreases count - i,
    {
        let at = 8 + 20 * i;
        let name = macho_cputype_name(read_be32(data, at));
        push_entry(&mut entries, name, read_be32(data, at + 12) as u64);
        i = i + 1;
    }
    Some(entries)
}

} // verus!
