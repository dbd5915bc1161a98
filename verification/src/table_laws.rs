//! Files with a directory end with the part that reaches furthest, and are listed by it.
use vstd::prelude::*;
use crate::archive_listing::{pak_listing, wad_listing};
use crate::documents::{apple_extent, sfnt_extent};
use crate::executables::{
    elf_reach, image_extent, macho_fat_extent, pe_reach, pef_extent, segments_reach,
};
use crate::games::{pak_extent, vbsp_extent, wad_extent};
use crate::goblin_model::ElfModel;
use crate::header_laws::ends_after;
use crate::images::{ico_entry, ico_entry_sound, ico_extent, ico_reach};
use crate::names::{field_text, pak_name, wad_name};
use crate::numeral_laws::{is_free_of_nul, law_field_gives_the_name_back, nuls};
use crate::structure_listing::{
    cputype_name, elf_sections, fat_listing, pe_sections, sfnt_listing,
};
use crate::tables::{larger, table_reach, Row};
use crate::text::{lossy, trim, trim_end_of};
use crate::writing::{
    be16_bytes, be32_bytes, be64_bytes, holds_at, is_u16, is_u32, le16_bytes, le32_bytes, num32_bytes,
};

verus! {

broadcast use crate::writing::group_reads;

/// In rows of `width` bytes from `pos` on stand offsets and lengths, each in its place.
pub open spec fn has_rows(
    s: Seq<u8>,
    pos: int,
    width: int,
    offset_at: int,
    length_at: int,
    is_be: bool,
    rows: Seq<(int, int)>,
) -> bool {
    forall|i: int|
        0 <= i < rows.len() ==> {
            let row = #[trigger] rows[i];
            &&& is_u32(row.0) && is_u32(row.1)
            &&& holds_at(s, pos + width * i + offset_at, num32_bytes(row.0, is_be))
            &&& holds_at(s, pos + width * i + length_at, num32_bytes(row.1, is_be))
        }
}

/// All parts end within `total` bytes, and one of them, or the first `least` bytes, ends
/// with the last of these.
pub open spec fn is_furthest(rows: Seq<(int, int)>, least: int, total: int) -> bool {
    &&& 0 <= least <= total
    &&& forall|i: int| 0 <= i < rows.len() ==> (#[trigger] rows[i]).0 + rows[i].1 <= total
    &&& total == least || exists|i: int|
        0 <= i < rows.len() && (#[trigger] rows[i]).0 + rows[i].1 == total
}

proof fn lemma_rows_rest(
    s: Seq<u8>,
    pos: int,
    width: int,
    offset_at: int,
    length_at: int,
    is_be: bool,
    rows: Seq<(int, int)>,
)
    requires
        has_rows(s, pos, width, offset_at, length_at, is_be, rows),
        rows.len() > 0,
    ensures
        has_rows(s, pos + width, width, offset_at, length_at, is_be, rows.skip(1)),
{
    let rest = rows.skip(1);
    assert forall|i: int| 0 <= i < rest.len() implies {
        let row = #[trigger] rest[i];
        &&& is_u32(row.0) && is_u32(row.1)
        &&& holds_at(s, pos + width + width * i + offset_at, num32_bytes(row.0, is_be))
        &&& holds_at(s, pos + width + width * i + length_at, num32_bytes(row.1, is_be))
    } by {
        assert(rest[i] == rows[i + 1]);
        assert(width * (i + 1) == width + width * i) by (nonlinear_arith);
    }
}

proof fn lemma_reach_bounds(s: Seq<u8>, row: Row, pos: int, rows: Seq<(int, int)>)
    requires
        has_rows(
            s,
            pos,
            row.width as int,
            row.offset_at as int,
            row.length_at as int,
            row.is_be,
            rows,
        ),
    ensures
        ({
            let reach = table_reach(s, row, pos, rows.len() as int);
            &&& forall|i: int| 0 <= i < rows.len() ==> (#[trigger] rows[i]).0 + rows[i].1 <= reach
            &&& reach == 0 || exists|i: int|
                0 <= i < rows.len() && (#[trigger] rows[i]).0 + rows[i].1 == reach
            &&& reach >= 0
        }),
    decreases rows.len(),
{
    if rows.len() > 0 {
        let (w, a, b, o) = (row.width as int, row.offset_at as int, row.length_at as int, row.is_be);
        let rest = rows.skip(1);
        lemma_rows_rest(s, pos, w, a, b, o, rows);
        lemma_reach_bounds(s, row, pos + w, rest);
        let first = rows[0];
        assert(w * 0 == 0);
        assert(holds_at(s, pos + w * 0 + a, num32_bytes(first.0, o)));
        assert(holds_at(s, pos + w * 0 + b, num32_bytes(first.1, o)));
        assert(row.end(s, pos) == first.0 + first.1);
        let tail = table_reach(s, row, pos + w, rest.len() as int);
        let reach = table_reach(s, row, pos, rows.len() as int);
        assert(reach == larger(first.0 + first.1, tail));
        assert forall|i: int| 0 <= i < rows.len() implies (#[trigger] rows[i]).0 + rows[i].1 <= reach by {
            if i > 0 {
                assert(rest[i - 1] == rows[i]);
            }
        }
        if reach == tail && tail != 0 {
            let i = choose|i: int| 0 <= i < rest.len() && (#[trigger] rest[i]).0 + rest[i].1 == tail;
            assert(rows[i + 1] == rest[i]);
        } else {
            assert(rows[0].0 + rows[0].1 == reach || reach == 0);
        }
    }
}

/// The furthest of the rows is as far as the furthest of what they were written from.
proof fn lemma_reach(s: Seq<u8>, row: Row, pos: int, rows: Seq<(int, int)>, least: int, total: int)
    requires
        has_rows(
            s,
            pos,
            row.width as int,
            row.offset_at as int,
            row.length_at as int,
            row.is_be,
            rows,
        ),
        is_furthest(rows, least, total),
    ensures
        larger(least, table_reach(s, row, pos, rows.len() as int)) == total,
{
    lemma_reach_bounds(s, row, pos, rows);
}

/// WAD: the number of lumps and where the directory stands, of which each row gives the
/// offset and the size of a lump. The file ends with the lump that reaches furthest, or
/// with the directory.
pub proof fn law_wad_ends_with_its_furthest_part(
    s: Seq<u8>,
    start: int,
    tag: Seq<u8>,
    directory: int,
    rows: Seq<(int, int)>,
    total: int,
)
    requires
        tag.len() == 4,
        is_u32(rows.len() as int) && is_u32(directory),
        holds_at(s, start, tag + le32_bytes(rows.len() as int) + le32_bytes(directory)),
        start + directory + 16 * rows.len() <= s.len(),
        has_rows(s, start + directory, 16, 0, 4, false, rows),
        is_furthest(rows, directory + 16 * rows.len(), total),
        total > 0,
    ensures
        ends_after(wad_extent(s, start), s, start, total, 90),
{
    let row = Row { width: 16, offset_at: 0, length_at: 4, is_be: false };
    lemma_reach(s, row, start + directory, rows, directory + 16 * rows.len(), total);
}

/// Quake PAK: where the directory stands and how long it is, of which each row of 64 bytes
/// gives the offset and the size of a file.
pub proof fn law_pak_ends_with_its_furthest_part(
    s: Seq<u8>,
    start: int,
    tag: Seq<u8>,
    directory: int,
    rows: Seq<(int, int)>,
    total: int,
)
    requires
        tag.len() == 4,
        is_u32(64 * rows.len() as int) && is_u32(directory),
        holds_at(s, start, tag + le32_bytes(directory) + le32_bytes(64 * rows.len() as int)),
        start + directory + 64 * rows.len() as int <= s.len(),
        has_rows(s, start + directory, 64, 56, 60, false, rows),
        is_furthest(rows, directory + 64 * rows.len() as int, total),
        total > 0,
    ensures
        ends_after(pak_extent(s, start), s, start, total, 90),
{
    let row = Row { width: 64, offset_at: 56, length_at: 60, is_be: false };
    lemma_reach(s, row, start + directory, rows, directory + 64 * rows.len() as int, total);
}

/// VBSP: seventeen rows behind the first eight bytes.
pub proof fn law_vbsp_ends_with_its_furthest_part(
    s: Seq<u8>,
    start: int,
    rows: Seq<(int, int)>,
    total: int,
)
    requires
        0 <= start,
        start + 280 <= s.len(),
        rows.len() == 17,
        has_rows(s, start + 8, 16, 0, 4, false, rows),
        is_furthest(rows, 280, total),
    ensures
        ends_after(vbsp_extent(s, start), s, start, total, 80),
{
    let row = Row { width: 16, offset_at: 0, length_at: 4, is_be: false };
    lemma_reach(s, row, start + 8, rows, 280, total);
}

/// AppleSingle and AppleDouble: the number of entries at offset 24, and rows of twelve bytes
/// behind it.
pub proof fn law_apple_ends_with_its_furthest_part(
    s: Seq<u8>,
    start: int,
    before: Seq<u8>,
    rows: Seq<(int, int)>,
    total: int,
)
    requires
        before.len() == 24,
        is_u16(rows.len() as int),
        rows.len() > 0,
        holds_at(s, start, before + be16_bytes(rows.len() as int)),
        start + 26 + 12 * rows.len() <= s.len(),
        has_rows(s, start + 26, 12, 4, 8, true, rows),
        is_furthest(rows, 0, total),
        total > 0,
    ensures
        ends_after(apple_extent(s, start), s, start, total, 90),
{
    let row = Row { width: 12, offset_at: 4, length_at: 8, is_be: true };
    lemma_reach(s, row, start + 26, rows, 0, total);
}

/// A power of two up to 64, and its exponent.
pub open spec fn is_small_power(exponent: int, power: int) -> bool {
    ||| exponent == 0 && power == 1
    ||| exponent == 1 && power == 2
    ||| exponent == 2 && power == 4
    ||| exponent == 3 && power == 8
    ||| exponent == 4 && power == 16
    ||| exponent == 5 && power == 32
    ||| exponent == 6 && power == 64
}

/// The header of a TrueType or OpenType font with `n` tables: the search range is sixteen
/// times the greatest power of two that is no more than `n`, and the selector its exponent.
pub open spec fn font_header(version: Seq<u8>, n: int, exponent: int, power: int, shift: int) -> Seq<u8> {
    version + be16_bytes(n) + be16_bytes(16 * power) + be16_bytes(exponent) + be16_bytes(shift)
}

/// A font ends with the table that reaches furthest, or with the directory. A header whose
/// search range or selector does not follow from the number of tables is none.
pub proof fn law_font_ends_with_its_furthest_table(
    s: Seq<u8>,
    start: int,
    version: Seq<u8>,
    exponent: int,
    power: int,
    shift: int,
    rows: Seq<(int, int)>,
    total: int,
)
    requires
        version.len() == 4,
        is_u16(shift),
        0 < rows.len() <= 100,
        is_small_power(exponent, power),
        holds_at(s, start, font_header(version, rows.len() as int, exponent, power, shift)),
        start + 12 + 16 * rows.len() <= s.len(),
        has_rows(s, start + 12, 16, 8, 12, true, rows),
        is_furthest(rows, 12 + 16 * rows.len() as int, total),
    ensures
        power <= rows.len() < 2 * power ==> ends_after(sfnt_extent(s, start), s, start, total, 90),
        !(power <= rows.len() < 2 * power) ==> sfnt_extent(s, start) is None,
{
    let row = Row { width: 16, offset_at: 8, length_at: 12, is_be: true };
    lemma_reach(s, row, start + 12, rows, 12 + 16 * rows.len() as int, total);
    assert(holds_at(s, start + 4, be16_bytes(rows.len() as int)));
    assert(holds_at(s, start + 6, be16_bytes(16 * power)));
    assert(holds_at(s, start + 8, be16_bytes(exponent)));
}

/// A universal binary ends with the image that reaches furthest.
pub proof fn law_fat_ends_with_its_furthest_image(
    s: Seq<u8>,
    start: int,
    rows: Seq<(int, int)>,
    total: int,
)
    requires
        0 < rows.len() <= 100,
        holds_at(s, start, be32_bytes(0xCAFE_BABE) + be32_bytes(rows.len() as int)),
        start + 8 + 20 * rows.len() <= s.len(),
        has_rows(s, start + 8, 20, 8, 12, true, rows),
        is_furthest(rows, 0, total),
        total > 0,
    ensures
        ends_after(macho_fat_extent(s, start), s, start, total, 90),
{
    let row = Row { width: 20, offset_at: 8, length_at: 12, is_be: true };
    lemma_reach(s, row, start + 8, rows, 0, total);
}

/// A PEF container ends with the section that reaches furthest: `rows` gives where each
/// begins and how long it is packed.
pub proof fn law_pef_ends_with_its_furthest_section(
    s: Seq<u8>,
    start: int,
    before: Seq<u8>,
    rows: Seq<(int, int)>,
    total: int,
)
    requires
        before.len() == 24,
        is_u16(rows.len() as int),
        rows.len() > 0,
        holds_at(s, start, be64_bytes(0x4A6F_7921_7065_6666) + before + be16_bytes(rows.len() as int)),
        start + 40 + 28 * rows.len() <= s.len(),
        has_rows(s, start + 40, 28, 20, 16, true, rows),
        is_furthest(rows, 0, total),
        total > 0,
    ensures
        ends_after(pef_extent(s, start), s, start, total, 85),
{
    let row = Row { width: 28, offset_at: 20, length_at: 16, is_be: true };
    lemma_reach(s, row, start + 40, rows, 0, total);
    assert(holds_at(s, start, be64_bytes(0x4A6F_7921_7065_6666)));
    assert(holds_at(s, start + 32, be16_bytes(rows.len() as int)));
}

/// An image begins at `pos` as those in an icon file do: a PNG file, or a bitmap whose
/// header has one of the sizes that such headers have.
pub open spec fn is_icon_image(s: Seq<u8>, pos: int, dib_size: int) -> bool {
    ||| holds_at(s, pos, be64_bytes(0x8950_4E47_0D0A_1A0A))
    ||| (dib_size == 12 || dib_size == 40 || dib_size == 52 || dib_size == 56 || dib_size == 64
        || dib_size == 108 || dib_size == 124) && holds_at(s, pos, le32_bytes(dib_size))
}

proof fn lemma_ico_reach(s: Seq<u8>, start: int, rows: Seq<(int, int)>, n: int)
    requires
        has_rows(s, start + 6, 16, 12, 8, false, rows),
        0 <= n <= rows.len(),
    ensures
        ({
            let reach = ico_reach(s, start, n);
            &&& forall|i: int| 0 <= i < n ==> (#[trigger] rows[i]).0 + rows[i].1 <= reach
            &&& reach == 0 || exists|i: int| 0 <= i < n && (#[trigger] rows[i]).0 + rows[i].1 == reach
            &&& reach >= 0
        }),
    decreases n,
{
    if n > 0 {
        lemma_ico_reach(s, start, rows, n - 1);
        let row = rows[n - 1];
        assert(holds_at(s, start + 6 + 16 * (n - 1) + 12, num32_bytes(row.0, false)));
        assert(holds_at(s, start + 6 + 16 * (n - 1) + 8, num32_bytes(row.1, false)));
        assert(ico_entry(start, n - 1) == start + 6 + 16 * (n - 1));
        let reach = ico_reach(s, start, n);
        if reach == row.0 + row.1 {
            assert(rows[n - 1].0 + rows[n - 1].1 == reach);
        }
    }
}

/// An icon or cursor file ends with the image that reaches furthest, if each image is there
/// and stands behind the directory.
pub proof fn law_icons_end_with_the_furthest_image(
    s: Seq<u8>,
    start: int,
    kind: int,
    rows: Seq<(int, int)>,
    dib_sizes: Seq<int>,
    total: int,
)
    requires
        kind == 1 || kind == 2,
        is_u16(rows.len() as int),
        rows.len() > 0,
        dib_sizes.len() == rows.len(),
        holds_at(s, start, le16_bytes(0) + le16_bytes(kind) + le16_bytes(rows.len() as int)),
        start + 6 + 16 * rows.len() <= s.len(),
        has_rows(s, start + 6, 16, 12, 8, false, rows),
        forall|i: int|
            0 <= i < rows.len() ==> {
                &&& (#[trigger] rows[i]).1 > 0
                &&& rows[i].0 >= 6 + 16 * rows.len()
                &&& is_icon_image(s, start + rows[i].0, dib_sizes[i])
            },
        is_furthest(rows, 0, total),
    ensures
        ends_after(ico_extent(s, start), s, start, total, 90),
{
    let n = rows.len() as int;
    lemma_ico_reach(s, start, rows, n);
    assert(rows[0].0 + rows[0].1 <= total);
    assert(holds_at(s, start, le16_bytes(0)));
    assert(holds_at(s, start + 2, le16_bytes(kind)));
    assert(holds_at(s, start + 4, le16_bytes(n)));
    assert forall|i: int| 0 <= i < n implies #[trigger] ico_entry_sound(s, start, n, i) by {
        let row = rows[i];
        assert(holds_at(s, start + 6 + 16 * i + 12, num32_bytes(row.0, false)));
        assert(holds_at(s, start + 6 + 16 * i + 8, num32_bytes(row.1, false)));
        lemma_icon_image(s, start + row.0, dib_sizes[i]);
    }
    assert(ico_reach(s, start, n) == total);
}

proof fn lemma_icon_image(s: Seq<u8>, pos: int, dib_size: int)
    requires
        is_icon_image(s, pos, dib_size),
    ensures
        crate::images::looks_like_icon_image(s, pos),
{
}

/// In rows of `width` bytes from `pos` on stand names, filled up with zero bytes.
pub open spec fn has_names(
    s: Seq<u8>,
    pos: int,
    width: int,
    name_at: int,
    name_width: int,
    names: Seq<Seq<u8>>,
) -> bool {
    forall|i: int|
        0 <= i < names.len() ==> {
            let name = #[trigger] names[i];
            &&& is_free_of_nul(name) && name.len() <= name_width
            &&& holds_at(s, pos + width * i + name_at, name + nuls((name_width - name.len()) as nat))
        }
}

/// Names, and the lengths of the rows that they belong to.
pub open spec fn named_rows(names: Seq<Seq<u8>>, rows: Seq<(int, int)>) -> Seq<(Seq<char>, int)> {
    Seq::new(rows.len(), |i: int| (trim(lossy(names[i])), rows[i].1))
}

proof fn lemma_name(s: Seq<u8>, pos: int, width: int, name_at: int, name_width: int, names: Seq<Seq<u8>>, i: int)
    requires
        has_names(s, pos, width, name_at, name_width, names),
        0 <= i < names.len(),
    ensures
        field_text(
            s.subrange(pos + width * i + name_at, pos + width * i + name_at + name_width),
        ) == trim(lossy(names[i])),
        0 <= pos + width * i + name_at,
        pos + width * i + name_at + name_width <= s.len(),
{
    let name = names[i];
    law_field_gives_the_name_back(name, (name_width - name.len()) as nat);
}

/// A WAD file is listed with the names and the sizes of its lumps, in the order of the
/// directory, and is named after the first of them.
pub proof fn law_wad_lists_its_lumps(
    s: Seq<u8>,
    tag: Seq<u8>,
    directory: int,
    rows: Seq<(int, int)>,
    names: Seq<Seq<u8>>,
)
    requires
        tag.len() == 4,
        is_u32(rows.len() as int) && is_u32(directory),
        rows.len() > 0,
        names.len() == rows.len(),
        holds_at(s, 0, tag + le32_bytes(rows.len() as int) + le32_bytes(directory)),
        directory + 16 * rows.len() <= s.len(),
        has_rows(s, directory, 16, 0, 4, false, rows),
        has_names(s, directory, 16, 8, 8, names),
    ensures
        wad_listing(s) == Some(named_rows(names, rows)),
        trim(lossy(names[0])).len() > 0 ==> wad_name(s, 0) == Some(trim(lossy(names[0]))),
{
    assert(holds_at(s, 4, le32_bytes(rows.len() as int)));
    assert(holds_at(s, 8, le32_bytes(directory)));
    lemma_name(s, directory, 16, 8, 8, names, 0);
    let listed = wad_listing(s)->0;
    assert forall|i: int| 0 <= i < rows.len() implies listed[i] == named_rows(names, rows)[i] by {
        lemma_name(s, directory, 16, 8, 8, names, i);
        let row = rows[i];
        assert(holds_at(s, directory + 16 * i + 4, num32_bytes(row.1, false)));
    }
    assert(listed =~= named_rows(names, rows));
}

/// A Quake PAK file is listed with the names and the sizes of its files, in the order of the
/// directory, and is named after the first of them.
pub proof fn law_pak_lists_its_files(
    s: Seq<u8>,
    tag: Seq<u8>,
    directory: int,
    rows: Seq<(int, int)>,
    names: Seq<Seq<u8>>,
)
    requires
        tag.len() == 4,
        is_u32(64 * rows.len() as int) && is_u32(directory),
        rows.len() > 0,
        names.len() == rows.len(),
        holds_at(s, 0, tag + le32_bytes(directory) + le32_bytes(64 * rows.len() as int)),
        directory + 64 * rows.len() as int <= s.len(),
        has_rows(s, directory, 64, 56, 60, false, rows),
        has_names(s, directory, 64, 0, 56, names),
    ensures
        pak_listing(s) == Some(named_rows(names, rows)),
        trim(lossy(names[0])).len() > 0 ==> pak_name(s, 0) == Some(trim(lossy(names[0]))),
{
    assert(holds_at(s, 4, le32_bytes(directory)));
    assert(holds_at(s, 8, le32_bytes(64 * rows.len() as int)));
    lemma_name(s, directory, 64, 0, 56, names, 0);
    let listed = pak_listing(s)->0;
    assert forall|i: int| 0 <= i < rows.len() implies listed[i] == named_rows(names, rows)[i] by {
        lemma_name(s, directory, 64, 0, 56, names, i);
        let row = rows[i];
        assert(holds_at(s, directory + 64 * i + 60, num32_bytes(row.1, false)));
    }
    assert(listed =~= named_rows(names, rows));
}

/// A font is listed with the tags and the lengths of its tables, in the order of the
/// directory.
pub proof fn law_font_lists_its_tables(
    s: Seq<u8>,
    version: Seq<u8>,
    exponent: int,
    power: int,
    shift: int,
    rows: Seq<(int, int)>,
    tags: Seq<int>,
)
    requires
        version.len() == 4,
        0 < rows.len() <= 100,
        tags.len() == rows.len(),
        holds_at(s, 0, font_header(version, rows.len() as int, exponent, power, shift)),
        12 + 16 * rows.len() <= s.len(),
        has_rows(s, 12, 16, 8, 12, true, rows),
        forall|i: int| 0 <= i < tags.len() ==> holds_at(s, 12 + 16 * i, be32_bytes(#[trigger] tags[i])),
    ensures
        sfnt_listing(s) == Some(
            Seq::new(rows.len(), |i: int| (lossy(be32_bytes(tags[i])), rows[i].1)),
        ),
{
    assert(holds_at(s, 4, be16_bytes(rows.len() as int)));
    let expected = Seq::new(rows.len(), |i: int| (lossy(be32_bytes(tags[i])), rows[i].1));
    let listed = sfnt_listing(s)->0;
    assert forall|i: int| 0 <= i < rows.len() implies listed[i] == expected[i] by {
        let row = rows[i];
        assert(holds_at(s, 12 + 16 * i, be32_bytes(tags[i])));
        assert(holds_at(s, 12 + 16 * i + 12, num32_bytes(row.1, true)));
        assert(s.subrange(12 + 16 * i, 16 + 16 * i) == be32_bytes(tags[i]));
    }
    assert(listed =~= expected);
}

/// A universal binary is listed with the processors that its images are for and with their
/// sizes.
pub proof fn law_fat_lists_its_images(s: Seq<u8>, rows: Seq<(int, int)>, processors: Seq<int>)
    requires
        0 < rows.len() <= 100,
        processors.len() == rows.len(),
        holds_at(s, 0, be32_bytes(0xCAFE_BABE) + be32_bytes(rows.len() as int)),
        8 + 20 * rows.len() <= s.len(),
        has_rows(s, 8, 20, 8, 12, true, rows),
        forall|i: int|
            0 <= i < processors.len() ==> is_u32(#[trigger] processors[i]) && holds_at(
                s,
                8 + 20 * i,
                be32_bytes(processors[i]),
            ),
    ensures
        fat_listing(s) == Some(
            Seq::new(rows.len(), |i: int| (cputype_name(processors[i]), rows[i].1)),
        ),
{
    let expected = Seq::new(rows.len(), |i: int| (cputype_name(processors[i]), rows[i].1));
    let listed = fat_listing(s)->0;
    assert forall|i: int| 0 <= i < rows.len() implies listed[i] == expected[i] by {
        let row = rows[i];
        assert(holds_at(s, 8 + 20 * i, be32_bytes(processors[i])));
        assert(holds_at(s, 8 + 20 * i + 12, num32_bytes(row.1, true)));
    }
    assert(listed =~= expected);
}

/// An ELF image ends with the segment that reaches furthest, or with its section headers if
/// it has any.
pub proof fn law_elf_ends_with_its_furthest_part(elf: ElfModel, len: int, start: int, total: int)
    requires
        0 <= start,
        is_furthest(
            elf.segments.map_values(|segment: (u64, u64)| (segment.0 as int, segment.1 as int)),
            if elf.section_count > 0 {
                elf.section_table_offset + elf.section_entry_size * elf.section_count
            } else {
                0
            },
            total,
        ),
        total > 0,
    ensures
        image_extent(len, start, elf_reach(elf), 80) == if start + total <= len {
            Some((start + total - 1, 80int))
        } else {
            None
        },
{
    let rows = elf.segments.map_values(|segment: (u64, u64)| (segment.0 as int, segment.1 as int));
    lemma_segments_reach(elf.segments, elf.segments.len() as int);
    let reach = segments_reach(elf.segments, elf.segments.len() as int);
    assert forall|i: int| 0 <= i < elf.segments.len() implies (#[trigger] elf.segments[i]).0
        + elf.segments[i].1 <= total by {
        assert(rows[i].0 + rows[i].1 <= total);
    }
    let table = if elf.section_count > 0 {
        elf.section_table_offset + elf.section_entry_size * elf.section_count
    } else {
        0
    };
    if total != table {
        let i = choose|i: int| 0 <= i < rows.len() && (#[trigger] rows[i]).0 + rows[i].1 == total;
        assert(elf.segments[i].0 + elf.segments[i].1 == total);
    }
}

proof fn lemma_segments_reach(segments: Seq<(u64, u64)>, n: int)
    requires
        0 <= n <= segments.len(),
    ensures
        forall|i: int|
            0 <= i < n ==> (#[trigger] segments[i]).0 + segments[i].1 <= segments_reach(segments, n),
        segments_reach(segments, n) == 0 || exists|i: int|
            0 <= i < n && (#[trigger] segments[i]).0 + segments[i].1 == segments_reach(segments, n),
        segments_reach(segments, n) >= 0,
    decreases n,
{
    if n > 0 {
        lemma_segments_reach(segments, n - 1);
        if segments_reach(segments, n) == segments[n - 1].0 + segments[n - 1].1 {
            assert(0 <= n - 1 < n);
        }
    }
}

/// A PE image ends with the section whose raw data reach furthest.
pub proof fn law_pe_ends_with_its_furthest_section(
    sections: Seq<(Option<Seq<char>>, u32, u32)>,
    total: int,
)
    requires
        is_furthest(
            sections.map_values(
                |section: (Option<Seq<char>>, u32, u32)| (section.1 as int, section.2 as int),
            ),
            0,
            total,
        ),
    ensures
        pe_reach(sections, sections.len() as int) == total,
{
    let rows = sections.map_values(
        |section: (Option<Seq<char>>, u32, u32)| (section.1 as int, section.2 as int),
    );
    lemma_pe_reach(sections, sections.len() as int);
    let reach = pe_reach(sections, sections.len() as int);
    assert forall|i: int| 0 <= i < sections.len() implies (#[trigger] sections[i]).1 + sections[i].2
        <= total by {
        assert(rows[i].0 + rows[i].1 <= total);
    }
    if total != 0 {
        let i = choose|i: int| 0 <= i < rows.len() && (#[trigger] rows[i]).0 + rows[i].1 == total;
        assert(sections[i].1 + sections[i].2 == total);
    }
}

proof fn lemma_pe_reach(sections: Seq<(Option<Seq<char>>, u32, u32)>, n: int)
    requires
        0 <= n <= sections.len(),
    ensures
        forall|i: int|
            0 <= i < n ==> (#[trigger] sections[i]).1 + sections[i].2 <= pe_reach(sections, n),
        pe_reach(sections, n) == 0 || exists|i: int|
            0 <= i < n && (#[trigger] sections[i]).1 + sections[i].2 == pe_reach(sections, n),
        pe_reach(sections, n) >= 0,
    decreases n,
{
    if n > 0 {
        lemma_pe_reach(sections, n - 1);
        if pe_reach(sections, n) == sections[n - 1].1 + sections[n - 1].2 {
            assert(0 <= n - 1 < n);
        }
    }
}

/// An ELF image is listed with its sections that have a name, in order.
pub proof fn law_elf_lists_its_named_sections(sections: Seq<(Option<Seq<char>>, u64)>, n: int)
    requires
        0 <= n <= sections.len(),
    ensures
        elf_sections(sections, n) == sections.take(n).filter(
            |section: (Option<Seq<char>>, u64)| section.0 matches Some(name) && name.len() > 0,
        ).map_values(|section: (Option<Seq<char>>, u64)| (section.0->0, section.1 as int)),
    decreases n,
{
    reveal(Seq::filter);
    let named = |section: (Option<Seq<char>>, u64)| section.0 matches Some(name) && name.len() > 0;
    let entry = |section: (Option<Seq<char>>, u64)| (section.0->0, section.1 as int);
    let part = sections.take(n);
    if n == 0 {
        assert(elf_sections(sections, n) =~= part.filter(named).map_values(entry));
    } else {
        law_elf_lists_its_named_sections(sections, n - 1);
        assert(part.drop_last() == sections.take(n - 1));
        let before = sections.take(n - 1).filter(named);
        if named(sections[n - 1]) {
            assert(part.filter(named) == before.push(sections[n - 1]));
            assert(before.push(sections[n - 1]).map_values(entry) =~= before.map_values(entry).push(
                entry(sections[n - 1]),
            ));
        } else {
            assert(part.filter(named) == before);
        }
    }
}

/// A PE image is listed with all its sections: their names without the zero characters that
/// fill them up, and the sizes of their raw data.
pub proof fn law_pe_lists_its_sections(sections: Seq<(Option<Seq<char>>, u32, u32)>, i: int)
    requires
        0 <= i < sections.len(),
    ensures
        pe_sections(sections).len() == sections.len(),
        pe_sections(sections)[i].1 == sections[i].2,
        sections[i].0 matches Some(name) ==> {
            let shown = pe_sections(sections)[i].0;
            &&& shown.len() <= name.len() && shown == name.take(shown.len() as int)
            &&& shown.len() > 0 ==> shown.last() != '\0'
            &&& forall|k: int| shown.len() <= k < name.len() ==> #[trigger] name[k] == '\0'
        },
        sections[i].0 is None ==> pe_sections(sections)[i].0.len() == 0,
{
    if let Some(name) = sections[i].0 {
        lemma_trim_end_of(name, '\0');
    }
}

proof fn lemma_trim_end_of(t: Seq<char>, c: char)
    ensures
        ({
            let kept = trim_end_of(t, c);
            &&& kept.len() <= t.len() && kept == t.take(kept.len() as int)
            &&& kept.len() > 0 ==> kept.last() != c
            &&& forall|k: int| kept.len() <= k < t.len() ==> #[trigger] t[k] == c
        }),
    decreases t.len(),
{
    if t.len() > 0 && t.last() == c {
        let rest = t.drop_last();
        lemma_trim_end_of(rest, c);
        let kept = trim_end_of(rest, c);
        assert(t.take(kept.len() as int) == rest.take(kept.len() as int));
        assert forall|k: int| kept.len() <= k < t.len() implies #[trigger] t[k] == c by {
            if k < rest.len() {
                assert(rest[k] == c);
            }
        }
    } else {
        assert(t.take(t.len() as int) == t);
    }
}

/// The processors that have a name: those with 64 bits have the number of the one with 32
/// and one bit more.
pub proof fn law_processor_names(processor: int)
    requires
        is_u32(processor),
    ensures
        cputype_name(7) == "x86"@,
        cputype_name(0x0100_0007) == "x86_64"@,
        cputype_name(12) == "arm"@,
        cputype_name(0x0100_000C) == "arm64"@,
        cputype_name(18) == "ppc"@,
        cputype_name(0x0100_0012) == "ppc64"@,
        processor % 0x100_0000 != 7 && processor % 0x100_0000 != 12 && processor % 0x100_0000 != 18
            ==> cputype_name(processor) == "cputype 0x"@ + crate::numbers::hex(processor as nat),
{
}

} // verus!
