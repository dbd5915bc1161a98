//! A file ends where it ends, whatever follows.
use vstd::prelude::*;
use crate::archives::{
    cab_extent, cstring_end, is_trailer_name, iso_extent, mpq_extent, newc_entry_end, newc_extent,
    newc_extent_from, newc_sizes, odc_extent, odc_sizes, rar_block_end, rar_extent_from,
    seven_zip_extent, squashfs_extent, tar_entry_end, tar_extent_from, tar_size, word_end, zeros, zip_central_end,
    zip_extent, zip_local_end, zip_locals_end, zstd_block_len, zstd_blocks_end, zstd_extent,
    zstd_header_len, RAR_END_BLOCK, ZIP_CENTRAL, ZIP_LOCAL,
};
use crate::bytes::{be16, be32, flag, le16, le24, le32, le64, num32, within};
use crate::documents::{
    apple_extent, apple_row, blend_extent, blend_extent_from, glb_extent, is_sfnt_header,
    sfnt_extent, sfnt_row, sqlite_extent, woff_extent,
};
use crate::executables::{
    dex_extent, fat_row, is_fat_header, macho_command_reach, macho_extent, macho_fat_extent,
    macho_reach, pef_extent, pef_row,
};
use crate::games::{
    nes_extent, pak_extent, pak_row, unityfs_extent, vbsp_extent, vbsp_row, vpk_extent, wad_extent,
    wad_row,
};
use crate::images::{
    dpx_extent, emf_extent, eps_extent, fill_end, icc_extent, icns_extent, ico_entry,
    ico_entry_sound, ico_extent, ico_reach, jpeg_extent, jpeg_extent_from, jpeg_segment_end,
    png_chunks_end, png_extent, scan_end, wmf_extent, IEND, JEND, JNG_SIGNATURE, MEND,
    MNG_SIGNATURE, PNG_SIGNATURE,
};
use crate::media::{
    asf_extent, asf_file_size, au_extent, be_container_extent, byte_sum, dsf_extent, ebml_extent,
    midi_extent, midi_tracks_end, mod_extent, mod_pattern_count, mod_samples_len, ogg_extent_from,
    ogg_page_end, realmedia_chunks_end, realmedia_extent, riff_extent, swf_extent, vint, vint_len,
    vint_value, voc_extent, voc_terminator, FORM, RIFX,
};
use crate::relocation::{lemma_number_nonnegative, lemma_vint_nonnegative};
use crate::search::{
    first_byte, first_occurrence, lemma_first_byte_is_first, lemma_first_occurrence_is_first,
    occurs_at,
};
use crate::tables::{larger, table_reach, Row};
use crate::validators::Validator;

verus! {

broadcast use crate::taking::group_take;

#[verifier::rlimit(40)]
proof fn lemma_first_byte(t: Seq<u8>, m: int, x: int, b: u8)
    requires
        0 <= m <= t.len(),
        0 <= x,
    ensures
        first_byte(t.take(m), x, b) is Some ==> first_byte(t, x, b) == first_byte(t.take(m), x, b),
    decreases m - x,
{
    let s = t.take(m);
    if x < m && s[x] != b {
        lemma_first_byte(t, m, x + 1, b);
    }
}

#[verifier::rlimit(40)]
proof fn lemma_first_occurrence(t: Seq<u8>, m: int, x: int, needle: Seq<u8>)
    requires
        0 <= m <= t.len(),
        0 <= x,
    ensures
        first_occurrence(t.take(m), x, needle) is Some ==> first_occurrence(t, x, needle) == first_occurrence(t.take(m), x, needle),
    decreases m - x + 1,
{
    let s = t.take(m);
    if x <= m {
        assert(occurs_at(s, needle, x) ==> occurs_at(t, needle, x));
        lemma_first_occurrence_is_first(s, x, needle);
        if !occurs_at(s, needle, x) {
            lemma_first_occurrence(t, m, x + 1, needle);
            if let Some(i) = first_occurrence(s, x, needle) {
                assert(x + needle.len() <= m);
                assert(!occurs_at(t, needle, x)) by {
                    assert(s.subrange(x, x + needle.len()) == t.subrange(x, x + needle.len()));
                }
            }
        }
    }
}

#[verifier::rlimit(40)]
proof fn lemma_zip_locals(t: Seq<u8>, m: int, x: int)
    requires
        0 <= m <= t.len(),
        0 <= x,
    ensures
        zip_locals_end(t.take(m), x) is Some ==> zip_locals_end(t, x) == zip_locals_end(t.take(m), x),
        zip_locals_end(t.take(m), x) matches Some(end) ==> end >= x,
    decreases m - x,
{
    let s = t.take(m);
    if within(s, x, 30) && be32(s, x) == ZIP_LOCAL {
        let header_end = x + 30 + le16(s, x + 26) + le16(s, x + 28);
        lemma_first_occurrence(t, m, header_end, seq![0x50u8, 0x4Bu8]);
        assert(zip_local_end(s, x) is Some ==> zip_local_end(t, x) == zip_local_end(s, x));
        match zip_local_end(s, x) {
            Some(next) if x < next <= s.len() => {
                lemma_zip_locals(t, m, next);
            },
            _ => {},
        }
    }
}

#[verifier::rlimit(40)]
proof fn lemma_zip_central(t: Seq<u8>, m: int, x: int)
    requires
        0 <= m <= t.len(),
        0 <= x,
    ensures
        zip_central_end(t.take(m), x) is Some ==> zip_central_end(t, x) == zip_central_end(t.take(m), x),
        zip_central_end(t.take(m), x) matches Some(end) ==> end >= x,
    decreases m - x,
{
    let s = t.take(m);
    if within(s, x, 34) && be32(s, x) == ZIP_CENTRAL {
        let next = x + 46 + le16(s, x + 28) + le16(s, x + 30) + le16(s, x + 32);
        if next <= s.len() {
            lemma_zip_central(t, m, next);
        }
    }
}

#[verifier::rlimit(40)]
proof fn lemma_cstring(t: Seq<u8>, m: int, x: int)
    requires
        0 <= m <= t.len(),
        0 <= x,
    ensures
        cstring_end(t.take(m), x) is Some ==> cstring_end(t, x) == cstring_end(t.take(m), x),
        cstring_end(t.take(m), x) matches Some(end) ==> end > x,
{
    let s = t.take(m);
    lemma_first_byte(t, m, x, 0);
    lemma_first_byte_is_first(s, x, 0);
}

/// A RAR archive that has its end block is not prolonged by what follows.
#[verifier::rlimit(40)]
proof fn lemma_rar(t: Seq<u8>, m: int, first: int, x: int)
    requires
        0 <= m <= t.len(),
        0 <= first <= x,
        rar_extent_from(t.take(m), first, x) matches Some((_, confidence)) && confidence == 90,
    ensures
        rar_extent_from(t, first, x) == rar_extent_from(t.take(m), first, x),
    decreases m - x,
{
    let s = t.take(m);
    if let Some(next) = rar_block_end(s, x) {
        assert(rar_block_end(t, x) == Some(next));
        if s[x + 2] != RAR_END_BLOCK {
            lemma_rar(t, m, first, next);
        }
    }
}

#[verifier::rlimit(40)]
proof fn lemma_newc(t: Seq<u8>, m: int, first: int, x: int)
    requires
        0 <= m <= t.len(),
        0 <= first <= x,
    ensures
        newc_extent_from(t.take(m), first, x) is Some ==> newc_extent_from(t, first, x)
            == newc_extent_from(t.take(m), first, x),
    decreases m - x,
{
    let s = t.take(m);
    if within(s, x, 110) {
        if let Some(sizes) = newc_sizes(s, x) {
            let end = newc_entry_end(first, x, sizes);
            if x < end <= s.len() {
                lemma_number_nonnegative(s.subrange(x + 94, x + 102), 16);
                lemma_number_nonnegative(s.subrange(x + 54, x + 62), 16);
                assert(is_trailer_name(t, x + 110, sizes.0) == is_trailer_name(s, x + 110, sizes.0));
                lemma_newc(t, m, first, end);
            }
        }
    }
}

#[verifier::rlimit(40)]
proof fn lemma_odc(t: Seq<u8>, m: int, x: int)
    requires
        0 <= m <= t.len(),
        0 <= x,
    ensures
        odc_extent(t.take(m), x) is Some ==> odc_extent(t, x) == odc_extent(t.take(m), x),
    decreases m - x,
{
    let s = t.take(m);
    if within(s, x, 76) {
        if let Some(sizes) = odc_sizes(s, x) {
            let end = x + 76 + sizes.0 + sizes.1;
            if x < end <= s.len() {
                lemma_number_nonnegative(s.subrange(x + 59, x + 65), 8);
                lemma_number_nonnegative(s.subrange(x + 65, x + 76), 8);
                assert(is_trailer_name(t, x + 76, sizes.0) == is_trailer_name(s, x + 76, sizes.0));
                lemma_odc(t, m, end);
            }
        }
    }
}

#[verifier::rlimit(40)]
proof fn lemma_zstd_blocks(t: Seq<u8>, m: int, x: int)
    requires
        0 <= m <= t.len(),
        0 <= x,
    ensures
        zstd_blocks_end(t.take(m), x) is Some ==> zstd_blocks_end(t, x) == zstd_blocks_end(t.take(m), x),
        zstd_blocks_end(t.take(m), x) matches Some(end) ==> end >= x,
    decreases m - x,
{
    let s = t.take(m);
    if within(s, x, 3) {
        let next = x + 3 + zstd_block_len(le24(s, x));
        if next <= s.len() {
            lemma_zstd_blocks(t, m, next);
        }
    }
}

#[verifier::rlimit(40)]
proof fn lemma_png_chunks(t: Seq<u8>, m: int, x: int, end_chunk: int)
    requires
        0 <= m <= t.len(),
        0 <= x,
    ensures
        png_chunks_end(t.take(m), x, end_chunk) is Some ==> png_chunks_end(t, x, end_chunk) == png_chunks_end(t.take(m), x, end_chunk),
    decreases m - x,
{
    let s = t.take(m);
    if within(s, x, 8) {
        let next = x + 12 + be32(s, x);
        if next <= s.len() {
            lemma_png_chunks(t, m, next, end_chunk);
        }
    }
}

#[verifier::rlimit(40)]
proof fn lemma_fill(t: Seq<u8>, m: int, x: int)
    requires
        0 <= m <= t.len(),
        0 <= x,
        fill_end(t.take(m), x) < m,
    ensures
        fill_end(t, x) == fill_end(t.take(m), x),
    decreases m - x,
{
    let s = t.take(m);
    if x < m && s[x] == 0xFF {
        lemma_fill(t, m, x + 1);
    } else {
        assert(x < m);
        assert(t[x] == s[x]);
    }
}

#[verifier::rlimit(40)]
proof fn lemma_scan(t: Seq<u8>, m: int, x: int)
    requires
        0 <= m <= t.len(),
        0 <= x,
    ensures
        scan_end(t.take(m), x) is Some ==> scan_end(t, x) == scan_end(t.take(m), x),
    decreases m - x,
{
    let s = t.take(m);
    if x + 2 <= m {
        assert(s[x] == t[x] && s[x + 1] == t[x + 1]);
        lemma_scan(t, m, x + 1);
        lemma_scan(t, m, x + 2);
    }
}

#[verifier::rlimit(40)]
proof fn lemma_jpeg(t: Seq<u8>, m: int, x: int)
    requires
        0 <= m <= t.len(),
        0 <= x,
    ensures
        jpeg_extent_from(t.take(m), x) is Some ==> jpeg_extent_from(t, x) == jpeg_extent_from(t.take(m), x),
    decreases m - x,
{
    let s = t.take(m);
    let code = fill_end(s, x + 1);
    if within(s, x, 1) && s[x] == 0xFF && x < code < s.len() {
        lemma_fill(t, m, x + 1);
        assert(t[x] == s[x] && t[code] == s[code]);
        lemma_jpeg(t, m, code + 1);
        if within(s, code + 1, 2) {
            lemma_scan(t, m, code + 1 + be16(s, code + 1));
        }
        match jpeg_segment_end(s, s[code], code + 1) {
            Some(next) if x < next <= s.len() => {
                assert(jpeg_segment_end(t, s[code], code + 1) == Some(next));
                lemma_jpeg(t, m, next);
            },
            _ => {},
        }
    }
}

#[verifier::rlimit(40)]
proof fn lemma_ico_reach(t: Seq<u8>, m: int, start: int, k: int)
    requires
        0 <= m <= t.len(),
        0 <= start,
        0 <= k,
        within(t.take(m), start + 6, 16 * k),
    ensures
        ico_reach(t, start, k) == ico_reach(t.take(m), start, k),
    decreases k,
{
    let s = t.take(m);
    if k > 0 {
        lemma_ico_reach(t, m, start, k - 1);
    }
}

#[verifier::rlimit(40)]
proof fn lemma_ico(t: Seq<u8>, m: int, start: int)
    requires
        0 <= m <= t.len(),
        0 <= start,
    ensures
        ico_extent(t.take(m), start) is Some ==> ico_extent(t, start) == ico_extent(t.take(m), start),
{
    let s = t.take(m);
    if ico_extent(s, start) is Some {
        let count = le16(s, start + 4);
        lemma_ico_reach(t, m, start, count);
        assert forall|i: int| 0 <= i < count implies #[trigger] ico_entry_sound(t, start, count, i) by {
            assert(ico_entry_sound(s, start, count, i));
            assert(within(s, ico_entry(start, i), 16));
        }
    }
}

#[verifier::rlimit(40)]
proof fn lemma_table(t: Seq<u8>, m: int, row: Row, x: int, k: int)
    requires
        0 <= m <= t.len(),
        row.wf(),
        within(t.take(m), x, row.width * k),
    ensures
        table_reach(t, row, x, k) == table_reach(t.take(m), row, x, k),
    decreases k,
{
    if k > 0 {
        assert(row.width * k == row.width + row.width * (k - 1)) by (nonlinear_arith);
        assert(row.width * (k - 1) >= 0) by (nonlinear_arith)
            requires
                k > 0,
        ;
        lemma_table(t, m, row, x + row.width, k - 1);
    }
}

#[verifier::rlimit(40)]
proof fn lemma_macho_reach(t: Seq<u8>, m: int, x: int, k: int, is64: bool, is_be: bool, reach: int)
    requires
        0 <= m <= t.len(),
        0 <= x,
    ensures
        macho_reach(t.take(m), x, k, is64, is_be, reach) is Some ==> macho_reach(t, x, k, is64, is_be, reach) == macho_reach(t.take(m), x, k, is64, is_be, reach),
    decreases k,
{
    let s = t.take(m);
    if k > 0 && within(s, x, 8) && num32(s, x + 4, is_be) >= 8 {
        if let Some(r) = macho_command_reach(s, x, is64, is_be) {
            assert(macho_command_reach(t, x, is64, is_be) == Some(r));
            lemma_macho_reach(
                t,
                m,
                x + num32(s, x + 4, is_be),
                k - 1,
                is64,
                is_be,
                larger(reach, r),
            );
        }
    }
}

#[verifier::rlimit(40)]
proof fn lemma_byte_sum(t: Seq<u8>, m: int, x: int, k: int)
    requires
        0 <= m <= t.len(),
        within(t.take(m), x, k),
    ensures
        byte_sum(t, x, k) == byte_sum(t.take(m), x, k),
    decreases k,
{
    let s = t.take(m);
    if k > 0 {
        lemma_byte_sum(t, m, x, k - 1);
    }
}

/// An Ogg stream that has its last page is not prolonged by what follows.
#[verifier::rlimit(40)]
proof fn lemma_ogg(t: Seq<u8>, m: int, first: int, x: int)
    requires
        0 <= m <= t.len(),
        0 <= first <= x,
        ogg_extent_from(t.take(m), first, x) matches Some((_, confidence)) && confidence == 90,
    ensures
        ogg_extent_from(t, first, x) == ogg_extent_from(t.take(m), first, x),
    decreases m - x,
{
    let s = t.take(m);
    match ogg_page_end(s, x) {
        Some(next) if next > x => {
            lemma_byte_sum(t, m, x + 27, s[x + 26] as int);
            assert(ogg_page_end(t, x) == Some(next));
            assert(t[x + 5] == s[x + 5]);
            if !flag(s[x + 5], 4) {
                lemma_ogg(t, m, first, next);
            }
        },
        _ => {},
    }
}

#[verifier::rlimit(40)]
proof fn lemma_asf_size(t: Seq<u8>, m: int, x: int, k: int)
    requires
        0 <= m <= t.len(),
        0 <= x,
    ensures
        asf_file_size(t.take(m), x, k) is Some ==> asf_file_size(t, x, k) == asf_file_size(t.take(m), x, k),
    decreases k,
{
    let s = t.take(m);
    if k > 0 && within(s, x, 24) && le64(s, x + 16) >= 24 {
        lemma_asf_size(t, m, x + le64(s, x + 16), k - 1);
    }
}

#[verifier::rlimit(40)]
proof fn lemma_midi_tracks(t: Seq<u8>, m: int, x: int, k: int)
    requires
        0 <= m <= t.len(),
        0 <= x,
    ensures
        midi_tracks_end(t.take(m), x, k) is Some ==> midi_tracks_end(t, x, k) == midi_tracks_end(t.take(m), x, k),
    decreases k,
{
    let s = t.take(m);
    if k > 0 && within(s, x, 8) {
        lemma_midi_tracks(t, m, x + 8 + be32(s, x + 4), k - 1);
    }
}

#[verifier::rlimit(40)]
proof fn lemma_mod(t: Seq<u8>, m: int, start: int, samples: int, patterns: int)
    requires
        0 <= m <= t.len(),
        within(t.take(m), start, 1080),
        0 <= samples <= 31,
        0 <= patterns <= 128,
    ensures
        mod_samples_len(t, start, samples) == mod_samples_len(t.take(m), start, samples),
        mod_pattern_count(t, start, patterns) == mod_pattern_count(t.take(m), start, patterns),
    decreases samples + patterns,
{
    if samples > 0 {
        lemma_mod(t, m, start, samples - 1, 0);
    }
    if patterns > 0 {
        lemma_mod(t, m, start, 0, patterns - 1);
    }
}

#[verifier::rlimit(40)]
proof fn lemma_realmedia_chunks(t: Seq<u8>, m: int, x: int, k: int)
    requires
        0 <= m <= t.len(),
        0 <= x,
    ensures
        realmedia_chunks_end(t.take(m), x, k) is Some ==> realmedia_chunks_end(t, x, k) == realmedia_chunks_end(t.take(m), x, k),
    decreases k,
{
    let s = t.take(m);
    if k > 0 && within(s, x, 10) && be32(s, x + 4) >= 10 {
        lemma_realmedia_chunks(t, m, x + be32(s, x + 4), k - 1);
    }
}

#[verifier::rlimit(40)]
proof fn lemma_voc(t: Seq<u8>, m: int, x: int)
    requires
        0 <= m <= t.len(),
        0 <= x,
    ensures
        voc_terminator(t.take(m), x) is Some ==> voc_terminator(t, x) == voc_terminator(t.take(m), x),
    decreases m - x,
{
    let s = t.take(m);
    if within(s, x, 1) {
        assert(t[x] == s[x]);
    }
    if within(s, x, 4) && s[x] != 0 && x + 4 + le24(s, x + 1) <= s.len() {
        lemma_voc(t, m, x + 4 + le24(s, x + 1));
    }
}

#[verifier::rlimit(40)]
proof fn lemma_vint_value(t: Seq<u8>, m: int, x: int, k: int)
    requires
        0 <= m <= t.len(),
        1 <= k,
        within(t.take(m), x, k),
    ensures
        vint_value(t, x, k) == vint_value(t.take(m), x, k),
    decreases k,
{
    let s = t.take(m);
    assert(t[x] == s[x]);
    if k > 1 {
        lemma_vint_value(t, m, x, k - 1);
    }
}

#[verifier::rlimit(40)]
proof fn lemma_vint(t: Seq<u8>, m: int, x: int)
    requires
        0 <= m <= t.len(),
        0 <= x,
    ensures
        vint(t.take(m), x) is Some ==> vint(t, x) == vint(t.take(m), x),
        vint(t.take(m), x) matches Some((value, len)) ==> value >= 0 && len >= 1,
{
    let s = t.take(m);
    if within(s, x, 1) {
        assert(t[x] == s[x]);
        if s[x] != 0 && within(s, x, vint_len(s[x])) {
            lemma_vint_value(t, m, x, vint_len(s[x]));
            lemma_vint_nonnegative(s, x, vint_len(s[x]));
        }
    }
}

#[verifier::rlimit(40)]
proof fn lemma_blend(t: Seq<u8>, m: int, x: int, header_len: int, is_be: bool)
    requires
        0 <= m <= t.len(),
        0 <= x,
    ensures
        blend_extent_from(t.take(m), x, header_len, is_be) is Some ==> blend_extent_from(t, x, header_len, is_be) == blend_extent_from(t.take(m), x, header_len, is_be),
    decreases m - x,
{
    let s = t.take(m);
    if within(s, x, 8) && header_len >= 8 {
        let next = x + header_len + num32(s, x + 4, is_be);
        if next <= s.len() {
            lemma_blend(t, m, next, header_len, is_be);
        }
    }
}

#[verifier::rlimit(40)]
proof fn lemma_zip_prolonged(t: Seq<u8>, m: int, start: int)
    requires
        0 <= m <= t.len(),
        0 <= start,
    ensures
        zip_extent(t.take(m), start) is Some ==> zip_extent(t, start) == zip_extent(t.take(m), start),
{
    let s = t.take(m);
    lemma_zip_locals(t, m, start);
    if let Some(central) = zip_locals_end(s, start) {
        lemma_zip_central(t, m, central);
    }
}

#[verifier::rlimit(40)]
proof fn lemma_png_prolonged(t: Seq<u8>, m: int, start: int)
    requires
        0 <= m <= t.len(),
        0 <= start,
    ensures
        png_extent(t.take(m), start, PNG_SIGNATURE as int, IEND as int) is Some ==> png_extent(t, start, PNG_SIGNATURE as int, IEND as int) == png_extent(t.take(m), start, PNG_SIGNATURE as int, IEND as int),
{
    let s = t.take(m);
    lemma_png_chunks(t, m, start + 8, IEND as int);
}

#[verifier::rlimit(40)]
proof fn lemma_mng_prolonged(t: Seq<u8>, m: int, start: int)
    requires
        0 <= m <= t.len(),
        0 <= start,
    ensures
        png_extent(t.take(m), start, MNG_SIGNATURE as int, MEND as int) is Some ==> png_extent(t, start, MNG_SIGNATURE as int, MEND as int) == png_extent(t.take(m), start, MNG_SIGNATURE as int, MEND as int),
{
    let s = t.take(m);
    lemma_png_chunks(t, m, start + 8, MEND as int);
}

#[verifier::rlimit(40)]
proof fn lemma_jng_prolonged(t: Seq<u8>, m: int, start: int)
    requires
        0 <= m <= t.len(),
        0 <= start,
    ensures
        png_extent(t.take(m), start, JNG_SIGNATURE as int, JEND as int) is Some ==> png_extent(t, start, JNG_SIGNATURE as int, JEND as int) == png_extent(t.take(m), start, JNG_SIGNATURE as int, JEND as int),
{
    let s = t.take(m);
    lemma_png_chunks(t, m, start + 8, JEND as int);
}

#[verifier::rlimit(40)]
proof fn lemma_jpeg_prolonged(t: Seq<u8>, m: int, start: int)
    requires
        0 <= m <= t.len(),
        0 <= start,
    ensures
        jpeg_extent(t.take(m), start) is Some ==> jpeg_extent(t, start) == jpeg_extent(t.take(m), start),
{
    let s = t.take(m);
    lemma_jpeg(t, m, start + 2);
}

#[verifier::rlimit(40)]
proof fn lemma_sqlite_prolonged(t: Seq<u8>, m: int, start: int)
    requires
        0 <= m <= t.len(),
        0 <= start,
    ensures
        sqlite_extent(t.take(m), start) is Some ==> sqlite_extent(t, start) == sqlite_extent(t.take(m), start),
{
}

#[verifier::rlimit(40)]
proof fn lemma_seven_zip_prolonged(t: Seq<u8>, m: int, start: int)
    requires
        0 <= m <= t.len(),
        0 <= start,
    ensures
        seven_zip_extent(t.take(m), start) is Some ==> seven_zip_extent(t, start) == seven_zip_extent(t.take(m), start),
{
}

#[verifier::rlimit(40)]
proof fn lemma_riff_prolonged(t: Seq<u8>, m: int, start: int)
    requires
        0 <= m <= t.len(),
        0 <= start,
    ensures
        riff_extent(t.take(m), start) is Some ==> riff_extent(t, start) == riff_extent(t.take(m), start),
{
}

#[verifier::rlimit(40)]
proof fn lemma_icns_prolonged(t: Seq<u8>, m: int, start: int)
    requires
        0 <= m <= t.len(),
        0 <= start,
    ensures
        icns_extent(t.take(m), start) is Some ==> icns_extent(t, start) == icns_extent(t.take(m), start),
{
}

#[verifier::rlimit(40)]
proof fn lemma_eps_binary_header_prolonged(t: Seq<u8>, m: int, start: int)
    requires
        0 <= m <= t.len(),
        0 <= start,
    ensures
        eps_extent(t.take(m), start) is Some ==> eps_extent(t, start) == eps_extent(t.take(m), start),
{
}

#[verifier::rlimit(40)]
proof fn lemma_wmf_prolonged(t: Seq<u8>, m: int, start: int)
    requires
        0 <= m <= t.len(),
        0 <= start,
    ensures
        wmf_extent(t.take(m), start) is Some ==> wmf_extent(t, start) == wmf_extent(t.take(m), start),
{
}

#[verifier::rlimit(40)]
proof fn lemma_emf_prolonged(t: Seq<u8>, m: int, start: int)
    requires
        0 <= m <= t.len(),
        0 <= start,
    ensures
        emf_extent(t.take(m), start) is Some ==> emf_extent(t, start) == emf_extent(t.take(m), start),
{
}

#[verifier::rlimit(40)]
proof fn lemma_macho32_be_prolonged(t: Seq<u8>, m: int, start: int)
    requires
        0 <= m <= t.len(),
        0 <= start,
    ensures
        macho_extent(t.take(m), start, false, true) is Some ==> macho_extent(t, start, false, true) == macho_extent(t.take(m), start, false, true),
{
    let s = t.take(m);
    if within(s, start, 24) {
        lemma_macho_reach(
            t,
            m,
            start + 28,
            num32(s, start + 16, true),
            false,
            true,
            28 + num32(s, start + 20, true),
        );
    }
}

#[verifier::rlimit(40)]
proof fn lemma_macho32_le_prolonged(t: Seq<u8>, m: int, start: int)
    requires
        0 <= m <= t.len(),
        0 <= start,
    ensures
        macho_extent(t.take(m), start, false, false) is Some ==> macho_extent(t, start, false, false) == macho_extent(t.take(m), start, false, false),
{
    let s = t.take(m);
    if within(s, start, 24) {
        lemma_macho_reach(
            t,
            m,
            start + 28,
            num32(s, start + 16, false),
            false,
            false,
            28 + num32(s, start + 20, false),
        );
    }
}

#[verifier::rlimit(40)]
proof fn lemma_macho64_be_prolonged(t: Seq<u8>, m: int, start: int)
    requires
        0 <= m <= t.len(),
        0 <= start,
    ensures
        macho_extent(t.take(m), start, true, true) is Some ==> macho_extent(t, start, true, true) == macho_extent(t.take(m), start, true, true),
{
    let s = t.take(m);
    if within(s, start, 24) {
        lemma_macho_reach(
            t,
            m,
            start + 32,
            num32(s, start + 16, true),
            true,
            true,
            32 + num32(s, start + 20, true),
        );
    }
}

#[verifier::rlimit(40)]
proof fn lemma_macho64_le_prolonged(t: Seq<u8>, m: int, start: int)
    requires
        0 <= m <= t.len(),
        0 <= start,
    ensures
        macho_extent(t.take(m), start, true, false) is Some ==> macho_extent(t, start, true, false) == macho_extent(t.take(m), start, true, false),
{
    let s = t.take(m);
    if within(s, start, 24) {
        lemma_macho_reach(
            t,
            m,
            start + 32,
            num32(s, start + 16, false),
            true,
            false,
            32 + num32(s, start + 20, false),
        );
    }
}

#[verifier::rlimit(40)]
proof fn lemma_macho_fat_prolonged(t: Seq<u8>, m: int, start: int)
    requires
        0 <= m <= t.len(),
        0 <= start,
    ensures
        macho_fat_extent(t.take(m), start) is Some ==> macho_fat_extent(t, start) == macho_fat_extent(t.take(m), start),
{
    let s = t.take(m);
    if is_fat_header(s, start) {
        lemma_table(t, m, fat_row(), start + 8, be32(s, start + 4));
    }
}

#[verifier::rlimit(40)]
proof fn lemma_pef_prolonged(t: Seq<u8>, m: int, start: int)
    requires
        0 <= m <= t.len(),
        0 <= start,
    ensures
        pef_extent(t.take(m), start) is Some ==> pef_extent(t, start) == pef_extent(t.take(m), start),
{
    let s = t.take(m);
    if within(s, start, 34) && within(s, start + 40, 28 * be16(s, start + 32)) {
        lemma_table(t, m, pef_row(), start + 40, be16(s, start + 32));
    }
}

#[verifier::rlimit(40)]
proof fn lemma_iff_prolonged(t: Seq<u8>, m: int, start: int)
    requires
        0 <= m <= t.len(),
        0 <= start,
    ensures
        be_container_extent(t.take(m), start, FORM as int) is Some ==> be_container_extent(t, start, FORM as int) == be_container_extent(t.take(m), start, FORM as int),
{
}

#[verifier::rlimit(40)]
proof fn lemma_asf_prolonged(t: Seq<u8>, m: int, start: int)
    requires
        0 <= m <= t.len(),
        0 <= start,
    ensures
        asf_extent(t.take(m), start) is Some ==> asf_extent(t, start) == asf_extent(t.take(m), start),
{
    let s = t.take(m);
    if within(s, start, 28) {
        lemma_asf_size(t, m, start + 30, le32(s, start + 24));
    }
}

#[verifier::rlimit(40)]
proof fn lemma_dsf_prolonged(t: Seq<u8>, m: int, start: int)
    requires
        0 <= m <= t.len(),
        0 <= start,
    ensures
        dsf_extent(t.take(m), start) is Some ==> dsf_extent(t, start) == dsf_extent(t.take(m), start),
{
}

#[verifier::rlimit(40)]
proof fn lemma_midi_prolonged(t: Seq<u8>, m: int, start: int)
    requires
        0 <= m <= t.len(),
        0 <= start,
    ensures
        midi_extent(t.take(m), start) is Some ==> midi_extent(t, start) == midi_extent(t.take(m), start),
{
    let s = t.take(m);
    if within(s, start, 12) {
        lemma_midi_tracks(t, m, start + 8 + be32(s, start + 4), be16(s, start + 10));
    }
}

#[verifier::rlimit(40)]
proof fn lemma_mod_prolonged(t: Seq<u8>, m: int, start: int)
    requires
        0 <= m <= t.len(),
        0 <= start,
    ensures
        mod_extent(t.take(m), start) is Some ==> mod_extent(t, start) == mod_extent(t.take(m), start),
{
    let s = t.take(m);
    if within(s, start, 1080) {
        let patterns = if s[start + 950] > 128 {
            128
        } else {
            s[start + 950] as int
        };
        lemma_mod(t, m, start, 31, patterns);
    }
}

#[verifier::rlimit(40)]
proof fn lemma_cpio_newc_prolonged(t: Seq<u8>, m: int, start: int)
    requires
        0 <= m <= t.len(),
        0 <= start,
    ensures
        newc_extent(t.take(m), start) is Some ==> newc_extent(t, start) == newc_extent(t.take(m), start),
{
    let s = t.take(m);
    lemma_newc(t, m, start, start);
}

#[verifier::rlimit(40)]
proof fn lemma_cpio_odc_prolonged(t: Seq<u8>, m: int, start: int)
    requires
        0 <= m <= t.len(),
        0 <= start,
    ensures
        odc_extent(t.take(m), start) is Some ==> odc_extent(t, start) == odc_extent(t.take(m), start),
{
    let s = t.take(m);
    lemma_odc(t, m, start);
}

#[verifier::rlimit(40)]
proof fn lemma_iso9660_prolonged(t: Seq<u8>, m: int, start: int)
    requires
        0 <= m <= t.len(),
        0 <= start,
    ensures
        iso_extent(t.take(m), start) is Some ==> iso_extent(t, start) == iso_extent(t.take(m), start),
{
}

#[verifier::rlimit(40)]
proof fn lemma_zstd_prolonged(t: Seq<u8>, m: int, start: int)
    requires
        0 <= m <= t.len(),
        0 <= start,
    ensures
        zstd_extent(t.take(m), start) is Some ==> zstd_extent(t, start) == zstd_extent(t.take(m), start),
{
    let s = t.take(m);
    if within(s, start, 5) {
        lemma_zstd_blocks(t, m, start + zstd_header_len(s[start + 4]));
    }
}

#[verifier::rlimit(40)]
proof fn lemma_wad_prolonged(t: Seq<u8>, m: int, start: int)
    requires
        0 <= m <= t.len(),
        0 <= start,
    ensures
        wad_extent(t.take(m), start) is Some ==> wad_extent(t, start) == wad_extent(t.take(m), start),
{
    let s = t.take(m);
    if within(s, start, 12) && within(s, start + le32(s, start + 8), 16 * le32(s, start + 4)) {
        lemma_table(t, m, wad_row(), start + le32(s, start + 8), le32(s, start + 4));
    }
}

#[verifier::rlimit(40)]
proof fn lemma_pak_quake_prolonged(t: Seq<u8>, m: int, start: int)
    requires
        0 <= m <= t.len(),
        0 <= start,
    ensures
        pak_extent(t.take(m), start) is Some ==> pak_extent(t, start) == pak_extent(t.take(m), start),
{
    let s = t.take(m);
    if within(s, start, 12) && within(s, start + le32(s, start + 4), le32(s, start + 8)) {
        lemma_table(t, m, pak_row(), start + le32(s, start + 4), le32(s, start + 8) / 64);
    }
}

#[verifier::rlimit(40)]
proof fn lemma_vbsp_prolonged(t: Seq<u8>, m: int, start: int)
    requires
        0 <= m <= t.len(),
        0 <= start,
    ensures
        vbsp_extent(t.take(m), start) is Some ==> vbsp_extent(t, start) == vbsp_extent(t.take(m), start),
{
    let s = t.take(m);
    if within(s, start, 280) {
        lemma_table(t, m, vbsp_row(), start + 8, 17);
    }
}

#[verifier::rlimit(40)]
proof fn lemma_nes_prolonged(t: Seq<u8>, m: int, start: int)
    requires
        0 <= m <= t.len(),
        0 <= start,
    ensures
        nes_extent(t.take(m), start) is Some ==> nes_extent(t, start) == nes_extent(t.take(m), start),
{
}

#[verifier::rlimit(40)]
proof fn lemma_unity_fs_prolonged(t: Seq<u8>, m: int, start: int)
    requires
        0 <= m <= t.len(),
        0 <= start,
    ensures
        unityfs_extent(t.take(m), start) is Some ==> unityfs_extent(t, start) == unityfs_extent(t.take(m), start),
{
    let s = t.take(m);
    lemma_cstring(t, m, start + 12);
    if let Some(second) = cstring_end(s, start + 12) {
        lemma_cstring(t, m, second);
    }
}

#[verifier::rlimit(40)]
proof fn lemma_vpk_prolonged(t: Seq<u8>, m: int, start: int)
    requires
        0 <= m <= t.len(),
        0 <= start,
    ensures
        vpk_extent(t.take(m), start) is Some ==> vpk_extent(t, start) == vpk_extent(t.take(m), start),
{
}

#[verifier::rlimit(40)]
proof fn lemma_swf_prolonged(t: Seq<u8>, m: int, start: int)
    requires
        0 <= m <= t.len(),
        0 <= start,
        swf_extent(t.take(m), start) matches Some((_, confidence)) && confidence == 95,
    ensures
        swf_extent(t, start) == swf_extent(t.take(m), start),
{
}

#[verifier::rlimit(40)]
proof fn lemma_rifx_prolonged(t: Seq<u8>, m: int, start: int)
    requires
        0 <= m <= t.len(),
        0 <= start,
    ensures
        be_container_extent(t.take(m), start, RIFX as int) is Some ==> be_container_extent(t, start, RIFX as int) == be_container_extent(t.take(m), start, RIFX as int),
{
}

#[verifier::rlimit(40)]
proof fn lemma_real_media_prolonged(t: Seq<u8>, m: int, start: int)
    requires
        0 <= m <= t.len(),
        0 <= start,
    ensures
        realmedia_extent(t.take(m), start) is Some ==> realmedia_extent(t, start) == realmedia_extent(t.take(m), start),
{
    let s = t.take(m);
    if within(s, start, 18) {
        lemma_realmedia_chunks(t, m, start + be32(s, start + 4), be32(s, start + 14) - 1);
    }
}

#[verifier::rlimit(40)]
proof fn lemma_voc_prolonged(t: Seq<u8>, m: int, start: int)
    requires
        0 <= m <= t.len(),
        0 <= start,
    ensures
        voc_extent(t.take(m), start) is Some ==> voc_extent(t, start) == voc_extent(t.take(m), start),
{
    let s = t.take(m);
    if within(s, start, 22) {
        lemma_voc(t, m, start + le16(s, start + 20));
    }
}

#[verifier::rlimit(40)]
proof fn lemma_ebml_prolonged(t: Seq<u8>, m: int, start: int)
    requires
        0 <= m <= t.len(),
        0 <= start,
    ensures
        ebml_extent(t.take(m), start) is Some ==> ebml_extent(t, start) == ebml_extent(t.take(m), start),
{
    let s = t.take(m);
    if within(s, start, 4) {
        lemma_vint(t, m, start + 4);
        if let Some((size, len)) = vint(s, start + 4) {
            lemma_vint(t, m, start + 4 + len + size + 4);
        }
    }
}

#[verifier::rlimit(40)]
proof fn lemma_woff_prolonged(t: Seq<u8>, m: int, start: int)
    requires
        0 <= m <= t.len(),
        0 <= start,
    ensures
        woff_extent(t.take(m), start) is Some ==> woff_extent(t, start) == woff_extent(t.take(m), start),
{
}

#[verifier::rlimit(40)]
proof fn lemma_glb_prolonged(t: Seq<u8>, m: int, start: int)
    requires
        0 <= m <= t.len(),
        0 <= start,
    ensures
        glb_extent(t.take(m), start) is Some ==> glb_extent(t, start) == glb_extent(t.take(m), start),
{
}

#[verifier::rlimit(40)]
proof fn lemma_mpq_prolonged(t: Seq<u8>, m: int, start: int)
    requires
        0 <= m <= t.len(),
        0 <= start,
    ensures
        mpq_extent(t.take(m), start) is Some ==> mpq_extent(t, start) == mpq_extent(t.take(m), start),
{
}

#[verifier::rlimit(40)]
proof fn lemma_squashfs_prolonged(t: Seq<u8>, m: int, start: int)
    requires
        0 <= m <= t.len(),
        0 <= start,
    ensures
        squashfs_extent(t.take(m), start) is Some ==> squashfs_extent(t, start) == squashfs_extent(t.take(m), start),
{
}

#[verifier::rlimit(40)]
proof fn lemma_cab_prolonged(t: Seq<u8>, m: int, start: int)
    requires
        0 <= m <= t.len(),
        0 <= start,
    ensures
        cab_extent(t.take(m), start) is Some ==> cab_extent(t, start) == cab_extent(t.take(m), start),
{
}

#[verifier::rlimit(40)]
proof fn lemma_dex_prolonged(t: Seq<u8>, m: int, start: int)
    requires
        0 <= m <= t.len(),
        0 <= start,
    ensures
        dex_extent(t.take(m), start) is Some ==> dex_extent(t, start) == dex_extent(t.take(m), start),
{
}

#[verifier::rlimit(40)]
proof fn lemma_dpx_be_prolonged(t: Seq<u8>, m: int, start: int)
    requires
        0 <= m <= t.len(),
        0 <= start,
    ensures
        dpx_extent(t.take(m), start, true) is Some ==> dpx_extent(t, start, true) == dpx_extent(t.take(m), start, true),
{
}

#[verifier::rlimit(40)]
proof fn lemma_dpx_le_prolonged(t: Seq<u8>, m: int, start: int)
    requires
        0 <= m <= t.len(),
        0 <= start,
    ensures
        dpx_extent(t.take(m), start, false) is Some ==> dpx_extent(t, start, false) == dpx_extent(t.take(m), start, false),
{
}

#[verifier::rlimit(40)]
proof fn lemma_icc_prolonged(t: Seq<u8>, m: int, start: int)
    requires
        0 <= m <= t.len(),
        0 <= start,
    ensures
        icc_extent(t.take(m), start) is Some ==> icc_extent(t, start) == icc_extent(t.take(m), start),
{
}

#[verifier::rlimit(40)]
proof fn lemma_apple_single_double_prolonged(t: Seq<u8>, m: int, start: int)
    requires
        0 <= m <= t.len(),
        0 <= start,
    ensures
        apple_extent(t.take(m), start) is Some ==> apple_extent(t, start) == apple_extent(t.take(m), start),
{
    let s = t.take(m);
    if within(s, start, 26) && within(s, start + 26, 12 * be16(s, start + 24)) {
        lemma_table(t, m, apple_row(), start + 26, be16(s, start + 24));
    }
}

#[verifier::rlimit(40)]
proof fn lemma_blend_prolonged(t: Seq<u8>, m: int, start: int)
    requires
        0 <= m <= t.len(),
        0 <= start,
    ensures
        blend_extent(t.take(m), start) is Some ==> blend_extent(t, start) == blend_extent(t.take(m), start),
{
    let s = t.take(m);
    lemma_blend(t, m, start + 12, 20, false);
    lemma_blend(t, m, start + 12, 20, true);
    lemma_blend(t, m, start + 12, 24, false);
    lemma_blend(t, m, start + 12, 24, true);
}

#[verifier::rlimit(40)]
proof fn lemma_au_prolonged(t: Seq<u8>, m: int, start: int)
    requires
        0 <= m <= t.len(),
        0 <= start,
    ensures
        au_extent(t.take(m), start) is Some ==> au_extent(t, start) == au_extent(t.take(m), start),
{
}

#[verifier::rlimit(40)]
proof fn lemma_sfnt_prolonged(t: Seq<u8>, m: int, start: int)
    requires
        0 <= m <= t.len(),
        0 <= start,
    ensures
        sfnt_extent(t.take(m), start) is Some ==> sfnt_extent(t, start) == sfnt_extent(t.take(m), start),
{
    let s = t.take(m);
    if is_sfnt_header(s, start) && within(s, start + 12, 16 * be16(s, start + 4)) {
        lemma_table(t, m, sfnt_row(), start + 12, be16(s, start + 4));
    }
}

/// The entries of a TAR archive from `pos` on lead to a zero block with a whole
/// block behind it, as where both zero blocks are there.
pub open spec fn is_closed_tar(s: Seq<u8>, pos: int) -> bool
    decreases s.len() - pos,
{
    if !within(s, pos, 512) {
        false
    } else if zeros(s, pos, 512) {
        within(s, pos + 512, 512)
    } else {
        match tar_entry_end(s, pos) {
            Some(next) if next > pos => is_closed_tar(s, next),
            _ => false,
        }
    }
}

#[verifier::rlimit(40)]
proof fn lemma_word_end(t: Seq<u8>, m: int, from: int, to: int)
    requires
        0 <= from <= to <= m <= t.len(),
    ensures
        word_end(t, from, to) == word_end(t.take(m), from, to),
        from <= word_end(t, from, to) <= to,
    decreases to - from,
{
    if from < to {
        lemma_word_end(t, m, from + 1, to);
    }
}

#[verifier::rlimit(40)]
proof fn lemma_zeros(t: Seq<u8>, m: int, x: int)
    requires
        0 <= x,
        x + 512 <= m <= t.len(),
    ensures
        zeros(t, x, 512) == zeros(t.take(m), x, 512),
{
    let s = t.take(m);
    if zeros(s, x, 512) {
        assert forall|i: int| x <= i < x + 512 implies t[i] == 0 by {
            assert(s[i] == 0);
        }
    }
    if zeros(t, x, 512) {
        assert forall|i: int| x <= i < x + 512 implies s[i] == 0 by {
            assert(t[i] == 0);
        }
    }
}

/// A TAR archive that has its zero blocks is not prolonged by what follows.
#[verifier::rlimit(40)]
proof fn lemma_tar(t: Seq<u8>, m: int, x: int, last: Option<int>)
    requires
        0 <= m <= t.len(),
        0 <= x,
        is_closed_tar(t.take(m), x),
    ensures
        tar_extent_from(t, x, last) == tar_extent_from(t.take(m), x, last),
    decreases m - x,
{
    let s = t.take(m);
    lemma_zeros(t, m, x);
    if zeros(s, x, 512) {
        lemma_zeros(t, m, x + 512);
    } else {
        lemma_word_end(t, m, x + 124, x + 136);
        assert(tar_size(t, x) == tar_size(s, x));
        match tar_entry_end(s, x) {
            Some(next) if next > x => {
                assert(tar_entry_end(t, x) == Some(next));
                lemma_tar(t, m, next, Some(next - 1));
            },
            _ => {},
        }
    }
}

/// The validator knows the end of the file at `start` of `s` by the file alone:
/// it does not go by where the data end, or follow a compressed stream or an
/// executable that another crate reads.
pub open spec fn is_self_delimiting(validator: Validator, s: Seq<u8>, start: int) -> bool {
    match validator.extent(s, start) {
        Some((_, confidence)) => match validator {
            Validator::Tar => is_closed_tar(s, start),
            Validator::Rar | Validator::Ogg => confidence == 90,
            Validator::Swf => confidence == 95,
            Validator::Isobmff | Validator::Caf | Validator::Ar | Validator::Flv => false,
            Validator::Gzip | Validator::Elf | Validator::Pe => false,
            _ => true,
        },
        None => false,
    }
}

/// What stands behind a file does not matter: a file that is complete in the
/// first `m` bytes keeps its extent whatever follows.
pub proof fn law_suffix_does_not_matter(validator: Validator, t: Seq<u8>, m: int, start: int)
    requires
        0 <= m <= t.len(),
        0 <= start,
        is_self_delimiting(validator, t.take(m), start),
    ensures
        validator.extent(t, start) == validator.extent(t.take(m), start),
{
    reveal(Validator::extent);
    match validator {
        Validator::Zip => {
            lemma_zip_prolonged(t, m, start);
        },
        Validator::Gzip => {},
        Validator::Tar => {
            lemma_tar(t, m, start, None);
        },
        Validator::Elf => {},
        Validator::Pe => {},
        Validator::Png => {
            lemma_png_prolonged(t, m, start);
        },
        Validator::Mng => {
            lemma_mng_prolonged(t, m, start);
        },
        Validator::Jng => {
            lemma_jng_prolonged(t, m, start);
        },
        Validator::Jpeg => {
            lemma_jpeg_prolonged(t, m, start);
        },
        Validator::Sqlite => {
            lemma_sqlite_prolonged(t, m, start);
        },
        Validator::Rar => {
            lemma_rar(t, m, start + 7, start + 7);
        },
        Validator::SevenZip => {
            lemma_seven_zip_prolonged(t, m, start);
        },
        Validator::Riff => {
            lemma_riff_prolonged(t, m, start);
        },
        Validator::Ico => {
            lemma_ico(t, m, start);
        },
        Validator::Icns => {
            lemma_icns_prolonged(t, m, start);
        },
        Validator::Isobmff => {},
        Validator::EpsBinaryHeader => {
            lemma_eps_binary_header_prolonged(t, m, start);
        },
        Validator::Wmf => {
            lemma_wmf_prolonged(t, m, start);
        },
        Validator::Emf => {
            lemma_emf_prolonged(t, m, start);
        },
        Validator::Macho32Be => {
            lemma_macho32_be_prolonged(t, m, start);
        },
        Validator::Macho32Le => {
            lemma_macho32_le_prolonged(t, m, start);
        },
        Validator::Macho64Be => {
            lemma_macho64_be_prolonged(t, m, start);
        },
        Validator::Macho64Le => {
            lemma_macho64_le_prolonged(t, m, start);
        },
        Validator::MachoFat => {
            lemma_macho_fat_prolonged(t, m, start);
        },
        Validator::Pef => {
            lemma_pef_prolonged(t, m, start);
        },
        Validator::Iff => {
            lemma_iff_prolonged(t, m, start);
        },
        Validator::Ogg => {
            lemma_ogg(t, m, start, start);
        },
        Validator::Asf => {
            lemma_asf_prolonged(t, m, start);
        },
        Validator::Dsf => {
            lemma_dsf_prolonged(t, m, start);
        },
        Validator::Caf => {},
        Validator::Midi => {
            lemma_midi_prolonged(t, m, start);
        },
        Validator::Mod => {
            lemma_mod_prolonged(t, m, start);
        },
        Validator::CpioNewc => {
            lemma_cpio_newc_prolonged(t, m, start);
        },
        Validator::CpioOdc => {
            lemma_cpio_odc_prolonged(t, m, start);
        },
        Validator::Ar => {},
        Validator::Iso9660 => {
            lemma_iso9660_prolonged(t, m, start);
        },
        Validator::Zstd => {
            lemma_zstd_prolonged(t, m, start);
        },
        Validator::Wad => {
            lemma_wad_prolonged(t, m, start);
        },
        Validator::PakQuake => {
            lemma_pak_quake_prolonged(t, m, start);
        },
        Validator::Vbsp => {
            lemma_vbsp_prolonged(t, m, start);
        },
        Validator::Nes => {
            lemma_nes_prolonged(t, m, start);
        },
        Validator::UnityFs => {
            lemma_unity_fs_prolonged(t, m, start);
        },
        Validator::Vpk => {
            lemma_vpk_prolonged(t, m, start);
        },
        Validator::Swf => {
            lemma_swf_prolonged(t, m, start);
        },
        Validator::Rifx => {
            lemma_rifx_prolonged(t, m, start);
        },
        Validator::RealMedia => {
            lemma_real_media_prolonged(t, m, start);
        },
        Validator::Voc => {
            lemma_voc_prolonged(t, m, start);
        },
        Validator::Ebml => {
            lemma_ebml_prolonged(t, m, start);
        },
        Validator::Flv => {},
        Validator::Woff => {
            lemma_woff_prolonged(t, m, start);
        },
        Validator::Glb => {
            lemma_glb_prolonged(t, m, start);
        },
        Validator::Mpq => {
            lemma_mpq_prolonged(t, m, start);
        },
        Validator::Squashfs => {
            lemma_squashfs_prolonged(t, m, start);
        },
        Validator::Cab => {
            lemma_cab_prolonged(t, m, start);
        },
        Validator::Dex => {
            lemma_dex_prolonged(t, m, start);
        },
        Validator::DpxBe => {
            lemma_dpx_be_prolonged(t, m, start);
        },
        Validator::DpxLe => {
            lemma_dpx_le_prolonged(t, m, start);
        },
        Validator::Icc => {
            lemma_icc_prolonged(t, m, start);
        },
        Validator::AppleSingleDouble => {
            lemma_apple_single_double_prolonged(t, m, start);
        },
        Validator::Blend => {
            lemma_blend_prolonged(t, m, start);
        },
        Validator::Au => {
            lemma_au_prolonged(t, m, start);
        },
        Validator::Sfnt => {
            lemma_sfnt_prolonged(t, m, start);
        },
    }
}

} // verus!
