//! A file is recognised wherever it stands.
use vstd::prelude::*;
use vstd::utf8::decode_utf8;
use crate::archives::{
    ar_extent, ar_extent_from, ar_member_end, ar_size, cab_extent, cstring_end, gzip_extent,
    gzip_extra_end, gzip_stream_start, gzip_text_end, is_trailer_name, is_ustar, iso_extent,
    mpq_extent, newc_entry_end, newc_extent_from, newc_sizes, odc_extent, odc_sizes, rar_block_end,
    rar_extent, rar_extent_from, seven_zip_extent, squashfs_extent, tar_entry_end, tar_extent_from,
    tar_size, word_end, zeros, zip_central_end, zip_extent, zip_local_end, zip_locals_end,
    zstd_block_len, zstd_blocks_end, zstd_extent, zstd_header_len, ZIP_CENTRAL, ZIP_LOCAL,
};
use crate::bytes::{be16, be24, be32, be64, flag, le16, le24, le32, le64, num32, within};
use crate::documents::{
    apple_extent, apple_row, blend_extent, blend_extent_from, glb_extent, is_sfnt_header,
    sfnt_extent, sfnt_row, sqlite_extent, woff_extent,
};
use crate::executables::{
    dex_extent, elf_extent, fat_row, is_fat_header, macho_command_reach, macho_extent,
    macho_fat_extent, macho_reach, pe_extent, pef_extent, pef_row,
};
use crate::games::{
    nes_extent, pak_extent, pak_row, unityfs_extent, vbsp_extent, vbsp_row, vpk_extent, wad_extent,
    wad_row,
};
use crate::images::{
    dpx_extent, emf_extent, eps_extent, fill_end, icc_extent, icns_extent, ico_entry,
    ico_entry_sound, ico_extent, ico_reach, jpeg_extent, jpeg_extent_from, jpeg_segment_end,
    looks_like_icon_image, png_chunks_end, png_extent, scan_end, wmf_extent, IEND, JEND, JNG_SIGNATURE, MEND,
    MNG_SIGNATURE, PNG_SIGNATURE,
};
use crate::media::{
    asf_extent, asf_file_size, au_extent, be_container_extent, byte_sum, caf_extent,
    caf_extent_from, dsf_extent, ebml_extent, flv_extent, flv_extent_from, is_asf_file_properties,
    isobmff_extent, isobmff_extent_from, midi_extent, midi_tracks_end, mod_extent, mod_pattern_count,
    mod_samples_len, ogg_extent, ogg_extent_from, ogg_page_end, realmedia_chunks_end,
    realmedia_extent, riff_extent, swf_extent, vint, vint_len, vint_value, voc_extent,
    voc_terminator, FORM, RIFX,
};
use crate::numbers::{field_number, lemma_digits_nonnegative, padded_field_number};
use crate::search::{first_byte, first_occurrence, lemma_first_byte_is_first, occurs_at};
use crate::tables::{larger, table_reach, Row};
use crate::text::trim;
use crate::validators::Validator;

verus! {

broadcast use crate::skipping::group_skip;

/// An extent moved by `n` bytes.
pub open spec fn moved(r: Option<(int, int)>, n: int) -> Option<(int, int)> {
    match r {
        Some((end, confidence)) => Some((n + end, confidence)),
        None => None,
    }
}

/// An offset moved by `n` bytes.
pub open spec fn moved_offset(r: Option<int>, n: int) -> Option<int> {
    match r {
        Some(at) => Some(n + at),
        None => None,
    }
}

#[verifier::rlimit(40)]
proof fn lemma_first_byte(t: Seq<u8>, n: int, x: int, b: u8)
    requires
        0 <= n <= t.len(),
        0 <= x,
    ensures
        first_byte(t, n + x, b) == moved_offset(first_byte(t.skip(n), x, b), n),
    decreases t.len() - n - x,
{
    if n + x < t.len() {
        lemma_first_byte(t, n, x + 1, b);
    }
}

#[verifier::rlimit(40)]
proof fn lemma_first_occurrence(t: Seq<u8>, n: int, x: int, needle: Seq<u8>)
    requires
        0 <= n <= t.len(),
        0 <= x,
    ensures
        first_occurrence(t, n + x, needle) == moved_offset(
            first_occurrence(t.skip(n), x, needle),
            n,
        ),
    decreases t.len() - n - x + 1,
{
    if n + x <= t.len() {
        let s = t.skip(n);
        assert(occurs_at(s, needle, x) == occurs_at(t, needle, n + x)) by {
            if n + x + needle.len() <= t.len() {
                assert(s.subrange(x, x + needle.len()) == t.subrange(n + x, n + x + needle.len()));
            }
        }
        lemma_first_occurrence(t, n, x + 1, needle);
    }
}

#[verifier::rlimit(40)]
proof fn lemma_zip_locals(t: Seq<u8>, n: int, x: int)
    requires
        0 <= n <= t.len(),
        0 <= x,
    ensures
        zip_locals_end(t, n + x) == moved_offset(zip_locals_end(t.skip(n), x), n),
    decreases t.len() - n - x,
{
    let s = t.skip(n);
    if within(s, x, 30) && be32(s, x) == ZIP_LOCAL {
        let header_end = x + 30 + le16(s, x + 26) + le16(s, x + 28);
        lemma_first_occurrence(t, n, header_end, seq![0x50u8, 0x4Bu8]);
        assert(zip_local_end(t, n + x) == moved_offset(zip_local_end(s, x), n));
        match zip_local_end(s, x) {
            Some(next) if x < next <= s.len() => {
                lemma_zip_locals(t, n, next);
            },
            _ => {},
        }
    }
}

#[verifier::rlimit(40)]
proof fn lemma_zip_central(t: Seq<u8>, n: int, x: int)
    requires
        0 <= n <= t.len(),
        0 <= x,
    ensures
        zip_central_end(t, n + x) == moved_offset(zip_central_end(t.skip(n), x), n),
    decreases t.len() - n - x,
{
    let s = t.skip(n);
    if within(s, x, 34) && be32(s, x) == ZIP_CENTRAL {
        let next = x + 46 + le16(s, x + 28) + le16(s, x + 30)
            + le16(s, x + 32);
        if next <= s.len() {
            lemma_zip_central(t, n, next);
        }
    }
}

#[verifier::rlimit(40)]
proof fn lemma_zip_locals_nonnegative(s: Seq<u8>, pos: int)
    requires
        0 <= pos,
    ensures
        zip_locals_end(s, pos) matches Some(end) ==> 0 <= end,
    decreases s.len() - pos,
{
    if within(s, pos, 30) && be32(s, pos) == ZIP_LOCAL {
        match zip_local_end(s, pos) {
            Some(next) if pos < next <= s.len() => {
                lemma_zip_locals_nonnegative(s, next);
            },
            _ => {},
        }
    }
}

#[verifier::rlimit(40)]
proof fn lemma_zip_central_nonnegative(s: Seq<u8>, pos: int)
    requires
        0 <= pos,
    ensures
        zip_central_end(s, pos) matches Some(end) ==> 0 <= end,
    decreases s.len() - pos,
{
    if within(s, pos, 34) && be32(s, pos) == ZIP_CENTRAL {
        let next = pos + 46 + le16(s, pos + 28) + le16(s, pos + 30)
            + le16(s, pos + 32);
        if next <= s.len() {
            lemma_zip_central_nonnegative(s, next);
        }
    }
}

#[verifier::rlimit(40)]
proof fn lemma_zip(t: Seq<u8>, n: int)
    requires
        0 <= n <= t.len(),
    ensures
        zip_extent(t, n) == moved(zip_extent(t.skip(n), 0), n),
{
    let s = t.skip(n);
    lemma_zip_locals(t, n, 0);
    lemma_zip_locals_nonnegative(s, 0);
    if let Some(central) = zip_locals_end(s, 0) {
        lemma_zip_central(t, n, central);
        lemma_zip_central_nonnegative(s, central);
    }
}

/// A file that is recognised on its own is recognised `n` bytes into other data,
/// with the same extent.
pub open spec fn keeps(there: Option<(int, int)>, alone: Option<(int, int)>, n: int) -> bool {
    alone is Some ==> there == moved(alone, n)
}

#[verifier::rlimit(40)]
proof fn lemma_cstring(t: Seq<u8>, n: int, x: int)
    requires
        0 <= n <= t.len(),
        0 <= x,
    ensures
        cstring_end(t, n + x) == moved_offset(cstring_end(t.skip(n), x), n),
        cstring_end(t.skip(n), x) matches Some(end) ==> end > x,
{
    lemma_first_byte(t, n, x, 0);
    lemma_first_byte_is_first(t.skip(n), x, 0);
}

#[verifier::rlimit(40)]
proof fn lemma_gzip(t: Seq<u8>, n: int)
    requires
        0 <= n <= t.len(),
    ensures
        keeps(gzip_extent(t, n), gzip_extent(t.skip(n), 0), n),
{
    let s = t.skip(n);
    if within(s, 0, 4) {
        let flags = s[3];
        assert(t[n + 3] == flags);
        assert(gzip_extra_end(t, flags, n + 10) == moved_offset(gzip_extra_end(s, flags, 10), n));
        if let Some(name) = gzip_extra_end(s, flags, 10) {
            lemma_cstring(t, n, name);
            if let Some(comment) = gzip_text_end(s, flag(flags, 8), name) {
                lemma_cstring(t, n, comment);
            }
        }
        assert(gzip_stream_start(t, n) == moved_offset(gzip_stream_start(s, 0), n));
        if let Some(stream) = gzip_stream_start(s, 0) {
            if let Some(name) = gzip_extra_end(s, flags, 10) {
                if let Some(comment) = gzip_text_end(s, flag(flags, 8), name) {
                    if let Some(pos) = gzip_text_end(s, flag(flags, 16), comment) {
                        assert(stream >= 0);
                    }
                }
            }
            assert(s.skip(stream) == t.skip(n + stream));
        }
    }
}

#[verifier::rlimit(40)]
proof fn lemma_word_end(t: Seq<u8>, n: int, from: int, to: int)
    requires
        0 <= n,
        0 <= from <= to,
        n + to <= t.len(),
    ensures
        word_end(t, n + from, n + to) == n + word_end(t.skip(n), from, to),
        from <= word_end(t.skip(n), from, to) <= to,
    decreases to - from,
{
    if from < to {
        lemma_word_end(t, n, from + 1, to);
    }
}

#[verifier::rlimit(40)]
proof fn lemma_tar_entry(t: Seq<u8>, n: int, x: int)
    requires
        0 <= n <= t.len(),
        within(t.skip(n), x, 512),
    ensures
        tar_size(t, n + x) == tar_size(t.skip(n), x),
        is_ustar(t, n + x) == is_ustar(t.skip(n), x),
        zeros(t, n + x, 512) == zeros(t.skip(n), x, 512),
{
    let s = t.skip(n);
    lemma_word_end(t, n, x + 124, x + 136);
    lemma_zeros(t, n, x);
}

#[verifier::rlimit(40)]
proof fn lemma_zeros(t: Seq<u8>, n: int, x: int)
    requires
        0 <= n <= t.len(),
        0 <= x,
    ensures
        zeros(t, n + x, 512) == zeros(t.skip(n), x, 512),
{
    let s = t.skip(n);
    if zeros(t, n + x, 512) {
        assert forall|i: int| x <= i < x + 512 implies s[i] == 0 by {
            assert(t[n + i] == 0);
        }
    }
    if zeros(s, x, 512) {
        assert forall|i: int| n + x <= i < n + x + 512 implies t[i] == 0 by {
            assert(s[i - n] == 0);
        }
    }
}

#[verifier::rlimit(40)]
proof fn lemma_tar(t: Seq<u8>, n: int, x: int, last: Option<int>)
    requires
        0 <= n <= t.len(),
        0 <= x,
        last matches Some(end) ==> end < x,
    ensures
        keeps(
            tar_extent_from(t, n + x, moved_offset(last, n)),
            tar_extent_from(t.skip(n), x, last),
            n,
        ),
    decreases t.skip(n).len() - x,
{
    let s = t.skip(n);
    if within(s, x, 512) {
        lemma_tar_entry(t, n, x);
        lemma_zeros(t, n, x + 512);
        if !zeros(s, x, 512) {
            match tar_entry_end(s, x) {
                Some(next) if next > x => {
                    lemma_tar(t, n, next, Some(next - 1));
                },
                _ => {},
            }
        }
    }
}

#[verifier::rlimit(40)]
proof fn lemma_rar(t: Seq<u8>, n: int, first: int, x: int)
    requires
        0 <= n <= t.len(),
        0 <= first <= x,
    ensures
        rar_extent_from(t, n + first, n + x) == moved(rar_extent_from(t.skip(n), first, x), n),
    decreases t.len() - n - x,
{
    let s = t.skip(n);
    assert(rar_block_end(t, n + x) == moved_offset(rar_block_end(s, x), n));
    if let Some(next) = rar_block_end(s, x) {
        assert(t[n + x + 2] == s[x + 2]);
        lemma_rar(t, n, first, next);
    }
}

#[verifier::rlimit(40)]
proof fn lemma_trailer(t: Seq<u8>, n: int, x: int, len: int)
    requires
        0 <= n <= t.len(),
        within(t.skip(n), x, len),
    ensures
        is_trailer_name(t, n + x, len) == is_trailer_name(t.skip(n), x, len),
{
}

#[verifier::rlimit(40)]
proof fn lemma_newc(t: Seq<u8>, n: int, x: int)
    requires
        0 <= n <= t.len(),
        0 <= x,
    ensures
        newc_extent_from(t, n, n + x) == moved(newc_extent_from(t.skip(n), 0, x), n),
    decreases t.len() - n - x,
{
    let s = t.skip(n);
    if within(s, x, 110) {
        assert(newc_sizes(t, n + x) == newc_sizes(s, x));
        if let Some(sizes) = newc_sizes(s, x) {
            let end = newc_entry_end(0, x, sizes);
            assert(newc_entry_end(n, n + x, sizes) == n + end);
            if x < end <= s.len() {
                lemma_newc_name_inside(s, x);
                lemma_trailer(t, n, x + 110, sizes.0);
                lemma_newc(t, n, end);
            }
        }
    }
}

/// The sizes in a header are not negative, so the name comes before the end.
#[verifier::rlimit(40)]
proof fn lemma_newc_name_inside(s: Seq<u8>, x: int)
    requires
        0 <= x,
    ensures
        newc_sizes(s, x) matches Some(sizes) ==> sizes.0 >= 0 && sizes.1 >= 0,
{
    lemma_number_nonnegative(s.subrange(x + 94, x + 102), 16);
    lemma_number_nonnegative(s.subrange(x + 54, x + 62), 16);
}

/// A number in a field is not negative.
#[verifier::rlimit(40)]
pub proof fn lemma_number_nonnegative(field: Seq<u8>, radix: int)
    requires
        radix >= 1,
    ensures
        field_number(field, radix) matches Some(value) ==> value >= 0,
        padded_field_number(field, radix) matches Some(value) ==> value >= 0,
{
    let plain = decode_utf8(field);
    let padded = trim(plain);
    lemma_digits_nonnegative(plain, radix);
    lemma_digits_nonnegative(plain.skip(1), radix);
    lemma_digits_nonnegative(padded, radix);
    lemma_digits_nonnegative(padded.skip(1), radix);
}

#[verifier::rlimit(40)]
proof fn lemma_odc(t: Seq<u8>, n: int, x: int)
    requires
        0 <= n <= t.len(),
        0 <= x,
    ensures
        odc_extent(t, n + x) == moved(odc_extent(t.skip(n), x), n),
    decreases t.len() - n - x,
{
    let s = t.skip(n);
    if within(s, x, 76) {
        assert(odc_sizes(t, n + x) == odc_sizes(s, x));
        if let Some(sizes) = odc_sizes(s, x) {
            let end = x + 76 + sizes.0 + sizes.1;
            if x < end <= s.len() {
                lemma_number_nonnegative(s.subrange(x + 59, x + 65), 8);
                lemma_number_nonnegative(s.subrange(x + 65, x + 76), 8);
                lemma_trailer(t, n, x + 76, sizes.0);
                lemma_odc(t, n, end);
            }
        }
    }
}

#[verifier::rlimit(40)]
proof fn lemma_ar(t: Seq<u8>, n: int, first: int, x: int)
    requires
        0 <= n <= t.len(),
        0 <= first <= x,
    ensures
        ar_extent_from(t, n + first, n + x) == moved(ar_extent_from(t.skip(n), first, x), n),
    decreases t.len() - n - x,
{
    let s = t.skip(n);
    assert(ar_size(t, n + x) == ar_size(s, x));
    assert(ar_member_end(t, n + x) == moved_offset(ar_member_end(s, x), n));
    match ar_member_end(s, x) {
        Some(next) if next > x => {
            lemma_ar(t, n, first, next);
        },
        _ => {},
    }
}

#[verifier::rlimit(40)]
proof fn lemma_zstd_blocks(t: Seq<u8>, n: int, x: int)
    requires
        0 <= n <= t.len(),
        0 <= x,
    ensures
        zstd_blocks_end(t, n + x) == moved_offset(zstd_blocks_end(t.skip(n), x), n),
    decreases t.len() - n - x,
{
    let s = t.skip(n);
    if within(s, x, 3) {
        let next = x + 3 + zstd_block_len(le24(s, x));
        if next <= s.len() {
            lemma_zstd_blocks(t, n, next);
        }
    }
}

#[verifier::rlimit(40)]
proof fn lemma_png_chunks(t: Seq<u8>, n: int, x: int, end_chunk: int)
    requires
        0 <= n <= t.len(),
        0 <= x,
    ensures
        png_chunks_end(t, n + x, end_chunk) == moved(png_chunks_end(t.skip(n), x, end_chunk), n),
    decreases t.len() - n - x,
{
    let s = t.skip(n);
    if within(s, x, 8) {
        let next = x + 12 + be32(s, x);
        if next <= s.len() {
            lemma_png_chunks(t, n, next, end_chunk);
        }
    }
}

#[verifier::rlimit(40)]
proof fn lemma_fill(t: Seq<u8>, n: int, x: int)
    requires
        0 <= n <= t.len(),
        0 <= x,
    ensures
        fill_end(t, n + x) == n + fill_end(t.skip(n), x),
    decreases t.len() - n - x,
{
    if n + x < t.len() {
        lemma_fill(t, n, x + 1);
    }
}

#[verifier::rlimit(40)]
proof fn lemma_scan(t: Seq<u8>, n: int, x: int)
    requires
        0 <= n <= t.len(),
        0 <= x,
    ensures
        scan_end(t, n + x) == moved_offset(scan_end(t.skip(n), x), n),
    decreases t.len() - n - x,
{
    if n + x + 2 <= t.len() {
        let s = t.skip(n);
        assert(s[x] == t[n + x] && s[x + 1] == t[n + x + 1]);
        lemma_scan(t, n, x + 1);
        lemma_scan(t, n, x + 2);
    }
}

#[verifier::rlimit(40)]
proof fn lemma_jpeg(t: Seq<u8>, n: int, x: int)
    requires
        0 <= n <= t.len(),
        0 <= x,
    ensures
        jpeg_extent_from(t, n + x) == moved(jpeg_extent_from(t.skip(n), x), n),
    decreases t.len() - n - x,
{
    let s = t.skip(n);
    lemma_fill(t, n, x + 1);
    let code = fill_end(s, x + 1);
    if within(s, x, 1) && s[x] == 0xFF && x < code < s.len() {
        assert(t[n + x] == s[x] && t[n + code] == s[code]);
        lemma_jpeg(t, n, code + 1);
        if within(s, code + 1, 2) {
            lemma_scan(t, n, code + 1 + be16(s, code + 1));
        }
        assert(jpeg_segment_end(t, s[code], n + code + 1) == moved_offset(
            jpeg_segment_end(s, s[code], code + 1),
            n,
        ));
        match jpeg_segment_end(s, s[code], code + 1) {
            Some(next) if x < next <= s.len() => {
                lemma_jpeg(t, n, next);
            },
            _ => {},
        }
    } else if within(s, x, 1) {
        assert(t[n + x] == s[x]);
    }
}

#[verifier::rlimit(40)]
proof fn lemma_ico_reach(t: Seq<u8>, n: int, k: int)
    requires
        0 <= n <= t.len(),
        0 <= k,
        within(t.skip(n), 6, 16 * k),
    ensures
        ico_reach(t, n, k) == ico_reach(t.skip(n), 0, k),
    decreases k,
{
    if k > 0 {
        lemma_ico_reach(t, n, k - 1);
    }
}

#[verifier::rlimit(40)]
proof fn lemma_ico_entry(t: Seq<u8>, n: int, count: int, i: int)
    requires
        0 <= n <= t.len(),
        0 <= i,
        within(t.skip(n), ico_entry(0, i), 16),
    ensures
        ico_entry_sound(t, n, count, i) == ico_entry_sound(t.skip(n), 0, count, i),
{
    let s = t.skip(n);
    let offset = le32(s, ico_entry(0, i) + 12);
    assert(le32(t, ico_entry(n, i) + 12) == offset);
    assert(looks_like_icon_image(t, n + offset) == looks_like_icon_image(s, offset));
}

#[verifier::rlimit(40)]
proof fn lemma_ico(t: Seq<u8>, n: int)
    requires
        0 <= n <= t.len(),
    ensures
        keeps(ico_extent(t, n), ico_extent(t.skip(n), 0), n),
{
    let s = t.skip(n);
    if ico_extent(s, 0) is Some {
        let count = le16(s, 4);
        assert(le16(t, n + 4) == count && le16(t, n) == le16(s, 0) && le16(t, n + 2) == le16(s, 2));
        lemma_ico_reach(t, n, count);
        assert forall|i: int| 0 <= i < count implies #[trigger] ico_entry_sound(t, n, count, i) by {
            assert(ico_entry_sound(s, 0, count, i));
            lemma_ico_entry(t, n, count, i);
        }
    }
}

#[verifier::rlimit(40)]
proof fn lemma_table(t: Seq<u8>, n: int, row: Row, x: int, k: int)
    requires
        0 <= n <= t.len(),
        row.wf(),
        within(t.skip(n), x, row.width * k),
    ensures
        table_reach(t, row, n + x, k) == table_reach(t.skip(n), row, x, k),
    decreases k,
{
    if k > 0 {
        assert(row.width * k == row.width + row.width * (k - 1)) by (nonlinear_arith);
        assert(row.width * (k - 1) >= 0) by (nonlinear_arith)
            requires
                k > 0,
        ;
        lemma_table(t, n, row, x + row.width, k - 1);
    }
}

#[verifier::rlimit(40)]
proof fn lemma_macho_reach(t: Seq<u8>, n: int, x: int, k: int, is64: bool, is_be: bool, reach: int)
    requires
        0 <= n <= t.len(),
        0 <= x,
    ensures
        macho_reach(t, n + x, k, is64, is_be, reach) == macho_reach(
            t.skip(n),
            x,
            k,
            is64,
            is_be,
            reach,
        ),
    decreases k,
{
    let s = t.skip(n);
    if k > 0 && within(s, x, 8) && num32(s, x + 4, is_be) >= 8 {
        assert(macho_command_reach(t, n + x, is64, is_be) == macho_command_reach(s, x, is64, is_be));
        if let Some(r) = macho_command_reach(s, x, is64, is_be) {
            lemma_macho_reach(
                t,
                n,
                x + num32(s, x + 4, is_be),
                k - 1,
                is64,
                is_be,
                larger(reach, r),
            );
        }
    }
}

#[verifier::rlimit(40)]
proof fn lemma_macho(t: Seq<u8>, n: int, is64: bool, is_be: bool)
    requires
        0 <= n <= t.len(),
    ensures
        keeps(macho_extent(t, n, is64, is_be), macho_extent(t.skip(n), 0, is64, is_be), n),
{
    let s = t.skip(n);
    if within(s, 0, 24) {
        let header: int = if is64 {
            32
        } else {
            28
        };
        lemma_macho_reach(
            t,
            n,
            header,
            num32(s, 16, is_be),
            is64,
            is_be,
            header + num32(s, 20, is_be),
        );
    }
}

#[verifier::rlimit(40)]
proof fn lemma_isobmff(t: Seq<u8>, n: int, x: int)
    requires
        0 <= n <= t.len(),
        0 <= x,
    ensures
        isobmff_extent_from(t, n, n + x) == moved(isobmff_extent_from(t.skip(n), 0, x), n),
    decreases t.len() - n - x,
{
    let s = t.skip(n);
    if within(s, x, 8) && be32(s, x) != 0 && (be32(s, x) != 1 || within(s, x, 16)) {
        let size = if be32(s, x) == 1 {
            be64(s, x + 8)
        } else {
            be32(s, x)
        };
        if size >= 8 && x + size < s.len() {
            lemma_isobmff(t, n, x + size);
        }
    }
}

#[verifier::rlimit(40)]
proof fn lemma_byte_sum(t: Seq<u8>, n: int, x: int, k: int)
    requires
        0 <= n <= t.len(),
        within(t.skip(n), x, k),
    ensures
        byte_sum(t, n + x, k) == byte_sum(t.skip(n), x, k),
        byte_sum(t.skip(n), x, k) >= 0,
    decreases k,
{
    if k > 0 {
        lemma_byte_sum(t, n, x, k - 1);
    }
}

#[verifier::rlimit(40)]
proof fn lemma_ogg(t: Seq<u8>, n: int, x: int)
    requires
        0 <= n <= t.len(),
        0 <= x,
    ensures
        ogg_extent_from(t, n, n + x) == moved(ogg_extent_from(t.skip(n), 0, x), n),
    decreases t.len() - n - x,
{
    let s = t.skip(n);
    if within(s, x, 27) {
        assert(t[n + x + 26] == s[x + 26] && t[n + x + 5] == s[x + 5]);
        if within(s, x + 27, s[x + 26] as int) {
            lemma_byte_sum(t, n, x + 27, s[x + 26] as int);
        }
    }
    assert(ogg_page_end(t, n + x) == moved_offset(ogg_page_end(s, x), n));
    match ogg_page_end(s, x) {
        Some(next) if next > x => {
            lemma_ogg(t, n, next);
        },
        _ => {},
    }
}

#[verifier::rlimit(40)]
proof fn lemma_asf_size(t: Seq<u8>, n: int, x: int, k: int)
    requires
        0 <= n <= t.len(),
        0 <= x,
    ensures
        asf_file_size(t, n + x, k) == asf_file_size(t.skip(n), x, k),
    decreases k,
{
    let s = t.skip(n);
    if k > 0 && within(s, x, 24) && le64(s, x + 16) >= 24 {
        assert(is_asf_file_properties(t, n + x) == is_asf_file_properties(s, x));
        lemma_asf_size(t, n, x + le64(s, x + 16), k - 1);
    }
}

#[verifier::rlimit(40)]
proof fn lemma_caf(t: Seq<u8>, n: int, first: int, x: int)
    requires
        0 <= n <= t.len(),
        0 <= first <= x,
    ensures
        caf_extent_from(t, n + first, n + x) == moved(caf_extent_from(t.skip(n), first, x), n),
    decreases t.len() - n - x,
{
    let s = t.skip(n);
    if within(s, x, 12) {
        let next = x + 12 + be64(s, x + 4);
        if next < s.len() {
            lemma_caf(t, n, first, next);
        }
    }
}

#[verifier::rlimit(40)]
proof fn lemma_midi_tracks(t: Seq<u8>, n: int, x: int, k: int)
    requires
        0 <= n <= t.len(),
        0 <= x,
    ensures
        midi_tracks_end(t, n + x, k) == moved_offset(midi_tracks_end(t.skip(n), x, k), n),
    decreases k,
{
    let s = t.skip(n);
    if k > 0 && within(s, x, 8) {
        lemma_midi_tracks(t, n, x + 8 + be32(s, x + 4), k - 1);
    }
}

#[verifier::rlimit(40)]
proof fn lemma_mod(t: Seq<u8>, n: int, samples: int, patterns: int)
    requires
        0 <= n <= t.len(),
        within(t.skip(n), 0, 1080),
        0 <= samples <= 31,
        0 <= patterns <= 128,
    ensures
        mod_samples_len(t, n, samples) == mod_samples_len(t.skip(n), 0, samples),
        mod_pattern_count(t, n, patterns) == mod_pattern_count(t.skip(n), 0, patterns),
    decreases samples + patterns,
{
    if samples > 0 {
        lemma_mod(t, n, samples - 1, 0);
    }
    if patterns > 0 {
        lemma_mod(t, n, 0, patterns - 1);
    }
}

#[verifier::rlimit(40)]
proof fn lemma_realmedia_chunks(t: Seq<u8>, n: int, x: int, k: int)
    requires
        0 <= n <= t.len(),
        0 <= x,
    ensures
        realmedia_chunks_end(t, n + x, k) == moved_offset(realmedia_chunks_end(t.skip(n), x, k), n),
        realmedia_chunks_end(t.skip(n), x, k) matches Some(end) ==> end >= x,
    decreases k,
{
    let s = t.skip(n);
    if k > 0 && within(s, x, 10) && be32(s, x + 4) >= 10 {
        lemma_realmedia_chunks(t, n, x + be32(s, x + 4), k - 1);
    }
}

#[verifier::rlimit(40)]
proof fn lemma_voc(t: Seq<u8>, n: int, x: int)
    requires
        0 <= n <= t.len(),
        0 <= x,
    ensures
        voc_terminator(t, n + x) == moved_offset(voc_terminator(t.skip(n), x), n),
    decreases t.len() - n - x,
{
    let s = t.skip(n);
    if within(s, x, 1) {
        assert(t[n + x] == s[x]);
    }
    if within(s, x, 4) && s[x] != 0 && x + 4 + le24(s, x + 1) <= s.len() {
        lemma_voc(t, n, x + 4 + le24(s, x + 1));
    }
}

#[verifier::rlimit(40)]
proof fn lemma_vint_value(t: Seq<u8>, n: int, x: int, k: int)
    requires
        0 <= n <= t.len(),
        1 <= k,
        within(t.skip(n), x, k),
    ensures
        vint_value(t, n + x, k) == vint_value(t.skip(n), x, k),
    decreases k,
{
    assert(t[n + x] == t.skip(n)[x]);
    if k > 1 {
        lemma_vint_value(t, n, x, k - 1);
    }
}

#[verifier::rlimit(40)]
proof fn lemma_vint(t: Seq<u8>, n: int, x: int)
    requires
        0 <= n <= t.len(),
        0 <= x,
    ensures
        vint(t, n + x) == vint(t.skip(n), x),
        vint(t.skip(n), x) matches Some((value, len)) ==> value >= 0 && len >= 1,
{
    let s = t.skip(n);
    if within(s, x, 1) {
        assert(t[n + x] == s[x]);
        if s[x] != 0 && within(s, x, vint_len(s[x])) {
            lemma_vint_value(t, n, x, vint_len(s[x]));
            lemma_vint_nonnegative(s, x, vint_len(s[x]));
        }
    }
}

/// An EBML number is not negative.
#[verifier::rlimit(40)]
pub proof fn lemma_vint_nonnegative(s: Seq<u8>, x: int, k: int)
    requires
        1 <= k,
        within(s, x, k),
        s[x] != 0,
    ensures
        vint_value(s, x, k) >= 0,
    decreases k,
{
    if k > 1 {
        lemma_vint_nonnegative(s, x, k - 1);
    }
}

#[verifier::rlimit(40)]
proof fn lemma_ebml(t: Seq<u8>, n: int)
    requires
        0 <= n <= t.len(),
    ensures
        keeps(ebml_extent(t, n), ebml_extent(t.skip(n), 0), n),
{
    let s = t.skip(n);
    if within(s, 0, 4) {
        lemma_vint(t, n, 4);
        if let Some((size, len)) = vint(s, 4) {
            let segment = 4 + len + size;
            lemma_vint(t, n, segment + 4);
        }
    }
}

#[verifier::rlimit(40)]
proof fn lemma_flv(t: Seq<u8>, n: int, first: int, x: int)
    requires
        0 <= n <= t.len(),
        0 <= first <= x,
    ensures
        flv_extent_from(t, n + first, n + x) == moved(flv_extent_from(t.skip(n), first, x), n),
    decreases t.len() - n - x,
{
    let s = t.skip(n);
    if within(s, x, 15) {
        let next = x + 15 + be24(s, x + 5);
        if next <= s.len() {
            lemma_flv(t, n, first, next);
        }
    }
}

#[verifier::rlimit(40)]
proof fn lemma_blend(t: Seq<u8>, n: int, x: int, header_len: int, is_be: bool)
    requires
        0 <= n <= t.len(),
        0 <= x,
    ensures
        blend_extent_from(t, n + x, header_len, is_be) == moved(
            blend_extent_from(t.skip(n), x, header_len, is_be),
            n,
        ),
    decreases t.len() - n - x,
{
    let s = t.skip(n);
    if within(s, x, 8) && header_len >= 8 {
        let next = x + header_len + num32(s, x + 4, is_be);
        if next <= s.len() {
            lemma_blend(t, n, next, header_len, is_be);
        }
    }
}

#[verifier::rlimit(40)]
proof fn lemma_elf_moved(t: Seq<u8>, n: int)
    requires
        0 <= n <= t.len(),
    ensures
        keeps(elf_extent(t, n), elf_extent(t.skip(n), 0), n),
{
    assert(t.skip(n).skip(0) == t.skip(n));
}

#[verifier::rlimit(40)]
proof fn lemma_pe_moved(t: Seq<u8>, n: int)
    requires
        0 <= n <= t.len(),
    ensures
        keeps(pe_extent(t, n), pe_extent(t.skip(n), 0), n),
{
    assert(t.skip(n).skip(0) == t.skip(n));
}

#[verifier::rlimit(40)]
proof fn lemma_png_moved(t: Seq<u8>, n: int)
    requires
        0 <= n <= t.len(),
    ensures
        keeps(png_extent(t, n, PNG_SIGNATURE as int, IEND as int), png_extent(t.skip(n), 0, PNG_SIGNATURE as int, IEND as int), n),
{
    lemma_png_chunks(t, n, 8, IEND as int);
}

#[verifier::rlimit(40)]
proof fn lemma_mng_moved(t: Seq<u8>, n: int)
    requires
        0 <= n <= t.len(),
    ensures
        keeps(png_extent(t, n, MNG_SIGNATURE as int, MEND as int), png_extent(t.skip(n), 0, MNG_SIGNATURE as int, MEND as int), n),
{
    lemma_png_chunks(t, n, 8, MEND as int);
}

#[verifier::rlimit(40)]
proof fn lemma_jng_moved(t: Seq<u8>, n: int)
    requires
        0 <= n <= t.len(),
    ensures
        keeps(png_extent(t, n, JNG_SIGNATURE as int, JEND as int), png_extent(t.skip(n), 0, JNG_SIGNATURE as int, JEND as int), n),
{
    lemma_png_chunks(t, n, 8, JEND as int);
}

#[verifier::rlimit(40)]
proof fn lemma_jpeg_moved(t: Seq<u8>, n: int)
    requires
        0 <= n <= t.len(),
    ensures
        keeps(jpeg_extent(t, n), jpeg_extent(t.skip(n), 0), n),
{
    lemma_jpeg(t, n, 2);
}

#[verifier::rlimit(40)]
proof fn lemma_sqlite_moved(t: Seq<u8>, n: int)
    requires
        0 <= n <= t.len(),
    ensures
        keeps(sqlite_extent(t, n), sqlite_extent(t.skip(n), 0), n),
{
}

#[verifier::rlimit(40)]
proof fn lemma_rar_moved(t: Seq<u8>, n: int)
    requires
        0 <= n <= t.len(),
    ensures
        keeps(rar_extent(t, n), rar_extent(t.skip(n), 0), n),
{
    lemma_rar(t, n, 7, 7);
}

#[verifier::rlimit(40)]
proof fn lemma_seven_zip_moved(t: Seq<u8>, n: int)
    requires
        0 <= n <= t.len(),
    ensures
        keeps(seven_zip_extent(t, n), seven_zip_extent(t.skip(n), 0), n),
{
}

#[verifier::rlimit(40)]
proof fn lemma_riff_moved(t: Seq<u8>, n: int)
    requires
        0 <= n <= t.len(),
    ensures
        keeps(riff_extent(t, n), riff_extent(t.skip(n), 0), n),
{
}

#[verifier::rlimit(40)]
proof fn lemma_icns_moved(t: Seq<u8>, n: int)
    requires
        0 <= n <= t.len(),
    ensures
        keeps(icns_extent(t, n), icns_extent(t.skip(n), 0), n),
{
}

#[verifier::rlimit(40)]
proof fn lemma_isobmff_moved(t: Seq<u8>, n: int)
    requires
        0 <= n <= t.len(),
    ensures
        keeps(isobmff_extent(t, n), isobmff_extent(t.skip(n), 0), n),
{
    lemma_isobmff(t, n, 0);
}

#[verifier::rlimit(40)]
proof fn lemma_eps_binary_header_moved(t: Seq<u8>, n: int)
    requires
        0 <= n <= t.len(),
    ensures
        keeps(eps_extent(t, n), eps_extent(t.skip(n), 0), n),
{
}

#[verifier::rlimit(40)]
proof fn lemma_wmf_moved(t: Seq<u8>, n: int)
    requires
        0 <= n <= t.len(),
    ensures
        keeps(wmf_extent(t, n), wmf_extent(t.skip(n), 0), n),
{
}

#[verifier::rlimit(40)]
proof fn lemma_emf_moved(t: Seq<u8>, n: int)
    requires
        0 <= n <= t.len(),
    ensures
        keeps(emf_extent(t, n), emf_extent(t.skip(n), 0), n),
{
}

#[verifier::rlimit(40)]
proof fn lemma_macho_fat_moved(t: Seq<u8>, n: int)
    requires
        0 <= n <= t.len(),
    ensures
        keeps(macho_fat_extent(t, n), macho_fat_extent(t.skip(n), 0), n),
{
    let s = t.skip(n);
    if is_fat_header(s, 0) {
        lemma_table(t, n, fat_row(), 8, be32(s, 4));
    }
}

#[verifier::rlimit(40)]
proof fn lemma_pef_moved(t: Seq<u8>, n: int)
    requires
        0 <= n <= t.len(),
    ensures
        keeps(pef_extent(t, n), pef_extent(t.skip(n), 0), n),
{
    let s = t.skip(n);
    if within(s, 0, 34) && within(s, 40, 28 * be16(s, 32)) {
        lemma_table(t, n, pef_row(), 40, be16(s, 32));
    }
}

#[verifier::rlimit(40)]
proof fn lemma_iff_moved(t: Seq<u8>, n: int)
    requires
        0 <= n <= t.len(),
    ensures
        keeps(be_container_extent(t, n, FORM as int), be_container_extent(t.skip(n), 0, FORM as int), n),
{
}

#[verifier::rlimit(40)]
proof fn lemma_ogg_moved(t: Seq<u8>, n: int)
    requires
        0 <= n <= t.len(),
    ensures
        keeps(ogg_extent(t, n), ogg_extent(t.skip(n), 0), n),
{
    lemma_ogg(t, n, 0);
}

#[verifier::rlimit(40)]
proof fn lemma_asf_moved(t: Seq<u8>, n: int)
    requires
        0 <= n <= t.len(),
    ensures
        keeps(asf_extent(t, n), asf_extent(t.skip(n), 0), n),
{
    let s = t.skip(n);
    if within(s, 0, 28) {
        lemma_asf_size(t, n, 30, le32(s, 24));
    }
}

#[verifier::rlimit(40)]
proof fn lemma_dsf_moved(t: Seq<u8>, n: int)
    requires
        0 <= n <= t.len(),
    ensures
        keeps(dsf_extent(t, n), dsf_extent(t.skip(n), 0), n),
{
}

#[verifier::rlimit(40)]
proof fn lemma_caf_moved(t: Seq<u8>, n: int)
    requires
        0 <= n <= t.len(),
    ensures
        keeps(caf_extent(t, n), caf_extent(t.skip(n), 0), n),
{
    lemma_caf(t, n, 8, 8);
}

#[verifier::rlimit(40)]
proof fn lemma_midi_moved(t: Seq<u8>, n: int)
    requires
        0 <= n <= t.len(),
    ensures
        keeps(midi_extent(t, n), midi_extent(t.skip(n), 0), n),
{
    let s = t.skip(n);
    if within(s, 0, 12) {
        lemma_midi_tracks(t, n, 8 + be32(s, 4), be16(s, 10));
    }
}

#[verifier::rlimit(40)]
proof fn lemma_mod_moved(t: Seq<u8>, n: int)
    requires
        0 <= n <= t.len(),
    ensures
        keeps(mod_extent(t, n), mod_extent(t.skip(n), 0), n),
{
    let s = t.skip(n);
    if within(s, 0, 1080) {
        let patterns = if s[950] > 128 {
            128
        } else {
            s[950] as int
        };
        lemma_mod(t, n, 31, patterns);
    }
}

#[verifier::rlimit(40)]
proof fn lemma_cpio_odc_moved(t: Seq<u8>, n: int)
    requires
        0 <= n <= t.len(),
    ensures
        keeps(odc_extent(t, n), odc_extent(t.skip(n), 0), n),
{
    lemma_odc(t, n, 0);
}

#[verifier::rlimit(40)]
proof fn lemma_ar_moved(t: Seq<u8>, n: int)
    requires
        0 <= n <= t.len(),
    ensures
        keeps(ar_extent(t, n), ar_extent(t.skip(n), 0), n),
{
    lemma_ar(t, n, 8, 8);
}

#[verifier::rlimit(40)]
proof fn lemma_iso9660_moved(t: Seq<u8>, n: int)
    requires
        0 <= n <= t.len(),
    ensures
        keeps(iso_extent(t, n), iso_extent(t.skip(n), 0), n),
{
}

#[verifier::rlimit(40)]
proof fn lemma_zstd_moved(t: Seq<u8>, n: int)
    requires
        0 <= n <= t.len(),
    ensures
        keeps(zstd_extent(t, n), zstd_extent(t.skip(n), 0), n),
{
    let s = t.skip(n);
    if within(s, 0, 5) {
        lemma_zstd_blocks(t, n, zstd_header_len(s[4]));
    }
}

#[verifier::rlimit(40)]
proof fn lemma_wad_moved(t: Seq<u8>, n: int)
    requires
        0 <= n <= t.len(),
    ensures
        keeps(wad_extent(t, n), wad_extent(t.skip(n), 0), n),
{
    let s = t.skip(n);
    if within(s, 0, 12) && within(s, le32(s, 8), 16 * le32(s, 4)) {
        lemma_table(t, n, wad_row(), le32(s, 8), le32(s, 4));
    }
}

#[verifier::rlimit(40)]
proof fn lemma_pak_quake_moved(t: Seq<u8>, n: int)
    requires
        0 <= n <= t.len(),
    ensures
        keeps(pak_extent(t, n), pak_extent(t.skip(n), 0), n),
{
    let s = t.skip(n);
    if within(s, 0, 12) && within(s, le32(s, 4), le32(s, 8)) {
        lemma_table(t, n, pak_row(), le32(s, 4), le32(s, 8) / 64);
    }
}

#[verifier::rlimit(40)]
proof fn lemma_vbsp_moved(t: Seq<u8>, n: int)
    requires
        0 <= n <= t.len(),
    ensures
        keeps(vbsp_extent(t, n), vbsp_extent(t.skip(n), 0), n),
{
    let s = t.skip(n);
    if within(s, 0, 280) {
        lemma_table(t, n, vbsp_row(), 8, 17);
    }
}

#[verifier::rlimit(40)]
proof fn lemma_nes_moved(t: Seq<u8>, n: int)
    requires
        0 <= n <= t.len(),
    ensures
        keeps(nes_extent(t, n), nes_extent(t.skip(n), 0), n),
{
}

#[verifier::rlimit(40)]
proof fn lemma_unity_fs_moved(t: Seq<u8>, n: int)
    requires
        0 <= n <= t.len(),
    ensures
        keeps(unityfs_extent(t, n), unityfs_extent(t.skip(n), 0), n),
{
    lemma_cstring(t, n, 12);
    if let Some(second) = cstring_end(t.skip(n), 12) {
        lemma_cstring(t, n, second);
    }
}

#[verifier::rlimit(40)]
proof fn lemma_vpk_moved(t: Seq<u8>, n: int)
    requires
        0 <= n <= t.len(),
    ensures
        keeps(vpk_extent(t, n), vpk_extent(t.skip(n), 0), n),
{
}

#[verifier::rlimit(40)]
proof fn lemma_swf_moved(t: Seq<u8>, n: int)
    requires
        0 <= n <= t.len(),
    ensures
        keeps(swf_extent(t, n), swf_extent(t.skip(n), 0), n),
{
    if n + 8 <= t.len() {
        assert(t.skip(n).skip(8) =~= t.skip(n + 8));
    }
}

#[verifier::rlimit(40)]
proof fn lemma_rifx_moved(t: Seq<u8>, n: int)
    requires
        0 <= n <= t.len(),
    ensures
        keeps(be_container_extent(t, n, RIFX as int), be_container_extent(t.skip(n), 0, RIFX as int), n),
{
}

#[verifier::rlimit(40)]
proof fn lemma_real_media_moved(t: Seq<u8>, n: int)
    requires
        0 <= n <= t.len(),
    ensures
        keeps(realmedia_extent(t, n), realmedia_extent(t.skip(n), 0), n),
{
    let s = t.skip(n);
    if within(s, 0, 18) {
        lemma_realmedia_chunks(t, n, be32(s, 4), be32(s, 14) - 1);
    }
}

#[verifier::rlimit(40)]
proof fn lemma_voc_moved(t: Seq<u8>, n: int)
    requires
        0 <= n <= t.len(),
    ensures
        keeps(voc_extent(t, n), voc_extent(t.skip(n), 0), n),
{
    let s = t.skip(n);
    if within(s, 0, 22) {
        lemma_voc(t, n, le16(s, 20));
    }
}

#[verifier::rlimit(40)]
proof fn lemma_flv_moved(t: Seq<u8>, n: int)
    requires
        0 <= n <= t.len(),
    ensures
        keeps(flv_extent(t, n), flv_extent(t.skip(n), 0), n),
{
    let s = t.skip(n);
    if within(s, 0, 9) {
        let first = be32(s, 5);
        lemma_flv(t, n, first, first);
    }
}

#[verifier::rlimit(40)]
proof fn lemma_woff_moved(t: Seq<u8>, n: int)
    requires
        0 <= n <= t.len(),
    ensures
        keeps(woff_extent(t, n), woff_extent(t.skip(n), 0), n),
{
}

#[verifier::rlimit(40)]
proof fn lemma_glb_moved(t: Seq<u8>, n: int)
    requires
        0 <= n <= t.len(),
    ensures
        keeps(glb_extent(t, n), glb_extent(t.skip(n), 0), n),
{
}

#[verifier::rlimit(40)]
proof fn lemma_mpq_moved(t: Seq<u8>, n: int)
    requires
        0 <= n <= t.len(),
    ensures
        keeps(mpq_extent(t, n), mpq_extent(t.skip(n), 0), n),
{
}

#[verifier::rlimit(40)]
proof fn lemma_squashfs_moved(t: Seq<u8>, n: int)
    requires
        0 <= n <= t.len(),
    ensures
        keeps(squashfs_extent(t, n), squashfs_extent(t.skip(n), 0), n),
{
}

#[verifier::rlimit(40)]
proof fn lemma_cab_moved(t: Seq<u8>, n: int)
    requires
        0 <= n <= t.len(),
    ensures
        keeps(cab_extent(t, n), cab_extent(t.skip(n), 0), n),
{
}

#[verifier::rlimit(40)]
proof fn lemma_dex_moved(t: Seq<u8>, n: int)
    requires
        0 <= n <= t.len(),
    ensures
        keeps(dex_extent(t, n), dex_extent(t.skip(n), 0), n),
{
}

#[verifier::rlimit(40)]
proof fn lemma_dpx_be_moved(t: Seq<u8>, n: int)
    requires
        0 <= n <= t.len(),
    ensures
        keeps(dpx_extent(t, n, true), dpx_extent(t.skip(n), 0, true), n),
{
}

#[verifier::rlimit(40)]
proof fn lemma_dpx_le_moved(t: Seq<u8>, n: int)
    requires
        0 <= n <= t.len(),
    ensures
        keeps(dpx_extent(t, n, false), dpx_extent(t.skip(n), 0, false), n),
{
}

#[verifier::rlimit(40)]
proof fn lemma_icc_moved(t: Seq<u8>, n: int)
    requires
        0 <= n <= t.len(),
    ensures
        keeps(icc_extent(t, n), icc_extent(t.skip(n), 0), n),
{
}

#[verifier::rlimit(40)]
proof fn lemma_apple_single_double_moved(t: Seq<u8>, n: int)
    requires
        0 <= n <= t.len(),
    ensures
        keeps(apple_extent(t, n), apple_extent(t.skip(n), 0), n),
{
    let s = t.skip(n);
    if within(s, 0, 26) && within(s, 26, 12 * be16(s, 24)) {
        lemma_table(t, n, apple_row(), 26, be16(s, 24));
    }
}

#[verifier::rlimit(40)]
proof fn lemma_blend_moved(t: Seq<u8>, n: int)
    requires
        0 <= n <= t.len(),
    ensures
        keeps(blend_extent(t, n), blend_extent(t.skip(n), 0), n),
{
    lemma_blend(t, n, 12, 20, false);
    lemma_blend(t, n, 12, 20, true);
    lemma_blend(t, n, 12, 24, false);
    lemma_blend(t, n, 12, 24, true);
}

#[verifier::rlimit(40)]
proof fn lemma_au_moved(t: Seq<u8>, n: int)
    requires
        0 <= n <= t.len(),
    ensures
        keeps(au_extent(t, n), au_extent(t.skip(n), 0), n),
{
}

#[verifier::rlimit(40)]
proof fn lemma_sfnt_moved(t: Seq<u8>, n: int)
    requires
        0 <= n <= t.len(),
    ensures
        keeps(sfnt_extent(t, n), sfnt_extent(t.skip(n), 0), n),
{
    let s = t.skip(n);
    if is_sfnt_header(s, 0) && within(s, 12, 16 * be16(s, 4)) {
        lemma_table(t, n, sfnt_row(), 12, be16(s, 4));
    }
}

/// What stands before a file does not matter: a file that is recognised on its
/// own is recognised with the same extent wherever it stands.
pub proof fn law_place_does_not_matter(validator: Validator, t: Seq<u8>, n: int)
    requires
        0 <= n <= t.len(),
    ensures
        keeps(validator.extent(t, n), validator.extent(t.skip(n), 0), n),
{
    reveal(Validator::extent);
    match validator {
        Validator::Zip => {
            lemma_zip(t, n);
        },
        Validator::Gzip => {
            lemma_gzip(t, n);
        },
        Validator::Tar => {
            lemma_tar(t, n, 0, None);
        },
        Validator::Elf => {
            lemma_elf_moved(t, n);
        },
        Validator::Pe => {
            lemma_pe_moved(t, n);
        },
        Validator::Png => {
            lemma_png_moved(t, n);
        },
        Validator::Mng => {
            lemma_mng_moved(t, n);
        },
        Validator::Jng => {
            lemma_jng_moved(t, n);
        },
        Validator::Jpeg => {
            lemma_jpeg_moved(t, n);
        },
        Validator::Sqlite => {
            lemma_sqlite_moved(t, n);
        },
        Validator::Rar => {
            lemma_rar_moved(t, n);
        },
        Validator::SevenZip => {
            lemma_seven_zip_moved(t, n);
        },
        Validator::Riff => {
            lemma_riff_moved(t, n);
        },
        Validator::Ico => {
            lemma_ico(t, n);
        },
        Validator::Icns => {
            lemma_icns_moved(t, n);
        },
        Validator::Isobmff => {
            lemma_isobmff_moved(t, n);
        },
        Validator::EpsBinaryHeader => {
            lemma_eps_binary_header_moved(t, n);
        },
        Validator::Wmf => {
            lemma_wmf_moved(t, n);
        },
        Validator::Emf => {
            lemma_emf_moved(t, n);
        },
        Validator::Macho32Be => {
            lemma_macho(t, n, false, true);
        },
        Validator::Macho32Le => {
            lemma_macho(t, n, false, false);
        },
        Validator::Macho64Be => {
            lemma_macho(t, n, true, true);
        },
        Validator::Macho64Le => {
            lemma_macho(t, n, true, false);
        },
        Validator::MachoFat => {
            lemma_macho_fat_moved(t, n);
        },
        Validator::Pef => {
            lemma_pef_moved(t, n);
        },
        Validator::Iff => {
            lemma_iff_moved(t, n);
        },
        Validator::Ogg => {
            lemma_ogg_moved(t, n);
        },
        Validator::Asf => {
            lemma_asf_moved(t, n);
        },
        Validator::Dsf => {
            lemma_dsf_moved(t, n);
        },
        Validator::Caf => {
            lemma_caf_moved(t, n);
        },
        Validator::Midi => {
            lemma_midi_moved(t, n);
        },
        Validator::Mod => {
            lemma_mod_moved(t, n);
        },
        Validator::CpioNewc => {
            lemma_newc(t, n, 0);
        },
        Validator::CpioOdc => {
            lemma_cpio_odc_moved(t, n);
        },
        Validator::Ar => {
            lemma_ar_moved(t, n);
        },
        Validator::Iso9660 => {
            lemma_iso9660_moved(t, n);
        },
        Validator::Zstd => {
            lemma_zstd_moved(t, n);
        },
        Validator::Wad => {
            lemma_wad_moved(t, n);
        },
        Validator::PakQuake => {
            lemma_pak_quake_moved(t, n);
        },
        Validator::Vbsp => {
            lemma_vbsp_moved(t, n);
        },
        Validator::Nes => {
            lemma_nes_moved(t, n);
        },
        Validator::UnityFs => {
            lemma_unity_fs_moved(t, n);
        },
        Validator::Vpk => {
            lemma_vpk_moved(t, n);
        },
        Validator::Swf => {
            lemma_swf_moved(t, n);
        },
        Validator::Rifx => {
            lemma_rifx_moved(t, n);
        },
        Validator::RealMedia => {
            lemma_real_media_moved(t, n);
        },
        Validator::Voc => {
            lemma_voc_moved(t, n);
        },
        Validator::Ebml => {
            lemma_ebml(t, n);
        },
        Validator::Flv => {
            lemma_flv_moved(t, n);
        },
        Validator::Woff => {
            lemma_woff_moved(t, n);
        },
        Validator::Glb => {
            lemma_glb_moved(t, n);
        },
        Validator::Mpq => {
            lemma_mpq_moved(t, n);
        },
        Validator::Squashfs => {
            lemma_squashfs_moved(t, n);
        },
        Validator::Cab => {
            lemma_cab_moved(t, n);
        },
        Validator::Dex => {
            lemma_dex_moved(t, n);
        },
        Validator::DpxBe => {
            lemma_dpx_be_moved(t, n);
        },
        Validator::DpxLe => {
            lemma_dpx_le_moved(t, n);
        },
        Validator::Icc => {
            lemma_icc_moved(t, n);
        },
        Validator::AppleSingleDouble => {
            lemma_apple_single_double_moved(t, n);
        },
        Validator::Blend => {
            lemma_blend_moved(t, n);
        },
        Validator::Au => {
            lemma_au_moved(t, n);
        },
        Validator::Sfnt => {
            lemma_sfnt_moved(t, n);
        },
    }
}

} // verus!
