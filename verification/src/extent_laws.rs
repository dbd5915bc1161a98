//! What every structural validator promises.
use vstd::prelude::*;
use crate::archives::{
    ar_extent, ar_extent_from, ar_member_end, cab_extent, gzip_extent, iso_extent, mpq_extent,
    newc_entry_end, newc_extent_from, newc_sizes, odc_extent, odc_sizes, rar_block_end, rar_extent,
    rar_extent_from, seven_zip_extent, squashfs_extent, tar_entry_end, tar_extent_from, zeros,
    zip_extent, zstd_extent,
};
use crate::bytes::{
    be16, be24, be32, be64, le16, le24, num32, within,
};
use crate::documents::{
    apple_extent, blend_extent, blend_extent_from, glb_extent, sfnt_extent, sqlite_extent,
    woff_extent,
};
use crate::executables::{
    dex_extent, elf_extent, macho_extent, macho_fat_extent, pe_extent, pef_extent,
};
use crate::games::{
    nes_extent, pak_extent, unityfs_extent, vbsp_extent, vpk_extent, wad_extent,
};
use crate::images::{
    dpx_extent, emf_extent, eps_extent, fill_end, icc_extent, icns_extent, ico_extent, jpeg_extent,
    jpeg_extent_from, jpeg_segment_end, png_chunks_end, png_extent, wmf_extent, IEND, JEND,
    JNG_SIGNATURE, MEND, MNG_SIGNATURE, PNG_SIGNATURE,
};
use crate::media::{
    asf_extent, au_extent, be_container_extent, caf_extent, caf_extent_from, dsf_extent,
    ebml_extent, flv_extent, flv_extent_from, isobmff_extent, isobmff_extent_from, midi_extent,
    midi_tracks_end, mod_extent, ogg_extent, ogg_extent_from, ogg_page_end, realmedia_extent,
    riff_extent, swf_extent, voc_extent, voc_terminator, FORM, RIFX,
};
use crate::validators::Validator;

verus! {

/// The end lies inside `len` bytes, and the confidence is from 55 to 95 percent.
pub open spec fn inside(len: int, r: Option<(int, int)>) -> bool {
    r matches Some((end, confidence)) ==> 0 <= end < len && 55 <= confidence <= 95
}

proof fn lemma_png_inside(s: Seq<u8>, pos: int, end_chunk: int)
    ensures
        inside(s.len() as int, png_chunks_end(s, pos, end_chunk)),
    decreases s.len() - pos,
{
    if within(s, pos, 8) {
        let next = pos + 12 + be32(s, pos);
        if next <= s.len() && be32(s, pos + 4) != end_chunk {
            lemma_png_inside(s, next, end_chunk);
        }
    }
}

proof fn lemma_jpeg_inside(s: Seq<u8>, pos: int)
    ensures
        inside(s.len() as int, jpeg_extent_from(s, pos)),
    decreases s.len() - pos,
{
    let code = fill_end(s, pos + 1);
    if within(s, pos, 1) && s[pos] == 0xFF && pos < code < s.len() {
        lemma_jpeg_inside(s, code + 1);
        match jpeg_segment_end(s, s[code], code + 1) {
            Some(next) if pos < next <= s.len() => {
                lemma_jpeg_inside(s, next);
            },
            _ => {},
        }
    }
}

proof fn lemma_rar_inside(s: Seq<u8>, first: int, pos: int)
    requires
        0 <= first,
        pos > first ==> pos <= s.len(),
    ensures
        inside(s.len() as int, rar_extent_from(s, first, pos)),
    decreases s.len() - pos,
{
    if let Some(next) = rar_block_end(s, pos) {
        lemma_rar_inside(s, first, next);
    }
}

proof fn lemma_tar_inside(s: Seq<u8>, pos: int, last: Option<int>)
    requires
        0 <= pos,
        last matches Some(end) ==> 0 <= end < s.len(),
    ensures
        inside(s.len() as int, tar_extent_from(s, pos, last)),
    decreases s.len() - pos,
{
    if within(s, pos, 512) && !zeros(s, pos, 512) {
        match tar_entry_end(s, pos) {
            Some(next) if next > pos => {
                lemma_tar_inside(s, next, Some(next - 1));
            },
            _ => {},
        }
    }
}

proof fn lemma_newc_inside(s: Seq<u8>, first: int, pos: int)
    ensures
        inside(s.len() as int, newc_extent_from(s, first, pos)),
    decreases s.len() - pos,
{
    if within(s, pos, 110) {
        if let Some(sizes) = newc_sizes(s, pos) {
            let end = newc_entry_end(first, pos, sizes);
            if pos < end <= s.len() {
                lemma_newc_inside(s, first, end);
            }
        }
    }
}

proof fn lemma_odc_inside(s: Seq<u8>, pos: int)
    ensures
        inside(s.len() as int, odc_extent(s, pos)),
    decreases s.len() - pos,
{
    if within(s, pos, 76) {
        if let Some(sizes) = odc_sizes(s, pos) {
            let end = pos + 76 + sizes.0 + sizes.1;
            if pos < end <= s.len() {
                lemma_odc_inside(s, end);
            }
        }
    }
}

proof fn lemma_ar_inside(s: Seq<u8>, first: int, pos: int)
    requires
        0 <= first,
        pos > first ==> pos <= s.len(),
    ensures
        inside(s.len() as int, ar_extent_from(s, first, pos)),
    decreases s.len() - pos,
{
    match ar_member_end(s, pos) {
        Some(next) if next > pos => {
            lemma_ar_inside(s, first, next);
        },
        _ => {},
    }
}

proof fn lemma_isobmff_inside(s: Seq<u8>, first: int, pos: int)
    requires
        0 <= first,
        pos > first ==> pos <= s.len(),
    ensures
        inside(s.len() as int, isobmff_extent_from(s, first, pos)),
    decreases s.len() - pos,
{
    if within(s, pos, 8) && be32(s, pos) != 0 {
        let size = if be32(s, pos) == 1 {
            be64(s, pos + 8)
        } else {
            be32(s, pos)
        };
        if size >= 8 && pos + size < s.len() {
            lemma_isobmff_inside(s, first, pos + size);
        }
    }
}

proof fn lemma_ogg_inside(s: Seq<u8>, first: int, pos: int)
    requires
        0 <= first,
        pos > first ==> pos <= s.len(),
    ensures
        inside(s.len() as int, ogg_extent_from(s, first, pos)),
    decreases s.len() - pos,
{
    match ogg_page_end(s, pos) {
        Some(next) if next > pos => {
            lemma_ogg_inside(s, first, next);
        },
        _ => {},
    }
}

proof fn lemma_caf_inside(s: Seq<u8>, first: int, pos: int)
    requires
        0 <= first,
        pos > first ==> pos <= s.len(),
    ensures
        inside(s.len() as int, caf_extent_from(s, first, pos)),
    decreases s.len() - pos,
{
    if within(s, pos, 12) {
        let next = pos + 12 + be64(s, pos + 4);
        if next < s.len() {
            lemma_caf_inside(s, first, next);
        }
    }
}

proof fn lemma_flv_inside(s: Seq<u8>, first: int, pos: int)
    requires
        0 <= first,
        pos > first ==> pos <= s.len(),
    ensures
        inside(s.len() as int, flv_extent_from(s, first, pos)),
    decreases s.len() - pos,
{
    if within(s, pos, 15) {
        let next = pos + 15 + be24(s, pos + 5);
        if next <= s.len() {
            lemma_flv_inside(s, first, next);
        }
    }
}

proof fn lemma_midi_inside(s: Seq<u8>, pos: int, n: int)
    requires
        n > 0,
    ensures
        midi_tracks_end(s, pos, n) matches Some(end) ==> 0 < end <= s.len(),
    decreases n,
{
    reveal_with_fuel(midi_tracks_end, 2);
    if within(s, pos, 8) && n > 1 {
        lemma_midi_inside(s, pos + 8 + be32(s, pos + 4), n - 1);
    }
}

proof fn lemma_voc_inside(s: Seq<u8>, pos: int)
    ensures
        voc_terminator(s, pos) matches Some(end) ==> 0 <= end < s.len(),
    decreases s.len() - pos,
{
    if within(s, pos, 4) && s[pos] != 0 && pos + 4 + le24(s, pos + 1) <= s.len() {
        lemma_voc_inside(s, pos + 4 + le24(s, pos + 1));
    }
}

proof fn lemma_blend_inside(s: Seq<u8>, pos: int, header_len: int, is_be: bool)
    ensures
        inside(s.len() as int, blend_extent_from(s, pos, header_len, is_be)),
    decreases s.len() - pos,
{
    if within(s, pos, 8) && header_len >= 8 {
        let next = pos + header_len + num32(s, pos + 4, is_be);
        if next <= s.len() {
            lemma_blend_inside(s, next, header_len, is_be);
        }
    }
}

proof fn lemma_zip(s: Seq<u8>, start: int)
    requires
        0 <= start,
    ensures
        inside(s.len() as int, zip_extent(s, start)),
{
}

proof fn lemma_gzip(s: Seq<u8>, start: int)
    requires
        0 <= start,
    ensures
        inside(s.len() as int, gzip_extent(s, start)),
{
}

proof fn lemma_elf(s: Seq<u8>, start: int)
    requires
        0 <= start,
    ensures
        inside(s.len() as int, elf_extent(s, start)),
{
}

proof fn lemma_pe(s: Seq<u8>, start: int)
    requires
        0 <= start,
    ensures
        inside(s.len() as int, pe_extent(s, start)),
{
}

proof fn lemma_png(s: Seq<u8>, start: int)
    requires
        0 <= start,
    ensures
        inside(s.len() as int, png_extent(s, start, PNG_SIGNATURE as int, IEND as int)),
{
    lemma_png_inside(s, start + 8, IEND as int);
}

proof fn lemma_mng(s: Seq<u8>, start: int)
    requires
        0 <= start,
    ensures
        inside(s.len() as int, png_extent(s, start, MNG_SIGNATURE as int, MEND as int)),
{
    lemma_png_inside(s, start + 8, MEND as int);
}

proof fn lemma_jng(s: Seq<u8>, start: int)
    requires
        0 <= start,
    ensures
        inside(s.len() as int, png_extent(s, start, JNG_SIGNATURE as int, JEND as int)),
{
    lemma_png_inside(s, start + 8, JEND as int);
}

proof fn lemma_jpeg(s: Seq<u8>, start: int)
    requires
        0 <= start,
    ensures
        inside(s.len() as int, jpeg_extent(s, start)),
{
    lemma_jpeg_inside(s, start + 2);
}

proof fn lemma_sqlite(s: Seq<u8>, start: int)
    requires
        0 <= start,
    ensures
        inside(s.len() as int, sqlite_extent(s, start)),
{
}

proof fn lemma_rar(s: Seq<u8>, start: int)
    requires
        0 <= start,
    ensures
        inside(s.len() as int, rar_extent(s, start)),
{
    lemma_rar_inside(s, start + 7, start + 7);
}

proof fn lemma_seven_zip(s: Seq<u8>, start: int)
    requires
        0 <= start,
    ensures
        inside(s.len() as int, seven_zip_extent(s, start)),
{
}

proof fn lemma_riff(s: Seq<u8>, start: int)
    requires
        0 <= start,
    ensures
        inside(s.len() as int, riff_extent(s, start)),
{
}

proof fn lemma_ico(s: Seq<u8>, start: int)
    requires
        0 <= start,
    ensures
        inside(s.len() as int, ico_extent(s, start)),
{
}

proof fn lemma_icns(s: Seq<u8>, start: int)
    requires
        0 <= start,
    ensures
        inside(s.len() as int, icns_extent(s, start)),
{
}

proof fn lemma_isobmff(s: Seq<u8>, start: int)
    requires
        0 <= start,
    ensures
        inside(s.len() as int, isobmff_extent(s, start)),
{
    lemma_isobmff_inside(s, start, start);
}

proof fn lemma_eps_binary_header(s: Seq<u8>, start: int)
    requires
        0 <= start,
    ensures
        inside(s.len() as int, eps_extent(s, start)),
{
}

proof fn lemma_wmf(s: Seq<u8>, start: int)
    requires
        0 <= start,
    ensures
        inside(s.len() as int, wmf_extent(s, start)),
{
}

proof fn lemma_emf(s: Seq<u8>, start: int)
    requires
        0 <= start,
    ensures
        inside(s.len() as int, emf_extent(s, start)),
{
}

proof fn lemma_macho32_be(s: Seq<u8>, start: int)
    requires
        0 <= start,
    ensures
        inside(s.len() as int, macho_extent(s, start, false, true)),
{
}

proof fn lemma_macho32_le(s: Seq<u8>, start: int)
    requires
        0 <= start,
    ensures
        inside(s.len() as int, macho_extent(s, start, false, false)),
{
}

proof fn lemma_macho64_be(s: Seq<u8>, start: int)
    requires
        0 <= start,
    ensures
        inside(s.len() as int, macho_extent(s, start, true, true)),
{
}

proof fn lemma_macho64_le(s: Seq<u8>, start: int)
    requires
        0 <= start,
    ensures
        inside(s.len() as int, macho_extent(s, start, true, false)),
{
}

proof fn lemma_macho_fat(s: Seq<u8>, start: int)
    requires
        0 <= start,
    ensures
        inside(s.len() as int, macho_fat_extent(s, start)),
{
}

proof fn lemma_pef(s: Seq<u8>, start: int)
    requires
        0 <= start,
    ensures
        inside(s.len() as int, pef_extent(s, start)),
{
}

proof fn lemma_iff(s: Seq<u8>, start: int)
    requires
        0 <= start,
    ensures
        inside(s.len() as int, be_container_extent(s, start, FORM as int)),
{
}

proof fn lemma_ogg(s: Seq<u8>, start: int)
    requires
        0 <= start,
    ensures
        inside(s.len() as int, ogg_extent(s, start)),
{
    lemma_ogg_inside(s, start, start);
}

proof fn lemma_asf(s: Seq<u8>, start: int)
    requires
        0 <= start,
    ensures
        inside(s.len() as int, asf_extent(s, start)),
{
}

proof fn lemma_dsf(s: Seq<u8>, start: int)
    requires
        0 <= start,
    ensures
        inside(s.len() as int, dsf_extent(s, start)),
{
}

proof fn lemma_caf(s: Seq<u8>, start: int)
    requires
        0 <= start,
    ensures
        inside(s.len() as int, caf_extent(s, start)),
{
    lemma_caf_inside(s, start + 8, start + 8);
}

proof fn lemma_midi(s: Seq<u8>, start: int)
    requires
        0 <= start,
    ensures
        inside(s.len() as int, midi_extent(s, start)),
{
    if be16(s, start + 10) > 0 {
        lemma_midi_inside(s, start + 8 + be32(s, start + 4), be16(s, start + 10));
    }
}

proof fn lemma_mod(s: Seq<u8>, start: int)
    requires
        0 <= start,
    ensures
        inside(s.len() as int, mod_extent(s, start)),
{
}

proof fn lemma_ar(s: Seq<u8>, start: int)
    requires
        0 <= start,
    ensures
        inside(s.len() as int, ar_extent(s, start)),
{
    lemma_ar_inside(s, start + 8, start + 8);
}

proof fn lemma_iso9660(s: Seq<u8>, start: int)
    requires
        0 <= start,
    ensures
        inside(s.len() as int, iso_extent(s, start)),
{
}

proof fn lemma_zstd(s: Seq<u8>, start: int)
    requires
        0 <= start,
    ensures
        inside(s.len() as int, zstd_extent(s, start)),
{
}

proof fn lemma_wad(s: Seq<u8>, start: int)
    requires
        0 <= start,
    ensures
        inside(s.len() as int, wad_extent(s, start)),
{
}

proof fn lemma_pak_quake(s: Seq<u8>, start: int)
    requires
        0 <= start,
    ensures
        inside(s.len() as int, pak_extent(s, start)),
{
}

proof fn lemma_vbsp(s: Seq<u8>, start: int)
    requires
        0 <= start,
    ensures
        inside(s.len() as int, vbsp_extent(s, start)),
{
}

proof fn lemma_nes(s: Seq<u8>, start: int)
    requires
        0 <= start,
    ensures
        inside(s.len() as int, nes_extent(s, start)),
{
}

proof fn lemma_unity_fs(s: Seq<u8>, start: int)
    requires
        0 <= start,
    ensures
        inside(s.len() as int, unityfs_extent(s, start)),
{
}

proof fn lemma_vpk(s: Seq<u8>, start: int)
    requires
        0 <= start,
    ensures
        inside(s.len() as int, vpk_extent(s, start)),
{
}

proof fn lemma_swf(s: Seq<u8>, start: int)
    requires
        0 <= start,
    ensures
        inside(s.len() as int, swf_extent(s, start)),
{
}

proof fn lemma_rifx(s: Seq<u8>, start: int)
    requires
        0 <= start,
    ensures
        inside(s.len() as int, be_container_extent(s, start, RIFX as int)),
{
}

proof fn lemma_real_media(s: Seq<u8>, start: int)
    requires
        0 <= start,
    ensures
        inside(s.len() as int, realmedia_extent(s, start)),
{
}

proof fn lemma_voc(s: Seq<u8>, start: int)
    requires
        0 <= start,
    ensures
        inside(s.len() as int, voc_extent(s, start)),
{
    lemma_voc_inside(s, start + le16(s, start + 20));
}

proof fn lemma_ebml(s: Seq<u8>, start: int)
    requires
        0 <= start,
    ensures
        inside(s.len() as int, ebml_extent(s, start)),
{
}

proof fn lemma_flv(s: Seq<u8>, start: int)
    requires
        0 <= start,
    ensures
        inside(s.len() as int, flv_extent(s, start)),
{
    let first = start + be32(s, start + 5);
    lemma_flv_inside(s, first, first);
}

proof fn lemma_woff(s: Seq<u8>, start: int)
    requires
        0 <= start,
    ensures
        inside(s.len() as int, woff_extent(s, start)),
{
}

proof fn lemma_glb(s: Seq<u8>, start: int)
    requires
        0 <= start,
    ensures
        inside(s.len() as int, glb_extent(s, start)),
{
}

proof fn lemma_mpq(s: Seq<u8>, start: int)
    requires
        0 <= start,
    ensures
        inside(s.len() as int, mpq_extent(s, start)),
{
}

proof fn lemma_squashfs(s: Seq<u8>, start: int)
    requires
        0 <= start,
    ensures
        inside(s.len() as int, squashfs_extent(s, start)),
{
}

proof fn lemma_cab(s: Seq<u8>, start: int)
    requires
        0 <= start,
    ensures
        inside(s.len() as int, cab_extent(s, start)),
{
}

proof fn lemma_dex(s: Seq<u8>, start: int)
    requires
        0 <= start,
    ensures
        inside(s.len() as int, dex_extent(s, start)),
{
}

proof fn lemma_dpx_be(s: Seq<u8>, start: int)
    requires
        0 <= start,
    ensures
        inside(s.len() as int, dpx_extent(s, start, true)),
{
}

proof fn lemma_dpx_le(s: Seq<u8>, start: int)
    requires
        0 <= start,
    ensures
        inside(s.len() as int, dpx_extent(s, start, false)),
{
}

proof fn lemma_icc(s: Seq<u8>, start: int)
    requires
        0 <= start,
    ensures
        inside(s.len() as int, icc_extent(s, start)),
{
}

proof fn lemma_apple_single_double(s: Seq<u8>, start: int)
    requires
        0 <= start,
    ensures
        inside(s.len() as int, apple_extent(s, start)),
{
}

proof fn lemma_blend(s: Seq<u8>, start: int)
    requires
        0 <= start,
    ensures
        inside(s.len() as int, blend_extent(s, start)),
{
    lemma_blend_inside(s, start + 12, 20, false);
    lemma_blend_inside(s, start + 12, 20, true);
    lemma_blend_inside(s, start + 12, 24, false);
    lemma_blend_inside(s, start + 12, 24, true);
}

proof fn lemma_au(s: Seq<u8>, start: int)
    requires
        0 <= start,
    ensures
        inside(s.len() as int, au_extent(s, start)),
{
}

proof fn lemma_sfnt(s: Seq<u8>, start: int)
    requires
        0 <= start,
    ensures
        inside(s.len() as int, sfnt_extent(s, start)),
{
}

/// A validator that reports an end reports one inside the data, with a confidence
/// from 55 to 95 percent.
pub proof fn law_validated_end_inside(validator: Validator, s: Seq<u8>, start: int)
    requires
        0 <= start,
    ensures
        inside(s.len() as int, validator.extent(s, start)),
{
    reveal(Validator::extent);
    match validator {
        Validator::Tar => {
            lemma_tar_inside(s, start, None);
        },
        Validator::Zip => {
            lemma_zip(s, start);
        },
        Validator::Gzip => {
            lemma_gzip(s, start);
        },
        Validator::Elf => {
            lemma_elf(s, start);
        },
        Validator::Pe => {
            lemma_pe(s, start);
        },
        Validator::Png => {
            lemma_png(s, start);
        },
        Validator::Mng => {
            lemma_mng(s, start);
        },
        Validator::Jng => {
            lemma_jng(s, start);
        },
        Validator::Jpeg => {
            lemma_jpeg(s, start);
        },
        Validator::Sqlite => {
            lemma_sqlite(s, start);
        },
        Validator::Rar => {
            lemma_rar(s, start);
        },
        Validator::SevenZip => {
            lemma_seven_zip(s, start);
        },
        Validator::Riff => {
            lemma_riff(s, start);
        },
        Validator::Ico => {
            lemma_ico(s, start);
        },
        Validator::Icns => {
            lemma_icns(s, start);
        },
        Validator::Isobmff => {
            lemma_isobmff(s, start);
        },
        Validator::EpsBinaryHeader => {
            lemma_eps_binary_header(s, start);
        },
        Validator::Wmf => {
            lemma_wmf(s, start);
        },
        Validator::Emf => {
            lemma_emf(s, start);
        },
        Validator::Macho32Be => {
            lemma_macho32_be(s, start);
        },
        Validator::Macho32Le => {
            lemma_macho32_le(s, start);
        },
        Validator::Macho64Be => {
            lemma_macho64_be(s, start);
        },
        Validator::Macho64Le => {
            lemma_macho64_le(s, start);
        },
        Validator::MachoFat => {
            lemma_macho_fat(s, start);
        },
        Validator::Pef => {
            lemma_pef(s, start);
        },
        Validator::Iff => {
            lemma_iff(s, start);
        },
        Validator::Ogg => {
            lemma_ogg(s, start);
        },
        Validator::Asf => {
            lemma_asf(s, start);
        },
        Validator::Dsf => {
            lemma_dsf(s, start);
        },
        Validator::Caf => {
            lemma_caf(s, start);
        },
        Validator::Midi => {
            lemma_midi(s, start);
        },
        Validator::Mod => {
            lemma_mod(s, start);
        },
        Validator::CpioNewc => {
            lemma_newc_inside(s, start, start);
        },
        Validator::CpioOdc => {
            lemma_odc_inside(s, start);
        },
        Validator::Ar => {
            lemma_ar(s, start);
        },
        Validator::Iso9660 => {
            lemma_iso9660(s, start);
        },
        Validator::Zstd => {
            lemma_zstd(s, start);
        },
        Validator::Wad => {
            lemma_wad(s, start);
        },
        Validator::PakQuake => {
            lemma_pak_quake(s, start);
        },
        Validator::Vbsp => {
            lemma_vbsp(s, start);
        },
        Validator::Nes => {
            lemma_nes(s, start);
        },
        Validator::UnityFs => {
            lemma_unity_fs(s, start);
        },
        Validator::Vpk => {
            lemma_vpk(s, start);
        },
        Validator::Swf => {
            lemma_swf(s, start);
        },
        Validator::Rifx => {
            lemma_rifx(s, start);
        },
        Validator::RealMedia => {
            lemma_real_media(s, start);
        },
        Validator::Voc => {
            lemma_voc(s, start);
        },
        Validator::Ebml => {
            lemma_ebml(s, start);
        },
        Validator::Flv => {
            lemma_flv(s, start);
        },
        Validator::Woff => {
            lemma_woff(s, start);
        },
        Validator::Glb => {
            lemma_glb(s, start);
        },
        Validator::Mpq => {
            lemma_mpq(s, start);
        },
        Validator::Squashfs => {
            lemma_squashfs(s, start);
        },
        Validator::Cab => {
            lemma_cab(s, start);
        },
        Validator::Dex => {
            lemma_dex(s, start);
        },
        Validator::DpxBe => {
            lemma_dpx_be(s, start);
        },
        Validator::DpxLe => {
            lemma_dpx_le(s, start);
        },
        Validator::Icc => {
            lemma_icc(s, start);
        },
        Validator::AppleSingleDouble => {
            lemma_apple_single_double(s, start);
        },
        Validator::Blend => {
            lemma_blend(s, start);
        },
        Validator::Au => {
            lemma_au(s, start);
        },
        Validator::Sfnt => {
            lemma_sfnt(s, start);
        },
    }
}

} // verus!
