//! The structural validators, as values.
use vstd::prelude::*;
use crate::archives::{
    ar_extent, cab_extent, gzip_extent, iso_extent, mpq_extent, newc_extent, odc_extent,
    rar_extent, seven_zip_extent, squashfs_extent, tar_extent, validate_7z, validate_ar,
    validate_cab, validate_cpio_newc, validate_cpio_odc, validate_gzip, validate_iso9660,
    validate_mpq, validate_rar, validate_squashfs, validate_tar, validate_zip, validate_zstd,
    zip_extent, zstd_extent,
};
use crate::documents::{
    apple_extent, blend_extent, glb_extent, sfnt_extent, sqlite_extent,
    validate_apple_single_double, validate_blend, validate_glb, validate_sfnt, validate_sqlite,
    validate_woff, woff_extent,
};
use crate::executables::{
    dex_extent, elf_extent, macho_extent, macho_fat_extent, pe_extent, pef_extent, validate_dex,
    validate_elf, validate_macho_32be, validate_macho_32le, validate_macho_64be,
    validate_macho_64le, validate_macho_fat, validate_pe, validate_pef,
};
use crate::games::{
    nes_extent, pak_extent, unityfs_extent, validate_nes, validate_pak_quake, validate_unityfs,
    validate_vbsp, validate_vpk, validate_wad, vbsp_extent, vpk_extent, wad_extent,
};
use crate::images::{
    dpx_extent, emf_extent, eps_extent, icc_extent, icns_extent, ico_extent, jpeg_extent,
    png_extent, validate_dpx_be, validate_dpx_le, validate_emf, validate_eps_binary_header,
    validate_icc, validate_icns, validate_ico, validate_jng, validate_jpeg, validate_mng,
    validate_png, validate_wmf, wmf_extent, IEND, JEND, JNG_SIGNATURE, MEND, MNG_SIGNATURE,
    PNG_SIGNATURE,
};
use crate::media::{
    asf_extent, au_extent, be_container_extent, caf_extent, dsf_extent, ebml_extent, flv_extent,
    isobmff_extent, midi_extent, mod_extent, ogg_extent, realmedia_extent, riff_extent, swf_extent,
    validate_asf, validate_au, validate_caf, validate_dsf, validate_ebml, validate_flv,
    validate_iff, validate_isobmff, validate_midi, validate_mod, validate_ogg, validate_realmedia,
    validate_riff, validate_rifx, validate_swf, validate_voc, voc_extent, FORM, RIFX,
};
use crate::bytes::extent;

verus! {

/// A structural validator: it finds the end of the embedded file that begins at
/// a given offset by the structure of its format.
#[derive(Clone, Copy, Debug, PartialEq, Eq, Structural)]
pub enum Validator {
    Zip,
    Gzip,
    Tar,
    Elf,
    Pe,
    Png,
    Mng,
    Jng,
    Jpeg,
    Sqlite,
    Rar,
    SevenZip,
    Riff,
    Ico,
    Icns,
    Isobmff,
    EpsBinaryHeader,
    Wmf,
    Emf,
    Macho32Be,
    Macho32Le,
    Macho64Be,
    Macho64Le,
    MachoFat,
    Pef,
    Iff,
    Ogg,
    Asf,
    Dsf,
    Caf,
    Midi,
    Mod,
    CpioNewc,
    CpioOdc,
    Ar,
    Iso9660,
    Zstd,
    Wad,
    PakQuake,
    Vbsp,
    Nes,
    UnityFs,
    Vpk,
    Swf,
    Rifx,
    RealMedia,
    Voc,
    Ebml,
    Flv,
    Woff,
    Glb,
    Mpq,
    Squashfs,
    Cab,
    Dex,
    DpxBe,
    DpxLe,
    Icc,
    AppleSingleDouble,
    Blend,
    Au,
    Sfnt,
}

impl Validator {
    /// The end and the confidence that the validator finds for the file at
    /// `start` of `s`.
    #[verifier::opaque]
    pub open spec fn extent(self, s: Seq<u8>, start: int) -> Option<(int, int)> {
        match self {
            Validator::Zip => zip_extent(s, start),
            Validator::Gzip => gzip_extent(s, start),
            Validator::Tar => tar_extent(s, start),
            Validator::Elf => elf_extent(s, start),
            Validator::Pe => pe_extent(s, start),
            Validator::Png => png_extent(s, start, PNG_SIGNATURE as int, IEND as int),
            Validator::Mng => png_extent(s, start, MNG_SIGNATURE as int, MEND as int),
            Validator::Jng => png_extent(s, start, JNG_SIGNATURE as int, JEND as int),
            Validator::Jpeg => jpeg_extent(s, start),
            Validator::Sqlite => sqlite_extent(s, start),
            Validator::Rar => rar_extent(s, start),
            Validator::SevenZip => seven_zip_extent(s, start),
            Validator::Riff => riff_extent(s, start),
            Validator::Ico => ico_extent(s, start),
            Validator::Icns => icns_extent(s, start),
            Validator::Isobmff => isobmff_extent(s, start),
            Validator::EpsBinaryHeader => eps_extent(s, start),
            Validator::Wmf => wmf_extent(s, start),
            Validator::Emf => emf_extent(s, start),
            Validator::Macho32Be => macho_extent(s, start, false, true),
            Validator::Macho32Le => macho_extent(s, start, false, false),
            Validator::Macho64Be => macho_extent(s, start, true, true),
            Validator::Macho64Le => macho_extent(s, start, true, false),
            Validator::MachoFat => macho_fat_extent(s, start),
            Validator::Pef => pef_extent(s, start),
            Validator::Iff => be_container_extent(s, start, FORM as int),
            Validator::Ogg => ogg_extent(s, start),
            Validator::Asf => asf_extent(s, start),
            Validator::Dsf => dsf_extent(s, start),
            Validator::Caf => caf_extent(s, start),
            Validator::Midi => midi_extent(s, start),
            Validator::Mod => mod_extent(s, start),
            Validator::CpioNewc => newc_extent(s, start),
            Validator::CpioOdc => odc_extent(s, start),
            Validator::Ar => ar_extent(s, start),
            Validator::Iso9660 => iso_extent(s, start),
            Validator::Zstd => zstd_extent(s, start),
            Validator::Wad => wad_extent(s, start),
            Validator::PakQuake => pak_extent(s, start),
            Validator::Vbsp => vbsp_extent(s, start),
            Validator::Nes => nes_extent(s, start),
            Validator::UnityFs => unityfs_extent(s, start),
            Validator::Vpk => vpk_extent(s, start),
            Validator::Swf => swf_extent(s, start),
            Validator::Rifx => be_container_extent(s, start, RIFX as int),
            Validator::RealMedia => realmedia_extent(s, start),
            Validator::Voc => voc_extent(s, start),
            Validator::Ebml => ebml_extent(s, start),
            Validator::Flv => flv_extent(s, start),
            Validator::Woff => woff_extent(s, start),
            Validator::Glb => glb_extent(s, start),
            Validator::Mpq => mpq_extent(s, start),
            Validator::Squashfs => squashfs_extent(s, start),
            Validator::Cab => cab_extent(s, start),
            Validator::Dex => dex_extent(s, start),
            Validator::DpxBe => dpx_extent(s, start, true),
            Validator::DpxLe => dpx_extent(s, start, false),
            Validator::Icc => icc_extent(s, start),
            Validator::AppleSingleDouble => apple_extent(s, start),
            Validator::Blend => blend_extent(s, start),
            Validator::Au => au_extent(s, start),
            Validator::Sfnt => sfnt_extent(s, start),
        }
    }

    /// The end and the confidence that the validator finds for the file at
    /// `start` of `data`.
    pub fn validate(self, data: &[u8], start: usize) -> (r: Option<(usize, u8)>)
        ensures
            extent(r) == self.extent(data@, start as int),
    {
        proof {
            reveal(Validator::extent);
        }
        match self {
            Validator::Zip => validate_zip(data, start),
            Validator::Gzip => validate_gzip(data, start),
            Validator::Tar => validate_tar(data, start),
            Validator::Elf => validate_elf(data, start),
            Validator::Pe => validate_pe(data, start),
            Validator::Png => validate_png(data, start),
            Validator::Mng => validate_mng(data, start),
            Validator::Jng => validate_jng(data, start),
            Validator::Jpeg => validate_jpeg(data, start),
            Validator::Sqlite => validate_sqlite(data, start),
            Validator::Rar => validate_rar(data, start),
            Validator::SevenZip => validate_7z(data, start),
            Validator::Riff => validate_riff(data, start),
            Validator::Ico => validate_ico(data, start),
            Validator::Icns => validate_icns(data, start),
            Validator::Isobmff => validate_isobmff(data, start),
            Validator::EpsBinaryHeader => validate_eps_binary_header(data, start),
            Validator::Wmf => validate_wmf(data, start),
            Validator::Emf => validate_emf(data, start),
            Validator::Macho32Be => validate_macho_32be(data, start),
            Validator::Macho32Le => validate_macho_32le(data, start),
            Validator::Macho64Be => validate_macho_64be(data, start),
            Validator::Macho64Le => validate_macho_64le(data, start),
            Validator::MachoFat => validate_macho_fat(data, start),
            Validator::Pef => validate_pef(data, start),
            Validator::Iff => validate_iff(data, start),
            Validator::Ogg => validate_ogg(data, start),
            Validator::Asf => validate_asf(data, start),
            Validator::Dsf => validate_dsf(data, start),
            Validator::Caf => validate_caf(data, start),
            Validator::Midi => validate_midi(data, start),
            Validator::Mod => validate_mod(data, start),
            Validator::CpioNewc => validate_cpio_newc(data, start),
            Validator::CpioOdc => validate_cpio_odc(data, start),
            Validator::Ar => validate_ar(data, start),
            Validator::Iso9660 => validate_iso9660(data, start),
            Validator::Zstd => validate_zstd(data, start),
            Validator::Wad => validate_wad(data, start),
            Validator::PakQuake => validate_pak_quake(data, start),
            Validator::Vbsp => validate_vbsp(data, start),
            Validator::Nes => validate_nes(data, start),
            Validator::UnityFs => validate_unityfs(data, start),
            Validator::Vpk => validate_vpk(data, start),
            Validator::Swf => validate_swf(data, start),
            Validator::Rifx => validate_rifx(data, start),
            Validator::RealMedia => validate_realmedia(data, start),
            Validator::Voc => validate_voc(data, start),
            Validator::Ebml => validate_ebml(data, start),
            Validator::Flv => validate_flv(data, start),
            Validator::Woff => validate_woff(data, start),
            Validator::Glb => validate_glb(data, start),
            Validator::Mpq => validate_mpq(data, start),
            Validator::Squashfs => validate_squashfs(data, start),
            Validator::Cab => validate_cab(data, start),
            Validator::Dex => validate_dex(data, start),
            Validator::DpxBe => validate_dpx_be(data, start),
            Validator::DpxLe => validate_dpx_le(data, start),
            Validator::Icc => validate_icc(data, start),
            Validator::AppleSingleDouble => validate_apple_single_double(data, start),
            Validator::Blend => validate_blend(data, start),
            Validator::Au => validate_au(data, start),
            Validator::Sfnt => validate_sfnt(data, start),
        }
    }
}

} // verus!
