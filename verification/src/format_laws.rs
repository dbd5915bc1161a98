//! Which validator, and which listing, belongs to which format.
use vstd::prelude::*;
use vstd::string::*;
use crate::archive_listing::{
    ar_listing, iso_listing, newc_entries, odc_entries, pak_listing, rar_entries, tar_entries,
    vpk_listing, wad_listing, zip_entries,
};
use crate::archives::{
    ar_extent, cab_extent, gzip_extent, iso_extent, mpq_extent, newc_extent, odc_extent,
    rar_extent, seven_zip_extent, squashfs_extent, tar_extent, zip_extent, zstd_extent,
};
use crate::documents::{
    apple_extent, blend_extent, glb_extent, sfnt_extent, sqlite_extent, woff_extent,
};
use crate::entries::nonempty;
use crate::executables::{
    dex_extent, elf_extent, macho_extent, macho_fat_extent, pe_extent, pef_extent,
};
use crate::games::{nes_extent, pak_extent, unityfs_extent, vbsp_extent, vpk_extent, wad_extent};
use crate::images::{
    dpx_extent, emf_extent, eps_extent, icc_extent, icns_extent, ico_extent, jpeg_extent,
    png_extent, wmf_extent,
};
use crate::listing::entries_in;
use crate::media::{
    asf_extent, au_extent, be_container_extent, caf_extent, dsf_extent, ebml_extent, flv_extent,
    isobmff_extent, midi_extent, mod_extent, ogg_extent, realmedia_extent, riff_extent, swf_extent,
    voc_extent,
};
use crate::sqlite::sqlite_listing;
use crate::structure_listing::{
    container_listing, elf_listing, fat_listing, isobmff_boxes, macho_listing, pe_listing,
    png_listing, sfnt_listing,
};
use crate::validators::Validator;

verus! {

/// Each validator goes by the structure of its own format.
pub proof fn law_each_validator_has_its_format(s: Seq<u8>, start: int)
    ensures
        Validator::Zip.extent(s, start) == zip_extent(s, start),
        Validator::Gzip.extent(s, start) == gzip_extent(s, start),
        Validator::Tar.extent(s, start) == tar_extent(s, start),
        Validator::Elf.extent(s, start) == elf_extent(s, start),
        Validator::Pe.extent(s, start) == pe_extent(s, start),
        Validator::Png.extent(s, start) == png_extent(s, start, 0x8950_4E47_0D0A_1A0A, 0x4945_4E44),
        Validator::Mng.extent(s, start) == png_extent(s, start, 0x8A4D_4E47_0D0A_1A0A, 0x4D45_4E44),
        Validator::Jng.extent(s, start) == png_extent(s, start, 0x8B4A_4E47_0D0A_1A0A, 0x4A45_4E44),
        Validator::Jpeg.extent(s, start) == jpeg_extent(s, start),
        Validator::Sqlite.extent(s, start) == sqlite_extent(s, start),
        Validator::Rar.extent(s, start) == rar_extent(s, start),
        Validator::SevenZip.extent(s, start) == seven_zip_extent(s, start),
        Validator::Riff.extent(s, start) == riff_extent(s, start),
        Validator::Ico.extent(s, start) == ico_extent(s, start),
        Validator::Icns.extent(s, start) == icns_extent(s, start),
        Validator::Isobmff.extent(s, start) == isobmff_extent(s, start),
        Validator::EpsBinaryHeader.extent(s, start) == eps_extent(s, start),
        Validator::Wmf.extent(s, start) == wmf_extent(s, start),
        Validator::Emf.extent(s, start) == emf_extent(s, start),
        Validator::Macho32Be.extent(s, start) == macho_extent(s, start, false, true),
        Validator::Macho32Le.extent(s, start) == macho_extent(s, start, false, false),
        Validator::Macho64Be.extent(s, start) == macho_extent(s, start, true, true),
        Validator::Macho64Le.extent(s, start) == macho_extent(s, start, true, false),
        Validator::MachoFat.extent(s, start) == macho_fat_extent(s, start),
        Validator::Pef.extent(s, start) == pef_extent(s, start),
        Validator::Iff.extent(s, start) == be_container_extent(s, start, 0x464F_524D),
        Validator::Ogg.extent(s, start) == ogg_extent(s, start),
        Validator::Asf.extent(s, start) == asf_extent(s, start),
        Validator::Dsf.extent(s, start) == dsf_extent(s, start),
        Validator::Caf.extent(s, start) == caf_extent(s, start),
        Validator::Midi.extent(s, start) == midi_extent(s, start),
        Validator::Mod.extent(s, start) == mod_extent(s, start),
        Validator::CpioNewc.extent(s, start) == newc_extent(s, start),
        Validator::CpioOdc.extent(s, start) == odc_extent(s, start),
        Validator::Ar.extent(s, start) == ar_extent(s, start),
        Validator::Iso9660.extent(s, start) == iso_extent(s, start),
        Validator::Zstd.extent(s, start) == zstd_extent(s, start),
        Validator::Wad.extent(s, start) == wad_extent(s, start),
        Validator::PakQuake.extent(s, start) == pak_extent(s, start),
        Validator::Vbsp.extent(s, start) == vbsp_extent(s, start),
        Validator::Nes.extent(s, start) == nes_extent(s, start),
        Validator::UnityFs.extent(s, start) == unityfs_extent(s, start),
        Validator::Vpk.extent(s, start) == vpk_extent(s, start),
        Validator::Swf.extent(s, start) == swf_extent(s, start),
        Validator::Rifx.extent(s, start) == be_container_extent(s, start, 0x5249_4658),
        Validator::RealMedia.extent(s, start) == realmedia_extent(s, start),
        Validator::Voc.extent(s, start) == voc_extent(s, start),
        Validator::Ebml.extent(s, start) == ebml_extent(s, start),
        Validator::Flv.extent(s, start) == flv_extent(s, start),
        Validator::Woff.extent(s, start) == woff_extent(s, start),
        Validator::Glb.extent(s, start) == glb_extent(s, start),
        Validator::Mpq.extent(s, start) == mpq_extent(s, start),
        Validator::Squashfs.extent(s, start) == squashfs_extent(s, start),
        Validator::Cab.extent(s, start) == cab_extent(s, start),
        Validator::Dex.extent(s, start) == dex_extent(s, start),
        Validator::DpxBe.extent(s, start) == dpx_extent(s, start, true),
        Validator::DpxLe.extent(s, start) == dpx_extent(s, start, false),
        Validator::Icc.extent(s, start) == icc_extent(s, start),
        Validator::AppleSingleDouble.extent(s, start) == apple_extent(s, start),
        Validator::Blend.extent(s, start) == blend_extent(s, start),
        Validator::Au.extent(s, start) == au_extent(s, start),
        Validator::Sfnt.extent(s, start) == sfnt_extent(s, start),
{
    reveal(Validator::extent);
}

proof fn lemma_names_1()
    ensures
        "ZIP"@.len() == 3,
        "ZIP"@[0] == 'Z' && "ZIP"@[1] == 'I' && "ZIP"@[2] == 'P',
        "TAR"@.len() == 3,
        "TAR"@[0] == 'T' && "TAR"@[1] == 'A' && "TAR"@[2] == 'R',
        "CPIO-newc"@.len() == 9,
        "CPIO-newc"@[0] == 'C' && "CPIO-newc"@[1] == 'P' && "CPIO-newc"@[2] == 'I' && "CPIO-newc"@[3] == 'O',
        "CPIO-newc"@[4] == '-' && "CPIO-newc"@[5] == 'n' && "CPIO-newc"@[6] == 'e' && "CPIO-newc"@[7] == 'w',
        "CPIO-newc"@[8] == 'c',
        "CPIO-crc"@.len() == 8,
        "CPIO-crc"@[0] == 'C' && "CPIO-crc"@[1] == 'P' && "CPIO-crc"@[2] == 'I' && "CPIO-crc"@[3] == 'O',
        "CPIO-crc"@[4] == '-' && "CPIO-crc"@[5] == 'c' && "CPIO-crc"@[6] == 'r' && "CPIO-crc"@[7] == 'c',
        "CPIO-odc"@.len() == 8,
        "CPIO-odc"@[0] == 'C' && "CPIO-odc"@[1] == 'P' && "CPIO-odc"@[2] == 'I' && "CPIO-odc"@[3] == 'O',
        "CPIO-odc"@[4] == '-' && "CPIO-odc"@[5] == 'o' && "CPIO-odc"@[6] == 'd' && "CPIO-odc"@[7] == 'c',
        "AR"@.len() == 2,
        "AR"@[0] == 'A' && "AR"@[1] == 'R',
        "WAD-I"@.len() == 5,
        "WAD-I"@[0] == 'W' && "WAD-I"@[1] == 'A' && "WAD-I"@[2] == 'D' && "WAD-I"@[3] == '-',
        "WAD-I"@[4] == 'I',
        "WAD-P"@.len() == 5,
        "WAD-P"@[0] == 'W' && "WAD-P"@[1] == 'A' && "WAD-P"@[2] == 'D' && "WAD-P"@[3] == '-',
        "WAD-P"@[4] == 'P',
        "PAK-Quake"@.len() == 9,
        "PAK-Quake"@[0] == 'P' && "PAK-Quake"@[1] == 'A' && "PAK-Quake"@[2] == 'K' && "PAK-Quake"@[3] == '-',
        "PAK-Quake"@[4] == 'Q' && "PAK-Quake"@[5] == 'u' && "PAK-Quake"@[6] == 'a' && "PAK-Quake"@[7] == 'k',
        "PAK-Quake"@[8] == 'e',
        "TTF"@.len() == 3,
        "TTF"@[0] == 'T' && "TTF"@[1] == 'T' && "TTF"@[2] == 'F',
        "OTF"@.len() == 3,
        "OTF"@[0] == 'O' && "OTF"@[1] == 'T' && "OTF"@[2] == 'F',
        "PNG"@.len() == 3,
        "PNG"@[0] == 'P' && "PNG"@[1] == 'N' && "PNG"@[2] == 'G',
{
    reveal_strlit("ZIP");
    reveal_strlit("TAR");
    reveal_strlit("CPIO-newc");
    reveal_strlit("CPIO-crc");
    reveal_strlit("CPIO-odc");
    reveal_strlit("AR");
    reveal_strlit("WAD-I");
    reveal_strlit("WAD-P");
    reveal_strlit("PAK-Quake");
    reveal_strlit("TTF");
    reveal_strlit("OTF");
    reveal_strlit("PNG");
}

proof fn lemma_names_2()
    ensures
        "MNG"@.len() == 3,
        "MNG"@[0] == 'M' && "MNG"@[1] == 'N' && "MNG"@[2] == 'G',
        "JNG"@.len() == 3,
        "JNG"@[0] == 'J' && "JNG"@[1] == 'N' && "JNG"@[2] == 'G',
        "WAV"@.len() == 3,
        "WAV"@[0] == 'W' && "WAV"@[1] == 'A' && "WAV"@[2] == 'V',
        "AVI"@.len() == 3,
        "AVI"@[0] == 'A' && "AVI"@[1] == 'V' && "AVI"@[2] == 'I',
        "WEBP"@.len() == 4,
        "WEBP"@[0] == 'W' && "WEBP"@[1] == 'E' && "WEBP"@[2] == 'B' && "WEBP"@[3] == 'P',
        "CDR"@.len() == 3,
        "CDR"@[0] == 'C' && "CDR"@[1] == 'D' && "CDR"@[2] == 'R',
        "ANI"@.len() == 3,
        "ANI"@[0] == 'A' && "ANI"@[1] == 'N' && "ANI"@[2] == 'I',
        "RMID"@.len() == 4,
        "RMID"@[0] == 'R' && "RMID"@[1] == 'M' && "RMID"@[2] == 'I' && "RMID"@[3] == 'D',
        "RIFF-PAL"@.len() == 8,
        "RIFF-PAL"@[0] == 'R' && "RIFF-PAL"@[1] == 'I' && "RIFF-PAL"@[2] == 'F' && "RIFF-PAL"@[3] == 'F',
        "RIFF-PAL"@[4] == '-' && "RIFF-PAL"@[5] == 'P' && "RIFF-PAL"@[6] == 'A' && "RIFF-PAL"@[7] == 'L',
        "RDIB"@.len() == 4,
        "RDIB"@[0] == 'R' && "RDIB"@[1] == 'D' && "RDIB"@[2] == 'I' && "RDIB"@[3] == 'B',
        "AIFF"@.len() == 4,
        "AIFF"@[0] == 'A' && "AIFF"@[1] == 'I' && "AIFF"@[2] == 'F' && "AIFF"@[3] == 'F',
        "AIFC"@.len() == 4,
        "AIFC"@[0] == 'A' && "AIFC"@[1] == 'I' && "AIFC"@[2] == 'F' && "AIFC"@[3] == 'C',
{
    reveal_strlit("MNG");
    reveal_strlit("JNG");
    reveal_strlit("WAV");
    reveal_strlit("AVI");
    reveal_strlit("WEBP");
    reveal_strlit("CDR");
    reveal_strlit("ANI");
    reveal_strlit("RMID");
    reveal_strlit("RIFF-PAL");
    reveal_strlit("RDIB");
    reveal_strlit("AIFF");
    reveal_strlit("AIFC");
}

proof fn lemma_names_3()
    ensures
        "8SVX"@.len() == 4,
        "8SVX"@[0] == '8' && "8SVX"@[1] == 'S' && "8SVX"@[2] == 'V' && "8SVX"@[3] == 'X',
        "ILBM"@.len() == 4,
        "ILBM"@[0] == 'I' && "ILBM"@[1] == 'L' && "ILBM"@[2] == 'B' && "ILBM"@[3] == 'M',
        "ANIM"@.len() == 4,
        "ANIM"@[0] == 'A' && "ANIM"@[1] == 'N' && "ANIM"@[2] == 'I' && "ANIM"@[3] == 'M',
        "ANBM"@.len() == 4,
        "ANBM"@[0] == 'A' && "ANBM"@[1] == 'N' && "ANBM"@[2] == 'B' && "ANBM"@[3] == 'M',
        "MP4-isom"@.len() == 8,
        "MP4-isom"@[0] == 'M' && "MP4-isom"@[1] == 'P' && "MP4-isom"@[2] == '4' && "MP4-isom"@[3] == '-',
        "MP4-isom"@[4] == 'i' && "MP4-isom"@[5] == 's' && "MP4-isom"@[6] == 'o' && "MP4-isom"@[7] == 'm',
        "MP4-mp42"@.len() == 8,
        "MP4-mp42"@[0] == 'M' && "MP4-mp42"@[1] == 'P' && "MP4-mp42"@[2] == '4' && "MP4-mp42"@[3] == '-',
        "MP4-mp42"@[4] == 'm' && "MP4-mp42"@[5] == 'p' && "MP4-mp42"@[6] == '4' && "MP4-mp42"@[7] == '2',
        "MP4-mp41"@.len() == 8,
        "MP4-mp41"@[0] == 'M' && "MP4-mp41"@[1] == 'P' && "MP4-mp41"@[2] == '4' && "MP4-mp41"@[3] == '-',
        "MP4-mp41"@[4] == 'm' && "MP4-mp41"@[5] == 'p' && "MP4-mp41"@[6] == '4' && "MP4-mp41"@[7] == '1',
        "MP4-avc1"@.len() == 8,
        "MP4-avc1"@[0] == 'M' && "MP4-avc1"@[1] == 'P' && "MP4-avc1"@[2] == '4' && "MP4-avc1"@[3] == '-',
        "MP4-avc1"@[4] == 'a' && "MP4-avc1"@[5] == 'v' && "MP4-avc1"@[6] == 'c' && "MP4-avc1"@[7] == '1',
        "MP4-iso2"@.len() == 8,
        "MP4-iso2"@[0] == 'M' && "MP4-iso2"@[1] == 'P' && "MP4-iso2"@[2] == '4' && "MP4-iso2"@[3] == '-',
        "MP4-iso2"@[4] == 'i' && "MP4-iso2"@[5] == 's' && "MP4-iso2"@[6] == 'o' && "MP4-iso2"@[7] == '2',
        "MOV"@.len() == 3,
        "MOV"@[0] == 'M' && "MOV"@[1] == 'O' && "MOV"@[2] == 'V',
        "M4A"@.len() == 3,
        "M4A"@[0] == 'M' && "M4A"@[1] == '4' && "M4A"@[2] == 'A',
        "M4B"@.len() == 3,
        "M4B"@[0] == 'M' && "M4B"@[1] == '4' && "M4B"@[2] == 'B',
{
    reveal_strlit("8SVX");
    reveal_strlit("ILBM");
    reveal_strlit("ANIM");
    reveal_strlit("ANBM");
    reveal_strlit("MP4-isom");
    reveal_strlit("MP4-mp42");
    reveal_strlit("MP4-mp41");
    reveal_strlit("MP4-avc1");
    reveal_strlit("MP4-iso2");
    reveal_strlit("MOV");
    reveal_strlit("M4A");
    reveal_strlit("M4B");
}

proof fn lemma_names_4()
    ensures
        "M4P"@.len() == 3,
        "M4P"@[0] == 'M' && "M4P"@[1] == '4' && "M4P"@[2] == 'P',
        "3GP"@.len() == 3,
        "3GP"@[0] == '3' && "3GP"@[1] == 'G' && "3GP"@[2] == 'P',
        "3G2"@.len() == 3,
        "3G2"@[0] == '3' && "3G2"@[1] == 'G' && "3G2"@[2] == '2',
        "3GP-3gp5"@.len() == 8,
        "3GP-3gp5"@[0] == '3' && "3GP-3gp5"@[1] == 'G' && "3GP-3gp5"@[2] == 'P' && "3GP-3gp5"@[3] == '-',
        "3GP-3gp5"@[4] == '3' && "3GP-3gp5"@[5] == 'g' && "3GP-3gp5"@[6] == 'p' && "3GP-3gp5"@[7] == '5',
        "M4V"@.len() == 3,
        "M4V"@[0] == 'M' && "M4V"@[1] == '4' && "M4V"@[2] == 'V',
        "HEIC"@.len() == 4,
        "HEIC"@[0] == 'H' && "HEIC"@[1] == 'E' && "HEIC"@[2] == 'I' && "HEIC"@[3] == 'C',
        "HEIC-10bit"@.len() == 10,
        "HEIC-10bit"@[0] == 'H' && "HEIC-10bit"@[1] == 'E' && "HEIC-10bit"@[2] == 'I' && "HEIC-10bit"@[3] == 'C',
        "HEIC-10bit"@[4] == '-' && "HEIC-10bit"@[5] == '1' && "HEIC-10bit"@[6] == '0' && "HEIC-10bit"@[7] == 'b',
        "HEIC-10bit"@[8] == 'i' && "HEIC-10bit"@[9] == 't',
        "AVIF"@.len() == 4,
        "AVIF"@[0] == 'A' && "AVIF"@[1] == 'V' && "AVIF"@[2] == 'I' && "AVIF"@[3] == 'F',
        "AVIF-sequence"@.len() == 13,
        "AVIF-sequence"@[0] == 'A' && "AVIF-sequence"@[1] == 'V' && "AVIF-sequence"@[2] == 'I' && "AVIF-sequence"@[3] == 'F',
        "AVIF-sequence"@[4] == '-' && "AVIF-sequence"@[5] == 's' && "AVIF-sequence"@[6] == 'e' && "AVIF-sequence"@[7] == 'q',
        "AVIF-sequence"@[8] == 'u' && "AVIF-sequence"@[9] == 'e' && "AVIF-sequence"@[10] == 'n' && "AVIF-sequence"@[11] == 'c',
        "AVIF-sequence"@[12] == 'e',
        "HEIF-mif1"@.len() == 9,
        "HEIF-mif1"@[0] == 'H' && "HEIF-mif1"@[1] == 'E' && "HEIF-mif1"@[2] == 'I' && "HEIF-mif1"@[3] == 'F',
        "HEIF-mif1"@[4] == '-' && "HEIF-mif1"@[5] == 'm' && "HEIF-mif1"@[6] == 'i' && "HEIF-mif1"@[7] == 'f',
        "HEIF-mif1"@[8] == '1',
        "HEIF-msf1"@.len() == 9,
        "HEIF-msf1"@[0] == 'H' && "HEIF-msf1"@[1] == 'E' && "HEIF-msf1"@[2] == 'I' && "HEIF-msf1"@[3] == 'F',
        "HEIF-msf1"@[4] == '-' && "HEIF-msf1"@[5] == 'm' && "HEIF-msf1"@[6] == 's' && "HEIF-msf1"@[7] == 'f',
        "HEIF-msf1"@[8] == '1',
        "HEIF-heis"@.len() == 9,
        "HEIF-heis"@[0] == 'H' && "HEIF-heis"@[1] == 'E' && "HEIF-heis"@[2] == 'I' && "HEIF-heis"@[3] == 'F',
        "HEIF-heis"@[4] == '-' && "HEIF-heis"@[5] == 'h' && "HEIF-heis"@[6] == 'e' && "HEIF-heis"@[7] == 'i',
        "HEIF-heis"@[8] == 's',
{
    reveal_strlit("M4P");
    reveal_strlit("3GP");
    reveal_strlit("3G2");
    reveal_strlit("3GP-3gp5");
    reveal_strlit("M4V");
    reveal_strlit("HEIC");
    reveal_strlit("HEIC-10bit");
    reveal_strlit("AVIF");
    reveal_strlit("AVIF-sequence");
    reveal_strlit("HEIF-mif1");
    reveal_strlit("HEIF-msf1");
    reveal_strlit("HEIF-heis");
}

proof fn lemma_names_5()
    ensures
        "HEIF-hevc"@.len() == 9,
        "HEIF-hevc"@[0] == 'H' && "HEIF-hevc"@[1] == 'E' && "HEIF-hevc"@[2] == 'I' && "HEIF-hevc"@[3] == 'F',
        "HEIF-hevc"@[4] == '-' && "HEIF-hevc"@[5] == 'h' && "HEIF-hevc"@[6] == 'e' && "HEIF-hevc"@[7] == 'v',
        "HEIF-hevc"@[8] == 'c',
        "JP2"@.len() == 3,
        "JP2"@[0] == 'J' && "JP2"@[1] == 'P' && "JP2"@[2] == '2',
        "JXL"@.len() == 3,
        "JXL"@[0] == 'J' && "JXL"@[1] == 'X' && "JXL"@[2] == 'L',
        "ELF"@.len() == 3,
        "ELF"@[0] == 'E' && "ELF"@[1] == 'L' && "ELF"@[2] == 'F',
        "PE"@.len() == 2,
        "PE"@[0] == 'P' && "PE"@[1] == 'E',
        "Mach-O-32-BE"@.len() == 12,
        "Mach-O-32-BE"@[0] == 'M' && "Mach-O-32-BE"@[1] == 'a' && "Mach-O-32-BE"@[2] == 'c' && "Mach-O-32-BE"@[3] == 'h',
        "Mach-O-32-BE"@[4] == '-' && "Mach-O-32-BE"@[5] == 'O' && "Mach-O-32-BE"@[6] == '-' && "Mach-O-32-BE"@[7] == '3',
        "Mach-O-32-BE"@[8] == '2' && "Mach-O-32-BE"@[9] == '-' && "Mach-O-32-BE"@[10] == 'B' && "Mach-O-32-BE"@[11] == 'E',
        "Mach-O-32-LE"@.len() == 12,
        "Mach-O-32-LE"@[0] == 'M' && "Mach-O-32-LE"@[1] == 'a' && "Mach-O-32-LE"@[2] == 'c' && "Mach-O-32-LE"@[3] == 'h',
        "Mach-O-32-LE"@[4] == '-' && "Mach-O-32-LE"@[5] == 'O' && "Mach-O-32-LE"@[6] == '-' && "Mach-O-32-LE"@[7] == '3',
        "Mach-O-32-LE"@[8] == '2' && "Mach-O-32-LE"@[9] == '-' && "Mach-O-32-LE"@[10] == 'L' && "Mach-O-32-LE"@[11] == 'E',
        "Mach-O-64-BE"@.len() == 12,
        "Mach-O-64-BE"@[0] == 'M' && "Mach-O-64-BE"@[1] == 'a' && "Mach-O-64-BE"@[2] == 'c' && "Mach-O-64-BE"@[3] == 'h',
        "Mach-O-64-BE"@[4] == '-' && "Mach-O-64-BE"@[5] == 'O' && "Mach-O-64-BE"@[6] == '-' && "Mach-O-64-BE"@[7] == '6',
        "Mach-O-64-BE"@[8] == '4' && "Mach-O-64-BE"@[9] == '-' && "Mach-O-64-BE"@[10] == 'B' && "Mach-O-64-BE"@[11] == 'E',
        "Mach-O-64-LE"@.len() == 12,
        "Mach-O-64-LE"@[0] == 'M' && "Mach-O-64-LE"@[1] == 'a' && "Mach-O-64-LE"@[2] == 'c' && "Mach-O-64-LE"@[3] == 'h',
        "Mach-O-64-LE"@[4] == '-' && "Mach-O-64-LE"@[5] == 'O' && "Mach-O-64-LE"@[6] == '-' && "Mach-O-64-LE"@[7] == '6',
        "Mach-O-64-LE"@[8] == '4' && "Mach-O-64-LE"@[9] == '-' && "Mach-O-64-LE"@[10] == 'L' && "Mach-O-64-LE"@[11] == 'E',
        "Mach-O-Fat"@.len() == 10,
        "Mach-O-Fat"@[0] == 'M' && "Mach-O-Fat"@[1] == 'a' && "Mach-O-Fat"@[2] == 'c' && "Mach-O-Fat"@[3] == 'h',
        "Mach-O-Fat"@[4] == '-' && "Mach-O-Fat"@[5] == 'O' && "Mach-O-Fat"@[6] == '-' && "Mach-O-Fat"@[7] == 'F',
        "Mach-O-Fat"@[8] == 'a' && "Mach-O-Fat"@[9] == 't',
        "SQLite"@.len() == 6,
        "SQLite"@[0] == 'S' && "SQLite"@[1] == 'Q' && "SQLite"@[2] == 'L' && "SQLite"@[3] == 'i',
        "SQLite"@[4] == 't' && "SQLite"@[5] == 'e',
        "ISO9660"@.len() == 7,
        "ISO9660"@[0] == 'I' && "ISO9660"@[1] == 'S' && "ISO9660"@[2] == 'O' && "ISO9660"@[3] == '9',
        "ISO9660"@[4] == '6' && "ISO9660"@[5] == '6' && "ISO9660"@[6] == '0',
{
    reveal_strlit("HEIF-hevc");
    reveal_strlit("JP2");
    reveal_strlit("JXL");
    reveal_strlit("ELF");
    reveal_strlit("PE");
    reveal_strlit("Mach-O-32-BE");
    reveal_strlit("Mach-O-32-LE");
    reveal_strlit("Mach-O-64-BE");
    reveal_strlit("Mach-O-64-LE");
    reveal_strlit("Mach-O-Fat");
    reveal_strlit("SQLite");
    reveal_strlit("ISO9660");
}

proof fn lemma_names_6()
    ensures
        "VPK"@.len() == 3,
        "VPK"@[0] == 'V' && "VPK"@[1] == 'P' && "VPK"@[2] == 'K',
        "RAR"@.len() == 3,
        "RAR"@[0] == 'R' && "RAR"@[1] == 'A' && "RAR"@[2] == 'R',
{
    reveal_strlit("VPK");
    reveal_strlit("RAR");
}

/// Archives and fonts are listed as such.
pub proof fn law_listing_of_archives(s: Seq<u8>)
    ensures
        entries_in("ZIP"@, s) == nonempty(zip_entries(s, 0)),
        entries_in("TAR"@, s) == nonempty(Some(tar_entries(s, 0))),
        entries_in("CPIO-newc"@, s) == nonempty(newc_entries(s, 0)),
        entries_in("CPIO-crc"@, s) == nonempty(newc_entries(s, 0)),
        entries_in("CPIO-odc"@, s) == nonempty(odc_entries(s, 0)),
        entries_in("AR"@, s) == ar_listing(s),
        entries_in("WAD-I"@, s) == wad_listing(s),
        entries_in("WAD-P"@, s) == wad_listing(s),
        entries_in("PAK-Quake"@, s) == pak_listing(s),
        entries_in("TTF"@, s) == sfnt_listing(s),
        entries_in("OTF"@, s) == sfnt_listing(s),
{
    lemma_names_1();
    lemma_names_2();
    lemma_names_3();
    lemma_names_4();
    lemma_names_5();
    lemma_names_6();
}

/// PNG files and their kin are listed as such.
pub proof fn law_listing_of_png(s: Seq<u8>)
    ensures
        entries_in("PNG"@, s) == png_listing(s, 0x8950_4E47_0D0A_1A0A),
        entries_in("MNG"@, s) == png_listing(s, 0x8A4D_4E47_0D0A_1A0A),
        entries_in("JNG"@, s) == png_listing(s, 0x8B4A_4E47_0D0A_1A0A),
{
    lemma_names_1();
    lemma_names_2();
    lemma_names_3();
    lemma_names_4();
    lemma_names_5();
    lemma_names_6();
}

/// Files in RIFF containers are listed as such.
pub proof fn law_listing_of_riff(s: Seq<u8>)
    ensures
        entries_in("WAV"@, s) == container_listing(s, false),
        entries_in("AVI"@, s) == container_listing(s, false),
        entries_in("WEBP"@, s) == container_listing(s, false),
        entries_in("CDR"@, s) == container_listing(s, false),
        entries_in("ANI"@, s) == container_listing(s, false),
        entries_in("RMID"@, s) == container_listing(s, false),
        entries_in("RIFF-PAL"@, s) == container_listing(s, false),
        entries_in("RDIB"@, s) == container_listing(s, false),
{
    lemma_names_1();
    lemma_names_2();
    lemma_names_3();
    lemma_names_4();
    lemma_names_5();
    lemma_names_6();
}

/// Files in IFF containers are listed as such.
pub proof fn law_listing_of_iff(s: Seq<u8>)
    ensures
        entries_in("AIFF"@, s) == container_listing(s, true),
        entries_in("AIFC"@, s) == container_listing(s, true),
        entries_in("8SVX"@, s) == container_listing(s, true),
        entries_in("ILBM"@, s) == container_listing(s, true),
        entries_in("ANIM"@, s) == container_listing(s, true),
        entries_in("ANBM"@, s) == container_listing(s, true),
{
    lemma_names_1();
    lemma_names_2();
    lemma_names_3();
    lemma_names_4();
    lemma_names_5();
    lemma_names_6();
}

/// Files of ISO base media boxes are listed as such.
pub proof fn law_listing_of_media_1(s: Seq<u8>)
    ensures
        entries_in("MP4-isom"@, s) == nonempty(Some(isobmff_boxes(s, 0))),
        entries_in("MP4-mp42"@, s) == nonempty(Some(isobmff_boxes(s, 0))),
        entries_in("MP4-mp41"@, s) == nonempty(Some(isobmff_boxes(s, 0))),
        entries_in("MP4-avc1"@, s) == nonempty(Some(isobmff_boxes(s, 0))),
        entries_in("MP4-iso2"@, s) == nonempty(Some(isobmff_boxes(s, 0))),
        entries_in("MOV"@, s) == nonempty(Some(isobmff_boxes(s, 0))),
        entries_in("M4A"@, s) == nonempty(Some(isobmff_boxes(s, 0))),
        entries_in("M4B"@, s) == nonempty(Some(isobmff_boxes(s, 0))),
{
    lemma_names_1();
    lemma_names_2();
    lemma_names_3();
    lemma_names_4();
    lemma_names_5();
    lemma_names_6();
}

/// Files of ISO base media boxes are listed as such.
pub proof fn law_listing_of_media_2(s: Seq<u8>)
    ensures
        entries_in("M4P"@, s) == nonempty(Some(isobmff_boxes(s, 0))),
        entries_in("3GP"@, s) == nonempty(Some(isobmff_boxes(s, 0))),
        entries_in("3G2"@, s) == nonempty(Some(isobmff_boxes(s, 0))),
        entries_in("3GP-3gp5"@, s) == nonempty(Some(isobmff_boxes(s, 0))),
        entries_in("M4V"@, s) == nonempty(Some(isobmff_boxes(s, 0))),
        entries_in("HEIC"@, s) == nonempty(Some(isobmff_boxes(s, 0))),
        entries_in("HEIC-10bit"@, s) == nonempty(Some(isobmff_boxes(s, 0))),
        entries_in("AVIF"@, s) == nonempty(Some(isobmff_boxes(s, 0))),
{
    lemma_names_1();
    lemma_names_2();
    lemma_names_3();
    lemma_names_4();
    lemma_names_5();
    lemma_names_6();
}

/// Files of ISO base media boxes are listed as such.
pub proof fn law_listing_of_media_3(s: Seq<u8>)
    ensures
        entries_in("AVIF-sequence"@, s) == nonempty(Some(isobmff_boxes(s, 0))),
        entries_in("HEIF-mif1"@, s) == nonempty(Some(isobmff_boxes(s, 0))),
        entries_in("HEIF-msf1"@, s) == nonempty(Some(isobmff_boxes(s, 0))),
        entries_in("HEIF-heis"@, s) == nonempty(Some(isobmff_boxes(s, 0))),
        entries_in("HEIF-hevc"@, s) == nonempty(Some(isobmff_boxes(s, 0))),
        entries_in("JP2"@, s) == nonempty(Some(isobmff_boxes(s, 0))),
        entries_in("JXL"@, s) == nonempty(Some(isobmff_boxes(s, 0))),
{
    lemma_names_1();
    lemma_names_2();
    lemma_names_3();
    lemma_names_4();
    lemma_names_5();
    lemma_names_6();
}

/// Executables are listed as such.
pub proof fn law_listing_of_executables(s: Seq<u8>)
    ensures
        entries_in("ELF"@, s) == elf_listing(s),
        entries_in("PE"@, s) == pe_listing(s),
        entries_in("Mach-O-32-BE"@, s) == macho_listing(s, false, true),
        entries_in("Mach-O-32-LE"@, s) == macho_listing(s, false, false),
        entries_in("Mach-O-64-BE"@, s) == macho_listing(s, true, true),
        entries_in("Mach-O-64-LE"@, s) == macho_listing(s, true, false),
        entries_in("Mach-O-Fat"@, s) == fat_listing(s),
{
    lemma_names_1();
    lemma_names_2();
    lemma_names_3();
    lemma_names_4();
    lemma_names_5();
    lemma_names_6();
}

/// Databases, images and other archives are listed as such.
pub proof fn law_listing_of_images(s: Seq<u8>)
    ensures
        entries_in("SQLite"@, s) == sqlite_listing(s),
        entries_in("ISO9660"@, s) == iso_listing(s),
        entries_in("VPK"@, s) == vpk_listing(s),
        entries_in("RAR"@, s) == nonempty(rar_entries(s, 7)),
{
    lemma_names_1();
    lemma_names_2();
    lemma_names_3();
    lemma_names_4();
    lemma_names_5();
    lemma_names_6();
}

} // verus!
