//! The structural listing of a file of a known format.
use vstd::prelude::*;
use crate::archive_listing::{
    ar_listing, iso_listing, list_ar_entries, list_cpio_newc_entries, list_cpio_odc_entries,
    list_iso9660_entries, list_pak_entries, list_rar_entries, list_tar_entries, list_vpk_entries,
    list_wad_entries, list_zip_entries, newc_entries, odc_entries, pak_listing, rar_entries,
    tar_entries, vpk_listing, wad_listing, zip_entries,
};
use crate::archives::RAR_MARKER_LEN;
use crate::entries::{listing, nonempty, ArchiveEntry};
use crate::images::{JNG_SIGNATURE, MNG_SIGNATURE, PNG_SIGNATURE};
use crate::sqlite::{list_sqlite_entries, sqlite_listing};
use crate::structure_listing::{
    container_listing, elf_listing, fat_listing, isobmff_boxes, list_elf_sections, list_iff_chunks,
    list_isobmff_boxes, list_macho_fat_archs, list_macho_sections, list_pe_sections,
    list_png_chunks, list_riff_chunks, list_sfnt_tables, macho_listing, pe_listing, png_listing,
    sfnt_listing,
};
use crate::text::same_text;

verus! {

/// The formats in a RIFF container whose chunks are listed.
pub open spec fn is_riff_format(format: Seq<char>) -> bool {
    ||| format == "WAV"@
    ||| format == "AVI"@
    ||| format == "WEBP"@
    ||| format == "CDR"@
    ||| format == "ANI"@
    ||| format == "RMID"@
    ||| format == "RIFF-PAL"@
    ||| format == "RDIB"@
}

/// Whether a format is one in a RIFF container.
pub fn has_riff_structure(format: &str) -> (r: bool)
    ensures
        r == is_riff_format(format@),
{
    same_text(format, "WAV") || same_text(format, "AVI") || same_text(format, "WEBP") || same_text(format, "CDR") || same_text(format, "ANI") || same_text(format, "RMID") || same_text(format, "RIFF-PAL") || same_text(format, "RDIB")
}

/// The formats in an IFF container whose chunks are listed.
pub open spec fn is_iff_format(format: Seq<char>) -> bool {
    ||| format == "AIFF"@
    ||| format == "AIFC"@
    ||| format == "8SVX"@
    ||| format == "ILBM"@
    ||| format == "ANIM"@
    ||| format == "ANBM"@
}

/// Whether a format is one in an IFF container.
pub fn has_iff_structure(format: &str) -> (r: bool)
    ensures
        r == is_iff_format(format@),
{
    same_text(format, "AIFF") || same_text(format, "AIFC") || same_text(format, "8SVX") || same_text(format, "ILBM") || same_text(format, "ANIM") || same_text(format, "ANBM")
}

/// The formats made of ISO base media boxes.
pub open spec fn is_isobmff_format(format: Seq<char>) -> bool {
    ||| format == "MP4-isom"@
    ||| format == "MP4-mp42"@
    ||| format == "MP4-mp41"@
    ||| format == "MP4-avc1"@
    ||| format == "MP4-iso2"@
    ||| format == "MOV"@
    ||| format == "M4A"@
    ||| format == "M4B"@
    ||| format == "M4P"@
    ||| format == "3GP"@
    ||| format == "3G2"@
    ||| format == "3GP-3gp5"@
    ||| format == "M4V"@
    ||| format == "HEIC"@
    ||| format == "HEIC-10bit"@
    ||| format == "AVIF"@
    ||| format == "AVIF-sequence"@
    ||| format == "HEIF-mif1"@
    ||| format == "HEIF-msf1"@
    ||| format == "HEIF-heis"@
    ||| format == "HEIF-hevc"@
    ||| format == "JP2"@
    ||| format == "JXL"@
}

/// Whether a format is made of ISO base media boxes.
pub fn has_isobmff_structure(format: &str) -> (r: bool)
    ensures
        r == is_isobmff_format(format@),
{
    same_text(format, "MP4-isom") || same_text(format, "MP4-mp42") || same_text(format, "MP4-mp41") || same_text(format, "MP4-avc1") || same_text(format, "MP4-iso2") || same_text(format, "MOV") || same_text(format, "M4A") || same_text(format, "M4B") || same_text(format, "M4P") || same_text(format, "3GP") || same_text(format, "3G2") || same_text(format, "3GP-3gp5") || same_text(format, "M4V") || same_text(format, "HEIC") || same_text(format, "HEIC-10bit") || same_text(format, "AVIF") || same_text(format, "AVIF-sequence") || same_text(format, "HEIF-mif1") || same_text(format, "HEIF-msf1") || same_text(format, "HEIF-heis") || same_text(format, "HEIF-hevc") || same_text(format, "JP2") || same_text(format, "JXL")
}

/// The entries inside the file `s` of that format, if it has a structure that can
/// be listed.
pub open spec fn entries_in(format: Seq<char>, s: Seq<u8>) -> Option<Seq<(Seq<char>, int)>> {
    if format == "ZIP"@ {
        nonempty(zip_entries(s, 0))
    } else if format == "TAR"@ {
        nonempty(Some(tar_entries(s, 0)))
    } else if format == "CPIO-newc"@ || format == "CPIO-crc"@ {
        nonempty(newc_entries(s, 0))
    } else if format == "CPIO-odc"@ {
        nonempty(odc_entries(s, 0))
    } else if format == "AR"@ {
        ar_listing(s)
    } else if format == "WAD-I"@ || format == "WAD-P"@ {
        wad_listing(s)
    } else if format == "PAK-Quake"@ {
        pak_listing(s)
    } else if format == "TTF"@ || format == "OTF"@ {
        sfnt_listing(s)
    } else if format == "PNG"@ {
        png_listing(s, PNG_SIGNATURE as int)
    } else if format == "MNG"@ {
        png_listing(s, MNG_SIGNATURE as int)
    } else if format == "JNG"@ {
        png_listing(s, JNG_SIGNATURE as int)
    } else if is_riff_format(format) {
        container_listing(s, false)
    } else if is_iff_format(format) {
        container_listing(s, true)
    } else if is_isobmff_format(format) {
        nonempty(Some(isobmff_boxes(s, 0)))
    } else if format == "ELF"@ {
        elf_listing(s)
    } else if format == "PE"@ {
        pe_listing(s)
    } else if format == "Mach-O-32-BE"@ {
        macho_listing(s, false, true)
    } else if format == "Mach-O-32-LE"@ {
        macho_listing(s, false, false)
    } else if format == "Mach-O-64-BE"@ {
        macho_listing(s, true, true)
    } else if format == "Mach-O-64-LE"@ {
        macho_listing(s, true, false)
    } else if format == "Mach-O-Fat"@ {
        fat_listing(s)
    } else if format == "SQLite"@ {
        sqlite_listing(s)
    } else if format == "ISO9660"@ {
        iso_listing(s)
    } else if format == "VPK"@ {
        vpk_listing(s)
    } else if format == "RAR"@ {
        nonempty(rar_entries(s, RAR_MARKER_LEN as int))
    } else {
        None
    }
}

/// Lists the entries inside a file of that format: files of an archive, chunks,
/// boxes, tables or sections. `fragment` is the file itself.
pub fn list_archive_entries(format: &str, fragment: &[u8]) -> (r: Option<Vec<ArchiveEntry>>)
    ensures
        listing(r) == entries_in(format@, fragment@),
{
    if same_text(format, "ZIP") {
        list_zip_entries(fragment)
    } else if same_text(format, "TAR") {
        list_tar_entries(fragment)
    } else if same_text(format, "CPIO-newc") || same_text(format, "CPIO-crc") {
        list_cpio_newc_entries(fragment)
    } else if same_text(format, "CPIO-odc") {
        list_cpio_odc_entries(fragment)
    } else if same_text(format, "AR") {
        list_ar_entries(fragment)
    } else if same_text(format, "WAD-I") || same_text(format, "WAD-P") {
        list_wad_entries(fragment)
    } else if same_text(format, "PAK-Quake") {
        list_pak_entries(fragment)
    } else if same_text(format, "TTF") || same_text(format, "OTF") {
        list_sfnt_tables(fragment)
    } else if same_text(format, "PNG") {
        list_png_chunks(fragment, PNG_SIGNATURE)
    } else if same_text(format, "MNG") {
        list_png_chunks(fragment, MNG_SIGNATURE)
    } else if same_text(format, "JNG") {
        list_png_chunks(fragment, JNG_SIGNATURE)
    } else if has_riff_structure(format) {
        list_riff_chunks(fragment)
    } else if has_iff_structure(format) {
        list_iff_chunks(fragment)
    } else if has_isobmff_structure(format) {
        list_isobmff_boxes(fragment)
    } else if same_text(format, "ELF") {
        list_elf_sections(fragment)
    } else if same_text(format, "PE") {
        list_pe_sections(fragment)
    } else if same_text(format, "Mach-O-32-BE") {
        list_macho_sections(fragment, false, true)
    } else if same_text(format, "Mach-O-32-LE") {
        list_macho_sections(fragment, false, false)
    } else if same_text(format, "Mach-O-64-BE") {
        list_macho_sections(fragment, true, true)
    } else if same_text(format, "Mach-O-64-LE") {
        list_macho_sections(fragment, true, false)
    } else if same_text(format, "Mach-O-Fat") {
        list_macho_fat_archs(fragment)
    } else if same_text(format, "SQLite") {
        list_sqlite_entries(fragment)
    } else if same_text(format, "ISO9660") {
        list_iso9660_entries(fragment)
    } else if same_text(format, "VPK") {
        list_vpk_entries(fragment)
    } else if same_text(format, "RAR") {
        list_rar_entries(fragment)
    } else {
        None
    }
}

} // verus!
