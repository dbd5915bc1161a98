//! How listings agree with validators and name extractors.
use vstd::prelude::*;
use crate::archive_listing::{
    ar_entries, ar_listing, newc_entries, odc_entries, pak_listing, tar_entries, wad_listing,
    zip_entries,
};
use crate::archives::{
    ar_extent, ar_member_end, ar_size, is_trailer_name, newc_entry_end, newc_extent,
    newc_extent_from, newc_sizes, odc_extent, odc_sizes, tar_extent, zeros, zip_extent,
    zip_local_end, zip_locals_end, ZIP_LOCAL,
};
use crate::bytes::{be32, le16, le32, within};
use crate::documents::sfnt_extent;
use crate::entries::nonempty;
use crate::executables::macho_fat_extent;
use crate::games::{pak_extent, wad_extent};
use crate::images::{png_chunks_end, png_extent};
use crate::media::isobmff_extent;
use crate::names::{ar_name, newc_name, odc_name, pak_name, wad_name};
use crate::relocation::lemma_number_nonnegative;
use crate::search::lemma_first_occurrence_is_first;
use crate::structure_listing::{fat_listing, isobmff_boxes, png_chunks, png_listing, sfnt_listing};

verus! {

proof fn lemma_zip_listed(s: Seq<u8>, pos: int)
    requires
        0 <= pos,
        zip_locals_end(s, pos) is Some,
    ensures
        zip_entries(s, pos) matches Some(entries) && (be32(s, pos) == ZIP_LOCAL ==> entries.len() > 0),
    decreases s.len() - pos,
{
    if be32(s, pos) == ZIP_LOCAL {
        let header_end = pos + 30 + le16(s, pos + 26) + le16(s, pos + 28);
        lemma_first_occurrence_is_first(s, header_end, seq![0x50u8, 0x4Bu8]);
        if let Some(next) = zip_local_end(s, pos) {
            assert(within(s, pos + 30, le16(s, pos + 26)));
            lemma_zip_listed(s, next);
        }
    }
}

/// A ZIP archive with an entry can be listed.
pub proof fn law_valid_zip_is_listed(s: Seq<u8>)
    requires
        zip_extent(s, 0) is Some,
        be32(s, 0) == ZIP_LOCAL,
    ensures
        nonempty(zip_entries(s, 0)) is Some,
{
    lemma_zip_listed(s, 0);
}

/// A TAR archive that does not begin with its end can be listed.
pub proof fn law_valid_tar_is_listed(s: Seq<u8>)
    requires
        tar_extent(s, 0) is Some,
        !zeros(s, 0, 512),
    ensures
        nonempty(Some(tar_entries(s, 0))) is Some,
{
}

proof fn lemma_newc_listed(s: Seq<u8>, pos: int)
    requires
        0 <= pos,
        newc_extent_from(s, 0, pos) is Some,
    ensures
        newc_entries(s, pos) is Some,
    decreases s.len() - pos,
{
    if let Some(sizes) = newc_sizes(s, pos) {
        lemma_number_nonnegative(s.subrange(pos + 94, pos + 102), 16);
        lemma_number_nonnegative(s.subrange(pos + 54, pos + 62), 16);
        if !is_trailer_name(s, pos + 110, sizes.0) {
            lemma_newc_listed(s, newc_entry_end(0, pos, sizes));
        }
    }
}

/// A "newc" CPIO archive with an entry before its trailer can be listed.
pub proof fn law_valid_newc_is_listed(s: Seq<u8>)
    requires
        newc_extent(s, 0) is Some,
        newc_sizes(s, 0) matches Some(sizes) && !is_trailer_name(s, 110, sizes.0),
    ensures
        nonempty(newc_entries(s, 0)) is Some,
{
    lemma_newc_listed(s, 0);
    lemma_number_nonnegative(s.subrange(94, 102), 16);
    lemma_number_nonnegative(s.subrange(54, 62), 16);
}

proof fn lemma_odc_listed(s: Seq<u8>, pos: int)
    requires
        0 <= pos,
        odc_extent(s, pos) is Some,
    ensures
        odc_entries(s, pos) is Some,
    decreases s.len() - pos,
{
    if let Some(sizes) = odc_sizes(s, pos) {
        lemma_number_nonnegative(s.subrange(pos + 59, pos + 65), 8);
        lemma_number_nonnegative(s.subrange(pos + 65, pos + 76), 8);
        if !is_trailer_name(s, pos + 76, sizes.0) {
            lemma_odc_listed(s, pos + 76 + sizes.0 + sizes.1);
        }
    }
}

/// An "odc" CPIO archive with an entry before its trailer can be listed.
pub proof fn law_valid_odc_is_listed(s: Seq<u8>)
    requires
        odc_extent(s, 0) is Some,
        odc_sizes(s, 0) matches Some(sizes) && !is_trailer_name(s, 76, sizes.0),
    ensures
        nonempty(odc_entries(s, 0)) is Some,
{
    lemma_odc_listed(s, 0);
    lemma_number_nonnegative(s.subrange(59, 65), 8);
    lemma_number_nonnegative(s.subrange(65, 76), 8);
}

proof fn lemma_ar_listed(s: Seq<u8>, pos: int)
    ensures
        ar_entries(s, pos) matches Some(entries) && (ar_size(s, pos) is Some ==> entries.len() > 0),
    decreases s.len() - pos,
{
    if ar_size(s, pos) is Some {
        match ar_member_end(s, pos) {
            Some(next) if next > pos => {
                lemma_ar_listed(s, next);
            },
            _ => {},
        }
    }
}

/// An `ar` archive whose members are sound can be listed.
pub proof fn law_valid_ar_is_listed(s: Seq<u8>)
    requires
        ar_extent(s, 0) is Some,
    ensures
        ar_listing(s) is Some,
{
    lemma_ar_listed(s, 8);
}

proof fn lemma_png_listed(s: Seq<u8>, pos: int, end_chunk: int)
    requires
        0 <= pos,
        png_chunks_end(s, pos, end_chunk) == Some((s.len() - 1, 95int)),
    ensures
        png_chunks(s, pos) matches Some(entries) && entries.len() > 0,
    decreases s.len() - pos,
{
    let next = pos + 12 + be32(s, pos);
    if be32(s, pos + 4) != end_chunk {
        lemma_png_listed(s, next, end_chunk);
    }
}

/// A PNG-style file that ends with its data can be listed.
pub proof fn law_valid_png_is_listed(s: Seq<u8>, signature: int, end_chunk: int)
    requires
        png_extent(s, 0, signature, end_chunk) == Some((s.len() - 1, 95int)),
    ensures
        png_listing(s, signature) is Some,
{
    lemma_png_listed(s, 8, end_chunk);
}

/// A font that is valid can be listed.
pub proof fn law_valid_sfnt_is_listed(s: Seq<u8>)
    requires
        sfnt_extent(s, 0) is Some,
    ensures
        sfnt_listing(s) is Some,
{
}

/// A universal binary that is valid can be listed.
pub proof fn law_valid_fat_is_listed(s: Seq<u8>)
    requires
        macho_fat_extent(s, 0) is Some,
    ensures
        fat_listing(s) is Some,
{
}

/// A file of ISO base media boxes that is valid can be listed.
pub proof fn law_valid_isobmff_is_listed(s: Seq<u8>)
    requires
        isobmff_extent(s, 0) is Some,
    ensures
        nonempty(Some(isobmff_boxes(s, 0))) is Some,
{
}

/// A WAD file with a lump can be listed.
pub proof fn law_valid_wad_is_listed(s: Seq<u8>)
    requires
        wad_extent(s, 0) is Some,
        le32(s, 4) > 0,
    ensures
        wad_listing(s) is Some,
{
}

/// A Quake PAK file whose directory holds an entry can be listed.
pub proof fn law_valid_pak_is_listed(s: Seq<u8>)
    requires
        pak_extent(s, 0) is Some,
        le32(s, 8) >= 64,
    ensures
        pak_listing(s) is Some,
{
}

/// The name that is found for an `ar` archive is that of the first entry of its
/// listing.
pub proof fn law_ar_name_is_first(s: Seq<u8>)
    requires
        ar_listing(s) is Some,
        ar_name(s, 0) is Some,
    ensures
        ar_listing(s)->0[0].0 == ar_name(s, 0)->0,
{
    lemma_ar_listed(s, 8);
}

/// The name that is found for a WAD file is that of the first entry of its
/// listing.
pub proof fn law_wad_name_is_first(s: Seq<u8>)
    requires
        wad_listing(s) is Some,
        wad_name(s, 0) is Some,
    ensures
        wad_listing(s)->0[0].0 == wad_name(s, 0)->0,
{
}

/// The name that is found for a Quake PAK file is that of the first entry of its
/// listing.
pub proof fn law_pak_name_is_first(s: Seq<u8>)
    requires
        pak_listing(s) is Some,
        pak_name(s, 0) is Some,
    ensures
        pak_listing(s)->0[0].0 == pak_name(s, 0)->0,
{
}

/// The name that is found for a "newc" CPIO archive is that of the first entry of
/// its listing.
pub proof fn law_newc_name_is_first(s: Seq<u8>)
    requires
        nonempty(newc_entries(s, 0)) is Some,
        newc_name(s, 0) is Some,
    ensures
        newc_entries(s, 0)->0[0].0 == newc_name(s, 0)->0,
{
}

/// The name that is found for an "odc" CPIO archive is that of the first entry of
/// its listing.
pub proof fn law_odc_name_is_first(s: Seq<u8>)
    requires
        nonempty(odc_entries(s, 0)) is Some,
        odc_name(s, 0) is Some,
    ensures
        odc_entries(s, 0)->0[0].0 == odc_name(s, 0)->0,
{
}

} // verus!
