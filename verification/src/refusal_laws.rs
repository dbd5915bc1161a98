//! What is not a file of its kind is not taken for one.
use vstd::arithmetic::power2::{lemma2_to64, lemma2_to64_rest, pow2};
use vstd::prelude::*;
use crate::archive_listing::{ar_listing, iso_listing, pak_listing, vpk_listing, wad_listing};
use crate::archives::{ar_extent, iso_extent, zip_locals_end, zstd_extent};
use crate::bytes::{be16, be32, be64, le16, le24, le32, sized, within};
use crate::documents::{
    blend_extent, glb_extent, log2_floor, power_floor, sfnt_extent, sqlite_extent, sqlite_page_size,
};
use crate::executables::pef_extent;
use crate::games::vpk_extent;
use crate::images::{
    emf_extent, icc_extent, icns_extent, ico_extent, jpeg_extent, png_extent, scan_end, wmf_extent,
};
use crate::media::{
    asf_extent, au_extent, be_container_extent, caf_extent, dsf_extent, ebml_extent, flv_extent,
    midi_extent, ogg_page_end, realmedia_extent, riff_extent, swf_extent, vint_unknown,
    voc_terminator,
};
use crate::sqlite::{cell_payload, sqlite_listing, varint};
use crate::structure_listing::{container_listing, png_listing, sfnt_listing};
use crate::writing::holds_at;

verus! {

proof fn lemma_tag32(s: Seq<u8>, pos: int, tag: Seq<u8>)
    requires
        within(s, pos, 4),
        tag.len() == 4,
        be32(s, pos) == be32(tag, 0),
    ensures
        holds_at(s, pos, tag),
{
    assert(s.subrange(pos, pos + 4) =~= tag);
}

proof fn lemma_tag64(s: Seq<u8>, pos: int, tag: Seq<u8>)
    requires
        within(s, pos, 8),
        tag.len() == 8,
        be64(s, pos) == be64(tag, 0),
    ensures
        holds_at(s, pos, tag),
{
    assert(be32(s, pos) == be32(tag, 0));
    assert(be32(s, pos + 4) == be32(tag, 4));
    assert(s.subrange(pos, pos + 8) =~= tag);
}

/// Containers of sound and pictures that are told by four bytes begin with them.
pub proof fn law_magic_of_containers_is_required(s: Seq<u8>, start: int)
    ensures
        riff_extent(s, start) is Some ==> holds_at(s, start, seq![0x52u8, 0x49u8, 0x46u8, 0x46u8]),
        glb_extent(s, start) is Some ==> holds_at(s, start, seq![0x67u8, 0x6Cu8, 0x54u8, 0x46u8]),
        icns_extent(s, start) is Some ==> holds_at(s, start, seq![0x69u8, 0x63u8, 0x6Eu8, 0x73u8]),
        ebml_extent(s, start) is Some ==> holds_at(s, start, seq![0x1Au8, 0x45u8, 0xDFu8, 0xA3u8]),
{
    assert(riff_extent(s, start) is Some ==> holds_at(s, start, seq![0x52u8, 0x49u8, 0x46u8, 0x46u8])) by {
        if riff_extent(s, start) is Some {
            lemma_tag32(s, start, seq![0x52u8, 0x49u8, 0x46u8, 0x46u8]);
        }
    }
    assert(glb_extent(s, start) is Some ==> holds_at(s, start, seq![0x67u8, 0x6Cu8, 0x54u8, 0x46u8])) by {
        if glb_extent(s, start) is Some {
            lemma_tag32(s, start, seq![0x67u8, 0x6Cu8, 0x54u8, 0x46u8]);
        }
    }
    assert(icns_extent(s, start) is Some ==> holds_at(s, start, seq![0x69u8, 0x63u8, 0x6Eu8, 0x73u8])) by {
        if icns_extent(s, start) is Some {
            lemma_tag32(s, start, seq![0x69u8, 0x63u8, 0x6Eu8, 0x73u8]);
        }
    }
    assert(ebml_extent(s, start) is Some ==> holds_at(s, start, seq![0x1Au8, 0x45u8, 0xDFu8, 0xA3u8])) by {
        if ebml_extent(s, start) is Some {
            lemma_tag32(s, start, seq![0x1Au8, 0x45u8, 0xDFu8, 0xA3u8]);
        }
    }
}

/// Sounds that are told by four bytes begin with them.
pub proof fn law_magic_of_sounds_is_required(s: Seq<u8>, start: int)
    ensures
        dsf_extent(s, start) is Some ==> holds_at(s, start, seq![0x44u8, 0x53u8, 0x44u8, 0x20u8]),
        caf_extent(s, start) is Some ==> holds_at(s, start, seq![0x63u8, 0x61u8, 0x66u8, 0x66u8]),
        midi_extent(s, start) is Some ==> holds_at(s, start, seq![0x4Du8, 0x54u8, 0x68u8, 0x64u8]),
        realmedia_extent(s, start) is Some ==> holds_at(s, start, seq![0x2Eu8, 0x52u8, 0x4Du8, 0x46u8]),
{
    assert(dsf_extent(s, start) is Some ==> holds_at(s, start, seq![0x44u8, 0x53u8, 0x44u8, 0x20u8])) by {
        if dsf_extent(s, start) is Some {
            lemma_tag32(s, start, seq![0x44u8, 0x53u8, 0x44u8, 0x20u8]);
        }
    }
    assert(caf_extent(s, start) is Some ==> holds_at(s, start, seq![0x63u8, 0x61u8, 0x66u8, 0x66u8])) by {
        if caf_extent(s, start) is Some {
            lemma_tag32(s, start, seq![0x63u8, 0x61u8, 0x66u8, 0x66u8]);
        }
    }
    assert(midi_extent(s, start) is Some ==> holds_at(s, start, seq![0x4Du8, 0x54u8, 0x68u8, 0x64u8])) by {
        if midi_extent(s, start) is Some {
            lemma_tag32(s, start, seq![0x4Du8, 0x54u8, 0x68u8, 0x64u8]);
        }
    }
    assert(realmedia_extent(s, start) is Some ==> holds_at(s, start, seq![0x2Eu8, 0x52u8, 0x4Du8, 0x46u8])) by {
        if realmedia_extent(s, start) is Some {
            lemma_tag32(s, start, seq![0x2Eu8, 0x52u8, 0x4Du8, 0x46u8]);
        }
    }
}

/// Streams, and metafiles in their header, are told by four bytes too.
pub proof fn law_magic_of_streams_is_required(s: Seq<u8>, start: int)
    ensures
        zstd_extent(s, start) is Some ==> holds_at(s, start, seq![0x28u8, 0xB5u8, 0x2Fu8, 0xFDu8]),
        ogg_page_end(s, start) is Some ==> holds_at(s, start, seq![0x4Fu8, 0x67u8, 0x67u8, 0x53u8]),
        emf_extent(s, start) is Some ==> holds_at(s, start + 40, seq![0x20u8, 0x45u8, 0x4Du8, 0x46u8]),
{
    assert(zstd_extent(s, start) is Some ==> holds_at(s, start, seq![0x28u8, 0xB5u8, 0x2Fu8, 0xFDu8])) by {
        if zstd_extent(s, start) is Some {
            lemma_tag32(s, start, seq![0x28u8, 0xB5u8, 0x2Fu8, 0xFDu8]);
        }
    }
    assert(ogg_page_end(s, start) is Some ==> holds_at(s, start, seq![0x4Fu8, 0x67u8, 0x67u8, 0x53u8])) by {
        if ogg_page_end(s, start) is Some {
            lemma_tag32(s, start, seq![0x4Fu8, 0x67u8, 0x67u8, 0x53u8]);
        }
    }
    assert(emf_extent(s, start) is Some ==> holds_at(s, start + 40, seq![0x20u8, 0x45u8, 0x4Du8, 0x46u8])) by {
        if emf_extent(s, start) is Some {
            lemma_tag32(s, start + 40, seq![0x20u8, 0x45u8, 0x4Du8, 0x46u8]);
        }
    }
}

/// A container of big-endian chunks begins with the letters that were asked for.
pub proof fn law_container_tag_is_required(s: Seq<u8>, start: int, tag: Seq<u8>)
    requires
        tag.len() == 4,
    ensures
        be_container_extent(s, start, be32(tag, 0)) is Some ==> holds_at(s, start, tag),
{
    if be_container_extent(s, start, be32(tag, 0)) is Some {
        lemma_tag32(s, start, tag);
    }
}

/// Formats that are told by eight bytes or more begin with them: PNG and its kin, AR archives,
/// Apple's executables, and Windows Media.
pub proof fn law_longer_magic_is_required(s: Seq<u8>, start: int, signature: Seq<u8>, end_chunk: int)
    requires
        signature.len() == 8,
    ensures
        png_extent(s, start, be64(signature, 0), end_chunk) is Some ==> holds_at(s, start, signature),
        ar_extent(s, start) is Some ==> holds_at(
            s,
            start,
            seq![0x21u8, 0x3Cu8, 0x61u8, 0x72u8, 0x63u8, 0x68u8, 0x3Eu8, 0x0Au8],
        ),
        pef_extent(s, start) is Some ==> holds_at(
            s,
            start,
            seq![0x4Au8, 0x6Fu8, 0x79u8, 0x21u8, 0x70u8, 0x65u8, 0x66u8, 0x66u8],
        ),
        asf_extent(s, start) is Some ==> holds_at(
            s,
            start,
            seq![0x30u8, 0x26u8, 0xB2u8, 0x75u8, 0x8Eu8, 0x66u8, 0xCFu8, 0x11u8],
        ) && holds_at(
            s,
            start + 8,
            seq![0xA6u8, 0xD9u8, 0x00u8, 0xAAu8, 0x00u8, 0x62u8, 0xCEu8, 0x6Cu8],
        ),
{
    if png_extent(s, start, be64(signature, 0), end_chunk) is Some {
        lemma_tag64(s, start, signature);
    }
    if ar_extent(s, start) is Some {
        let tag = seq![0x21u8, 0x3Cu8, 0x61u8, 0x72u8, 0x63u8, 0x68u8, 0x3Eu8, 0x0Au8];
        assert(be32(tag, 0) == 0x213C_6172 && be32(tag, 4) == 0x6368_3E0A);
        lemma_tag64(s, start, tag);
    }
    if pef_extent(s, start) is Some {
        let tag = seq![0x4Au8, 0x6Fu8, 0x79u8, 0x21u8, 0x70u8, 0x65u8, 0x66u8, 0x66u8];
        assert(be32(tag, 0) == 0x4A6F_7921 && be32(tag, 4) == 0x7065_6666);
        lemma_tag64(s, start, tag);
    }
    if asf_extent(s, start) is Some {
        let first = seq![0x30u8, 0x26u8, 0xB2u8, 0x75u8, 0x8Eu8, 0x66u8, 0xCFu8, 0x11u8];
        let second = seq![0xA6u8, 0xD9u8, 0x00u8, 0xAAu8, 0x00u8, 0x62u8, 0xCEu8, 0x6Cu8];
        assert(be32(first, 0) == 0x3026_B275 && be32(first, 4) == 0x8E66_CF11);
        assert(be32(second, 0) == 0xA6D9_00AA && be32(second, 4) == 0x0062_CE6C);
        lemma_tag64(s, start, first);
        lemma_tag64(s, start + 8, second);
    }
}

/// An SQLite database has pages whose size is a power of two from 512 to 65536, and at least one
/// of them; it ends with the last.
pub proof fn law_database_has_whole_pages(s: Seq<u8>, start: int)
    requires
        sqlite_extent(s, start) is Some,
    ensures
        exists|k: nat|
            9 <= k <= 16 && (sqlite_extent(s, start)->0).0 + 1 - start == #[trigger] pow2(k) * be32(
                s,
                start + 28,
            ) && be16(s, start + 16) == pow2(k) % 0x1_0000 + (if k == 16 {
                1int
            } else {
                0
            }),
        be32(s, start + 28) > 0,
        (sqlite_extent(s, start)->0).1 == 90 <==> be32(s, start + 24) == be32(s, start + 92),
{
    lemma2_to64();
    let raw = be16(s, start + 16);
    let k: nat = if raw == 1 {
        16
    } else if raw == 512 {
        9
    } else if raw == 1024 {
        10
    } else if raw == 2048 {
        11
    } else if raw == 4096 {
        12
    } else if raw == 8192 {
        13
    } else if raw == 16384 {
        14
    } else {
        15
    };
    assert(sqlite_page_size(raw) == Some(pow2(k) as int));
}

/// What a font's header says of its number of tables: the largest power of two in it, and the
/// exponent of that.
pub proof fn law_powers_in_a_font_header(n: int)
    requires
        1 <= n <= 127,
    ensures
        power_floor(n) <= n < 2 * power_floor(n),
        pow2(log2_floor(n) as nat) == power_floor(n),
{
    lemma2_to64();
}

/// A font has a header that agrees with its number of tables, of which there are 1 to 100.
pub proof fn law_font_header_agrees(s: Seq<u8>, start: int)
    requires
        sfnt_extent(s, start) is Some,
    ensures
        ({
            let count = be16(s, start + 4);
            let range = be16(s, start + 6);
            &&& 1 <= count <= 100
            &&& range <= 16 * count < 2 * range
            &&& range == 16 * pow2(be16(s, start + 8) as nat)
        }),
{
    law_powers_in_a_font_header(be16(s, start + 4));
}

/// An EBML number stands for an unknown size if all of its bits are set: seven for each byte.
pub proof fn law_unknown_size_has_all_bits(len: int)
    requires
        1 <= len <= 8,
    ensures
        vint_unknown(len) == pow2((7 * len) as nat) - 1,
{
    lemma2_to64();
    lemma2_to64_rest();
}

/// An icon file has an empty first field, is an icon or a cursor, and has at least one image, each
/// of some size and behind the directory.
pub proof fn law_icon_directory_is_sound(s: Seq<u8>, start: int, i: int)
    requires
        ico_extent(s, start) is Some,
        0 <= i < le16(s, start + 4),
    ensures
        ({
            let entry = start + 6 + 16 * i;
            let at = start + le32(s, entry + 12);
            &&& s[start] == 0 && s[start + 1] == 0 && s[start + 3] == 0
            &&& s[start + 2] == 1 || s[start + 2] == 2
            &&& le32(s, entry + 8) > 0
            &&& le32(s, entry + 12) >= 6 + 16 * le16(s, start + 4)
            &&& within(s, at, 4)
            &&& holds_at(s, at, seq![0x89u8, 0x50u8, 0x4Eu8, 0x47u8]) || seq![
                12int,
                40,
                52,
                56,
                64,
                108,
                124,
            ].contains(le32(s, at))
        }),
{
    let entry = start + 6 + 16 * i;
    let at = start + le32(s, entry + 12);
    assert(crate::images::ico_entry_sound(s, start, le16(s, start + 4), i));
    let sizes = seq![12int, 40, 52, 56, 64, 108, 124];
    assert(sizes[0] == 12 && sizes[1] == 40 && sizes[2] == 52 && sizes[3] == 56 && sizes[4] == 64);
    assert(sizes[5] == 108 && sizes[6] == 124);
    if within(s, at, 8) && be64(s, at) == crate::images::PNG_SIGNATURE {
        assert(be32(s, at) == 0x8950_4E47);
        lemma_tag32(s, at, seq![0x89u8, 0x50u8, 0x4Eu8, 0x47u8]);
    }
}

/// A metafile has a header of nine words and says that it is in memory or on disk; one behind a
/// placeable header is more certain.
pub proof fn law_metafile_header_is_sound(s: Seq<u8>, start: int)
    requires
        wmf_extent(s, start) is Some,
    ensures
        ({
            let placeable = holds_at(s, start, seq![0xD7u8, 0xCDu8, 0xC6u8, 0x9Au8, 0u8, 0u8]);
            let header = if placeable {
                start + 22
            } else {
                start
            };
            &&& le16(s, header) == 1 || le16(s, header) == 2
            &&& le16(s, header + 2) == 9
            &&& le32(s, header + 6) >= 9
            &&& wmf_extent(s, start) == Some(
                (header + 2 * le32(s, header + 6) - 1, if placeable {
                    90int
                } else {
                    55int
                }),
            )
        }),
{
    let tag = seq![0xD7u8, 0xCDu8, 0xC6u8, 0x9Au8, 0u8, 0u8];
    if crate::images::is_placeable(s, start) {
        assert(s.subrange(start, start + 6) =~= tag);
        assert(holds_at(s, start, tag));
    } else if holds_at(s, start, tag) {
        assert forall|i: int| 0 <= i < 6 implies s[start + i] == #[trigger] tag[i] by {
            assert(s.subrange(start, start + 6)[i] == tag[i]);
        }
        assert(s[start + 0] == tag[0] && s[start + 1] == tag[1] && s[start + 2] == tag[2]);
        assert(s[start + 3] == tag[3] && s[start + 4] == tag[4] && s[start + 5] == tag[5]);
    }
}

/// Small rules: a colour profile is at least as long as its header, a Valve package is of the second
/// version, a MIDI file has a track, and a Sun sound file of unknown length has no end.
pub proof fn law_smaller_rules(s: Seq<u8>, start: int)
    ensures
        icc_extent(s, start) matches Some((end, _)) ==> end + 1 - start >= 128,
        vpk_extent(s, start) is Some ==> le32(s, start + 4) == 2,
        midi_extent(s, start) is Some ==> be16(s, start + 10) > 0,
        au_extent(s, start) is Some ==> be32(s, start + 8) < 0xFFFF_FFFF,
        flv_extent(s, start) is Some ==> s[start] == 0x46 && s[start + 1] == 0x4C && s[start + 2] == 0x56,
        jpeg_extent(s, start) is Some ==> s[start] == 0xFF && s[start + 1] == 0xD8,
        swf_extent(s, start) is Some ==> (s[start] == 0x46 || s[start] == 0x43) && s[start + 1] == 0x57
            && s[start + 2] == 0x53,
        realmedia_extent(s, start) is Some ==> be32(s, start + 4) >= 18 && be32(s, start + 14) >= 1,
{
}

/// An ISO image has the standard's letters in the seventeenth sector, behind a byte of 1.
pub proof fn law_iso_descriptor_is_required(s: Seq<u8>, start: int)
    requires
        iso_extent(s, start) is Some,
    ensures
        holds_at(s, start + 16 * 2048, seq![1u8, 0x43u8, 0x44u8, 0x30u8, 0x30u8, 0x31u8]),
{
    let at = start + 32768;
    assert(s.subrange(at, at + 6) =~= seq![1u8, 0x43u8, 0x44u8, 0x30u8, 0x30u8, 0x31u8]);
}

/// A Blender file names itself, the size of its pointers and its byte order.
pub proof fn law_blender_header_is_required(s: Seq<u8>, start: int)
    requires
        blend_extent(s, start) is Some,
    ensures
        holds_at(s, start, seq![0x42u8, 0x4Cu8, 0x45u8, 0x4Eu8, 0x44u8, 0x45u8, 0x52u8]),
        s[start + 7] == 0x5F || s[start + 7] == 0x2D,
        s[start + 8] == 0x76 || s[start + 8] == 0x56,
{
    assert(s.subrange(start, start + 7) =~= seq![
        0x42u8,
        0x4Cu8,
        0x45u8,
        0x4Eu8,
        0x44u8,
        0x45u8,
        0x52u8,
    ]);
}

/// The data of a JPEG scan end at a marker that is neither a stuffed byte nor a restart, and
/// every marker byte before it is one of these.
pub proof fn law_scan_ends_at_a_marker(s: Seq<u8>, pos: int)
    requires
        scan_end(s, pos) is Some,
    ensures
        ({
            let end = scan_end(s, pos)->0;
            &&& pos <= end && end + 1 < s.len()
            &&& s[end] == 0xFF && s[end + 1] != 0 && !(0xD0 <= s[end + 1] <= 0xD7)
            &&& forall|i: int|
                pos <= i < end && #[trigger] s[i] == 0xFF && (i == pos || s[i - 1] != 0xFF) ==> s[i + 1]
                    == 0 || 0xD0 <= s[i + 1] <= 0xD7
        }),
    decreases s.len() - pos,
{
    if s[pos] != 0xFF {
        law_scan_ends_at_a_marker(s, pos + 1);
    } else if s[pos + 1] == 0 || 0xD0 <= s[pos + 1] <= 0xD7 {
        law_scan_ends_at_a_marker(s, pos + 2);
        assert(s[pos + 1] != 0xFF);
    }
}

/// The terminator of a Creative Voice file is a zero byte behind whole blocks.
pub proof fn law_terminator_is_zero(s: Seq<u8>, pos: int)
    requires
        voc_terminator(s, pos) is Some,
    ensures
        pos <= voc_terminator(s, pos)->0 < s.len(),
        s[voc_terminator(s, pos)->0] == 0,
        s[pos] != 0 ==> voc_terminator(s, pos)->0 >= pos + 4 + le24(s, pos + 1),
    decreases s.len() - pos,
{
    if s[pos] != 0 {
        law_terminator_is_zero(s, pos + 4 + le24(s, pos + 1));
    }
}

/// The local entries of a ZIP archive end where something else than such an entry stands.
pub proof fn law_local_entries_end(s: Seq<u8>, pos: int)
    requires
        zip_locals_end(s, pos) is Some,
        0 <= pos,
    ensures
        pos <= zip_locals_end(s, pos)->0,
        !holds_at(s, zip_locals_end(s, pos)->0, seq![0x50u8, 0x4Bu8, 3u8, 4u8]),
    decreases s.len() - pos,
{
    let tag = seq![0x50u8, 0x4Bu8, 3u8, 4u8];
    if be32(s, pos) != 0x504B_0304 {
        if holds_at(s, pos, tag) {
            assert(s.subrange(pos, pos + 4)[0] == tag[0] && s.subrange(pos, pos + 4)[1] == tag[1]);
            assert(s.subrange(pos, pos + 4)[2] == tag[2] && s.subrange(pos, pos + 4)[3] == tag[3]);
        }
    } else {
        law_local_entries_end(s, crate::archives::zip_local_end(s, pos)->0);
    }
}

/// A part of a file that was measured ends inside the data, with the certainty that was given; one
/// that would end outside has no end.
pub proof fn law_measured_part_lies_inside(len: int, start: int, total: int, confidence: int)
    ensures
        0 < start + total <= len ==> sized(len, start, total, confidence) == Some(
            (start + total - 1, confidence),
        ),
        start + total > len || start + total <= 0 ==> sized(len, start, total, confidence) is None,
{
}

/// What is listed is listed only of a file that begins as it must: an AR archive, a PNG image or its
/// kin, an ISO image, a database whose schema fits in one page, a Valve package of a known version.
pub proof fn law_listing_needs_the_header(s: Seq<u8>, signature: Seq<u8>)
    requires
        signature.len() == 8,
    ensures
        ar_listing(s) is Some ==> holds_at(
            s,
            0,
            seq![0x21u8, 0x3Cu8, 0x61u8, 0x72u8, 0x63u8, 0x68u8, 0x3Eu8, 0x0Au8],
        ),
        png_listing(s, be64(signature, 0)) is Some ==> holds_at(s, 0, signature),
        iso_listing(s) is Some ==> holds_at(
            s,
            32768,
            seq![1u8, 0x43u8, 0x44u8, 0x30u8, 0x30u8, 0x31u8],
        ),
        sqlite_listing(s) is Some ==> s[100] == 0x0D && sqlite_page_size(be16(s, 16)) is Some,
        vpk_listing(s) is Some ==> le32(s, 4) == 1 || le32(s, 4) == 2,
        sfnt_listing(s) is Some ==> 0 < be16(s, 4) <= 100,
{
    if ar_listing(s) is Some {
        let tag = seq![0x21u8, 0x3Cu8, 0x61u8, 0x72u8, 0x63u8, 0x68u8, 0x3Eu8, 0x0Au8];
        assert(be32(tag, 0) == 0x213C_6172 && be32(tag, 4) == 0x6368_3E0A);
        lemma_tag64(s, 0, tag);
    }
    if png_listing(s, be64(signature, 0)) is Some {
        lemma_tag64(s, 0, signature);
    }
    if iso_listing(s) is Some {
        assert(s.subrange(32768, 32774) =~= seq![1u8, 0x43u8, 0x44u8, 0x30u8, 0x30u8, 0x31u8]);
    }
}

/// A listing is never empty: a file without entries has none.
pub proof fn law_listing_is_never_empty(s: Seq<u8>, signature: int, is_be: bool)
    ensures
        ar_listing(s) matches Some(list) ==> list.len() > 0,
        wad_listing(s) matches Some(list) ==> list.len() > 0,
        pak_listing(s) matches Some(list) ==> list.len() > 0,
        iso_listing(s) matches Some(list) ==> list.len() > 0,
        vpk_listing(s) matches Some(list) ==> list.len() > 0,
        png_listing(s, signature) matches Some(list) ==> list.len() > 0,
        container_listing(s, is_be) matches Some(list) ==> list.len() > 0,
        sqlite_listing(s) matches Some(list) ==> list.len() > 0,
{
}

/// A record of a database page is as long as its cell says and lies inside the page.
pub proof fn law_record_lies_in_its_page(page: Seq<u8>, cell: int, payload: Seq<u8>)
    requires
        cell_payload(page, cell) == Some(payload),
    ensures
        payload.len() <= page.len(),
        varint(page, cell) matches Some((len, _)) && len == payload.len(),
{
}

} // verus!
