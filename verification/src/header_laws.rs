//! Files whose header says how long they are end where it says.
use vstd::prelude::*;
use crate::bytes::le32;
use crate::archives::{cab_extent, iso_extent, mpq_extent, seven_zip_extent, squashfs_extent};
use crate::documents::{glb_extent, sqlite_extent, woff_extent};
use crate::executables::dex_extent;
use crate::games::{nes_extent, unityfs_extent, vpk_extent};
use crate::images::{
    dpx_extent, emf_extent, eps_extent, icc_extent, icns_extent, wmf_extent,
};
use crate::inflate::stream_len;
use crate::media::{
    au_extent, be_container_extent, dsf_extent, riff_extent, swf_extent, FORM, RIFX,
};
use crate::numeral_laws::is_free_of_nul;
use crate::search::lemma_first_byte_found;
use crate::writing::{
    be16_bytes, be24_bytes, be32_bytes, be64_bytes, holds_at, is_u16, is_u32, is_u64, le16_bytes,
    le32_bytes, le64_bytes, lemma_byte, num32_bytes,
};

verus! {

broadcast use crate::writing::group_reads;

/// A file at `start` of `s` of which it is known that it has `total` bytes: it ends with
/// the last of them, and is not recognised if they are not all there.
pub open spec fn ends_after(
    r: Option<(int, int)>,
    s: Seq<u8>,
    start: int,
    total: int,
    confidence: int,
) -> bool {
    r == if start + total <= s.len() {
        Some((start + total - 1, confidence))
    } else {
        None
    }
}

/// ICNS: the tag, and the size of the whole file.
pub proof fn law_icns_ends_as_declared(s: Seq<u8>, start: int, total: int)
    requires
        is_u32(total),
        total > 0,
        holds_at(s, start, be32_bytes(0x6963_6E73) + be32_bytes(total)),
    ensures
        ends_after(icns_extent(s, start), s, start, total, 95),
{
}

/// RIFF: the tag, and the size of what follows, the lowest byte first.
pub proof fn law_riff_ends_as_declared(s: Seq<u8>, start: int, size: int)
    requires
        is_u32(size),
        holds_at(s, start, be32_bytes(0x5249_4646) + le32_bytes(size)),
    ensures
        ends_after(riff_extent(s, start), s, start, 8 + size, 90),
{
}

/// IFF: the tag, and the size of what follows, the highest byte first.
pub proof fn law_iff_ends_as_declared(s: Seq<u8>, start: int, size: int)
    requires
        is_u32(size),
        holds_at(s, start, be32_bytes(0x464F_524D) + be32_bytes(size)),
    ensures
        ends_after(be_container_extent(s, start, FORM as int), s, start, 8 + size, 90),
{
}

/// RIFX: the tag, and the size of what follows, the highest byte first.
pub proof fn law_rifx_ends_as_declared(s: Seq<u8>, start: int, size: int)
    requires
        is_u32(size),
        holds_at(s, start, be32_bytes(0x5249_4658) + be32_bytes(size)),
    ensures
        ends_after(be_container_extent(s, start, RIFX as int), s, start, 8 + size, 90),
{
}

/// EMF: forty bytes, the tag, a version, and the size of the whole file.
pub proof fn law_emf_ends_as_declared(
    s: Seq<u8>,
    start: int,
    before: Seq<u8>,
    version: Seq<u8>,
    total: int,
)
    requires
        before.len() == 40,
        version.len() == 4,
        is_u32(total),
        total > 0,
        holds_at(s, start, before + be32_bytes(0x2045_4D46) + version + le32_bytes(total)),
    ensures
        ends_after(emf_extent(s, start), s, start, total, 90),
{
}

/// DPX: sixteen bytes, then the size of the whole file in the order of its variant.
pub proof fn law_dpx_ends_as_declared(
    s: Seq<u8>,
    start: int,
    before: Seq<u8>,
    total: int,
    is_be: bool,
)
    requires
        before.len() == 16,
        is_u32(total),
        total > 0,
        holds_at(s, start, before + num32_bytes(total, is_be)),
    ensures
        ends_after(dpx_extent(s, start, is_be), s, start, total, 90),
{
}

/// ICC: the size of the whole profile, which is at least that of its header.
pub proof fn law_icc_ends_as_declared(s: Seq<u8>, start: int, total: int)
    requires
        is_u32(total),
        holds_at(s, start, be32_bytes(total)),
    ensures
        total >= 128 ==> ends_after(icc_extent(s, start), s, start, total, 90),
        total < 128 ==> icc_extent(s, start) is None,
{
}

/// DSF: the tag, the size of the chunk, and the size of the whole file.
pub proof fn law_dsf_ends_as_declared(s: Seq<u8>, start: int, chunk: Seq<u8>, total: int)
    requires
        chunk.len() == 8,
        is_u64(total),
        total > 0,
        holds_at(s, start, be32_bytes(0x4453_4420) + chunk + le64_bytes(total)),
    ensures
        ends_after(dsf_extent(s, start), s, start, total, 95),
{
}

/// WOFF: tag and flavour, then the size of the whole file.
pub proof fn law_woff_ends_as_declared(s: Seq<u8>, start: int, before: Seq<u8>, total: int)
    requires
        before.len() == 8,
        is_u32(total),
        total > 0,
        holds_at(s, start, before + be32_bytes(total)),
    ensures
        ends_after(woff_extent(s, start), s, start, total, 90),
{
}

/// Binary glTF: the tag, a version, and the size of the whole file.
pub proof fn law_glb_ends_as_declared(s: Seq<u8>, start: int, version: Seq<u8>, total: int)
    requires
        version.len() == 4,
        is_u32(total),
        total > 0,
        holds_at(s, start, be32_bytes(0x676C_5446) + version + le32_bytes(total)),
    ensures
        ends_after(glb_extent(s, start), s, start, total, 90),
{
}

/// MPQ: tag and size of the header, then the size of the whole archive.
pub proof fn law_mpq_ends_as_declared(s: Seq<u8>, start: int, before: Seq<u8>, total: int)
    requires
        before.len() == 8,
        is_u32(total),
        total > 0,
        holds_at(s, start, before + le32_bytes(total)),
    ensures
        ends_after(mpq_extent(s, start), s, start, total, 85),
{
}

/// CAB: eight bytes, then the size of the whole cabinet.
pub proof fn law_cab_ends_as_declared(s: Seq<u8>, start: int, before: Seq<u8>, total: int)
    requires
        before.len() == 8,
        is_u32(total),
        total > 0,
        holds_at(s, start, before + le32_bytes(total)),
    ensures
        ends_after(cab_extent(s, start), s, start, total, 90),
{
}

/// SquashFS: forty bytes, then the size of the whole image.
pub proof fn law_squashfs_ends_as_declared(s: Seq<u8>, start: int, before: Seq<u8>, total: int)
    requires
        before.len() == 40,
        is_u64(total),
        total > 0,
        holds_at(s, start, before + le64_bytes(total)),
    ensures
        ends_after(squashfs_extent(s, start), s, start, total, 90),
{
}

/// DEX: 32 bytes, then the size of the whole file.
pub proof fn law_dex_ends_as_declared(s: Seq<u8>, start: int, before: Seq<u8>, total: int)
    requires
        before.len() == 32,
        is_u32(total),
        total > 0,
        holds_at(s, start, before + le32_bytes(total)),
    ensures
        ends_after(dex_extent(s, start), s, start, total, 90),
{
}

/// NES: a header of 16 bytes, a trainer of 512 if its flag is set, `programs` banks of
/// 16 KiB and `pictures` banks of 8 KiB.
pub proof fn law_nes_ends_as_declared(
    s: Seq<u8>,
    start: int,
    tag: Seq<u8>,
    programs: u8,
    pictures: u8,
    low_flags: u8,
    has_trainer: bool,
    high_flags: u8,
)
    requires
        tag.len() == 4,
        low_flags < 4,
        high_flags < 32,
        holds_at(
            s,
            start,
            tag + seq![programs] + seq![pictures] + seq![
                (8 * high_flags + if has_trainer {
                    4int
                } else {
                    0int
                } + low_flags) as u8,
            ],
        ),
    ensures
        ends_after(
            nes_extent(s, start),
            s,
            start,
            16 + (if has_trainer {
                512int
            } else {
                0int
            }) + programs * 16_384 + pictures * 8_192,
            85,
        ),
{
}

/// VPK: tag and version, then the sizes of what follows the header.
pub proof fn law_vpk_ends_as_declared(
    s: Seq<u8>,
    start: int,
    tag: Seq<u8>,
    version: int,
    tree: int,
    files: int,
    archive_sums: int,
    other_sums: int,
    signature: int,
)
    requires
        tag.len() == 4,
        is_u32(version),
        is_u32(tree) && is_u32(files) && is_u32(archive_sums) && is_u32(other_sums),
        is_u32(signature),
        holds_at(
            s,
            start,
            tag + le32_bytes(version) + le32_bytes(tree) + le32_bytes(files) + le32_bytes(
                archive_sums,
            ) + le32_bytes(other_sums) + le32_bytes(signature),
        ),
    ensures
        version == 2 ==> ends_after(
            vpk_extent(s, start),
            s,
            start,
            28 + tree + files + archive_sums + other_sums + signature,
            85,
        ),
        version != 2 ==> vpk_extent(s, start) is None,
{
}

/// UnityFS: tag and version, two texts with a zero byte behind each, then the size of the
/// whole bundle.
pub proof fn law_unityfs_ends_as_declared(
    s: Seq<u8>,
    start: int,
    before: Seq<u8>,
    version: Seq<u8>,
    revision: Seq<u8>,
    total: int,
)
    requires
        before.len() == 12,
        is_free_of_nul(version),
        is_free_of_nul(revision),
        0 < total < 0x8000_0000_0000_0000,
        holds_at(
            s,
            start,
            before + version + seq![0u8] + revision + seq![0u8] + be64_bytes(total),
        ),
    ensures
        ends_after(unityfs_extent(s, start), s, start, total, 90),
{
    let first = start + 12;
    lemma_text_end(s, first, version);
    lemma_text_end(s, first + version.len() + 1, revision);
}

/// A text with a zero byte behind it ends there.
proof fn lemma_text_end(s: Seq<u8>, pos: int, text: Seq<u8>)
    requires
        is_free_of_nul(text),
        holds_at(s, pos, text),
        holds_at(s, pos + text.len(), seq![0u8]),
    ensures
        crate::search::first_byte(s, pos, 0) == Some(pos + text.len()),
{
    assert forall|j: int| pos <= j < pos + text.len() implies s[j] != 0 by {
        lemma_byte(s, pos, text, j - pos);
        assert(text[j - pos] != 0);
    }
    lemma_first_byte_found(s, pos, 0, pos + text.len());
}

/// 7-Zip: twelve bytes, then where the closing header begins behind the first 32 bytes,
/// and how long it is.
pub proof fn law_seven_zip_ends_as_declared(
    s: Seq<u8>,
    start: int,
    before: Seq<u8>,
    offset: int,
    size: int,
    checksum: Seq<u8>,
)
    requires
        before.len() == 12,
        checksum.len() == 4,
        is_u64(offset) && is_u64(size),
        holds_at(s, start, before + le64_bytes(offset) + le64_bytes(size) + checksum),
    ensures
        ends_after(seven_zip_extent(s, start), s, start, 32 + offset + size, 85),
{
}

/// AU: the tag, where the sound begins, and how long it is; that may be unknown.
pub proof fn law_au_ends_as_declared(s: Seq<u8>, start: int, tag: Seq<u8>, offset: int, size: int)
    requires
        tag.len() == 4,
        is_u32(offset) && is_u32(size),
        offset + size > 0,
        holds_at(s, start, tag + be32_bytes(offset) + be32_bytes(size)),
    ensures
        size != 0xFFFF_FFFF ==> ends_after(au_extent(s, start), s, start, offset + size, 90),
        size == 0xFFFF_FFFF ==> au_extent(s, start) is None,
{
}

/// SWF: the tag, a version, and a size. Of an uncompressed file it is that of the whole
/// file; a compressed one ends with its stream.
pub proof fn law_swf_ends_as_declared(s: Seq<u8>, start: int, version: u8, size: int)
    requires
        is_u32(size),
        size > 0,
    ensures
        holds_at(s, start, be24_bytes(0x46_5753) + seq![version] + le32_bytes(size)) ==> ends_after(
            swf_extent(s, start),
            s,
            start,
            size,
            95,
        ),
        holds_at(s, start, be24_bytes(0x43_5753) + seq![version] + le32_bytes(size)) ==> match stream_len(
            true,
            s.skip(start + 8),
        ) {
            Some(n) => n >= 0 ==> ends_after(swf_extent(s, start), s, start, 8 + n, 90),
            None => swf_extent(s, start) is None,
        },
        holds_at(s, start, be24_bytes(0x5A_5753) + seq![version] + le32_bytes(size)) ==> swf_extent(
            s,
            start,
        ) is None,
{
}

/// SQLite: the size of a page at offset 16, with 1 for 64 KiB, and the number of pages at
/// offset 28. It is certain if the change counter is the one that the size is valid for.
pub proof fn law_sqlite_ends_as_declared(
    s: Seq<u8>,
    start: int,
    before: Seq<u8>,
    page_size: int,
    between: Seq<u8>,
    changes: int,
    pages: int,
    behind: Seq<u8>,
    valid_for: int,
    last: Seq<u8>,
)
    requires
        before.len() == 16 && between.len() == 6 && behind.len() == 60 && last.len() == 4,
        page_size == 512 || page_size == 1024 || page_size == 2048 || page_size == 4096 || page_size
            == 8192 || page_size == 16_384 || page_size == 32_768 || page_size == 65_536,
        is_u32(changes) && is_u32(pages) && is_u32(valid_for),
        pages > 0,
        holds_at(
            s,
            start,
            before + be16_bytes(
                if page_size == 65_536 {
                    1
                } else {
                    page_size
                },
            ) + between + be32_bytes(changes) + be32_bytes(pages) + behind + be32_bytes(valid_for)
                + last,
        ),
    ensures
        ends_after(
            sqlite_extent(s, start),
            s,
            start,
            page_size * pages,
            if changes == valid_for {
                90
            } else {
                60
            },
        ),
{
    assert(page_size * pages >= 512) by (nonlinear_arith)
        requires
            page_size >= 512,
            pages >= 1,
    ;
}

/// ISO 9660: in the descriptor at 32768, the number of blocks at offset 80 and the size of
/// a block at offset 128.
pub proof fn law_iso_ends_as_declared(
    s: Seq<u8>,
    start: int,
    system: Seq<u8>,
    before: Seq<u8>,
    blocks: int,
    between: Seq<u8>,
    block_size: int,
    behind: Seq<u8>,
)
    requires
        system.len() == 32_768 && before.len() == 74 && between.len() == 44 && behind.len() == 1918,
        is_u32(blocks) && is_u16(block_size),
        blocks > 0 && block_size > 0,
        holds_at(
            s,
            start,
            system + seq![1u8] + be32_bytes(0x4344_3030) + seq![0x31u8] + before + le32_bytes(blocks)
                + between + le16_bytes(block_size) + behind,
        ),
    ensures
        ends_after(iso_extent(s, start), s, start, blocks * block_size, 90),
{
    assert(blocks * block_size >= 1) by (nonlinear_arith)
        requires
            blocks >= 1,
            block_size >= 1,
    ;
}

/// A metafile header: type, size of the header, version, and the size of the whole in
/// words of two bytes.
pub open spec fn metafile_header(kind: int, version: Seq<u8>, words: int) -> Seq<u8> {
    le16_bytes(kind) + le16_bytes(9) + version + le32_bytes(words)
}

/// WMF: the metafile has as many words as it says. A placeable header of 22 bytes in front
/// of it makes it more certain.
pub proof fn law_wmf_ends_as_declared(
    s: Seq<u8>,
    start: int,
    frame: Seq<u8>,
    kind: int,
    version: Seq<u8>,
    words: int,
)
    requires
        frame.len() == 16,
        version.len() == 2,
        kind == 1 || kind == 2,
        is_u32(words),
        words >= 9,
    ensures
        holds_at(s, start, metafile_header(kind, version, words)) ==> ends_after(
            wmf_extent(s, start),
            s,
            start,
            2 * words,
            55,
        ),
        holds_at(
            s,
            start,
            be32_bytes(0xD7CD_C69A) + be16_bytes(0) + frame + metafile_header(kind, version, words),
        ) ==> ends_after(wmf_extent(s, start), s, start, 22 + 2 * words, 90),
{
    if holds_at(s, start, metafile_header(kind, version, words)) {
        lemma_byte(s, start, le16_bytes(kind), 0);
    }
}

/// The binary header of an EPS file.
#[verifier::opaque]
pub open spec fn eps_header(
    tag: Seq<u8>,
    script: (int, int),
    metafile: (int, int),
    picture: (int, int),
    checksum: Seq<u8>,
) -> Seq<u8> {
    tag + le32_bytes(script.0) + le32_bytes(script.1) + le32_bytes(metafile.0) + le32_bytes(metafile.1)
        + le32_bytes(picture.0) + le32_bytes(picture.1) + checksum
}

/// EPS with a binary header: three parts, each at an offset and of a length. The file ends
/// with the part that reaches furthest, of those that are there.
pub proof fn law_eps_ends_with_its_furthest_part(
    s: Seq<u8>,
    start: int,
    tag: Seq<u8>,
    script: (int, int),
    metafile: (int, int),
    picture: (int, int),
    checksum: Seq<u8>,
    total: int,
)
    requires
        tag.len() == 4,
        checksum.len() == 2,
        is_u32(script.0) && is_u32(script.1) && is_u32(metafile.0) && is_u32(metafile.1),
        is_u32(picture.0) && is_u32(picture.1),
        holds_at(s, start, eps_header(tag, script, metafile, picture, checksum)),
        script.1 > 0 ==> script.0 + script.1 <= total,
        metafile.1 > 0 ==> metafile.0 + metafile.1 <= total,
        picture.1 > 0 ==> picture.0 + picture.1 <= total,
        (script.1 > 0 && script.0 + script.1 == total) || (metafile.1 > 0 && metafile.0 + metafile.1
            == total) || (picture.1 > 0 && picture.0 + picture.1 == total),
    ensures
        ends_after(eps_extent(s, start), s, start, total, 90),
{
    lemma_eps_fields(s, start, tag, script, metafile, picture, checksum);
    lemma_eps_reach(s, start, script, metafile, picture, total);
}

proof fn lemma_eps_fields(
    s: Seq<u8>,
    start: int,
    tag: Seq<u8>,
    script: (int, int),
    metafile: (int, int),
    picture: (int, int),
    checksum: Seq<u8>,
)
    requires
        tag.len() == 4,
        checksum.len() == 2,
        is_u32(script.0) && is_u32(script.1) && is_u32(metafile.0) && is_u32(metafile.1),
        is_u32(picture.0) && is_u32(picture.1),
        holds_at(s, start, eps_header(tag, script, metafile, picture, checksum)),
    ensures
        0 <= start,
        start + 30 <= s.len(),
        le32(s, start + 4) == script.0 && le32(s, start + 8) == script.1,
        le32(s, start + 12) == metafile.0 && le32(s, start + 16) == metafile.1,
        le32(s, start + 20) == picture.0 && le32(s, start + 24) == picture.1,
{
    reveal(eps_header);
    assert(holds_at(s, start + 4, le32_bytes(script.0)));
    assert(holds_at(s, start + 8, le32_bytes(script.1)));
    assert(holds_at(s, start + 12, le32_bytes(metafile.0)));
    assert(holds_at(s, start + 16, le32_bytes(metafile.1)));
    assert(holds_at(s, start + 20, le32_bytes(picture.0)));
    assert(holds_at(s, start + 24, le32_bytes(picture.1)));
}

proof fn lemma_eps_reach(
    s: Seq<u8>,
    start: int,
    script: (int, int),
    metafile: (int, int),
    picture: (int, int),
    total: int,
)
    requires
        0 <= start,
        start + 30 <= s.len(),
        le32(s, start + 4) == script.0 && le32(s, start + 8) == script.1,
        le32(s, start + 12) == metafile.0 && le32(s, start + 16) == metafile.1,
        le32(s, start + 20) == picture.0 && le32(s, start + 24) == picture.1,
        script.0 >= 0 && script.1 >= 0 && metafile.0 >= 0 && metafile.1 >= 0,
        picture.0 >= 0 && picture.1 >= 0,
        script.1 > 0 ==> script.0 + script.1 <= total,
        metafile.1 > 0 ==> metafile.0 + metafile.1 <= total,
        picture.1 > 0 ==> picture.0 + picture.1 <= total,
        (script.1 > 0 && script.0 + script.1 == total) || (metafile.1 > 0 && metafile.0 + metafile.1
            == total) || (picture.1 > 0 && picture.0 + picture.1 == total),
    ensures
        ends_after(eps_extent(s, start), s, start, total, 90),
{
}

} // verus!
