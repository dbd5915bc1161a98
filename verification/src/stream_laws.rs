//! Streams of pages, tags and segments end where they were written to end.
use vstd::prelude::*;
use crate::archives::{gzip_extent, gzip_stream_start, zstd_blocks_end, zstd_extent};
use crate::images::{fill_end, jpeg_extent, jpeg_extent_from, jpeg_segment_end, scan_end};
use crate::inflate::stream_len;
use crate::media::{
    asf_extent, asf_file_size, byte_sum, caf_extent, caf_extent_from, flv_extent, flv_extent_from,
    ogg_extent, ogg_extent_from, ogg_page_end,
};
use crate::header_laws::ends_after;
use crate::numeral_laws::is_free_of_nul;
use crate::search::lemma_first_byte_found;
use crate::writing::{
    be16_bytes, be24_bytes, be32_bytes, be64_bytes, holds_at, is_u16, is_u24, is_u32, is_u64,
    le16_bytes, le24_bytes, le32_bytes, le64_bytes, lemma_byte,
};

verus! {

broadcast use crate::writing::group_reads;

/// An Ogg page.
pub ghost struct Page {
    pub version: u8,
    pub low_flags: int,
    pub is_last: bool,
    pub high_flags: int,
    pub details: Seq<u8>,
    /// The lengths of the segments.
    pub table: Seq<u8>,
    pub data: Seq<u8>,
}

/// The sum of some bytes.
pub open spec fn sum_of_bytes(bytes: Seq<u8>) -> int
    decreases bytes.len(),
{
    if bytes.len() == 0 {
        0
    } else {
        sum_of_bytes(bytes.drop_last()) + bytes.last()
    }
}

/// The page can be written: its data are as long as its segments together.
pub open spec fn is_page(p: Page) -> bool {
    &&& 0 <= p.low_flags < 4 && 0 <= p.high_flags < 32
    &&& p.details.len() == 20
    &&& p.table.len() < 256
    &&& p.data.len() == sum_of_bytes(p.table)
}

/// A page: tag, version, flags of which the third marks the last page, details, the number
/// of segments, their lengths, data.
#[verifier::opaque]
pub open spec fn page(p: Page) -> Seq<u8> {
    be32_bytes(0x4F67_6753) + seq![p.version] + seq![
        (p.low_flags + (if p.is_last {
            4int
        } else {
            0int
        }) + 8 * p.high_flags) as u8,
    ] + p.details + seq![p.table.len() as u8] + p.table + p.data
}

/// Ogg pages in a row.
pub open spec fn pages(parts: Seq<Page>) -> Seq<u8>
    decreases parts.len(),
{
    if parts.len() == 0 {
        Seq::empty()
    } else {
        page(parts[0]) + pages(parts.skip(1))
    }
}

/// All of them can be written.
pub open spec fn are_pages(parts: Seq<Page>) -> bool {
    forall|i: int| 0 <= i < parts.len() ==> is_page(#[trigger] parts[i])
}

proof fn lemma_are_pages_rest(parts: Seq<Page>)
    requires
        are_pages(parts),
        parts.len() > 0,
    ensures
        is_page(parts[0]),
        are_pages(parts.skip(1)),
{
    assert forall|i: int| 0 <= i < parts.skip(1).len() implies is_page(#[trigger] parts.skip(1)[i]) by {
        assert(parts.skip(1)[i] == parts[i + 1]);
    }
}

proof fn lemma_byte_sum(s: Seq<u8>, pos: int, table: Seq<u8>, n: int)
    requires
        holds_at(s, pos, table),
        0 <= n <= table.len(),
    ensures
        byte_sum(s, pos, n) == sum_of_bytes(table.take(n)),
    decreases n,
{
    if n > 0 {
        lemma_byte_sum(s, pos, table, n - 1);
        lemma_byte(s, pos, table, n - 1);
        assert(table.take(n).drop_last() == table.take(n - 1));
    }
}

proof fn lemma_page(s: Seq<u8>, first: int, pos: int, p: Page)
    requires
        is_page(p),
        holds_at(s, pos, page(p)),
    ensures
        page(p).len() >= 27,
        ogg_page_end(s, pos) == Some(pos + page(p).len()),
        ogg_extent_from(s, first, pos) == if p.is_last {
            Some((pos + page(p).len() - 1, 90int))
        } else {
            ogg_extent_from(s, first, pos + page(p).len())
        },
{
    reveal(page);
    let flags = (p.low_flags + (if p.is_last {
        4int
    } else {
        0int
    }) + 8 * p.high_flags) as u8;
    assert(holds_at(s, pos, be32_bytes(0x4F67_6753)));
    assert(holds_at(s, pos + 5, seq![flags]));
    assert(holds_at(s, pos + 26, seq![p.table.len() as u8]));
    assert(holds_at(s, pos + 27, p.table));
    lemma_byte_sum(s, pos + 27, p.table, p.table.len() as int);
    assert(p.table.take(p.table.len() as int) == p.table);
    assert((flags as int / 4) % 2 == if p.is_last {
        1int
    } else {
        0int
    });
}

proof fn lemma_pages(s: Seq<u8>, first: int, pos: int, parts: Seq<Page>)
    requires
        are_pages(parts),
        forall|i: int| 0 <= i < parts.len() ==> !(#[trigger] parts[i]).is_last,
        holds_at(s, pos, pages(parts)),
    ensures
        ogg_extent_from(s, first, pos) == ogg_extent_from(s, first, pos + pages(parts).len()),
    decreases parts.len(),
{
    if parts.len() > 0 {
        let rest = parts.skip(1);
        lemma_are_pages_rest(parts);
        lemma_page(s, first, pos, parts[0]);
        assert forall|i: int| 0 <= i < rest.len() implies !(#[trigger] rest[i]).is_last by {
            assert(rest[i] == parts[i + 1]);
        }
        lemma_pages(s, first, pos + page(parts[0]).len(), rest);
    }
}

/// An Ogg stream ends with the page that is marked as the last one. Without it, it ends
/// with the last page that is all there, and is less certain.
pub proof fn law_ogg_ends_with_its_last_page(s: Seq<u8>, start: int, parts: Seq<Page>, last: Page)
    requires
        are_pages(parts),
        forall|i: int| 0 <= i < parts.len() ==> !(#[trigger] parts[i]).is_last,
        is_page(last),
        last.is_last,
        holds_at(s, start, pages(parts)),
    ensures
        holds_at(s, start + pages(parts).len(), page(last)) ==> ogg_extent(s, start) == Some(
            (start + pages(parts).len() + page(last).len() - 1, 90int),
        ),
        parts.len() > 0 && s.len() < start + pages(parts).len() + 27 ==> ogg_extent(s, start) == Some(
            (start + pages(parts).len() - 1, 70int),
        ),
{
    lemma_pages(s, start, start, parts);
    if holds_at(s, start + pages(parts).len(), page(last)) {
        lemma_page(s, start, start + pages(parts).len(), last);
    }
    if parts.len() > 0 {
        lemma_are_pages_rest(parts);
        lemma_page(s, start, start, parts[0]);
    }
}

/// A chunk of a Core Audio file.
pub ghost struct AudioChunk {
    pub tag: Seq<u8>,
    pub content: Seq<u8>,
}

/// The chunk can be written.
pub open spec fn is_audio_chunk(c: AudioChunk) -> bool {
    c.tag.len() == 4 && c.content.len() < 0x8000_0000_0000_0000
}

/// A chunk: tag, length and content.
#[verifier::opaque]
pub open spec fn audio_chunk(c: AudioChunk) -> Seq<u8> {
    c.tag + be64_bytes(c.content.len() as int) + c.content
}

/// Chunks of a Core Audio file in a row.
pub open spec fn audio_row(parts: Seq<AudioChunk>) -> Seq<u8>
    decreases parts.len(),
{
    if parts.len() == 0 {
        Seq::empty()
    } else {
        audio_chunk(parts[0]) + audio_row(parts.skip(1))
    }
}

/// All of them can be written.
pub open spec fn are_audio_chunks(parts: Seq<AudioChunk>) -> bool {
    forall|i: int| 0 <= i < parts.len() ==> is_audio_chunk(#[trigger] parts[i])
}

proof fn lemma_are_audio_chunks_rest(parts: Seq<AudioChunk>)
    requires
        are_audio_chunks(parts),
        parts.len() > 0,
    ensures
        is_audio_chunk(parts[0]),
        are_audio_chunks(parts.skip(1)),
{
    assert forall|i: int| 0 <= i < parts.skip(1).len() implies is_audio_chunk(#[trigger] parts.skip(1)[i]) by {
        assert(parts.skip(1)[i] == parts[i + 1]);
    }
}

proof fn lemma_audio_chunk(s: Seq<u8>, first: int, pos: int, c: AudioChunk)
    requires
        is_audio_chunk(c),
        holds_at(s, pos, audio_chunk(c)),
    ensures
        audio_chunk(c).len() >= 12,
        caf_extent_from(s, first, pos) == if pos + audio_chunk(c).len() == s.len() {
            Some((s.len() - 1, 90int))
        } else {
            caf_extent_from(s, first, pos + audio_chunk(c).len())
        },
{
    reveal(audio_chunk);
    assert(holds_at(s, pos + 4, be64_bytes(c.content.len() as int)));
}

proof fn lemma_audio_row(s: Seq<u8>, first: int, pos: int, parts: Seq<AudioChunk>)
    requires
        are_audio_chunks(parts),
        holds_at(s, pos, audio_row(parts)),
    ensures
        pos + audio_row(parts).len() == s.len() && parts.len() > 0 ==> caf_extent_from(s, first, pos)
            == Some((s.len() - 1, 90int)),
        pos + audio_row(parts).len() < s.len() ==> caf_extent_from(s, first, pos) == caf_extent_from(
            s,
            first,
            pos + audio_row(parts).len(),
        ),
        audio_row(parts).len() >= 12 * parts.len(),
    decreases parts.len(),
{
    if parts.len() > 0 {
        let rest = parts.skip(1);
        lemma_are_audio_chunks_rest(parts);
        lemma_audio_chunk(s, first, pos, parts[0]);
        lemma_audio_row(s, first, pos + audio_chunk(parts[0]).len(), rest);
        if rest.len() == 0 {
            assert(audio_row(rest) == Seq::<u8>::empty());
        }
    }
}

/// A Core Audio file ends with its chunks if these reach the end of the data, or with the
/// data if its last chunk says so. If less than a chunk follows, it ends with the last
/// whole one, and is less certain.
pub proof fn law_caf_ends_with_its_last_chunk(
    s: Seq<u8>,
    start: int,
    version: Seq<u8>,
    parts: Seq<AudioChunk>,
    tag: Seq<u8>,
)
    requires
        version.len() == 4,
        tag.len() == 4,
        are_audio_chunks(parts),
        parts.len() > 0,
        holds_at(s, start, be32_bytes(0x6361_6666) + version + audio_row(parts)),
    ensures
        ({
            let end = start + 8 + audio_row(parts).len();
            &&& end == s.len() ==> caf_extent(s, start) == Some((end - 1, 90int))
            &&& end < s.len() < end + 12 ==> caf_extent(s, start) == Some((end - 1, 70int))
            &&& holds_at(s, end, tag + be64_bytes(0xFFFF_FFFF_FFFF_FFFF)) ==> caf_extent(s, start)
                == Some((s.len() - 1, 85int))
        }),
{
    assert(holds_at(s, start, be32_bytes(0x6361_6666)));
    lemma_audio_row(s, start + 8, start + 8, parts);
    let end = start + 8 + audio_row(parts).len();
    if holds_at(s, end, tag + be64_bytes(0xFFFF_FFFF_FFFF_FFFF)) {
        assert(holds_at(s, end + 4, be64_bytes(0xFFFF_FFFF_FFFF_FFFF)));
    }
}

/// A tag of a Flash video.
pub ghost struct VideoTag {
    /// The size of the tag before.
    pub previous: Seq<u8>,
    pub kind: u8,
    pub details: Seq<u8>,
    pub data: Seq<u8>,
}

/// The tag can be written.
pub open spec fn is_video_tag(t: VideoTag) -> bool {
    t.previous.len() == 4 && t.details.len() == 7 && is_u24(t.data.len() as int)
}

/// A tag behind the size of the one before: type, size, details, data.
#[verifier::opaque]
pub open spec fn video_tag(t: VideoTag) -> Seq<u8> {
    t.previous + seq![t.kind] + be24_bytes(t.data.len() as int) + t.details + t.data
}

/// Tags of a Flash video in a row.
pub open spec fn video_row(parts: Seq<VideoTag>) -> Seq<u8>
    decreases parts.len(),
{
    if parts.len() == 0 {
        Seq::empty()
    } else {
        video_tag(parts[0]) + video_row(parts.skip(1))
    }
}

/// All of them can be written.
pub open spec fn are_video_tags(parts: Seq<VideoTag>) -> bool {
    forall|i: int| 0 <= i < parts.len() ==> is_video_tag(#[trigger] parts[i])
}

proof fn lemma_are_video_tags_rest(parts: Seq<VideoTag>)
    requires
        are_video_tags(parts),
        parts.len() > 0,
    ensures
        is_video_tag(parts[0]),
        are_video_tags(parts.skip(1)),
{
    assert forall|i: int| 0 <= i < parts.skip(1).len() implies is_video_tag(#[trigger] parts.skip(1)[i]) by {
        assert(parts.skip(1)[i] == parts[i + 1]);
    }
}

proof fn lemma_video_row(s: Seq<u8>, first: int, pos: int, parts: Seq<VideoTag>)
    requires
        are_video_tags(parts),
        holds_at(s, pos, video_row(parts)),
    ensures
        flv_extent_from(s, first, pos) == flv_extent_from(s, first, pos + video_row(parts).len()),
        video_row(parts).len() >= 15 * parts.len(),
    decreases parts.len(),
{
    if parts.len() > 0 {
        lemma_are_video_tags_rest(parts);
        lemma_video_tag(s, first, pos, parts[0]);
        lemma_video_row(s, first, pos + video_tag(parts[0]).len(), parts.skip(1));
    }
}

proof fn lemma_video_tag(s: Seq<u8>, first: int, pos: int, t: VideoTag)
    requires
        is_video_tag(t),
        holds_at(s, pos, video_tag(t)),
    ensures
        video_tag(t).len() >= 15,
        flv_extent_from(s, first, pos) == flv_extent_from(s, first, pos + video_tag(t).len()),
{
    reveal(video_tag);
    assert(holds_at(s, pos + 5, be24_bytes(t.data.len() as int)));
}

/// A Flash video ends with the size of its last tag if the data end there, too. If they end
/// before, it ends with the last whole tag, and is less certain.
pub proof fn law_flv_ends_with_its_last_tag(
    s: Seq<u8>,
    start: int,
    version: Seq<u8>,
    more: Seq<u8>,
    parts: Seq<VideoTag>,
)
    requires
        version.len() == 2,
        is_u32(9 + more.len() as int),
        are_video_tags(parts),
        holds_at(
            s,
            start,
            be24_bytes(0x46_4C56) + version + be32_bytes(9 + more.len() as int) + more + video_row(parts),
        ),
    ensures
        ({
            let end = start + 9 + more.len() + video_row(parts).len();
            &&& s.len() == end + 4 ==> flv_extent(s, start) == Some((end + 3, 90int))
            &&& parts.len() > 0 && s.len() < end + 4 ==> flv_extent(s, start) == Some((end - 1, 70int))
        }),
{
    assert(holds_at(s, start, be24_bytes(0x46_4C56)));
    assert(holds_at(s, start + 5, be32_bytes(9 + more.len() as int)));
    let first = start + 9 + more.len();
    lemma_video_row(s, first, first, parts);
}

/// A block of a Zstandard frame.
pub ghost struct ZstdBlock {
    /// 0 for a raw block, 1 for a repeated byte, 2 for a compressed block.
    pub kind: int,
    /// The size that is written down, which of a repeated byte is how often it stands.
    pub size: int,
    pub data: Seq<u8>,
}

/// The block can be written.
pub open spec fn is_zstd_block(b: ZstdBlock) -> bool {
    &&& 0 <= b.kind <= 2
    &&& 0 <= b.size < 0x20_0000
    &&& b.data.len() == if b.kind == 1 {
        1
    } else {
        b.size
    }
}

/// A block: whether it is the last, kind and size in three bytes, then its data.
#[verifier::opaque]
pub open spec fn zstd_block(b: ZstdBlock, is_last: bool) -> Seq<u8> {
    le24_bytes(
        8 * b.size + 2 * b.kind + if is_last {
            1int
        } else {
            0int
        },
    ) + b.data
}

/// The block can be written, be it the last or not.
pub open spec fn is_zstd_block_of(b: ZstdBlock, is_last: bool) -> bool {
    is_zstd_block(b)
}

/// Blocks of a Zstandard frame in a row.
pub open spec fn zstd_row(parts: Seq<ZstdBlock>, is_last: bool) -> Seq<u8>
    decreases parts.len(),
{
    if parts.len() == 0 {
        Seq::empty()
    } else {
        zstd_block(parts[0], is_last) + zstd_row(parts.skip(1), is_last)
    }
}

/// All of them can be written.
pub open spec fn are_zstd_blocks(parts: Seq<ZstdBlock>, is_last: bool) -> bool {
    forall|i: int| 0 <= i < parts.len() ==> is_zstd_block_of(#[trigger] parts[i], is_last)
}

proof fn lemma_are_zstd_blocks_rest(parts: Seq<ZstdBlock>, is_last: bool)
    requires
        are_zstd_blocks(parts, is_last),
        parts.len() > 0,
    ensures
        is_zstd_block_of(parts[0], is_last),
        are_zstd_blocks(parts.skip(1), is_last),
{
    assert forall|i: int| 0 <= i < parts.skip(1).len() implies is_zstd_block_of(#[trigger] parts.skip(1)[i], is_last) by {
        assert(parts.skip(1)[i] == parts[i + 1]);
    }
}

proof fn lemma_zstd_block(s: Seq<u8>, pos: int, b: ZstdBlock, is_last: bool)
    requires
        is_zstd_block(b),
        holds_at(s, pos, zstd_block(b, is_last)),
    ensures
        zstd_block(b, is_last).len() >= 3,
        zstd_blocks_end(s, pos) == if is_last {
            Some(pos + zstd_block(b, is_last).len())
        } else {
            zstd_blocks_end(s, pos + zstd_block(b, is_last).len())
        },
{
    reveal(zstd_block);
    let header = 8 * b.size + 2 * b.kind + if is_last {
        1int
    } else {
        0int
    };
    assert(holds_at(s, pos, le24_bytes(header)));
    assert(header / 8 == b.size && (header / 2) % 4 == b.kind);
}

proof fn lemma_zstd_row(s: Seq<u8>, pos: int, parts: Seq<ZstdBlock>)
    requires
        are_zstd_blocks(parts, false),
        holds_at(s, pos, zstd_row(parts, false)),
    ensures
        zstd_blocks_end(s, pos) == zstd_blocks_end(s, pos + zstd_row(parts, false).len()),
    decreases parts.len(),
{
    if parts.len() > 0 {
        lemma_are_zstd_blocks_rest(parts, false);
        lemma_zstd_block(s, pos, parts[0], false);
        lemma_zstd_row(s, pos + zstd_block(parts[0], false).len(), parts.skip(1));
    }
}

/// How many bytes the optional fields of a frame header take: a window unless the frame is
/// a single segment, the identifier of a dictionary, and the size of the content.
pub open spec fn zstd_fields_len(dictionary: int, single: bool, content: int) -> int {
    (if single {
        0int
    } else {
        1int
    }) + (if dictionary == 3 {
        4
    } else {
        dictionary
    }) + (if content == 0 {
        if single {
            1int
        } else {
            0int
        }
    } else if content == 1 {
        2
    } else if content == 2 {
        4
    } else {
        8
    })
}

/// A Zstandard frame ends with the block that is marked as the last one, or with the
/// checksum behind it if there is one, whichever fields its header has.
pub proof fn law_zstd_ends_with_its_last_block(
    s: Seq<u8>,
    start: int,
    dictionary: int,
    has_checksum: bool,
    unused: int,
    single: bool,
    content: int,
    fields: Seq<u8>,
    parts: Seq<ZstdBlock>,
    last: ZstdBlock,
    checksum: Seq<u8>,
)
    requires
        0 <= dictionary < 4 && 0 <= unused < 4 && 0 <= content < 4,
        fields.len() == zstd_fields_len(dictionary, single, content),
        are_zstd_blocks(parts, false),
        is_zstd_block(last),
        checksum.len() == if has_checksum {
            4int
        } else {
            0int
        },
        holds_at(
            s,
            start,
            be32_bytes(0x28B5_2FFD) + seq![
                (dictionary + (if has_checksum {
                    4int
                } else {
                    0int
                }) + 8 * unused + (if single {
                    32int
                } else {
                    0int
                }) + 64 * content) as u8,
            ] + fields + zstd_row(parts, false) + zstd_block(last, true) + checksum,
        ),
    ensures
        zstd_extent(s, start) == Some(
            (
                start + 5 + fields.len() + zstd_row(parts, false).len() + zstd_block(last, true).len()
                    + checksum.len() - 1,
                85int,
            ),
        ),
{
    let descriptor = (dictionary + (if has_checksum {
        4int
    } else {
        0int
    }) + 8 * unused + (if single {
        32int
    } else {
        0int
    }) + 64 * content) as u8;
    assert(holds_at(s, start, be32_bytes(0x28B5_2FFD)));
    assert(holds_at(s, start + 4, seq![descriptor]));
    assert(descriptor % 4 == dictionary);
    assert(descriptor / 64 == content);
    assert((descriptor as int / 32) % 2 == if single {
        1int
    } else {
        0int
    });
    assert((descriptor as int / 4) % 2 == if has_checksum {
        1int
    } else {
        0int
    });
    assert(crate::archives::zstd_header_len(descriptor) == 5 + fields.len());
    let first = start + 5 + fields.len();
    lemma_zstd_row(s, first, parts);
    lemma_zstd_block(s, first + zstd_row(parts, false).len(), last, true);
}

/// A segment of a JPEG image.
pub ghost struct Segment {
    /// How many more bytes `FF` stand before the marker.
    pub fill: nat,
    pub marker: u8,
    pub data: Seq<u8>,
    /// Of the start of a scan: the coded data behind the segment.
    pub scan: Seq<u8>,
}

/// The marker stands alone.
pub open spec fn is_alone(marker: u8) -> bool {
    marker == 0x01 || is_restart_code(marker)
}

/// The marker of a restart inside coded data.
pub open spec fn is_restart_code(marker: u8) -> bool {
    0xD0 <= marker <= 0xD7
}

/// In coded data each `FF` is followed by a zero byte or by a restart.
pub open spec fn is_coded(scan: Seq<u8>) -> bool {
    forall|i: int|
        0 <= i < scan.len() && #[trigger] scan[i] == 0xFF ==> i + 1 < scan.len() && (scan[i + 1] == 0
            || is_restart_code(scan[i + 1]))
}

/// The segment can be written.
pub open spec fn is_segment(g: Segment) -> bool {
    &&& g.marker != 0xFF && g.marker != 0xD9
    &&& is_u16(2 + g.data.len() as int)
    &&& is_alone(g.marker) ==> g.data.len() == 0
    &&& if g.marker == 0xDA {
        is_coded(g.scan)
    } else {
        g.scan.len() == 0
    }
}

/// `n` bytes `FF`.
pub open spec fn effs(n: nat) -> Seq<u8> {
    Seq::new(n, |i: int| 0xFFu8)
}

/// A segment: fill, marker, and unless it stands alone its length and data; coded data.
#[verifier::opaque]
pub open spec fn segment(g: Segment) -> Seq<u8> {
    effs(g.fill + 1) + seq![g.marker] + (if is_alone(g.marker) {
        Seq::empty()
    } else {
        be16_bytes(2 + g.data.len() as int) + g.data + g.scan
    })
}

/// Segments of a JPEG image in a row.
pub open spec fn segments(parts: Seq<Segment>) -> Seq<u8>
    decreases parts.len(),
{
    if parts.len() == 0 {
        Seq::empty()
    } else {
        segment(parts[0]) + segments(parts.skip(1))
    }
}

/// All of them can be written.
pub open spec fn are_segments(parts: Seq<Segment>) -> bool {
    forall|i: int| 0 <= i < parts.len() ==> is_segment(#[trigger] parts[i])
}

proof fn lemma_are_segments_rest(parts: Seq<Segment>)
    requires
        are_segments(parts),
        parts.len() > 0,
    ensures
        is_segment(parts[0]),
        are_segments(parts.skip(1)),
{
    assert forall|i: int| 0 <= i < parts.skip(1).len() implies is_segment(#[trigger] parts.skip(1)[i]) by {
        assert(parts.skip(1)[i] == parts[i + 1]);
    }
}

/// A marker stands at `pos` that coded data do not go on behind.
spec fn ends_scan(s: Seq<u8>, pos: int) -> bool {
    &&& pos + 2 <= s.len()
    &&& s[pos] == 0xFF
    &&& s[pos + 1] != 0
    &&& !is_restart_code(s[pos + 1])
}

proof fn lemma_scan(s: Seq<u8>, pos: int, scan: Seq<u8>)
    requires
        0 <= pos,
        is_coded(scan),
        holds_at(s, pos, scan),
        ends_scan(s, pos + scan.len()),
    ensures
        scan_end(s, pos) == Some(pos + scan.len()),
    decreases scan.len(),
{
    if scan.len() > 0 {
        lemma_byte(s, pos, scan, 0);
        let n: int = if scan[0] == 0xFF {
            2
        } else {
            1
        };
        if n == 2 {
            lemma_byte(s, pos, scan, 1);
        }
        let rest = scan.skip(n);
        assert(s.subrange(pos + n, pos + n + rest.len()) == rest) by {
            assert(rest == s.subrange(pos, pos + scan.len()).skip(n));
        }
        assert(is_coded(rest)) by {
            assert forall|i: int| 0 <= i < rest.len() && #[trigger] rest[i] == 0xFF implies i + 1 < rest.len()
                && (rest[i + 1] == 0 || is_restart_code(rest[i + 1])) by {
                assert(scan[i + n] == 0xFF);
            }
        }
        lemma_scan(s, pos + n, rest);
    }
}

proof fn lemma_fill(s: Seq<u8>, pos: int, n: nat)
    requires
        0 <= pos,
        holds_at(s, pos, effs(n)),
        pos + n < s.len(),
        s[pos + n] != 0xFF,
    ensures
        fill_end(s, pos) == pos + n,
    decreases n,
{
    if n > 0 {
        lemma_byte(s, pos, effs(n), 0);
        assert(s.subrange(pos + 1, pos + n) == effs((n - 1) as nat)) by {
            assert forall|k: int| pos + 1 <= k < pos + n implies #[trigger] s[k] == 0xFF by {
                lemma_byte(s, pos, effs(n), k - pos);
            }
        }
        lemma_fill(s, pos + 1, (n - 1) as nat);
    }
}

/// The marker of a segment stands behind its fill.
proof fn lemma_marker(s: Seq<u8>, pos: int, fill: nat, marker: u8)
    requires
        holds_at(s, pos, effs(fill + 1) + seq![marker]),
        marker != 0xFF,
    ensures
        s[pos] == 0xFF,
        s[pos + 1] == if fill == 0 {
            marker
        } else {
            0xFF
        },
        fill_end(s, pos + 1) == pos + fill + 1,
        s[pos + fill + 1] == marker,
        0 <= pos && pos + fill + 2 <= s.len(),
{
    lemma_byte(s, pos, effs(fill + 1), 0);
    assert(holds_at(s, pos + fill + 1, seq![marker]));
    if fill > 0 {
        lemma_byte(s, pos, effs(fill + 1), 1);
    }
    assert(s.subrange(pos + 1, pos + 1 + fill) == effs(fill)) by {
        assert forall|k: int| pos + 1 <= k < pos + 1 + fill implies #[trigger] s[k] == 0xFF by {
            lemma_byte(s, pos, effs(fill + 1), k - pos);
        }
    }
    lemma_fill(s, pos + 1, fill);
}

proof fn lemma_segment(s: Seq<u8>, pos: int, g: Segment)
    requires
        is_segment(g),
        holds_at(s, pos, segment(g)),
        g.marker == 0xDA ==> ends_scan(s, pos + segment(g).len()),
    ensures
        jpeg_extent_from(s, pos) == jpeg_extent_from(s, pos + segment(g).len()),
        segment(g).len() >= 2,
        s[pos] == 0xFF,
        s[pos + 1] == 0xFF || s[pos + 1] == g.marker,
        pos + 2 <= s.len(),
{
    reveal(segment);
    lemma_marker(s, pos, g.fill, g.marker);
    let code = pos + g.fill + 1;
    if !is_alone(g.marker) {
        assert(holds_at(s, code + 1, be16_bytes(2 + g.data.len() as int) + g.data + g.scan));
        assert(holds_at(s, code + 1, be16_bytes(2 + g.data.len() as int)));
        if g.marker == 0xDA {
            lemma_scan(s, code + 3 + g.data.len(), g.scan);
        }
        assert(jpeg_segment_end(s, g.marker, code + 1) == Some(pos + segment(g).len()));
    }
}

/// Behind the start of a scan comes no restart, but for those in the coded data, and no
/// zero byte.
pub open spec fn are_in_order(parts: Seq<Segment>) -> bool {
    forall|i: int, j: int|
        0 <= i && j == i + 1 && j < parts.len() && (#[trigger] parts[i]).marker == 0xDA
            ==> !is_restart_code((#[trigger] parts[j]).marker) && parts[j].marker != 0
}

proof fn lemma_segments(s: Seq<u8>, pos: int, parts: Seq<Segment>, fill: nat)
    requires
        are_segments(parts),
        are_in_order(parts),
        holds_at(s, pos, segments(parts)),
        holds_at(s, pos + segments(parts).len(), effs(fill + 1) + seq![0xD9u8]),
    ensures
        jpeg_extent_from(s, pos) == Some((pos + segments(parts).len() + fill + 1, 95int)),
    decreases parts.len(),
{
    if parts.len() == 0 {
        lemma_marker(s, pos, fill, 0xD9);
    } else {
        let rest = parts.skip(1);
        let next = pos + segment(parts[0]).len();
        lemma_are_segments_rest(parts);
        assert(are_in_order(rest)) by {
            assert forall|i: int, j: int|
                0 <= i && j == i + 1 && j < rest.len() && (#[trigger] rest[i]).marker == 0xDA implies
                !is_restart_code((#[trigger] rest[j]).marker) && rest[j].marker != 0 by {
                assert(rest[i] == parts[i + 1]);
                assert(rest[j] == parts[j + 1]);
            }
        }
        lemma_segments(s, next, rest, fill);
        if parts[0].marker == 0xDA {
            if rest.len() == 0 {
                lemma_marker(s, next, fill, 0xD9);
            } else {
                assert(parts[1] == rest[0]);
                lemma_are_segments_rest(rest);
                assert(holds_at(s, next, segment(rest[0])));
                lemma_segment_start(s, next, rest[0]);
            }
        }
        lemma_segment(s, pos, parts[0]);
    }
}

proof fn lemma_segment_start(s: Seq<u8>, pos: int, g: Segment)
    requires
        is_segment(g),
        holds_at(s, pos, segment(g)),
    ensures
        s[pos] == 0xFF,
        s[pos + 1] == 0xFF || s[pos + 1] == g.marker,
        pos + 2 <= s.len(),
{
    reveal(segment);
    lemma_marker(s, pos, g.fill, g.marker);
}

/// A JPEG image ends with the marker that ends it, whatever its segments and its coded data
/// hold.
pub proof fn law_jpeg_ends_with_its_end_marker(s: Seq<u8>, start: int, parts: Seq<Segment>, fill: nat)
    requires
        are_segments(parts),
        are_in_order(parts),
        holds_at(s, start, be16_bytes(0xFFD8)),
        holds_at(s, start + 2, segments(parts)),
        holds_at(s, start + 2 + segments(parts).len(), effs(fill + 1) + seq![0xD9u8]),
    ensures
        jpeg_extent(s, start) == Some((start + 2 + segments(parts).len() + fill + 1, 95int)),
{
    lemma_segments(s, start + 2, parts, fill);
}

/// An object of an ASF file.
pub ghost struct AsfObject {
    /// The two halves of its identifier.
    pub high: int,
    pub low: int,
    pub data: Seq<u8>,
}

/// The object can be written, and is not the one with the properties of the file.
pub open spec fn is_asf_object(a: AsfObject) -> bool {
    &&& is_u64(a.high) && is_u64(a.low)
    &&& is_u64(24 + a.data.len() as int)
    &&& !(a.high == 0xA1DC_AB8C_47A9_CF11 && a.low == 0x8EE4_00C0_0C20_5365)
}

/// An object: identifier, size of the whole object, data.
#[verifier::opaque]
pub open spec fn asf_object(a: AsfObject) -> Seq<u8> {
    be64_bytes(a.high) + be64_bytes(a.low) + le64_bytes(24 + a.data.len() as int) + a.data
}

/// Objects of an ASF file in a row.
pub open spec fn asf_row(parts: Seq<AsfObject>) -> Seq<u8>
    decreases parts.len(),
{
    if parts.len() == 0 {
        Seq::empty()
    } else {
        asf_object(parts[0]) + asf_row(parts.skip(1))
    }
}

/// All of them can be written.
pub open spec fn are_asf_objects(parts: Seq<AsfObject>) -> bool {
    forall|i: int| 0 <= i < parts.len() ==> is_asf_object(#[trigger] parts[i])
}

proof fn lemma_are_asf_objects_rest(parts: Seq<AsfObject>)
    requires
        are_asf_objects(parts),
        parts.len() > 0,
    ensures
        is_asf_object(parts[0]),
        are_asf_objects(parts.skip(1)),
{
    assert forall|i: int| 0 <= i < parts.skip(1).len() implies is_asf_object(#[trigger] parts.skip(1)[i]) by {
        assert(parts.skip(1)[i] == parts[i + 1]);
    }
}

proof fn lemma_asf_object(s: Seq<u8>, pos: int, a: AsfObject, n: int)
    requires
        is_asf_object(a),
        n > 0,
        holds_at(s, pos, asf_object(a)),
    ensures
        asf_object(a).len() >= 24,
        asf_file_size(s, pos, n) == asf_file_size(s, pos + asf_object(a).len(), n - 1),
{
    reveal(asf_object);
    assert(holds_at(s, pos, be64_bytes(a.high)));
    assert(holds_at(s, pos + 8, be64_bytes(a.low)));
    assert(holds_at(s, pos + 16, le64_bytes(24 + a.data.len() as int)));
}

proof fn lemma_asf_row(s: Seq<u8>, pos: int, parts: Seq<AsfObject>, n: int)
    requires
        are_asf_objects(parts),
        n >= parts.len(),
        holds_at(s, pos, asf_row(parts)),
    ensures
        asf_file_size(s, pos, n) == asf_file_size(s, pos + asf_row(parts).len(), n - parts.len()),
    decreases parts.len(),
{
    if parts.len() > 0 {
        lemma_are_asf_objects_rest(parts);
        lemma_asf_object(s, pos, parts[0], n);
        lemma_asf_row(s, pos + asf_object(parts[0]).len(), parts.skip(1), n - 1);
    }
}

/// An ASF file has the size that the object with its properties gives, whichever objects of
/// the header stand before that one.
pub proof fn law_asf_ends_as_declared(
    s: Seq<u8>,
    start: int,
    header_size: Seq<u8>,
    count: int,
    reserved: Seq<u8>,
    parts: Seq<AsfObject>,
    object_size: int,
    id: Seq<u8>,
    total: int,
)
    requires
        header_size.len() == 8 && reserved.len() == 2 && id.len() == 16,
        is_u32(count),
        count > parts.len(),
        are_asf_objects(parts),
        is_u64(object_size) && object_size >= 24,
        is_u64(total) && total > 0,
        holds_at(
            s,
            start,
            be64_bytes(0x3026_B275_8E66_CF11) + be64_bytes(0xA6D9_00AA_0062_CE6C) + header_size
                + le32_bytes(count) + reserved + asf_row(parts) + (be64_bytes(0xA1DC_AB8C_47A9_CF11)
                + be64_bytes(0x8EE4_00C0_0C20_5365) + le64_bytes(object_size) + id + le64_bytes(total)),
        ),
    ensures
        ends_after(asf_extent(s, start), s, start, total, 90),
{
    assert(holds_at(s, start, be64_bytes(0x3026_B275_8E66_CF11)));
    assert(holds_at(s, start + 8, be64_bytes(0xA6D9_00AA_0062_CE6C)));
    assert(holds_at(s, start + 24, le32_bytes(count)));
    let first = start + 30;
    lemma_asf_row(s, first, parts, count);
    let at = first + asf_row(parts).len();
    assert(holds_at(s, at, be64_bytes(0xA1DC_AB8C_47A9_CF11)));
    assert(holds_at(s, at + 8, be64_bytes(0x8EE4_00C0_0C20_5365)));
    assert(holds_at(s, at + 16, le64_bytes(object_size)));
    assert(holds_at(s, at + 40, le64_bytes(total)));
}

/// What the optional fields of a GZIP header are.
pub ghost struct GzipFields {
    pub text: bool,
    pub has_sum: bool,
    pub has_extra: bool,
    pub has_name: bool,
    pub has_comment: bool,
    pub extra: Seq<u8>,
    pub name: Seq<u8>,
    pub comment: Seq<u8>,
    pub sum: Seq<u8>,
}

/// The fields can be written.
pub open spec fn are_gzip_fields(f: GzipFields) -> bool {
    &&& is_u16(f.extra.len() as int)
    &&& is_free_of_nul(f.name) && is_free_of_nul(f.comment)
    &&& f.sum.len() == 2
}

/// The flags that tell which fields there are.
pub open spec fn gzip_flags(f: GzipFields) -> u8 {
    ((if f.text {
        1int
    } else {
        0int
    }) + (if f.has_sum {
        2int
    } else {
        0int
    }) + (if f.has_extra {
        4int
    } else {
        0int
    }) + (if f.has_name {
        8int
    } else {
        0int
    }) + (if f.has_comment {
        16int
    } else {
        0int
    })) as u8
}

/// The extra field with its length, if there is one.
pub open spec fn gzip_extra(f: GzipFields) -> Seq<u8> {
    if f.has_extra {
        le16_bytes(f.extra.len() as int) + f.extra
    } else {
        Seq::empty()
    }
}

/// A text with a zero byte behind it, if there is one.
pub open spec fn gzip_text(present: bool, text: Seq<u8>) -> Seq<u8> {
    if present {
        text + seq![0u8]
    } else {
        Seq::empty()
    }
}

/// The checksum of the header, if there is one.
pub open spec fn gzip_sum(f: GzipFields) -> Seq<u8> {
    if f.has_sum {
        f.sum
    } else {
        Seq::empty()
    }
}

proof fn lemma_gzip_text(s: Seq<u8>, pos: int, present: bool, text: Seq<u8>)
    requires
        is_free_of_nul(text),
        holds_at(s, pos, gzip_text(present, text)),
    ensures
        crate::archives::gzip_text_end(s, present, pos) == Some(pos + gzip_text(present, text).len()),
{
    if present {
        assert(holds_at(s, pos, text));
        assert(holds_at(s, pos + text.len(), seq![0u8]));
        assert forall|j: int| pos <= j < pos + text.len() implies s[j] != 0 by {
            lemma_byte(s, pos, text, j - pos);
            assert(text[j - pos] != 0);
        }
        lemma_first_byte_found(s, pos, 0, pos + text.len());
    }
}

/// The compressed data of a GZIP file begin behind its header, whichever of the optional
/// fields that has; it ends eight bytes behind them.
pub proof fn law_gzip_is_as_written(s: Seq<u8>, start: int, magic: Seq<u8>, rest: Seq<u8>, f: GzipFields)
    requires
        magic.len() == 3 && rest.len() == 6,
        are_gzip_fields(f),
        holds_at(
            s,
            start,
            magic + seq![gzip_flags(f)] + rest + gzip_extra(f) + gzip_text(f.has_name, f.name)
                + gzip_text(f.has_comment, f.comment) + gzip_sum(f),
        ),
    ensures
        ({
            let stream = start + 10 + gzip_extra(f).len() + gzip_text(f.has_name, f.name).len()
                + gzip_text(f.has_comment, f.comment).len() + gzip_sum(f).len();
            &&& gzip_stream_start(s, start) == Some(stream)
            &&& match stream_len(false, s.skip(stream)) {
                Some(n) => n >= 0 ==> ends_after(
                    gzip_extent(s, start),
                    s,
                    start,
                    stream - start + n + 8,
                    95,
                ),
                None => gzip_extent(s, start) is None,
            }
        }),
{
    let flags = gzip_flags(f);
    assert(holds_at(s, start + 3, seq![flags]));
    assert((flags as int / 4) % 2 == if f.has_extra {
        1int
    } else {
        0int
    });
    assert((flags as int / 8) % 2 == if f.has_name {
        1int
    } else {
        0int
    });
    assert((flags as int / 16) % 2 == if f.has_comment {
        1int
    } else {
        0int
    });
    assert((flags as int / 2) % 2 == if f.has_sum {
        1int
    } else {
        0int
    });
    let a = start + 10;
    assert(holds_at(s, a, gzip_extra(f)));
    let b = a + gzip_extra(f).len();
    assert(holds_at(s, b, gzip_text(f.has_name, f.name)));
    let c = b + gzip_text(f.has_name, f.name).len();
    assert(holds_at(s, c, gzip_text(f.has_comment, f.comment)));
    lemma_gzip_text(s, b, f.has_name, f.name);
    lemma_gzip_text(s, c, f.has_comment, f.comment);
}

} // verus!
