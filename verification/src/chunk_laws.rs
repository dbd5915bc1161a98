//! Files made of chunks end with the last of them, and are listed chunk by chunk.
use vstd::prelude::*;
use crate::documents::{blend_extent, blend_extent_from};
use crate::entries::prepend;
use crate::images::{png_chunks_end, png_extent};
use crate::media::{
    isobmff_extent, isobmff_extent_from, midi_extent, midi_tracks_end, realmedia_chunks_end,
    realmedia_extent, voc_extent, voc_terminator,
};
use crate::structure_listing::{isobmff_boxes, png_chunks, png_listing};
use crate::text::lossy;
use crate::writing::{
    be16_bytes, be32_bytes, be64_bytes, holds_at, is_u16, is_u24, is_u32, is_u64, le16_bytes,
    le24_bytes, lemma_holds_itself, num32_bytes,
};

verus! {

broadcast use crate::writing::group_reads;

/// A part of a file with a tag, which is taken as a number.
pub ghost struct Tagged {
    pub tag: int,
    pub content: Seq<u8>,
    /// What is written beside the content: a checksum, a version and the like.
    pub beside: Seq<u8>,
}

/// A PNG chunk can be written.
pub open spec fn is_png_chunk(c: Tagged) -> bool {
    is_u32(c.tag) && is_u32(c.content.len() as int) && c.beside.len() == 4
}

/// A PNG chunk: the length of its content, tag, content and checksum.
#[verifier::opaque]
pub open spec fn png_chunk(c: Tagged) -> Seq<u8> {
    be32_bytes(c.content.len() as int) + be32_bytes(c.tag) + c.content + c.beside
}

/// PNG chunks in a row.
pub open spec fn png_row(parts: Seq<Tagged>) -> Seq<u8>
    decreases parts.len(),
{
    if parts.len() == 0 {
        Seq::empty()
    } else {
        png_chunk(parts[0]) + png_row(parts.skip(1))
    }
}

/// All of them can be written.
pub open spec fn are_png_chunks(parts: Seq<Tagged>) -> bool {
    forall|i: int| 0 <= i < parts.len() ==> is_png_chunk(#[trigger] parts[i])
}

proof fn lemma_are_png_chunks_rest(parts: Seq<Tagged>)
    requires
        are_png_chunks(parts),
        parts.len() > 0,
    ensures
        is_png_chunk(parts[0]),
        are_png_chunks(parts.skip(1)),
{
    assert forall|i: int| 0 <= i < parts.skip(1).len() implies is_png_chunk(#[trigger] parts.skip(1)[i]) by {
        assert(parts.skip(1)[i] == parts[i + 1]);
    }
}

/// The tags of chunks, as texts, and the lengths of their contents.
pub open spec fn tag_list(parts: Seq<Tagged>) -> Seq<(Seq<char>, int)> {
    parts.map_values(|c: Tagged| (lossy(be32_bytes(c.tag)), c.content.len() as int))
}

proof fn lemma_png_chunk(s: Seq<u8>, pos: int, c: Tagged, end_tag: int)
    requires
        is_png_chunk(c),
        holds_at(s, pos, png_chunk(c)),
    ensures
        png_chunk(c).len() == 12 + c.content.len(),
        png_chunks_end(s, pos, end_tag) == if c.tag == end_tag {
            Some((pos + png_chunk(c).len() - 1, 95int))
        } else {
            png_chunks_end(s, pos + png_chunk(c).len(), end_tag)
        },
        png_chunks(s, pos) == prepend(
            (lossy(be32_bytes(c.tag)), c.content.len() as int),
            if pos + png_chunk(c).len() == s.len() {
                Some(Seq::empty())
            } else {
                png_chunks(s, pos + png_chunk(c).len())
            },
        ),
{
    reveal(png_chunk);
    assert(holds_at(s, pos, be32_bytes(c.content.len() as int)));
    assert(holds_at(s, pos + 4, be32_bytes(c.tag)));
}

proof fn lemma_png_row(s: Seq<u8>, pos: int, parts: Seq<Tagged>, end_tag: int)
    requires
        are_png_chunks(parts),
        parts.len() > 0,
        forall|i: int| 0 <= i < parts.len() - 1 ==> (#[trigger] parts[i]).tag != end_tag,
        parts.last().tag == end_tag,
        holds_at(s, pos, png_row(parts)),
    ensures
        png_chunks_end(s, pos, end_tag) == Some((pos + png_row(parts).len() - 1, 95int)),
        pos + png_row(parts).len() == s.len() ==> png_chunks(s, pos) == Some(tag_list(parts)),
    decreases parts.len(),
{
    lemma_are_png_chunks_rest(parts);
    lemma_png_chunk(s, pos, parts[0], end_tag);
    let rest = parts.skip(1);
    if parts.len() == 1 {
        assert(rest == Seq::<Tagged>::empty());
        assert(png_row(rest) == Seq::<u8>::empty());
        assert(tag_list(parts) == seq![
            (lossy(be32_bytes(parts[0].tag)), parts[0].content.len() as int),
        ] + Seq::empty());
    } else {
        assert forall|i: int| 0 <= i < rest.len() - 1 implies (#[trigger] rest[i]).tag != end_tag by {
            assert(rest[i] == parts[i + 1]);
        }
        assert(rest.last() == parts.last());
        lemma_are_png_chunks_rest(rest);
        reveal(png_chunk);
        assert(png_row(rest).len() > 0);
        lemma_png_row(s, pos + png_chunk(parts[0]).len(), rest, end_tag);
        assert(tag_list(parts) == seq![
            (lossy(be32_bytes(parts[0].tag)), parts[0].content.len() as int),
        ] + tag_list(rest));
    }
}

/// A PNG-style file: its signature and chunks.
#[verifier::opaque]
pub open spec fn png_file(signature: int, parts: Seq<Tagged>) -> Seq<u8> {
    be64_bytes(signature) + png_row(parts)
}

/// The chunks can be written, and only the last of them has the tag that ends the file.
pub open spec fn is_png_file(signature: int, parts: Seq<Tagged>, end_tag: int) -> bool {
    &&& is_u64(signature)
    &&& are_png_chunks(parts)
    &&& parts.len() > 0
    &&& forall|i: int| 0 <= i < parts.len() - 1 ==> (#[trigger] parts[i]).tag != end_tag
    &&& parts.last().tag == end_tag
}

/// A PNG, MNG or JNG file ends with the chunk that closes it, however many chunks come
/// before, wherever it stands and whatever follows.
pub proof fn law_png_ends_with_its_last_chunk(
    s: Seq<u8>,
    start: int,
    signature: int,
    parts: Seq<Tagged>,
    end_tag: int,
)
    requires
        is_png_file(signature, parts, end_tag),
        holds_at(s, start, png_file(signature, parts)),
    ensures
        png_extent(s, start, signature, end_tag) == Some(
            (start + png_file(signature, parts).len() - 1, 95int),
        ),
{
    reveal(png_file);
    assert(holds_at(s, start, be64_bytes(signature)));
    lemma_png_row(s, start + 8, parts, end_tag);
}

/// A PNG, MNG or JNG file is listed with the tags and the lengths of its chunks, in order.
pub proof fn law_png_lists_its_chunks(signature: int, parts: Seq<Tagged>, end_tag: int)
    requires
        is_png_file(signature, parts, end_tag),
    ensures
        png_listing(png_file(signature, parts), signature) == Some(tag_list(parts)),
{
    let s = png_file(signature, parts);
    lemma_holds_itself(s);
    lemma_png_listed(s, signature, parts, end_tag);
}

proof fn lemma_png_listed(s: Seq<u8>, signature: int, parts: Seq<Tagged>, end_tag: int)
    requires
        is_png_file(signature, parts, end_tag),
        holds_at(s, 0, png_file(signature, parts)),
        s.len() == png_file(signature, parts).len(),
    ensures
        png_listing(s, signature) == Some(tag_list(parts)),
{
    reveal(png_file);
    assert(holds_at(s, 0, be64_bytes(signature)));
    lemma_png_row(s, 8, parts, end_tag);
}

/// An ISO base media box can be written: with the length of its content in the short
/// field, or in the long one that `beside` being empty or not tells.
pub open spec fn is_media_box(c: Tagged) -> bool {
    &&& is_u32(c.tag)
    &&& is_long_box(c) || is_u32(8 + c.content.len() as int)
    &&& is_u64(16 + c.content.len() as int)
}

/// The length of the box stands in the long field.
pub open spec fn is_long_box(c: Tagged) -> bool {
    c.beside.len() > 0
}

/// How long a box is.
pub open spec fn box_len(c: Tagged) -> int {
    c.content.len() + if is_long_box(c) {
        16int
    } else {
        8int
    }
}

/// An ISO base media box: its length, tag and content.
#[verifier::opaque]
pub open spec fn media_box(c: Tagged) -> Seq<u8> {
    if is_long_box(c) {
        be32_bytes(1) + be32_bytes(c.tag) + be64_bytes(16 + c.content.len() as int) + c.content
    } else {
        be32_bytes(8 + c.content.len() as int) + be32_bytes(c.tag) + c.content
    }
}

/// ISO base media boxes in a row.
pub open spec fn media_row(parts: Seq<Tagged>) -> Seq<u8>
    decreases parts.len(),
{
    if parts.len() == 0 {
        Seq::empty()
    } else {
        media_box(parts[0]) + media_row(parts.skip(1))
    }
}

/// All of them can be written.
pub open spec fn are_media_boxes(parts: Seq<Tagged>) -> bool {
    forall|i: int| 0 <= i < parts.len() ==> is_media_box(#[trigger] parts[i])
}

proof fn lemma_are_media_boxes_rest(parts: Seq<Tagged>)
    requires
        are_media_boxes(parts),
        parts.len() > 0,
    ensures
        is_media_box(parts[0]),
        are_media_boxes(parts.skip(1)),
{
    assert forall|i: int| 0 <= i < parts.skip(1).len() implies is_media_box(#[trigger] parts.skip(1)[i]) by {
        assert(parts.skip(1)[i] == parts[i + 1]);
    }
}

/// The tags of boxes, as texts, and how long the boxes are.
pub open spec fn box_list(parts: Seq<Tagged>) -> Seq<(Seq<char>, int)> {
    parts.map_values(|c: Tagged| (lossy(be32_bytes(c.tag)), box_len(c)))
}

proof fn lemma_media_box(s: Seq<u8>, first: int, pos: int, c: Tagged)
    requires
        is_media_box(c),
        holds_at(s, pos, media_box(c)),
    ensures
        media_box(c).len() == box_len(c),
        isobmff_extent_from(s, first, pos) == if pos + box_len(c) == s.len() {
            Some((s.len() - 1, 90int))
        } else {
            isobmff_extent_from(s, first, pos + box_len(c))
        },
        isobmff_boxes(s, pos) == seq![(lossy(be32_bytes(c.tag)), box_len(c))] + isobmff_boxes(
            s,
            pos + box_len(c),
        ),
{
    reveal(media_box);
    assert(holds_at(s, pos + 4, be32_bytes(c.tag)));
    if is_long_box(c) {
        assert(holds_at(s, pos, be32_bytes(1)));
        assert(holds_at(s, pos + 8, be64_bytes(16 + c.content.len() as int)));
    } else {
        assert(holds_at(s, pos, be32_bytes(8 + c.content.len() as int)));
    }
}

proof fn lemma_media_row(s: Seq<u8>, first: int, pos: int, parts: Seq<Tagged>)
    requires
        are_media_boxes(parts),
        0 <= first <= pos,
        holds_at(s, pos, media_row(parts)),
    ensures
        pos + media_row(parts).len() == s.len() && parts.len() > 0 ==> isobmff_extent_from(s, first, pos)
            == Some((s.len() - 1, 90int)),
        pos + media_row(parts).len() < s.len() ==> isobmff_extent_from(s, first, pos)
            == isobmff_extent_from(s, first, pos + media_row(parts).len()),
        isobmff_boxes(s, pos) == box_list(parts) + isobmff_boxes(s, pos + media_row(parts).len()),
    decreases parts.len(),
{
    if parts.len() == 0 {
        assert(box_list(parts) + isobmff_boxes(s, pos) == isobmff_boxes(s, pos));
    } else {
        let rest = parts.skip(1);
        let next = pos + media_box(parts[0]).len();
        lemma_are_media_boxes_rest(parts);
        lemma_media_box(s, first, pos, parts[0]);
        lemma_media_row(s, first, next, rest);
        let one = seq![(lossy(be32_bytes(parts[0].tag)), box_len(parts[0]))];
        assert(box_list(parts) == one + box_list(rest));
        let behind = isobmff_boxes(s, next + media_row(rest).len());
        assert(one + (box_list(rest) + behind) == (one + box_list(rest)) + behind);
        if rest.len() > 0 {
            lemma_are_media_boxes_rest(rest);
            assert(holds_at(s, next, media_box(rest[0])));
            lemma_media_box(s, first, next, rest[0]);
        } else {
            assert(media_row(rest) == Seq::<u8>::empty());
        }
    }
}

/// A file of boxes that reach the end of the data ends there. If another box follows that
/// is cut off, or less than a header, the file ends with its last whole box, and is less
/// certain.
pub proof fn law_boxes_end_with_the_last_whole_one(
    s: Seq<u8>,
    start: int,
    parts: Seq<Tagged>,
    cut_off: int,
)
    requires
        are_media_boxes(parts),
        parts.len() > 0,
        holds_at(s, start, media_row(parts)),
    ensures
        ({
            let end = start + media_row(parts).len();
            &&& end == s.len() ==> isobmff_extent(s, start) == Some((end - 1, 90int))
            &&& end < s.len() < end + 8 ==> isobmff_extent(s, start) == Some((end - 1, 70int))
            &&& is_u32(cut_off) && cut_off >= 8 && end + cut_off > s.len() && holds_at(
                s,
                end,
                be32_bytes(cut_off) + be32_bytes(0),
            ) ==> isobmff_extent(s, start) == Some((end - 1, 70int))
            &&& holds_at(s, end, be32_bytes(0) + be32_bytes(0)) ==> isobmff_extent(s, start) == Some(
                (s.len() - 1, 85int),
            )
        }),
{
    lemma_media_row(s, start, start, parts);
    lemma_are_media_boxes_rest(parts);
    assert(holds_at(s, start, media_box(parts[0])));
    lemma_media_box(s, start, start, parts[0]);
}

/// A file of boxes is listed with their tags and how long each of them is, in order.
pub proof fn law_boxes_are_listed(parts: Seq<Tagged>)
    requires
        are_media_boxes(parts),
    ensures
        isobmff_boxes(media_row(parts), 0) == box_list(parts),
{
    let s = media_row(parts);
    lemma_holds_itself(s);
    lemma_media_row(s, 0, 0, parts);
    assert(isobmff_boxes(s, s.len() as int) == Seq::<(Seq<char>, int)>::empty());
    assert(box_list(parts) + Seq::<(Seq<char>, int)>::empty() == box_list(parts));
}

/// A MIDI track can be written.
pub open spec fn is_track(c: Tagged) -> bool {
    is_u32(c.content.len() as int)
}

/// A MIDI track.
#[verifier::opaque]
pub open spec fn track(c: Tagged) -> Seq<u8> {
    be32_bytes(0x4D54_726B) + be32_bytes(c.content.len() as int) + c.content
}

/// MIDI tracks in a row.
pub open spec fn tracks(parts: Seq<Tagged>) -> Seq<u8>
    decreases parts.len(),
{
    if parts.len() == 0 {
        Seq::empty()
    } else {
        track(parts[0]) + tracks(parts.skip(1))
    }
}

/// All of them can be written.
pub open spec fn are_tracks(parts: Seq<Tagged>) -> bool {
    forall|i: int| 0 <= i < parts.len() ==> is_track(#[trigger] parts[i])
}

proof fn lemma_are_tracks_rest(parts: Seq<Tagged>)
    requires
        are_tracks(parts),
        parts.len() > 0,
    ensures
        is_track(parts[0]),
        are_tracks(parts.skip(1)),
{
    assert forall|i: int| 0 <= i < parts.skip(1).len() implies is_track(#[trigger] parts.skip(1)[i]) by {
        assert(parts.skip(1)[i] == parts[i + 1]);
    }
}

proof fn lemma_tracks(s: Seq<u8>, pos: int, parts: Seq<Tagged>)
    requires
        are_tracks(parts),
        holds_at(s, pos, tracks(parts)),
    ensures
        midi_tracks_end(s, pos, parts.len() as int) == Some(pos + tracks(parts).len()),
    decreases parts.len(),
{
    if parts.len() > 0 {
        lemma_are_tracks_rest(parts);
        lemma_track(s, pos, parts[0], parts.len() as int);
        lemma_tracks(s, pos + track(parts[0]).len(), parts.skip(1));
    }
}

proof fn lemma_track(s: Seq<u8>, pos: int, c: Tagged, n: int)
    requires
        is_track(c),
        n > 0,
        holds_at(s, pos, track(c)),
    ensures
        midi_tracks_end(s, pos, n) == midi_tracks_end(s, pos + track(c).len(), n - 1),
        track(c).len() >= 8,
{
    reveal(track);
    assert(holds_at(s, pos, be32_bytes(0x4D54_726B)));
    assert(holds_at(s, pos + 4, be32_bytes(c.content.len() as int)));
}

/// A MIDI file: the header, which may be longer than it has to be, and the tracks that it
/// counts.
#[verifier::opaque]
pub open spec fn midi_file(kind: int, division: int, more: Seq<u8>, parts: Seq<Tagged>) -> Seq<u8> {
    be32_bytes(0x4D54_6864) + be32_bytes(6 + more.len() as int) + be16_bytes(kind) + be16_bytes(
        parts.len() as int,
    ) + be16_bytes(division) + more + tracks(parts)
}

/// A MIDI file ends with the last of its tracks.
pub proof fn law_midi_ends_with_its_last_track(
    s: Seq<u8>,
    start: int,
    kind: int,
    division: int,
    more: Seq<u8>,
    parts: Seq<Tagged>,
)
    requires
        are_tracks(parts),
        0 < parts.len() < 0x1_0000,
        is_u32(6 + more.len() as int),
        holds_at(s, start, midi_file(kind, division, more, parts)),
    ensures
        midi_extent(s, start) == Some((start + midi_file(kind, division, more, parts).len() - 1, 90int)),
{
    reveal(midi_file);
    assert(holds_at(s, start, be32_bytes(0x4D54_6864)));
    assert(holds_at(s, start + 4, be32_bytes(6 + more.len() as int)));
    assert(holds_at(s, start + 10, be16_bytes(parts.len() as int)));
    lemma_tracks(s, start + 14 + more.len(), parts);
}

/// A RealMedia chunk can be written.
pub open spec fn is_real_chunk(c: Tagged) -> bool {
    is_u32(c.tag) && is_u32(10 + c.content.len() as int) && c.beside.len() == 2
}

/// A RealMedia chunk: tag, length of the whole chunk, version and content.
#[verifier::opaque]
pub open spec fn real_chunk(c: Tagged) -> Seq<u8> {
    be32_bytes(c.tag) + be32_bytes(10 + c.content.len() as int) + c.beside + c.content
}

/// RealMedia chunks in a row.
pub open spec fn real_row(parts: Seq<Tagged>) -> Seq<u8>
    decreases parts.len(),
{
    if parts.len() == 0 {
        Seq::empty()
    } else {
        real_chunk(parts[0]) + real_row(parts.skip(1))
    }
}

/// All of them can be written.
pub open spec fn are_real_chunks(parts: Seq<Tagged>) -> bool {
    forall|i: int| 0 <= i < parts.len() ==> is_real_chunk(#[trigger] parts[i])
}

proof fn lemma_are_real_chunks_rest(parts: Seq<Tagged>)
    requires
        are_real_chunks(parts),
        parts.len() > 0,
    ensures
        is_real_chunk(parts[0]),
        are_real_chunks(parts.skip(1)),
{
    assert forall|i: int| 0 <= i < parts.skip(1).len() implies is_real_chunk(#[trigger] parts.skip(1)[i]) by {
        assert(parts.skip(1)[i] == parts[i + 1]);
    }
}

proof fn lemma_real_chunk(s: Seq<u8>, pos: int, c: Tagged, n: int)
    requires
        is_real_chunk(c),
        n > 0,
        holds_at(s, pos, real_chunk(c)),
    ensures
        realmedia_chunks_end(s, pos, n) == realmedia_chunks_end(s, pos + real_chunk(c).len(), n - 1),
        real_chunk(c).len() >= 10,
{
    reveal(real_chunk);
    assert(holds_at(s, pos + 4, be32_bytes(10 + c.content.len() as int)));
}

proof fn lemma_real_row(s: Seq<u8>, pos: int, parts: Seq<Tagged>)
    requires
        are_real_chunks(parts),
        holds_at(s, pos, real_row(parts)),
    ensures
        realmedia_chunks_end(s, pos, parts.len() as int) == Some(pos + real_row(parts).len()),
    decreases parts.len(),
{
    if parts.len() > 0 {
        lemma_are_real_chunks_rest(parts);
        lemma_real_chunk(s, pos, parts[0], parts.len() as int);
        lemma_real_row(s, pos + real_chunk(parts[0]).len(), parts.skip(1));
    }
}

/// A RealMedia file: the first chunk, which counts all of them, and the others.
#[verifier::opaque]
pub open spec fn real_file(versions: Seq<u8>, more: Seq<u8>, parts: Seq<Tagged>) -> Seq<u8> {
    be32_bytes(0x2E52_4D46) + be32_bytes(18 + more.len() as int) + versions + be32_bytes(
        parts.len() as int + 1,
    ) + more + real_row(parts)
}

/// A RealMedia file ends with the last of the chunks that its first one counts.
pub proof fn law_realmedia_ends_with_its_last_chunk(
    s: Seq<u8>,
    start: int,
    versions: Seq<u8>,
    more: Seq<u8>,
    parts: Seq<Tagged>,
)
    requires
        are_real_chunks(parts),
        versions.len() == 6,
        is_u32(18 + more.len() as int),
        is_u32(parts.len() as int + 1),
        holds_at(s, start, real_file(versions, more, parts)),
    ensures
        realmedia_extent(s, start) == Some((start + real_file(versions, more, parts).len() - 1, 80int)),
{
    reveal(real_file);
    assert(holds_at(s, start, be32_bytes(0x2E52_4D46)));
    assert(holds_at(s, start + 4, be32_bytes(18 + more.len() as int)));
    assert(holds_at(s, start + 14, be32_bytes(parts.len() as int + 1)));
    lemma_real_row(s, start + 18 + more.len(), parts);
}

/// A VOC block can be written; its type is not that of the one that ends the file.
pub open spec fn is_voc_block(c: Tagged) -> bool {
    0 < c.tag < 256 && is_u24(c.content.len() as int)
}

/// A VOC block: type, length and content.
#[verifier::opaque]
pub open spec fn voc_block(c: Tagged) -> Seq<u8> {
    seq![c.tag as u8] + le24_bytes(c.content.len() as int) + c.content
}

/// VOC blocks in a row.
pub open spec fn voc_row(parts: Seq<Tagged>) -> Seq<u8>
    decreases parts.len(),
{
    if parts.len() == 0 {
        Seq::empty()
    } else {
        voc_block(parts[0]) + voc_row(parts.skip(1))
    }
}

/// All of them can be written.
pub open spec fn are_voc_blocks(parts: Seq<Tagged>) -> bool {
    forall|i: int| 0 <= i < parts.len() ==> is_voc_block(#[trigger] parts[i])
}

proof fn lemma_are_voc_blocks_rest(parts: Seq<Tagged>)
    requires
        are_voc_blocks(parts),
        parts.len() > 0,
    ensures
        is_voc_block(parts[0]),
        are_voc_blocks(parts.skip(1)),
{
    assert forall|i: int| 0 <= i < parts.skip(1).len() implies is_voc_block(#[trigger] parts.skip(1)[i]) by {
        assert(parts.skip(1)[i] == parts[i + 1]);
    }
}

proof fn lemma_voc_block(s: Seq<u8>, pos: int, c: Tagged)
    requires
        is_voc_block(c),
        holds_at(s, pos, voc_block(c)),
    ensures
        voc_terminator(s, pos) == voc_terminator(s, pos + voc_block(c).len()),
        voc_block(c).len() >= 4,
{
    reveal(voc_block);
    assert(holds_at(s, pos, seq![c.tag as u8]));
    assert(holds_at(s, pos + 1, le24_bytes(c.content.len() as int)));
}

proof fn lemma_voc_row(s: Seq<u8>, pos: int, parts: Seq<Tagged>)
    requires
        are_voc_blocks(parts),
        holds_at(s, pos, voc_row(parts)),
    ensures
        voc_terminator(s, pos) == voc_terminator(s, pos + voc_row(parts).len()),
    decreases parts.len(),
{
    if parts.len() > 0 {
        lemma_are_voc_blocks_rest(parts);
        lemma_voc_block(s, pos, parts[0]);
        lemma_voc_row(s, pos + voc_block(parts[0]).len(), parts.skip(1));
    }
}

/// A VOC file: magic text, the length of the header, blocks and the byte that ends it.
#[verifier::opaque]
pub open spec fn voc_file(more: Seq<u8>, parts: Seq<Tagged>) -> Seq<u8> {
    be64_bytes(0x4372_6561_7469_7665) + be64_bytes(0x2056_6F69_6365_2046) + be32_bytes(0x696C_651A)
        + le16_bytes(22 + more.len() as int) + more + voc_row(parts) + seq![0u8]
}

/// A VOC file ends with the byte that terminates its blocks.
pub proof fn law_voc_ends_with_its_terminator(s: Seq<u8>, start: int, more: Seq<u8>, parts: Seq<Tagged>)
    requires
        are_voc_blocks(parts),
        is_u16(22 + more.len() as int),
        holds_at(s, start, voc_file(more, parts)),
    ensures
        voc_extent(s, start) == Some((start + voc_file(more, parts).len() - 1, 85int)),
{
    reveal(voc_file);
    assert(holds_at(s, start, be64_bytes(0x4372_6561_7469_7665)));
    assert(holds_at(s, start + 8, be64_bytes(0x2056_6F69_6365_2046)));
    assert(holds_at(s, start + 16, be32_bytes(0x696C_651A)));
    assert(holds_at(s, start + 20, le16_bytes(22 + more.len() as int)));
    let first = start + 22 + more.len();
    lemma_voc_row(s, first, parts);
    assert(holds_at(s, first + voc_row(parts).len(), seq![0u8]));
}

/// A Blender block can be written; pointers take four or eight bytes.
pub open spec fn is_blend_block(c: Tagged, pointer: int, is_be: bool) -> bool {
    &&& pointer == 4 || pointer == 8
    &&& is_u32(c.tag)
    &&& is_u32(c.content.len() as int)
    &&& c.beside.len() == pointer + 8
}

/// A Blender block: code, length, address, index, count and content.
#[verifier::opaque]
pub open spec fn blend_block(c: Tagged, pointer: int, is_be: bool) -> Seq<u8> {
    be32_bytes(c.tag) + num32_bytes(c.content.len() as int, is_be) + c.beside + c.content
}

/// Blender blocks in a row.
pub open spec fn blend_row(parts: Seq<Tagged>, pointer: int, is_be: bool) -> Seq<u8>
    decreases parts.len(),
{
    if parts.len() == 0 {
        Seq::empty()
    } else {
        blend_block(parts[0], pointer, is_be) + blend_row(parts.skip(1), pointer, is_be)
    }
}

/// All of them can be written.
pub open spec fn are_blend_blocks(parts: Seq<Tagged>, pointer: int, is_be: bool) -> bool {
    forall|i: int| 0 <= i < parts.len() ==> is_blend_block(#[trigger] parts[i], pointer, is_be)
}

proof fn lemma_are_blend_blocks_rest(parts: Seq<Tagged>, pointer: int, is_be: bool)
    requires
        are_blend_blocks(parts, pointer, is_be),
        parts.len() > 0,
    ensures
        is_blend_block(parts[0], pointer, is_be),
        are_blend_blocks(parts.skip(1), pointer, is_be),
{
    assert forall|i: int| 0 <= i < parts.skip(1).len() implies is_blend_block(#[trigger] parts.skip(1)[i], pointer, is_be) by {
        assert(parts.skip(1)[i] == parts[i + 1]);
    }
}

proof fn lemma_blend_block(s: Seq<u8>, pos: int, c: Tagged, pointer: int, is_be: bool)
    requires
        is_blend_block(c, pointer, is_be),
        holds_at(s, pos, blend_block(c, pointer, is_be)),
    ensures
        blend_block(c, pointer, is_be).len() >= 16 + pointer,
        blend_extent_from(s, pos, 16 + pointer, is_be) == if c.tag == 0x454E_4442 {
            Some((pos + blend_block(c, pointer, is_be).len() - 1, 85int))
        } else {
            blend_extent_from(s, pos + blend_block(c, pointer, is_be).len(), 16 + pointer, is_be)
        },
{
    reveal(blend_block);
    assert(holds_at(s, pos, be32_bytes(c.tag)));
    assert(holds_at(s, pos + 4, num32_bytes(c.content.len() as int, is_be)));
}

proof fn lemma_blend_row(s: Seq<u8>, pos: int, parts: Seq<Tagged>, pointer: int, is_be: bool)
    requires
        are_blend_blocks(parts, pointer, is_be),
        parts.len() > 0,
        forall|i: int| 0 <= i < parts.len() - 1 ==> (#[trigger] parts[i]).tag != 0x454E_4442,
        parts.last().tag == 0x454E_4442,
        holds_at(s, pos, blend_row(parts, pointer, is_be)),
    ensures
        blend_extent_from(s, pos, 16 + pointer, is_be) == Some(
            (pos + blend_row(parts, pointer, is_be).len() - 1, 85int),
        ),
    decreases parts.len(),
{
    lemma_are_blend_blocks_rest(parts, pointer, is_be);
    lemma_blend_block(s, pos, parts[0], pointer, is_be);
    let rest = parts.skip(1);
    if parts.len() == 1 {
        assert(rest == Seq::<Tagged>::empty());
        assert(blend_row(rest, pointer, is_be) == Seq::<u8>::empty());
    } else {
        assert forall|i: int| 0 <= i < rest.len() - 1 implies (#[trigger] rest[i]).tag != 0x454E_4442 by {
            assert(rest[i] == parts[i + 1]);
        }
        assert(rest.last() == parts.last());
        lemma_blend_row(s, pos + blend_block(parts[0], pointer, is_be).len(), rest, pointer, is_be);
    }
}

/// A Blender file: its tag, a character for the size of pointers and one for the order of
/// bytes, a version, and blocks.
#[verifier::opaque]
pub open spec fn blend_file(version: Seq<u8>, parts: Seq<Tagged>, pointer: int, is_be: bool) -> Seq<u8> {
    be32_bytes(0x424C_454E) + be16_bytes(0x4445) + seq![0x52u8] + seq![
        if pointer == 4 {
            0x5Fu8
        } else {
            0x2Du8
        },
    ] + seq![
        if is_be {
            0x56u8
        } else {
            0x76u8
        },
    ] + version + blend_row(parts, pointer, is_be)
}

/// A Blender file ends with its block `ENDB`, in either order of bytes and with either
/// size of pointers.
pub proof fn law_blend_ends_with_its_last_block(
    s: Seq<u8>,
    start: int,
    version: Seq<u8>,
    parts: Seq<Tagged>,
    pointer: int,
    is_be: bool,
)
    requires
        version.len() == 3,
        pointer == 4 || pointer == 8,
        are_blend_blocks(parts, pointer, is_be),
        parts.len() > 0,
        forall|i: int| 0 <= i < parts.len() - 1 ==> (#[trigger] parts[i]).tag != 0x454E_4442,
        parts.last().tag == 0x454E_4442,
        holds_at(s, start, blend_file(version, parts, pointer, is_be)),
    ensures
        blend_extent(s, start) == Some(
            (start + blend_file(version, parts, pointer, is_be).len() - 1, 85int),
        ),
{
    reveal(blend_file);
    assert(holds_at(s, start, be32_bytes(0x424C_454E)));
    assert(holds_at(s, start + 4, be16_bytes(0x4445)));
    assert(s[start + 6] == 0x52);
    lemma_blend_row(s, start + 12, parts, pointer, is_be);
}

} // verus!
