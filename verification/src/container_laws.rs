//! The chunks of RIFF and IFF containers are found and listed as they were written.
use vstd::prelude::*;
use crate::facts::{chunk, chunk_from};
use crate::structure_listing::{container_chunks, container_end, container_listing};
use crate::text::lossy;
use crate::writing::{be32_bytes, holds_at, is_u32, lemma_holds_itself, num32_bytes};

verus! {

broadcast use crate::writing::group_reads;

/// A chunk: its tag as a number, and what it holds.
pub ghost struct Chunk {
    pub tag: int,
    pub content: Seq<u8>,
}

/// The tag and the size fit in their fields.
pub open spec fn is_chunk(c: Chunk) -> bool {
    is_u32(c.tag) && is_u32(c.content.len() as int)
}

/// What fills a chunk up to an even length.
pub open spec fn chunk_fill(len: int) -> Seq<u8> {
    if len % 2 == 1 {
        seq![0u8]
    } else {
        Seq::empty()
    }
}

/// A chunk as it is written: tag, size, content, and a byte behind an odd length.
#[verifier::opaque]
pub open spec fn chunk_bytes(c: Chunk, is_be: bool) -> Seq<u8> {
    be32_bytes(c.tag) + num32_bytes(c.content.len() as int, is_be) + c.content + chunk_fill(
        c.content.len() as int,
    )
}

/// Chunks in a row.
pub open spec fn chunks_bytes(chunks: Seq<Chunk>, is_be: bool) -> Seq<u8>
    decreases chunks.len(),
{
    if chunks.len() == 0 {
        Seq::empty()
    } else {
        chunk_bytes(chunks[0], is_be) + chunks_bytes(chunks.skip(1), is_be)
    }
}

/// A container: its tag, the size of what follows, the type of its contents, and chunks.
#[verifier::opaque]
pub open spec fn container(tag: int, form: int, chunks: Seq<Chunk>, is_be: bool) -> Seq<u8> {
    be32_bytes(tag) + num32_bytes(4 + chunks_bytes(chunks, is_be).len() as int, is_be) + be32_bytes(form)
        + chunks_bytes(chunks, is_be)
}

/// The container can be written.
pub open spec fn is_container(tag: int, form: int, chunks: Seq<Chunk>, is_be: bool) -> bool {
    &&& is_u32(tag) && is_u32(form)
    &&& is_u32(4 + chunks_bytes(chunks, is_be).len() as int)
    &&& forall|i: int| 0 <= i < chunks.len() ==> is_chunk(#[trigger] chunks[i])
}

/// The content of the first chunk with that tag.
pub open spec fn first_chunk(chunks: Seq<Chunk>, tag: int) -> Option<Seq<u8>>
    decreases chunks.len(),
{
    if chunks.len() == 0 {
        None
    } else if chunks[0].tag == tag {
        Some(chunks[0].content)
    } else {
        first_chunk(chunks.skip(1), tag)
    }
}

/// The tags of the chunks, as texts, and their sizes.
pub open spec fn chunk_list(chunks: Seq<Chunk>) -> Seq<(Seq<char>, int)> {
    chunks.map_values(|c: Chunk| (lossy(be32_bytes(c.tag)), c.content.len() as int))
}

proof fn lemma_chunk(s: Seq<u8>, pos: int, end: int, c: Chunk, is_be: bool, tag: int)
    requires
        is_chunk(c),
        0 <= pos,
        pos + chunk_bytes(c, is_be).len() <= end,
        holds_at(s, pos, chunk_bytes(c, is_be)),
    ensures
        chunk_bytes(c, is_be).len() >= 8,
        chunk_from(s, pos, end, is_be, tag) == if c.tag == tag {
            Some(c.content)
        } else {
            chunk_from(s, pos + chunk_bytes(c, is_be).len(), end, is_be, tag)
        },
        container_chunks(s, pos, end, is_be) == seq![
            (lossy(be32_bytes(c.tag)), c.content.len() as int),
        ] + container_chunks(s, pos + chunk_bytes(c, is_be).len(), end, is_be),
{
    reveal(chunk_bytes);
    assert(holds_at(s, pos, be32_bytes(c.tag)));
    assert(holds_at(s, pos + 4, num32_bytes(c.content.len() as int, is_be)));
    assert(holds_at(s, pos + 8, c.content));
}

proof fn lemma_chunks(s: Seq<u8>, pos: int, chunks: Seq<Chunk>, is_be: bool, tag: int)
    requires
        forall|i: int| 0 <= i < chunks.len() ==> is_chunk(#[trigger] chunks[i]),
        holds_at(s, pos, chunks_bytes(chunks, is_be)),
    ensures
        chunk_from(s, pos, pos + chunks_bytes(chunks, is_be).len(), is_be, tag) == first_chunk(
            chunks,
            tag,
        ),
        container_chunks(s, pos, pos + chunks_bytes(chunks, is_be).len(), is_be) == chunk_list(chunks),
    decreases chunks.len(),
{
    let end = pos + chunks_bytes(chunks, is_be).len();
    if chunks.len() == 0 {
        assert(chunk_list(chunks) == Seq::<(Seq<char>, int)>::empty());
    } else {
        let rest = chunks.skip(1);
        assert forall|i: int| 0 <= i < rest.len() implies is_chunk(#[trigger] rest[i]) by {
            assert(rest[i] == chunks[i + 1]);
        }
        lemma_chunk(s, pos, end, chunks[0], is_be, tag);
        lemma_chunks(s, pos + chunk_bytes(chunks[0], is_be).len(), rest, is_be, tag);
        assert(chunk_list(chunks) == seq![
            (lossy(be32_bytes(chunks[0].tag)), chunks[0].content.len() as int),
        ] + chunk_list(rest));
    }
}

/// The chunks of a container stand behind its first twelve bytes.
proof fn lemma_container(s: Seq<u8>, tag: int, form: int, chunks: Seq<Chunk>, is_be: bool)
    requires
        is_container(tag, form, chunks, is_be),
        holds_at(s, 0, container(tag, form, chunks, is_be)),
        s.len() == container(tag, form, chunks, is_be).len(),
    ensures
        s.len() == 12 + chunks_bytes(chunks, is_be).len(),
        container_end(s, is_be) == s.len(),
        holds_at(s, 12, chunks_bytes(chunks, is_be)),
{
    reveal(container);
    assert(holds_at(s, 4, num32_bytes(4 + chunks_bytes(chunks, is_be).len() as int, is_be)));
}

/// A tag finds the content of the first chunk that was written with it, whatever chunks
/// stand before it and however long they are.
pub proof fn law_container_gives_a_chunk_back(
    tag: int,
    form: int,
    chunks: Seq<Chunk>,
    is_be: bool,
    wanted: int,
)
    requires
        is_container(tag, form, chunks, is_be),
    ensures
        chunk(container(tag, form, chunks, is_be), is_be, wanted) == first_chunk(chunks, wanted),
{
    let s = container(tag, form, chunks, is_be);
    lemma_holds_itself(s);
    lemma_container(s, tag, form, chunks, is_be);
    lemma_chunks(s, 12, chunks, is_be, wanted);
}

/// A container is listed with the tags and the sizes of its chunks, in order.
pub proof fn law_container_lists_its_chunks(tag: int, form: int, chunks: Seq<Chunk>, is_be: bool)
    requires
        is_container(tag, form, chunks, is_be),
        chunks.len() > 0,
    ensures
        container_listing(container(tag, form, chunks, is_be), is_be) == Some(chunk_list(chunks)),
{
    let s = container(tag, form, chunks, is_be);
    lemma_holds_itself(s);
    lemma_container(s, tag, form, chunks, is_be);
    lemma_chunks(s, 12, chunks, is_be, 0);
}

} // verus!
