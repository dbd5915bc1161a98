//! Fields inside the first bytes of a sequence.
use vstd::prelude::*;
use crate::bytes::{be16, be24, be32, be64, le16, le24, le32, le64, num32, num64};

verus! {

/// A field inside the first `m` bytes is the same field.
pub broadcast proof fn lemma_take_le16(s: Seq<u8>, m: int, i: int)
    requires
        0 <= i,
        i + 2 <= m <= s.len(),
    ensures
        #[trigger] le16(s.take(m), i) == le16(s, i),
{
}

/// A field inside the first `m` bytes is the same field.
pub broadcast proof fn lemma_take_be16(s: Seq<u8>, m: int, i: int)
    requires
        0 <= i,
        i + 2 <= m <= s.len(),
    ensures
        #[trigger] be16(s.take(m), i) == be16(s, i),
{
}

/// A field inside the first `m` bytes is the same field.
pub broadcast proof fn lemma_take_le24(s: Seq<u8>, m: int, i: int)
    requires
        0 <= i,
        i + 3 <= m <= s.len(),
    ensures
        #[trigger] le24(s.take(m), i) == le24(s, i),
{
}

/// A field inside the first `m` bytes is the same field.
pub broadcast proof fn lemma_take_be24(s: Seq<u8>, m: int, i: int)
    requires
        0 <= i,
        i + 3 <= m <= s.len(),
    ensures
        #[trigger] be24(s.take(m), i) == be24(s, i),
{
}

/// A field inside the first `m` bytes is the same field.
pub broadcast proof fn lemma_take_le32(s: Seq<u8>, m: int, i: int)
    requires
        0 <= i,
        i + 4 <= m <= s.len(),
    ensures
        #[trigger] le32(s.take(m), i) == le32(s, i),
{
}

/// A field inside the first `m` bytes is the same field.
pub broadcast proof fn lemma_take_be32(s: Seq<u8>, m: int, i: int)
    requires
        0 <= i,
        i + 4 <= m <= s.len(),
    ensures
        #[trigger] be32(s.take(m), i) == be32(s, i),
{
}

/// A field inside the first `m` bytes is the same field.
pub broadcast proof fn lemma_take_le64(s: Seq<u8>, m: int, i: int)
    requires
        0 <= i,
        i + 8 <= m <= s.len(),
    ensures
        #[trigger] le64(s.take(m), i) == le64(s, i),
{
}

/// A field inside the first `m` bytes is the same field.
pub broadcast proof fn lemma_take_be64(s: Seq<u8>, m: int, i: int)
    requires
        0 <= i,
        i + 8 <= m <= s.len(),
    ensures
        #[trigger] be64(s.take(m), i) == be64(s, i),
{
}

/// A field inside the first `m` bytes is the same field.
pub broadcast proof fn lemma_take_num32(s: Seq<u8>, m: int, i: int, is_be: bool)
    requires
        0 <= i,
        i + 4 <= m <= s.len(),
    ensures
        #[trigger] num32(s.take(m), i, is_be) == num32(s, i, is_be),
{
    broadcast use {lemma_take_le32, lemma_take_be32};
}

/// A field inside the first `m` bytes is the same field.
pub broadcast proof fn lemma_take_num64(s: Seq<u8>, m: int, i: int, is_be: bool)
    requires
        0 <= i,
        i + 8 <= m <= s.len(),
    ensures
        #[trigger] num64(s.take(m), i, is_be) == num64(s, i, is_be),
{
    broadcast use {lemma_take_le64, lemma_take_be64};
}

/// A part of the first `m` bytes is the same part.
pub broadcast proof fn lemma_take_subrange(s: Seq<u8>, m: int, from: int, to: int)
    requires
        0 <= from <= to <= m <= s.len(),
    ensures
        #[trigger] s.take(m).subrange(from, to) == s.subrange(from, to),
{
    assert(s.take(m).subrange(from, to) =~= s.subrange(from, to));
}

pub broadcast group group_take {
    lemma_take_subrange,
    lemma_take_le16,
    lemma_take_be16,
    lemma_take_le24,
    lemma_take_be24,
    lemma_take_le32,
    lemma_take_be32,
    lemma_take_le64,
    lemma_take_be64,
    lemma_take_num32,
    lemma_take_num64,
}

} // verus!
