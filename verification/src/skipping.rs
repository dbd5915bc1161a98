//! Fields behind the first bytes of a sequence.
use vstd::prelude::*;
use crate::bytes::{be16, be24, be32, be64, le16, le24, le32, le64, num32, num64};

verus! {

/// The field at `i` behind the first `n` bytes is the field at `n + i`.
pub broadcast proof fn lemma_skip_le16(s: Seq<u8>, n: int, i: int)
    requires
        0 <= n,
        0 <= i,
        n + i + 2 <= s.len(),
    ensures
        #[trigger] le16(s.skip(n), i) == le16(s, n + i),
{
}

/// The field at `i` behind the first `n` bytes is the field at `n + i`.
pub broadcast proof fn lemma_skip_be16(s: Seq<u8>, n: int, i: int)
    requires
        0 <= n,
        0 <= i,
        n + i + 2 <= s.len(),
    ensures
        #[trigger] be16(s.skip(n), i) == be16(s, n + i),
{
}

/// The field at `i` behind the first `n` bytes is the field at `n + i`.
pub broadcast proof fn lemma_skip_le24(s: Seq<u8>, n: int, i: int)
    requires
        0 <= n,
        0 <= i,
        n + i + 3 <= s.len(),
    ensures
        #[trigger] le24(s.skip(n), i) == le24(s, n + i),
{
}

/// The field at `i` behind the first `n` bytes is the field at `n + i`.
pub broadcast proof fn lemma_skip_be24(s: Seq<u8>, n: int, i: int)
    requires
        0 <= n,
        0 <= i,
        n + i + 3 <= s.len(),
    ensures
        #[trigger] be24(s.skip(n), i) == be24(s, n + i),
{
}

/// The field at `i` behind the first `n` bytes is the field at `n + i`.
pub broadcast proof fn lemma_skip_le32(s: Seq<u8>, n: int, i: int)
    requires
        0 <= n,
        0 <= i,
        n + i + 4 <= s.len(),
    ensures
        #[trigger] le32(s.skip(n), i) == le32(s, n + i),
{
}

/// The field at `i` behind the first `n` bytes is the field at `n + i`.
pub broadcast proof fn lemma_skip_be32(s: Seq<u8>, n: int, i: int)
    requires
        0 <= n,
        0 <= i,
        n + i + 4 <= s.len(),
    ensures
        #[trigger] be32(s.skip(n), i) == be32(s, n + i),
{
}

/// The field at `i` behind the first `n` bytes is the field at `n + i`.
pub broadcast proof fn lemma_skip_le64(s: Seq<u8>, n: int, i: int)
    requires
        0 <= n,
        0 <= i,
        n + i + 8 <= s.len(),
    ensures
        #[trigger] le64(s.skip(n), i) == le64(s, n + i),
{
}

/// The field at `i` behind the first `n` bytes is the field at `n + i`.
pub broadcast proof fn lemma_skip_be64(s: Seq<u8>, n: int, i: int)
    requires
        0 <= n,
        0 <= i,
        n + i + 8 <= s.len(),
    ensures
        #[trigger] be64(s.skip(n), i) == be64(s, n + i),
{
}

/// The field at `i` behind the first `n` bytes is the field at `n + i`.
pub broadcast proof fn lemma_skip_num32(s: Seq<u8>, n: int, i: int, is_be: bool)
    requires
        0 <= n,
        0 <= i,
        n + i + 4 <= s.len(),
    ensures
        #[trigger] num32(s.skip(n), i, is_be) == num32(s, n + i, is_be),
{
    broadcast use {lemma_skip_le32, lemma_skip_be32};
}

/// The field at `i` behind the first `n` bytes is the field at `n + i`.
pub broadcast proof fn lemma_skip_num64(s: Seq<u8>, n: int, i: int, is_be: bool)
    requires
        0 <= n,
        0 <= i,
        n + i + 8 <= s.len(),
    ensures
        #[trigger] num64(s.skip(n), i, is_be) == num64(s, n + i, is_be),
{
    broadcast use {lemma_skip_le64, lemma_skip_be64};
}

/// A part behind the first `n` bytes is the part `n` bytes further on.
pub broadcast proof fn lemma_skip_subrange(s: Seq<u8>, n: int, from: int, to: int)
    requires
        0 <= n,
        0 <= from <= to,
        n + to <= s.len(),
    ensures
        #[trigger] s.skip(n).subrange(from, to) == s.subrange(n + from, n + to),
{
    assert(s.skip(n).subrange(from, to) =~= s.subrange(n + from, n + to));
}

pub broadcast group group_skip {
    lemma_skip_subrange,
    lemma_skip_le16,
    lemma_skip_be16,
    lemma_skip_le24,
    lemma_skip_be24,
    lemma_skip_le32,
    lemma_skip_be32,
    lemma_skip_le64,
    lemma_skip_be64,
    lemma_skip_num32,
    lemma_skip_num64,
}

} // verus!
