//! Numbers and parts of a file as bytes, and reading them back.
use vstd::prelude::*;
use crate::bytes::{be16, be24, be32, be64, le16, le24, le32, le64, num32, num64};

verus! {

/// The bytes `part` stand at `pos` of `s`.
pub open spec fn holds_at(s: Seq<u8>, pos: int, part: Seq<u8>) -> bool {
    &&& 0 <= pos
    &&& pos + part.len() <= s.len()
    &&& s.subrange(pos, pos + part.len()) == part
}

/// A 16-bit number as bytes, the lowest first.
pub open spec fn le16_bytes(n: int) -> Seq<u8> {
    seq![(n % 0x100) as u8, (n / 0x100 % 0x100) as u8]
}

/// A 16-bit number as bytes, the highest first.
pub open spec fn be16_bytes(n: int) -> Seq<u8> {
    seq![(n / 0x100 % 0x100) as u8, (n % 0x100) as u8]
}

/// A 24-bit number as bytes, the lowest first.
pub open spec fn le24_bytes(n: int) -> Seq<u8> {
    seq![(n % 0x100) as u8, (n / 0x100 % 0x100) as u8, (n / 0x1_0000 % 0x100) as u8]
}

/// A 24-bit number as bytes, the highest first.
pub open spec fn be24_bytes(n: int) -> Seq<u8> {
    seq![(n / 0x1_0000 % 0x100) as u8, (n / 0x100 % 0x100) as u8, (n % 0x100) as u8]
}

/// A 32-bit number as bytes, the lowest first.
pub open spec fn le32_bytes(n: int) -> Seq<u8> {
    seq![
        (n % 0x100) as u8,
        (n / 0x100 % 0x100) as u8,
        (n / 0x1_0000 % 0x100) as u8,
        (n / 0x100_0000 % 0x100) as u8,
    ]
}

/// A 32-bit number as bytes, the highest first.
pub open spec fn be32_bytes(n: int) -> Seq<u8> {
    seq![
        (n / 0x100_0000 % 0x100) as u8,
        (n / 0x1_0000 % 0x100) as u8,
        (n / 0x100 % 0x100) as u8,
        (n % 0x100) as u8,
    ]
}

/// A 64-bit number as bytes, the lowest first.
pub open spec fn le64_bytes(n: int) -> Seq<u8> {
    le32_bytes(n % 0x1_0000_0000) + le32_bytes(n / 0x1_0000_0000)
}

/// A 64-bit number as bytes, the highest first.
pub open spec fn be64_bytes(n: int) -> Seq<u8> {
    be32_bytes(n / 0x1_0000_0000) + be32_bytes(n % 0x1_0000_0000)
}

/// A 32-bit number as bytes in the order that `is_be` selects.
#[verifier::opaque]
pub open spec fn num32_bytes(n: int, is_be: bool) -> Seq<u8> {
    if is_be {
        be32_bytes(n)
    } else {
        le32_bytes(n)
    }
}

/// A 64-bit number as bytes in the order that `is_be` selects.
#[verifier::opaque]
pub open spec fn num64_bytes(n: int, is_be: bool) -> Seq<u8> {
    if is_be {
        be64_bytes(n)
    } else {
        le64_bytes(n)
    }
}

/// The number fits in 16 bits.
pub open spec fn is_u16(n: int) -> bool {
    0 <= n < 0x1_0000
}

/// The number fits in 24 bits.
pub open spec fn is_u24(n: int) -> bool {
    0 <= n < 0x100_0000
}

/// The number fits in 32 bits.
pub open spec fn is_u32(n: int) -> bool {
    0 <= n < 0x1_0000_0000
}

/// The number fits in 64 bits.
pub open spec fn is_u64(n: int) -> bool {
    0 <= n < 0x1_0000_0000_0000_0000
}

/// Of two parts in a row the first stands at the place, and the second behind it.
pub broadcast proof fn lemma_parts(s: Seq<u8>, pos: int, a: Seq<u8>, b: Seq<u8>)
    requires
        #[trigger] holds_at(s, pos, a + b),
    ensures
        holds_at(s, pos, a),
        holds_at(s, pos + a.len(), b),
{
    let both = s.subrange(pos, pos + (a + b).len());
    assert(s.subrange(pos, pos + a.len()) == both.subrange(0, a.len() as int));
    assert(both.subrange(0, a.len() as int) == a);
    assert(s.subrange(pos + a.len(), pos + a.len() + b.len()) == both.subrange(
        a.len() as int,
        (a + b).len() as int,
    ));
    assert(both.subrange(a.len() as int, (a + b).len() as int) == b);
}

/// Two parts in a row stand where the first does and the second behind it.
pub proof fn lemma_whole(s: Seq<u8>, pos: int, a: Seq<u8>, b: Seq<u8>)
    requires
        holds_at(s, pos, a),
        holds_at(s, pos + a.len(), b),
    ensures
        holds_at(s, pos, a + b),
{
    assert(s.subrange(pos, pos + (a + b).len()) == a + b) by {
        assert forall|i: int| 0 <= i < (a + b).len() implies s[pos + i] == #[trigger] (a + b)[i] by {
            if i < a.len() {
                assert(a[i] == s.subrange(pos, pos + a.len())[i]);
            } else {
                assert(b[i - a.len()] == s.subrange(pos + a.len(), pos + a.len() + b.len())[i
                    - a.len()]);
            }
        }
    }
}

/// A part that stands somewhere has its bytes there.
pub proof fn lemma_byte(s: Seq<u8>, pos: int, part: Seq<u8>, i: int)
    requires
        holds_at(s, pos, part),
        0 <= i < part.len(),
    ensures
        s[pos + i] == part[i],
{
    assert(s.subrange(pos, pos + part.len())[i] == part[i]);
}

pub broadcast proof fn lemma_reads_byte(s: Seq<u8>, pos: int, b: u8)
    requires
        #[trigger] holds_at(s, pos, seq![b]),
    ensures
        s[pos] == b,
{
    lemma_byte(s, pos, seq![b], 0);
}

pub broadcast proof fn lemma_reads_le16(s: Seq<u8>, pos: int, n: int)
    requires
        #[trigger] holds_at(s, pos, le16_bytes(n)),
        is_u16(n),
    ensures
        le16(s, pos) == n,
{
    lemma_byte(s, pos, le16_bytes(n), 0);
    lemma_byte(s, pos, le16_bytes(n), 1);
}

pub broadcast proof fn lemma_reads_be16(s: Seq<u8>, pos: int, n: int)
    requires
        #[trigger] holds_at(s, pos, be16_bytes(n)),
        is_u16(n),
    ensures
        be16(s, pos) == n,
{
    lemma_byte(s, pos, be16_bytes(n), 0);
    lemma_byte(s, pos, be16_bytes(n), 1);
}

pub broadcast proof fn lemma_reads_le24(s: Seq<u8>, pos: int, n: int)
    requires
        #[trigger] holds_at(s, pos, le24_bytes(n)),
        is_u24(n),
    ensures
        le24(s, pos) == n,
{
    lemma_byte(s, pos, le24_bytes(n), 0);
    lemma_byte(s, pos, le24_bytes(n), 1);
    lemma_byte(s, pos, le24_bytes(n), 2);
}

pub broadcast proof fn lemma_reads_be24(s: Seq<u8>, pos: int, n: int)
    requires
        #[trigger] holds_at(s, pos, be24_bytes(n)),
        is_u24(n),
    ensures
        be24(s, pos) == n,
{
    lemma_byte(s, pos, be24_bytes(n), 0);
    lemma_byte(s, pos, be24_bytes(n), 1);
    lemma_byte(s, pos, be24_bytes(n), 2);
}

pub broadcast proof fn lemma_reads_le32(s: Seq<u8>, pos: int, n: int)
    requires
        #[trigger] holds_at(s, pos, le32_bytes(n)),
        is_u32(n),
    ensures
        le32(s, pos) == n,
{
    lemma_byte(s, pos, le32_bytes(n), 0);
    lemma_byte(s, pos, le32_bytes(n), 1);
    lemma_byte(s, pos, le32_bytes(n), 2);
    lemma_byte(s, pos, le32_bytes(n), 3);
}

pub broadcast proof fn lemma_reads_be32(s: Seq<u8>, pos: int, n: int)
    requires
        #[trigger] holds_at(s, pos, be32_bytes(n)),
        is_u32(n),
    ensures
        be32(s, pos) == n,
{
    lemma_byte(s, pos, be32_bytes(n), 0);
    lemma_byte(s, pos, be32_bytes(n), 1);
    lemma_byte(s, pos, be32_bytes(n), 2);
    lemma_byte(s, pos, be32_bytes(n), 3);
}

pub broadcast proof fn lemma_reads_le64(s: Seq<u8>, pos: int, n: int)
    requires
        #[trigger] holds_at(s, pos, le64_bytes(n)),
        is_u64(n),
    ensures
        le64(s, pos) == n,
{
    lemma_parts(s, pos, le32_bytes(n % 0x1_0000_0000), le32_bytes(n / 0x1_0000_0000));
    lemma_reads_le32(s, pos, n % 0x1_0000_0000);
    lemma_reads_le32(s, pos + 4, n / 0x1_0000_0000);
}

pub broadcast proof fn lemma_reads_be64(s: Seq<u8>, pos: int, n: int)
    requires
        #[trigger] holds_at(s, pos, be64_bytes(n)),
        is_u64(n),
    ensures
        be64(s, pos) == n,
{
    lemma_parts(s, pos, be32_bytes(n / 0x1_0000_0000), be32_bytes(n % 0x1_0000_0000));
    lemma_reads_be32(s, pos, n / 0x1_0000_0000);
    lemma_reads_be32(s, pos + 4, n % 0x1_0000_0000);
}

pub broadcast proof fn lemma_reads_num32(s: Seq<u8>, pos: int, n: int, is_be: bool)
    requires
        #[trigger] holds_at(s, pos, num32_bytes(n, is_be)),
        is_u32(n),
    ensures
        num32(s, pos, is_be) == n,
{
    reveal(num32_bytes);
    if is_be {
        lemma_reads_be32(s, pos, n);
    } else {
        lemma_reads_le32(s, pos, n);
    }
}

pub broadcast proof fn lemma_reads_num64(s: Seq<u8>, pos: int, n: int, is_be: bool)
    requires
        #[trigger] holds_at(s, pos, num64_bytes(n, is_be)),
        is_u64(n),
    ensures
        num64(s, pos, is_be) == n,
{
    reveal(num64_bytes);
    if is_be {
        lemma_reads_be64(s, pos, n);
    } else {
        lemma_reads_le64(s, pos, n);
    }
}

/// How long a number is as bytes.
pub broadcast proof fn lemma_len_64(n: int)
    ensures
        #[trigger] le64_bytes(n).len() == 8,
{
}

/// How long a number is as bytes.
pub broadcast proof fn lemma_len_be64(n: int)
    ensures
        #[trigger] be64_bytes(n).len() == 8,
{
}

/// How long a number is as bytes.
pub broadcast proof fn lemma_len_num32(n: int, is_be: bool)
    ensures
        #[trigger] num32_bytes(n, is_be).len() == 4,
{
    reveal(num32_bytes);
}

/// How long a number is as bytes.
pub broadcast proof fn lemma_len_num64(n: int, is_be: bool)
    ensures
        #[trigger] num64_bytes(n, is_be).len() == 8,
{
    reveal(num64_bytes);
}

/// Reading a number back gives the number, and parts stand behind each other.
pub broadcast group group_reads {
    lemma_parts,
    lemma_reads_byte,
    lemma_reads_le16,
    lemma_reads_be16,
    lemma_reads_le24,
    lemma_reads_be24,
    lemma_reads_le32,
    lemma_reads_be32,
    lemma_reads_le64,
    lemma_reads_be64,
    lemma_reads_num32,
    lemma_reads_num64,
    lemma_len_64,
    lemma_len_be64,
    lemma_len_num32,
    lemma_len_num64,
}

/// What is read as a number was written as that number.
pub proof fn lemma_be32_back(s: Seq<u8>, pos: int)
    requires
        0 <= pos,
        pos + 4 <= s.len(),
    ensures
        s.subrange(pos, pos + 4) == be32_bytes(be32(s, pos)),
        is_u32(be32(s, pos)),
{
    let (a, b, c, d) = (s[pos] as int, s[pos + 1] as int, s[pos + 2] as int, s[pos + 3] as int);
    let n = 0x100_0000 * a + 0x1_0000 * b + 0x100 * c + d;
    assert(be32(s, pos) == n);
    assert(n / 0x100_0000 == a && n / 0x1_0000 == 0x100 * a + b && n / 0x100 == 0x1_0000 * a + 0x100 * b
        + c);
    assert(s.subrange(pos, pos + 4) =~= be32_bytes(n));
}

/// A whole sequence stands at its start.
pub proof fn lemma_holds_itself(s: Seq<u8>)
    ensures
        holds_at(s, 0, s),
{
    assert(s.subrange(0, s.len() as int) == s);
}

} // verus!
