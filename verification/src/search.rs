//! The first occurrence of a byte or of a byte string.
use vstd::prelude::*;

verus! {

broadcast use crate::slices::slice_len_bound;

/// `needle` stands at offset `i` of `s`.
pub open spec fn occurs_at(s: Seq<u8>, needle: Seq<u8>, i: int) -> bool {
    0 <= i && i + needle.len() <= s.len() && s.subrange(i, i + needle.len()) == needle
}

/// The smallest offset from `from` on where `s` holds the byte `b`.
pub open spec fn first_byte(s: Seq<u8>, from: int, b: u8) -> Option<int>
    decreases s.len() - from,
{
    if from < 0 || from >= s.len() {
        None
    } else if s[from] == b {
        Some(from)
    } else {
        first_byte(s, from + 1, b)
    }
}

/// The smallest offset from `from` on where `s` holds the byte string `needle`.
pub open spec fn first_occurrence(s: Seq<u8>, from: int, needle: Seq<u8>) -> Option<int>
    decreases s.len() - from + 1,
{
    if from < 0 || from > s.len() {
        None
    } else if occurs_at(s, needle, from) {
        Some(from)
    } else {
        first_occurrence(s, from + 1, needle)
    }
}

/// `first_byte` finds `i` if `i` holds the byte and nothing before it does.
pub proof fn lemma_first_byte_found(s: Seq<u8>, from: int, b: u8, i: int)
    requires
        0 <= from <= i < s.len(),
        s[i] == b,
        forall|j: int| from <= j < i ==> s[j] != b,
    ensures
        first_byte(s, from, b) == Some(i),
    decreases i - from,
{
    if from < i {
        lemma_first_byte_found(s, from + 1, b, i);
    }
}

/// `first_byte` finds nothing if no byte from `from` on is `b`.
pub proof fn lemma_first_byte_absent(s: Seq<u8>, from: int, b: u8)
    requires
        forall|j: int| from <= j < s.len() ==> s[j] != b,
    ensures
        first_byte(s, from, b) is None,
    decreases s.len() - from,
{
    if 0 <= from < s.len() {
        lemma_first_byte_absent(s, from + 1, b);
    }
}

/// What `first_byte` finds holds the byte, and nothing before it does.
pub proof fn lemma_first_byte_is_first(s: Seq<u8>, from: int, b: u8)
    ensures
        first_byte(s, from, b) matches Some(i) ==> {
            &&& 0 <= from <= i < s.len()
            &&& s[i] == b
            &&& forall|j: int| from <= j < i ==> s[j] != b
        },
        first_byte(s, from, b) is None && 0 <= from ==> forall|j: int|
            from <= j < s.len() ==> s[j] != b,
    decreases s.len() - from,
{
    if 0 <= from < s.len() && s[from] != b {
        lemma_first_byte_is_first(s, from + 1, b);
    }
}

/// `first_occurrence` finds `i` if `needle` stands there and nowhere before.
pub proof fn lemma_first_occurrence_found(s: Seq<u8>, from: int, needle: Seq<u8>, i: int)
    requires
        0 <= from <= i,
        occurs_at(s, needle, i),
        forall|j: int| from <= j < i ==> !occurs_at(s, needle, j),
    ensures
        first_occurrence(s, from, needle) == Some(i),
    decreases i - from,
{
    if from < i {
        lemma_first_occurrence_found(s, from + 1, needle, i);
    }
}

/// `first_occurrence` finds nothing if `needle` stands nowhere from `from` on.
pub proof fn lemma_first_occurrence_absent(s: Seq<u8>, from: int, needle: Seq<u8>)
    requires
        forall|j: int| from <= j <= s.len() ==> !occurs_at(s, needle, j),
    ensures
        first_occurrence(s, from, needle) is None,
    decreases s.len() - from + 1,
{
    if 0 <= from <= s.len() {
        lemma_first_occurrence_absent(s, from + 1, needle);
    }
}

/// What `first_occurrence` finds is an occurrence, and the first one.
pub proof fn lemma_first_occurrence_is_first(s: Seq<u8>, from: int, needle: Seq<u8>)
    ensures
        first_occurrence(s, from, needle) matches Some(i) ==> {
            &&& 0 <= from <= i
            &&& occurs_at(s, needle, i)
            &&& forall|j: int| from <= j < i ==> !occurs_at(s, needle, j)
        },
        first_occurrence(s, from, needle) is None && 0 <= from ==> forall|j: int|
            from <= j ==> !occurs_at(s, needle, j),
    decreases s.len() - from + 1,
{
    if 0 <= from <= s.len() && !occurs_at(s, needle, from) {
        lemma_first_occurrence_is_first(s, from + 1, needle);
    }
}

/// `memchr::memchr`: the offset of the first byte of `haystack` that equals
/// `b`, or nothing if there is none.
#[verifier::external_body]
fn memchr_first(b: u8, haystack: &[u8]) -> (r: Option<usize>)
    ensures
        r matches Some(i) ==> i < haystack@.len() && haystack@[i as int] == b && forall|j: int|
            0 <= j < i ==> haystack@[j] != b,
        r is None ==> forall|j: int| 0 <= j < haystack@.len() ==> haystack@[j] != b,
{
    memchr::memchr(b, haystack)
}

/// `memchr::memmem::find`: the offset of the first occurrence of `needle` in
/// `haystack`, or nothing if there is none.
#[verifier::external_body]
fn memmem_first(haystack: &[u8], needle: &[u8]) -> (r: Option<usize>)
    ensures
        r matches Some(i) ==> occurs_at(haystack@, needle@, i as int) && forall|j: int|
            0 <= j < i ==> !occurs_at(haystack@, needle@, j),
        r is None ==> forall|j: int| !occurs_at(haystack@, needle@, j),
{
    memchr::memmem::find(haystack, needle)
}

/// The first offset from `from` on where `data` holds the byte `b`.
pub fn find_byte(data: &[u8], from: usize, b: u8) -> (r: Option<usize>)
    ensures
        r is Some <==> first_byte(data@, from as int, b) is Some,
        r matches Some(i) ==> first_byte(data@, from as int, b) == Some(i as int) && from <= i
            < data@.len() && data@[i as int] == b,
{
    if from > data.len() {
        return None;
    }
    let rest = vstd::slice::slice_subrange(data, from, data.len());
    match memchr_first(b, rest) {
        Some(rel) => {
            proof {
                let i = from + rel;
                assert(data@[i] == rest@[rel as int]);
                assert forall|j: int| from <= j < i implies data@[j] != b by {
                    assert(rest@[j - from] == data@[j]);
                }
                lemma_first_byte_found(data@, from as int, b, i);
            }
            Some(from + rel)
        },
        None => {
            proof {
                assert forall|j: int| from <= j < data@.len() implies data@[j] != b by {
                    assert(rest@[j - from] == data@[j]);
                }
                lemma_first_byte_absent(data@, from as int, b);
            }
            None
        },
    }
}

/// The first offset from `from` on where `data` holds `needle`.
pub fn find_bytes(data: &[u8], from: usize, needle: &[u8]) -> (r: Option<usize>)
    ensures
        r is Some <==> first_occurrence(data@, from as int, needle@) is Some,
        r matches Some(i) ==> first_occurrence(data@, from as int, needle@) == Some(i as int) && from
            <= i && i + needle@.len() <= data@.len(),
{
    if from > data.len() {
        return None;
    }
    let rest = vstd::slice::slice_subrange(data, from, data.len());
    proof {
        assert forall|j: int| from <= j implies occurs_at(data@, needle@, j) == occurs_at(
            rest@,
            needle@,
            j - from,
        ) by {
            if j + needle@.len() <= data@.len() {
                assert(data@.subrange(j, j + needle@.len()) == rest@.subrange(
                    j - from,
                    j - from + needle@.len(),
                ));
            }
        }
    }
    match memmem_first(rest, needle) {
        Some(rel) => {
            proof {
                lemma_first_occurrence_found(data@, from as int, needle@, from + rel);
            }
            Some(from + rel)
        },
        None => {
            proof {
                lemma_first_occurrence_absent(data@, from as int, needle@);
            }
            None
        },
    }
}

} // verus!
