//! Searching for many byte strings at once.
use vstd::prelude::*;
use crate::search::occurs_at;

verus! {

/// The automaton of `aho_corasick`, as an opaque value.
#[verifier::external_type_specification]
#[verifier::external_body]
pub struct ExAhoCorasick(aho_corasick::AhoCorasick);

/// The contents of a list of byte strings.
pub open spec fn bytes_of(patterns: Seq<&'static [u8]>) -> Seq<Seq<u8>> {
    patterns.map_values(|pattern: &'static [u8]| pattern@)
}

/// The byte strings that an automaton searches for.
pub uninterp spec fn patterns_of(automaton: aho_corasick::AhoCorasick) -> Seq<Seq<u8>>;

/// How many bytes these byte strings have together.
pub open spec fn total_len(patterns: Seq<Seq<u8>>) -> int
    decreases patterns.len(),
{
    if patterns.len() == 0 {
        0
    } else {
        total_len(patterns.drop_last()) + patterns.last().len()
    }
}

/// No byte string is empty, and together they have at most 2^15 bytes.
pub open spec fn is_small(patterns: Seq<Seq<u8>>) -> bool {
    &&& forall|k: int| 0 <= k < patterns.len() ==> (#[trigger] patterns[k]).len() > 0
    &&& total_len(patterns) <= 0x8000
}

/// `aho_corasick::AhoCorasick::new`: an automaton for these byte strings, with
/// the default semantics, under which overlapping matches can be asked for.
///
/// It fails only where a byte string is too long or an index into one of its
/// tables would pass 2^31 - 2. Byte strings that are not empty and have `n` bytes
/// together make at most `n` patterns, `n + 4` states, `n + 769` transitions,
/// `256 * (n + 4) + 1` dense transitions and, as a state has each pattern at most
/// once, `n * n + 1` matches, so with `n` at most 2^15 it succeeds. Whether it
/// succeeds on more than that is not stated.
#[verifier::external_body]
pub(crate) fn new_automaton(patterns: &Vec<&'static [u8]>) -> (r: Option<aho_corasick::AhoCorasick>)
    ensures
        r matches Some(automaton) ==> patterns_of(automaton) == bytes_of(patterns@),
        is_small(bytes_of(patterns@)) ==> r is Some,
{
    aho_corasick::AhoCorasick::new(patterns).ok()
}

/// `aho_corasick::AhoCorasick::find_overlapping_iter`: every occurrence of every
/// byte string in `haystack`, each once, as the index of the byte string and the
/// offset of the occurrence. In which order they come is not stated.
#[verifier::external_body]
pub(crate) fn overlapping_matches(automaton: &aho_corasick::AhoCorasick, haystack: &[u8]) -> (r: Vec<
    (usize, usize),
>)
    requires
        forall|k: int|
            0 <= k < patterns_of(*automaton).len() ==> (#[trigger] patterns_of(*automaton)[k]).len() > 0,
    ensures
        forall|i: int|
            0 <= i < r@.len() ==> (#[trigger] r@[i]).0 < patterns_of(*automaton).len() && occurs_at(
                haystack@,
                patterns_of(*automaton)[r@[i].0 as int],
                r@[i].1 as int,
            ),
        forall|k: usize, at: usize|
            k < patterns_of(*automaton).len() && occurs_at(
                haystack@,
                patterns_of(*automaton)[k as int],
                at as int,
            ) ==> #[trigger] r@.contains((k, at)),
        r@.no_duplicates(),
{
    automaton.find_overlapping_iter(haystack).map(|m| (m.pattern().as_usize(), m.start())).collect()
}

/// `a` comes before `b` or equals it, in the order of pairs.
pub open spec fn pair_le(a: (usize, usize), b: (usize, usize)) -> bool {
    a.0 < b.0 || (a.0 == b.0 && a.1 <= b.1)
}

/// `a` comes before `b` in the order of pairs.
pub open spec fn pair_lt(a: (usize, usize), b: (usize, usize)) -> bool {
    a.0 < b.0 || (a.0 == b.0 && a.1 < b.1)
}

/// `slice::sort` on pairs of integers: the same pairs, in ascending order.
#[verifier::external_body]
pub(crate) fn sort_pairs(pairs: &mut Vec<(usize, usize)>)
    ensures
        final(pairs)@.to_multiset() == old(pairs)@.to_multiset(),
        forall|i: int, j: int|
            0 <= i < j < final(pairs)@.len() ==> pair_le(
                #[trigger] final(pairs)@[i],
                #[trigger] final(pairs)@[j],
            ),
{
    pairs.sort()
}

} // verus!
