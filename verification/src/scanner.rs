//! Finding embedded files.
use vstd::prelude::*;
use vstd::seq_lib::lemma_fold_right_permutation;
use vstd::string::*;
use crate::automaton::{
    bytes_of, is_small, new_automaton, overlapping_matches, pair_le, pair_lt, patterns_of,
    sort_pairs, total_len,
};
use crate::extent_laws::law_validated_end_inside;
use crate::names::name_of;
use crate::search::{find_bytes, first_occurrence, occurs_at};
use crate::signature::{all_wf, sort_by_name, sorted_by_name, Signature};

verus! {

broadcast use crate::slices::slice_len_bound;

/// The least size of a chunk that is searched on its own.
pub const MIN_CHUNK_SIZE: usize = 0x10_0000;

/// An embedded file that was found.
pub struct Finding {
    pub format: String,
    pub description: String,
    pub offset_start: usize,
    /// The offset of the last byte.
    pub offset_end: usize,
    pub size: usize,
    /// In percent.
    pub confidence: u8,
    /// The name that the structure of the file gives, where it gives one.
    pub name: Option<String>,
}

/// The mathematical content of a [`Finding`].
pub ghost struct FindingModel {
    pub format: Seq<char>,
    pub description: Seq<char>,
    pub offset_start: int,
    pub offset_end: int,
    pub size: int,
    pub confidence: int,
    pub name: Option<Seq<char>>,
}

impl View for Finding {
    type V = FindingModel;

    open spec fn view(&self) -> FindingModel {
        FindingModel {
            format: self.format@,
            description: self.description@,
            offset_start: self.offset_start as int,
            offset_end: self.offset_end as int,
            size: self.size as int,
            confidence: self.confidence as int,
            name: name_of(self.name),
        }
    }
}

impl Finding {
    /// The same finding once more.
    pub fn copy(&self) -> (r: Finding)
        ensures
            r@ == self@,
    {
        Finding {
            format: self.format.clone(),
            description: self.description.clone(),
            offset_start: self.offset_start,
            offset_end: self.offset_end,
            size: self.size,
            confidence: self.confidence,
            name: match &self.name {
                Some(name) => Some(name.clone()),
                None => None,
            },
        }
    }
}

/// The contents of a list of findings.
pub open spec fn findings_view(findings: Seq<Finding>) -> Seq<FindingModel> {
    findings.map_values(|f: Finding| f@)
}

/// A match before its end is settled.
pub struct PendingFinding {
    pub format: &'static str,
    pub description: &'static str,
    pub offset_start: usize,
    pub confidence: u8,
    /// The offset of the last byte, where the validator or the end marker gives
    /// it.
    pub resolved_end: Option<usize>,
    pub name: Option<String>,
}

/// The mathematical content of a [`PendingFinding`].
pub ghost struct PendingModel {
    pub format: Seq<char>,
    pub description: Seq<char>,
    pub offset_start: int,
    pub confidence: int,
    pub resolved_end: Option<int>,
    pub name: Option<Seq<char>>,
}

impl View for PendingFinding {
    type V = PendingModel;

    open spec fn view(&self) -> PendingModel {
        PendingModel {
            format: self.format@,
            description: self.description@,
            offset_start: self.offset_start as int,
            confidence: self.confidence as int,
            resolved_end: match self.resolved_end {
                Some(end) => Some(end as int),
                None => None,
            },
            name: name_of(self.name),
        }
    }
}

impl PendingFinding {
    /// The offsets leave room for a size.
    pub open spec fn wf(self) -> bool {
        &&& self.offset_start < usize::MAX
        &&& self.resolved_end matches Some(end) ==> end < usize::MAX
    }
}

/// The contents of a list of matches.
pub open spec fn pending_view(pending: Seq<PendingFinding>) -> Seq<PendingModel> {
    pending.map_values(|f: PendingFinding| f@)
}

/// The end of the file at `start` and the confidence in it: what the validator
/// finds; else the first end marker behind the magic bytes; else nothing.
pub open spec fn resolved(signature: Signature, s: Seq<u8>, start: int) -> (Option<int>, int) {
    let validated = match signature.validator {
        Some(validator) => validator.extent(s, start),
        None => None,
    };
    let magic_end = start + signature.relative_offset + signature.magic@.len();
    let marked = match signature.end_marker {
        Some(marker) => match first_occurrence(s, magic_end, marker@) {
            Some(at) => Some(at + marker@.len() - 1),
            None => None,
        },
        None => None,
    };
    match validated {
        Some((end, confidence)) => (Some(end), confidence),
        None => match marked {
            Some(end) => (Some(end), 75),
            None => (None, 40),
        },
    }
}

/// The match of a signature for a file at `start`.
pub open spec fn pending_of(signature: Signature, s: Seq<u8>, start: int) -> PendingModel {
    PendingModel {
        format: signature.name@,
        description: signature.description@,
        offset_start: start,
        confidence: resolved(signature, s, start).1,
        resolved_end: resolved(signature, s, start).0,
        name: match signature.name_extractor {
            Some(extractor) => extractor.name(s, start),
            None => None,
        },
    }
}

/// The first start from index `i` on that is greater than `start`.
pub open spec fn next_start(pending: Seq<PendingModel>, i: int, start: int) -> Option<int>
    decreases pending.len() - i,
{
    if i < 0 || i >= pending.len() {
        None
    } else if pending[i].offset_start > start {
        Some(pending[i].offset_start)
    } else {
        next_start(pending, i + 1, start)
    }
}

/// Where match `i` ends in `len` bytes of data: where it was resolved to end;
/// else before the next match with a greater start; else with the data. Never
/// before its start.
pub open spec fn settled_end(pending: Seq<PendingModel>, i: int, len: int) -> int {
    let start = pending[i].offset_start;
    let end = match pending[i].resolved_end {
        Some(end) => end,
        None => match next_start(pending, i + 1, start) {
            Some(next) => next - 1,
            None => if len > 0 {
                len - 1
            } else {
                0
            },
        },
    };
    if end > start {
        end
    } else {
        start
    }
}

/// Match `i` as a finding.
pub open spec fn finding_of(pending: Seq<PendingModel>, i: int, len: int) -> FindingModel {
    let end = settled_end(pending, i, len);
    FindingModel {
        format: pending[i].format,
        description: pending[i].description,
        offset_start: pending[i].offset_start,
        offset_end: end,
        size: end - pending[i].offset_start + 1,
        confidence: pending[i].confidence,
        name: pending[i].name,
    }
}

/// All matches as findings.
pub open spec fn findings_of(pending: Seq<PendingModel>, len: int) -> Seq<FindingModel> {
    Seq::new(pending.len(), |i: int| finding_of(pending, i, len))
}

/// The match of a signature for a file at `start`.
pub fn resolve_finding(data: &[u8], start: usize, signature: &Signature) -> (r: PendingFinding)
    requires
        signature.wf(),
        start < data@.len(),
    ensures
        r@ == pending_of(*signature, data@, start as int),
        r.wf(),
{
    proof {
        if let Some(validator) = signature.validator {
            law_validated_end_inside(validator, data@, start as int);
        }
    }
    let mut resolved_end: Option<usize> = None;
    let mut confidence: u8 = 40;
    let validated = match signature.validator {
        Some(validator) => validator.validate(data, start),
        None => None,
    };
    match validated {
        Some((end, certain)) => {
            resolved_end = Some(end);
            confidence = certain;
        },
        None => {
            if let Some(marker) = signature.end_marker {
                let magic_len = signature.relative_offset + signature.magic.len();
                if let Some(magic_end) = start.checked_add(magic_len) {
                    if let Some(at) = find_bytes(data, magic_end, marker) {
                        resolved_end = Some(at + (marker.len() - 1));
                        confidence = 75;
                    }
                }
            }
        },
    }
    let name = match signature.name_extractor {
        Some(extractor) => extractor.extract(data, start),
        None => None,
    };
    PendingFinding {
        format: signature.name,
        description: signature.description,
        offset_start: start,
        confidence,
        resolved_end,
        name,
    }
}

/// Settles the ends of all matches.
pub fn apply_fallback_ends(pending: Vec<PendingFinding>, file_len: usize) -> (r: Vec<Finding>)
    requires
        forall|i: int| 0 <= i < pending@.len() ==> (#[trigger] pending@[i]).wf(),
    ensures
        findings_view(r@) == findings_of(pending_view(pending@), file_len as int),
{
    let ghost model = pending_view(pending@);
    let mut out: Vec<Finding> = Vec::new();
    let mut i: usize = 0;
    while i < pending.len()
        invariant
            i <= pending@.len(),
            model == pending_view(pending@),
            forall|k: int| 0 <= k < pending@.len() ==> (#[trigger] pending@[k]).wf(),
            findings_view(out@) =~= findings_of(model, file_len as int).take(i as int),
        decreases pending@.len() - i,
    {
        let start = pending[i].offset_start;
        assert(model[i as int] == pending@[i as int]@);
        assert(pending@[i as int].wf());
        let end = match pending[i].resolved_end {
            Some(end) => end,
            None => {
                let mut j = i + 1;
                while j < pending.len() && pending[j].offset_start <= start
                    invariant
                        i < j <= pending@.len(),
                        model == pending_view(pending@),
                        next_start(model, i + 1, start as int) == next_start(
                            model,
                            j as int,
                            start as int,
                        ),
                    decreases pending@.len() - j,
                {
                    assert(model[j as int] == pending@[j as int]@);
                    j = j + 1;
                }
                if j < pending.len() {
                    assert(model[j as int] == pending@[j as int]@);
                    pending[j].offset_start - 1
                } else if file_len > 0 {
                    file_len - 1
                } else {
                    0
                }
            },
        };
        let offset_end = if end > start {
            end
        } else {
            start
        };
        let finding = Finding {
            format: pending[i].format.to_owned(),
            description: pending[i].description.to_owned(),
            offset_start: start,
            offset_end,
            size: offset_end - start + 1,
            confidence: pending[i].confidence,
            name: match &pending[i].name {
                Some(name) => Some(name.clone()),
                None => None,
            },
        };
        let ghost before = findings_view(out@);
        assert(finding@ == finding_of(model, i as int, file_len as int));
        out.push(finding);
        assert(findings_view(out@) == before.push(finding_of(model, i as int, file_len as int)));
        i = i + 1;
    }
    assert(findings_of(model, file_len as int).take(i as int) == findings_of(model, file_len as int));
    out
}

/// The size of the chunks that `len` bytes are searched in by that many threads:
/// four for each thread, but none too small.
#[verifier::opaque]
pub open spec fn chunk_size(len: int, threads: int) -> int {
    let chunks = if threads < 1 {
        1
    } else if 4 * threads > usize::MAX {
        usize::MAX as int
    } else {
        4 * threads
    };
    if len / chunks > MIN_CHUNK_SIZE {
        len / chunks
    } else {
        MIN_CHUNK_SIZE as int
    }
}

/// The smaller of two numbers.
pub open spec fn smaller(a: int, b: int) -> int {
    if a < b {
        a
    } else {
        b
    }
}

/// The chunks of `len` bytes from `start` on, each as the start and the end of
/// its core and the end of the part that is searched: the cores follow each
/// other, and each is searched `overlap` bytes further.
pub open spec fn chunks_from(start: int, len: int, size: int, overlap: int) -> Seq<(int, int, int)>
    decreases len - start,
{
    if start >= len || size <= 0 {
        Seq::empty()
    } else {
        let end = smaller(start + size, len);
        seq![(start, end, smaller(end + overlap, len))] + chunks_from(end, len, size, overlap)
    }
}

/// The contents of a list of chunks.
pub open spec fn ranges_view(ranges: Seq<(usize, usize, usize)>) -> Seq<(int, int, int)> {
    ranges.map_values(|r: (usize, usize, usize)| (r.0 as int, r.1 as int, r.2 as int))
}

/// The cores cover `len` bytes without gap or overlap, and each chunk is
/// searched `overlap` bytes beyond its core or to the end.
pub open spec fn covers(ranges: Seq<(usize, usize, usize)>, len: int, overlap: int) -> bool {
    &&& forall|i: int|
        0 <= i < ranges.len() ==> (#[trigger] ranges[i]).0 < ranges[i].1 <= ranges[i].2 <= len
            && ranges[i].2 == smaller(ranges[i].1 + overlap, len)
    &&& forall|i: int, j: int|
        0 <= i && j == i + 1 && j < ranges.len() ==> (#[trigger] ranges[j]).0 == (#[trigger] ranges[i]).1
    &&& ranges.len() == 0 ==> len == 0
    &&& ranges.len() > 0 ==> ranges[0].0 == 0 && ranges.last().1 == len
}

fn chunk_size_for(len: usize, threads: usize) -> (r: usize)
    ensures
        r == chunk_size(len as int, threads as int),
        r > 0,
{
    proof {
        reveal(chunk_size);
    }
    let chunks: usize = if threads < 1 {
        1
    } else if threads > usize::MAX / 4 {
        usize::MAX
    } else {
        4 * threads
    };
    if len / chunks > MIN_CHUNK_SIZE {
        len / chunks
    } else {
        MIN_CHUNK_SIZE
    }
}

/// Divides `len` bytes into chunks for that many threads.
pub fn chunk_ranges(len: usize, overlap: usize, threads: usize) -> (r: Vec<(usize, usize, usize)>)
    ensures
        ranges_view(r@) == chunks_from(
            0,
            len as int,
            chunk_size(len as int, threads as int),
            overlap as int,
        ),
        covers(r@, len as int, overlap as int),
{
    let size = chunk_size_for(len, threads);
    let mut ranges: Vec<(usize, usize, usize)> = Vec::new();
    let ghost all = chunks_from(0, len as int, size as int, overlap as int);
    let mut start: usize = 0;
    assert(ranges_view(ranges@) + all == all);
    while start < len
        invariant
            0 < size,
            start <= len,
            all == ranges_view(ranges@) + chunks_from(
                start as int,
                len as int,
                size as int,
                overlap as int,
            ),
            forall|i: int|
                0 <= i < ranges@.len() ==> (#[trigger] ranges@[i]).0 < ranges@[i].1 <= ranges@[i].2
                    <= len && ranges@[i].2 == smaller(ranges@[i].1 + overlap, len as int),
            forall|i: int, j: int|
                0 <= i && j == i + 1 && j < ranges@.len() ==> (#[trigger] ranges@[j]).0 == (
                #[trigger] ranges@[i]).1,
            ranges@.len() > 0 ==> ranges@[0].0 == 0,
            start == if ranges@.len() == 0 {
                0
            } else {
                ranges@.last().1
            },
        decreases len - start,
    {
        let end = if size < len - start {
            start + size
        } else {
            len
        };
        let search_end = if overlap < len - end {
            end + overlap
        } else {
            len
        };
        let ghost before = ranges_view(ranges@);
        let ghost chunk = (start as int, end as int, search_end as int);
        ranges.push((start, end, search_end));
        proof {
            let rest = chunks_from(end as int, len as int, size as int, overlap as int);
            assert(ranges_view(ranges@) == before.push(chunk));
            assert(before + (seq![chunk] + rest) == before.push(chunk) + rest);
        }
        start = end;
    }
    proof {
        let done = ranges_view(ranges@);
        assert(done + Seq::<(int, int, int)>::empty() == done);
    }
    ranges
}

/// What a scan needs: the signatures in the order of their names, and an
/// automaton for their magic bytes.
pub struct Scanner {
    pub signatures: Vec<Signature>,
    pub automaton: aho_corasick::AhoCorasick,
}

/// The magic bytes of the signatures.
pub open spec fn magics(signatures: Seq<Signature>) -> Seq<Seq<u8>> {
    signatures.map_values(|signature: Signature| signature.magic@)
}

impl Scanner {
    /// The signatures are well formed and in order, and the automaton is theirs.
    pub open spec fn wf(self) -> bool {
        &&& all_wf(self.signatures@)
        &&& sorted_by_name(self.signatures@)
        &&& patterns_of(self.automaton) == magics(self.signatures@)
    }

    /// A scanner for these signatures. `None` if one of them is not well formed, or
    /// if the automaton cannot be built, which can only be where their magic bytes
    /// are more than 2^15 together.
    pub fn new(signatures: Vec<Signature>) -> (r: Option<Scanner>)
        ensures
            r matches Some(scanner) ==> scanner.wf() && scanner.signatures@.to_multiset()
                == signatures@.to_multiset(),
            !all_wf(signatures@) ==> r is None,
            all_wf(signatures@) && total_len(magics(signatures@)) <= 0x8000 ==> r is Some,
    {
        let mut k: usize = 0;
        while k < signatures.len()
            invariant
                k <= signatures@.len(),
                forall|j: int| 0 <= j < k ==> (#[trigger] signatures@[j]).wf(),
            decreases signatures@.len() - k,
        {
            if !signatures[k].is_sound() {
                return None;
            }
            k = k + 1;
        }
        let sorted = sort_by_name(signatures);
        proof {
            lemma_same_elements_wf(signatures@, sorted@);
            lemma_same_elements_total(signatures@, sorted@);
        }
        let mut patterns: Vec<&'static [u8]> = Vec::new();
        let mut i: usize = 0;
        while i < sorted.len()
            invariant
                i <= sorted@.len(),
                bytes_of(patterns@) =~= magics(sorted@).take(i as int),
            decreases sorted@.len() - i,
        {
            let ghost before = bytes_of(patterns@);
            patterns.push(sorted[i].magic);
            assert(bytes_of(patterns@) == before.push(sorted@[i as int].magic@));
            i = i + 1;
        }
        assert(magics(sorted@).take(i as int) == magics(sorted@));
        assert(total_len(magics(sorted@)) <= 0x8000 ==> is_small(bytes_of(patterns@)));
        match new_automaton(&patterns) {
            Some(automaton) => Some(Scanner { signatures: sorted, automaton }),
            None => None,
        }
    }
}

/// The same signatures in another order are still well formed.
proof fn lemma_same_elements_wf(a: Seq<Signature>, b: Seq<Signature>)
    requires
        all_wf(a),
        a.to_multiset() == b.to_multiset(),
    ensures
        all_wf(b),
{
    a.to_multiset_ensures();
    b.to_multiset_ensures();
    assert forall|k: int| 0 <= k < b.len() implies (#[trigger] b[k]).wf() by {
        assert(b.contains(b[k]));
        assert(b.to_multiset().count(b[k]) > 0);
        assert(a.contains(b[k]));
    }
}

/// Adding up the lengths of the magic bytes from the last to the first.
proof fn lemma_total_is_fold(signatures: Seq<Signature>, extra: int)
    ensures
        signatures.fold_right(|signature: Signature, sum: int| signature.magic@.len() + sum, extra)
            == total_len(magics(signatures)) + extra,
    decreases signatures.len(),
{
    if signatures.len() > 0 {
        let rest = signatures.drop_last();
        lemma_total_is_fold(rest, signatures.last().magic@.len() + extra);
        assert(magics(signatures).drop_last() == magics(rest));
    }
}

/// The same signatures in another order have as many magic bytes.
proof fn lemma_same_elements_total(a: Seq<Signature>, b: Seq<Signature>)
    requires
        a.to_multiset() == b.to_multiset(),
    ensures
        total_len(magics(a)) == total_len(magics(b)),
{
    lemma_total_is_fold(a, 0);
    lemma_total_is_fold(b, 0);
    lemma_fold_right_permutation(
        a,
        b,
        |signature: Signature, sum: int| signature.magic@.len() + sum,
        0,
    );
}

/// The length of the longest of the first `n` magic byte strings.
pub open spec fn longest_magic(signatures: Seq<Signature>, n: int) -> int
    decreases n,
{
    if n <= 0 {
        1
    } else {
        let before = longest_magic(signatures, n - 1);
        let len = signatures[n - 1].magic@.len() as int;
        if len > before {
            len
        } else {
            before
        }
    }
}

/// How far a chunk has to be searched beyond its core so that no magic byte
/// string is cut: one byte less than the longest of them.
pub fn chunk_overlap(signatures: &Vec<Signature>) -> (r: usize)
    ensures
        r == longest_magic(signatures@, signatures@.len() as int) - 1,
        forall|k: int| 0 <= k < signatures@.len() ==> (#[trigger] signatures@[k]).magic@.len() <= r + 1,
{
    let mut longest: usize = 1;
    let mut i: usize = 0;
    while i < signatures.len()
        invariant
            i <= signatures@.len(),
            1 <= longest == longest_magic(signatures@, i as int),
            forall|k: int| 0 <= k < i ==> (#[trigger] signatures@[k]).magic@.len() <= longest,
        decreases signatures@.len() - i,
    {
        let len = signatures[i].magic.len();
        if len > longest {
            longest = len;
        }
        i = i + 1;
    }
    longest - 1
}

/// The magic bytes of match `m` (start and signature) stand inside
/// `core_start..core_end` and end by `search_end`.
pub open spec fn in_chunk(
    signatures: Seq<Signature>,
    s: Seq<u8>,
    m: (usize, usize),
    core_start: int,
    core_end: int,
    search_end: int,
) -> bool {
    &&& m.1 < signatures.len()
    &&& signatures[m.1 as int].matches_at(s, m.0 as int)
    &&& core_start <= m.0 + signatures[m.1 as int].relative_offset < core_end
    &&& m.0 + signatures[m.1 as int].relative_offset + signatures[m.1 as int].magic@.len() <= search_end
}

/// The matches whose magic bytes begin in the core of a chunk, each once.
/// Those that begin behind the core belong to the next chunk.
pub fn find_in_chunk(
    scanner: &Scanner,
    data: &[u8],
    core_start: usize,
    core_end: usize,
    search_end: usize,
) -> (r: Vec<(usize, usize)>)
    requires
        scanner.wf(),
        core_start <= core_end <= search_end <= data@.len(),
    ensures
        forall|m: (usize, usize)|
            #[trigger] r@.contains(m) <==> in_chunk(
                scanner.signatures@,
                data@,
                m,
                core_start as int,
                core_end as int,
                search_end as int,
            ),
        r@.no_duplicates(),
{
    let ghost sigs = scanner.signatures@;
    let part = vstd::slice::slice_subrange(data, core_start, search_end);
    proof {
        assert forall|k: int| 0 <= k < patterns_of(scanner.automaton).len() implies (
        #[trigger] patterns_of(scanner.automaton)[k]).len() > 0 by {
            assert(sigs[k].wf());
        }
    }
    let found = overlapping_matches(&scanner.automaton, part);
    proof {
        assert forall|k: int, at: int| 0 <= k < sigs.len() && 0 <= at implies #[trigger] occurs_at(
            part@,
            sigs[k].magic@,
            at,
        ) == (occurs_at(data@, sigs[k].magic@, core_start + at) && core_start + at
            + sigs[k].magic@.len() <= search_end) by {
            let n = sigs[k].magic@.len();
            if core_start + at + n <= search_end {
                assert(part@.subrange(at, at + n) == data@.subrange(
                    core_start + at,
                    core_start + at + n,
                ));
            }
        }
    }
    let mut out: Vec<(usize, usize)> = Vec::new();
    let mut i: usize = 0;
    while i < found.len()
        invariant
            i <= found@.len(),
            scanner.wf(),
            sigs == scanner.signatures@,
            core_start <= core_end <= search_end <= data@.len(),
            part@ == data@.subrange(core_start as int, search_end as int),
            found@.no_duplicates(),
            forall|j: int|
                0 <= j < found@.len() ==> (#[trigger] found@[j]).0 < sigs.len() && occurs_at(
                    part@,
                    sigs[found@[j].0 as int].magic@,
                    found@[j].1 as int,
                ),
            forall|k: int, at: int|
                0 <= k < sigs.len() && 0 <= at ==> #[trigger] occurs_at(part@, sigs[k].magic@, at) == (
                occurs_at(data@, sigs[k].magic@, core_start + at) && core_start + at
                    + sigs[k].magic@.len() <= search_end),
            out@.no_duplicates(),
            forall|m: (usize, usize)|
                #[trigger] out@.contains(m) ==> m.1 < sigs.len() && in_chunk(
                    sigs,
                    data@,
                    m,
                    core_start as int,
                    core_end as int,
                    search_end as int,
                ) && found@.take(i as int).contains(
                    (m.1, (m.0 + sigs[m.1 as int].relative_offset - core_start) as usize),
                ),
            forall|j: int, m: (usize, usize)|
                0 <= j < i && in_chunk(
                    sigs,
                    data@,
                    m,
                    core_start as int,
                    core_end as int,
                    search_end as int,
                ) && (#[trigger] found@[j]) == (
                    m.1,
                    (m.0 + sigs[m.1 as int].relative_offset - core_start) as usize,
                ) ==> #[trigger] out@.contains(m),
        decreases found@.len() - i,
    {
        let (k, at) = found[i];
        let signature = scanner.signatures[k];
        assert(signature.wf());
        assert(occurs_at(part@, sigs[k as int].magic@, at as int));
        let magic_start = core_start + at;
        let ghost before = out@;
        let ghost taken = found@.take(i as int);
        assert(found@.take(i + 1) == taken.push((k, at)));
        if magic_start < core_end && magic_start >= signature.relative_offset {
            let m = (magic_start - signature.relative_offset, k);
            proof {
                if before.contains(m) {
                    let j = taken.index_of((k, at));
                    assert(taken.contains((k, at)));
                    assert(found@[j] == found@[i as int]);
                    assert(false);
                }
            }
            out.push(m);
            proof {
                assert forall|x: (usize, usize)| #[trigger] out@.contains(x) implies x.1 < sigs.len()
                    && in_chunk(
                    sigs,
                    data@,
                    x,
                    core_start as int,
                    core_end as int,
                    search_end as int,
                ) && found@.take(i + 1).contains(
                    (x.1, (x.0 + sigs[x.1 as int].relative_offset - core_start) as usize),
                ) by {
                    if x == m {
                        assert(found@.take(i + 1)[i as int] == (k, at));
                    } else {
                        let j = out@.index_of(x);
                        assert(before[j] == x);
                        assert(before.contains(x));
                        let y = (x.1, (x.0 + sigs[x.1 as int].relative_offset - core_start) as usize);
                        let t = taken.index_of(y);
                        assert(found@.take(i + 1)[t] == y);
                    }
                }
                assert forall|j: int, x: (usize, usize)|
                    0 <= j < i + 1 && in_chunk(
                        sigs,
                        data@,
                        x,
                        core_start as int,
                        core_end as int,
                        search_end as int,
                    ) && (#[trigger] found@[j]) == (
                        x.1,
                        (x.0 + sigs[x.1 as int].relative_offset - core_start) as usize,
                    ) implies #[trigger] out@.contains(x) by {
                    if j < i {
                        assert(before.contains(x));
                        let t = before.index_of(x);
                        assert(out@[t] == x);
                    } else {
                        assert(x == m);
                        assert(out@[before.len() as int] == m);
                    }
                }
            }
        } else {
            proof {
                assert forall|x: (usize, usize)| #[trigger] out@.contains(x) implies found@.take(
                    i + 1,
                ).contains(
                    (x.1, (x.0 + sigs[x.1 as int].relative_offset - core_start) as usize),
                ) by {
                    let y = (x.1, (x.0 + sigs[x.1 as int].relative_offset - core_start) as usize);
                    let t = taken.index_of(y);
                    assert(found@.take(i + 1)[t] == y);
                }
            }
        }
        i = i + 1;
    }
    proof {
        assert forall|m: (usize, usize)|
            in_chunk(
                sigs,
                data@,
                m,
                core_start as int,
                core_end as int,
                search_end as int,
            ) implies #[trigger] out@.contains(m) by {
            let at = (m.0 + sigs[m.1 as int].relative_offset - core_start) as usize;
            assert(occurs_at(part@, sigs[m.1 as int].magic@, at as int));
            assert(found@.contains((m.1, at)));
            let j = found@.index_of((m.1, at));
            assert(found@[j] == (m.1, at));
        }
    }
    out
}

/// `raw` holds every match of every signature in `s`, as start and signature,
/// and nothing else, in ascending order.
pub open spec fn is_match_list(signatures: Seq<Signature>, s: Seq<u8>, raw: Seq<(usize, usize)>) -> bool {
    &&& forall|m: (usize, usize)|
        #[trigger] raw.contains(m) <==> m.1 < signatures.len() && signatures[m.1 as int].matches_at(
            s,
            m.0 as int,
        )
    &&& forall|i: int, j: int|
        0 <= i < j < raw.len() ==> pair_lt(#[trigger] raw[i], #[trigger] raw[j])
}

/// The matches of the first `n` signatures for a file at `start`.
pub open spec fn matches_starting(signatures: Seq<Signature>, s: Seq<u8>, start: int, n: int) -> Seq<
    (usize, usize),
>
    decreases n,
{
    if n <= 0 {
        Seq::empty()
    } else if signatures[n - 1].matches_at(s, start) {
        matches_starting(signatures, s, start, n - 1).push((start as usize, (n - 1) as usize))
    } else {
        matches_starting(signatures, s, start, n - 1)
    }
}

/// The matches for files that start before `end`, in ascending order.
pub open spec fn matches_before(signatures: Seq<Signature>, s: Seq<u8>, end: int) -> Seq<(usize, usize)>
    decreases end,
{
    if end <= 0 {
        Seq::empty()
    } else {
        matches_before(signatures, s, end - 1) + matches_starting(
            signatures,
            s,
            end - 1,
            signatures.len() as int,
        )
    }
}

/// Every match of every signature in `s`, in ascending order.
pub open spec fn match_list(signatures: Seq<Signature>, s: Seq<u8>) -> Seq<(usize, usize)> {
    matches_before(signatures, s, s.len() as int)
}

proof fn lemma_matches_starting(signatures: Seq<Signature>, s: Seq<u8>, start: int, n: int)
    requires
        0 <= n <= signatures.len() <= usize::MAX,
        0 <= start <= usize::MAX,
    ensures
        ({
            let row = matches_starting(signatures, s, start, n);
            &&& forall|m: (usize, usize)|
                #[trigger] row.contains(m) <==> m.0 == start && m.1 < n
                    && signatures[m.1 as int].matches_at(s, start)
            &&& forall|i: int, j: int|
                0 <= i < j < row.len() ==> pair_lt(#[trigger] row[i], #[trigger] row[j])
        }),
    decreases n,
{
    let row = matches_starting(signatures, s, start, n);
    if n > 0 {
        lemma_matches_starting(signatures, s, start, n - 1);
        let before = matches_starting(signatures, s, start, n - 1);
        if signatures[n - 1].matches_at(s, start) {
            let last = (start as usize, (n - 1) as usize);
            assert(row == before.push(last));
            assert forall|m: (usize, usize)| #[trigger] row.contains(m) <==> m.0 == start && m.1 < n
                && signatures[m.1 as int].matches_at(s, start) by {
                if row.contains(m) {
                    let i = row.index_of(m);
                    if i < before.len() {
                        assert(before[i] == m);
                        assert(before.contains(m));
                    }
                }
                if m.0 == start && m.1 < n && signatures[m.1 as int].matches_at(s, start) {
                    if m.1 == n - 1 {
                        assert(row[before.len() as int] == m);
                    } else {
                        assert(before.contains(m));
                        let i = before.index_of(m);
                        assert(row[i] == m);
                    }
                }
            }
            assert forall|i: int, j: int| 0 <= i < j < row.len() implies pair_lt(
                #[trigger] row[i],
                #[trigger] row[j],
            ) by {
                assert(before.contains(before[i]));
                if j < before.len() {
                    assert(row[j] == before[j]);
                }
                assert(row[i] == before[i]);
            }
        }
    }
}

proof fn lemma_matches_before(signatures: Seq<Signature>, s: Seq<u8>, end: int)
    requires
        signatures.len() <= usize::MAX,
        0 <= end <= usize::MAX,
    ensures
        ({
            let list = matches_before(signatures, s, end);
            &&& forall|m: (usize, usize)|
                #[trigger] list.contains(m) <==> m.0 < end && m.1 < signatures.len()
                    && signatures[m.1 as int].matches_at(s, m.0 as int)
            &&& forall|i: int, j: int|
                0 <= i < j < list.len() ==> pair_lt(#[trigger] list[i], #[trigger] list[j])
        }),
    decreases end,
{
    let list = matches_before(signatures, s, end);
    if end > 0 {
        let n = signatures.len() as int;
        let before = matches_before(signatures, s, end - 1);
        let row = matches_starting(signatures, s, end - 1, n);
        lemma_matches_before(signatures, s, end - 1);
        lemma_matches_starting(signatures, s, end - 1, n);
        assert(list == before + row);
        assert forall|m: (usize, usize)| #[trigger] list.contains(m) <==> m.0 < end && m.1
            < signatures.len() && signatures[m.1 as int].matches_at(s, m.0 as int) by {
            lemma_contains_concat(before, row, m);
        }
        assert forall|i: int, j: int| 0 <= i < j < list.len() implies pair_lt(
            #[trigger] list[i],
            #[trigger] list[j],
        ) by {
            if j < before.len() {
                assert(list[i] == before[i] && list[j] == before[j]);
            } else if i >= before.len() {
                assert(list[i] == row[i - before.len()] && list[j] == row[j - before.len()]);
            } else {
                assert(before.contains(list[i])) by {
                    assert(before[i] == list[i]);
                }
                assert(row.contains(list[j])) by {
                    assert(row[j - before.len()] == list[j]);
                }
            }
        }
    }
}

/// The list of all matches holds each of them, and nothing else, in ascending
/// order.
pub proof fn law_match_list(signatures: Seq<Signature>, s: Seq<u8>)
    requires
        all_wf(signatures),
        signatures.len() <= usize::MAX,
        s.len() <= usize::MAX,
    ensures
        is_match_list(signatures, s, match_list(signatures, s)),
{
    let list = match_list(signatures, s);
    lemma_matches_before(signatures, s, s.len() as int);
    assert forall|m: (usize, usize)| #[trigger] list.contains(m) <==> m.1 < signatures.len()
        && signatures[m.1 as int].matches_at(s, m.0 as int) by {
        if m.1 < signatures.len() && signatures[m.1 as int].matches_at(s, m.0 as int) {
            assert(signatures[m.1 as int].wf());
        }
    }
}

/// The matches with what is known of their ends.
pub open spec fn pending_list(signatures: Seq<Signature>, s: Seq<u8>, raw: Seq<(usize, usize)>) -> Seq<
    PendingModel,
> {
    raw.map_values(|m: (usize, usize)| pending_of(signatures[m.1 as int], s, m.0 as int))
}

/// What a scan of `s` finds.
pub open spec fn scan_result(signatures: Seq<Signature>, s: Seq<u8>) -> Seq<FindingModel> {
    findings_of(pending_list(signatures, s, match_list(signatures, s)), s.len() as int)
}

/// The same matches in ascending order, given that there is no duplicate.
pub fn sort_matches(matches: Vec<(usize, usize)>) -> (r: Vec<(usize, usize)>)
    requires
        matches@.no_duplicates(),
    ensures
        forall|m: (usize, usize)| #[trigger] r@.contains(m) <==> matches@.contains(m),
        forall|i: int, j: int| 0 <= i < j < r@.len() ==> pair_lt(#[trigger] r@[i], #[trigger] r@[j]),
{
    let mut sorted = matches;
    sort_pairs(&mut sorted);
    proof {
        matches@.to_multiset_ensures();
        sorted@.to_multiset_ensures();
        matches@.lemma_multiset_has_no_duplicates();
        sorted@.lemma_multiset_has_no_duplicates_conv();
        assert forall|m: (usize, usize)| #[trigger] sorted@.contains(m) <==> matches@.contains(m) by {
            assert(sorted@.to_multiset().count(m) == matches@.to_multiset().count(m));
        }
        assert forall|i: int, j: int| 0 <= i < j < sorted@.len() implies pair_lt(
            #[trigger] sorted@[i],
            #[trigger] sorted@[j],
        ) by {
            assert(pair_le(sorted@[i], sorted@[j]));
            assert(sorted@[i] != sorted@[j]);
        }
    }
    sorted
}

/// Two ascending lists with the same elements are equal.
proof fn lemma_ascending_unique(a: Seq<(usize, usize)>, b: Seq<(usize, usize)>)
    requires
        forall|m: (usize, usize)| a.contains(m) <==> b.contains(m),
        forall|i: int, j: int| 0 <= i < j < a.len() ==> pair_lt(#[trigger] a[i], #[trigger] a[j]),
        forall|i: int, j: int| 0 <= i < j < b.len() ==> pair_lt(#[trigger] b[i], #[trigger] b[j]),
    ensures
        a == b,
    decreases a.len(),
{
    if a.len() == 0 {
        if b.len() > 0 {
            assert(b.contains(b[0]));
            assert(a.contains(b[0]));
        }
        assert(a == b);
    } else {
        assert(a.contains(a.last()));
        assert(b.contains(a.last()));
        let j = b.index_of(a.last());
        assert(b.contains(b.last()));
        assert(a.contains(b.last()));
        let i = a.index_of(b.last());
        assert(b[j] == a.last() && a[i] == b.last());
        if j < b.len() - 1 {
            assert(pair_lt(b[j], b[b.len() - 1]));
            if i < a.len() - 1 {
                assert(pair_lt(a[i], a[a.len() - 1]));
            }
            assert(false);
        }
        let a1 = a.drop_last();
        let b1 = b.drop_last();
        assert forall|m: (usize, usize)| a1.contains(m) <==> b1.contains(m) by {
            if a1.contains(m) {
                let x = a1.index_of(m);
                assert(a[x] == m);
                assert(pair_lt(a[x], a[a.len() - 1]));
                assert(a.contains(m));
                assert(b.contains(m));
                let y = b.index_of(m);
                assert(y < b.len() - 1);
                assert(b1[y] == m);
            }
            if b1.contains(m) {
                let y = b1.index_of(m);
                assert(b[y] == m);
                assert(pair_lt(b[y], b[b.len() - 1]));
                assert(b.contains(m));
                assert(a.contains(m));
                let x = a.index_of(m);
                assert(x < a.len() - 1);
                assert(a1[x] == m);
            }
        }
        lemma_ascending_unique(a1, b1);
        assert(a == a1.push(a.last()));
        assert(b == b1.push(b.last()));
    }
}

/// There is only one list of all matches: what a scan finds does not depend on
/// how the data are divided into chunks, or on how many threads search them.
pub proof fn law_match_list_unique(signatures: Seq<Signature>, s: Seq<u8>, raw: Seq<(usize, usize)>)
    requires
        all_wf(signatures),
        signatures.len() <= usize::MAX,
        s.len() <= usize::MAX,
        is_match_list(signatures, s, raw),
    ensures
        raw == match_list(signatures, s),
{
    law_match_list(signatures, s);
    lemma_ascending_unique(raw, match_list(signatures, s));
}

/// All matches in `data`, each once, found chunk by chunk for that many threads.
fn collect_matches(scanner: &Scanner, data: &[u8], threads: usize) -> (r: Vec<(usize, usize)>)
    requires
        scanner.wf(),
    ensures
        forall|m: (usize, usize)|
            #[trigger] r@.contains(m) <==> m.1 < scanner.signatures@.len()
                && scanner.signatures@[m.1 as int].matches_at(data@, m.0 as int),
        r@.no_duplicates(),
{
    let ghost sigs = scanner.signatures@;
    let overlap = chunk_overlap(&scanner.signatures);
    let ranges = chunk_ranges(data.len(), overlap, threads);
    let mut all: Vec<(usize, usize)> = Vec::new();
    let mut i: usize = 0;
    while i < ranges.len()
        invariant
            i <= ranges@.len(),
            scanner.wf(),
            sigs == scanner.signatures@,
            covers(ranges@, data@.len() as int, overlap as int),
            forall|k: int| 0 <= k < sigs.len() ==> (#[trigger] sigs[k]).magic@.len() <= overlap + 1,
            all@.no_duplicates(),
            forall|m: (usize, usize)|
                #[trigger] all@.contains(m) <==> m.1 < sigs.len() && sigs[m.1 as int].matches_at(
                    data@,
                    m.0 as int,
                ) && m.0 + sigs[m.1 as int].relative_offset < core_stop(ranges@, i as int),
        decreases ranges@.len() - i,
    {
        let (core_start, core_end, search_end) = ranges[i];
        assert(ranges@[i as int].0 == core_stop(ranges@, i as int)) by {
            if i > 0 {
                assert(ranges@[i - 1].1 == ranges@[i as int].0);
            }
        }
        let part = find_in_chunk(scanner, data, core_start, core_end, search_end);
        let ghost before = all@;
        let ghost found = part@;
        let mut rest = part;
        all.append(&mut rest);
        proof {
            assert(all@ == before + found);
            assert forall|m: (usize, usize)| #[trigger] all@.contains(m) <==> m.1 < sigs.len()
                && sigs[m.1 as int].matches_at(data@, m.0 as int) && m.0
                + sigs[m.1 as int].relative_offset < core_end by {
                lemma_contains_concat(before, found, m);
                if m.1 < sigs.len() && sigs[m.1 as int].matches_at(data@, m.0 as int) && core_start <= m.0
                    + sigs[m.1 as int].relative_offset < core_end {
                    assert(sigs[m.1 as int].magic@.len() <= overlap + 1);
                    assert(in_chunk(
                        sigs,
                        data@,
                        m,
                        core_start as int,
                        core_end as int,
                        search_end as int,
                    ));
                    assert(found.contains(m));
                }
            }
            assert forall|a: int, b: int| 0 <= a < b < all@.len() implies all@[a] != all@[b] by {
                if a < before.len() && b >= before.len() {
                    let m = all@[b];
                    assert(found[b - before.len()] == m);
                    assert(found.contains(m));
                    assert(before[a] == all@[a]);
                    assert(before.contains(all@[a]));
                } else if a >= before.len() {
                    assert(found[a - before.len()] != found[b - before.len()]);
                }
            }
        }
        i = i + 1;
    }
    proof {
        assert forall|m: (usize, usize)| #[trigger] all@.contains(m) <==> m.1 < sigs.len()
            && sigs[m.1 as int].matches_at(data@, m.0 as int) by {
            if m.1 < sigs.len() && sigs[m.1 as int].matches_at(data@, m.0 as int) {
                assert(sigs[m.1 as int].wf());
            }
        }
    }
    all
}

/// All matches in `data`, in ascending order, found chunk by chunk for that many
/// threads.
pub fn find_matches(scanner: &Scanner, data: &[u8], threads: usize) -> (r: Vec<(usize, usize)>)
    requires
        scanner.wf(),
    ensures
        is_match_list(scanner.signatures@, data@, r@),
        r@ == match_list(scanner.signatures@, data@),
{
    let all = collect_matches(scanner, data, threads);
    let ghost sigs = scanner.signatures@;
    let sorted = sort_matches(all);
    proof {
        assert(sigs.len() == scanner.signatures.len());
        law_match_list_unique(sigs, data@, sorted@);
    }
    sorted
}

/// Where the cores of the first `i` chunks end.
pub open spec fn core_stop(ranges: Seq<(usize, usize, usize)>, i: int) -> int {
    if i <= 0 {
        0
    } else {
        ranges[i - 1].1 as int
    }
}

/// The elements of two lists joined are those of both.
proof fn lemma_contains_concat(a: Seq<(usize, usize)>, b: Seq<(usize, usize)>, m: (usize, usize))
    ensures
        (a + b).contains(m) <==> a.contains(m) || b.contains(m),
{
    let c = a + b;
    if a.contains(m) {
        let i = a.index_of(m);
        assert(c[i] == m);
    }
    if b.contains(m) {
        let i = b.index_of(m);
        assert(c[a.len() + i] == m);
    }
    if c.contains(m) {
        let i = c.index_of(m);
        if i < a.len() {
            assert(a[i] == m);
        } else {
            assert(b[i - a.len()] == m);
        }
    }
}

/// Finds every embedded file in `data`, dividing the search for that many
/// threads.
pub fn scan(scanner: &Scanner, data: &[u8], threads: usize) -> (r: Vec<Finding>)
    requires
        scanner.wf(),
    ensures
        findings_view(r@) == scan_result(scanner.signatures@, data@),
{
    let ghost sigs = scanner.signatures@;
    let raw = find_matches(scanner, data, threads);
    let mut pending: Vec<PendingFinding> = Vec::new();
    let mut i: usize = 0;
    while i < raw.len()
        invariant
            i <= raw@.len(),
            scanner.wf(),
            sigs == scanner.signatures@,
            is_match_list(sigs, data@, raw@),
            pending_view(pending@) =~= pending_list(sigs, data@, raw@).take(i as int),
            forall|k: int| 0 <= k < pending@.len() ==> (#[trigger] pending@[k]).wf(),
        decreases raw@.len() - i,
    {
        let (start, k) = raw[i];
        assert(raw@.contains(raw@[i as int]));
        assert(sigs[k as int].wf());
        let ghost before = pending_view(pending@);
        let found = resolve_finding(data, start, &scanner.signatures[k]);
        let ghost model = found@;
        pending.push(found);
        assert(pending_view(pending@) == before.push(model));
        i = i + 1;
    }
    assert(pending_list(sigs, data@, raw@).take(i as int) == pending_list(sigs, data@, raw@));
    apply_fallback_ends(pending, data.len())
}

/// Finds every embedded file in `data` in one go.
pub fn scan_quiet(scanner: &Scanner, data: &[u8]) -> (r: Vec<Finding>)
    requires
        scanner.wf(),
    ensures
        findings_view(r@) == scan_result(scanner.signatures@, data@),
{
    scan(scanner, data, 1)
}

} // verus!
