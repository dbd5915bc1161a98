//! What holds of every scan.
use vstd::prelude::*;
use crate::automaton::pair_lt;
use crate::extent_laws::law_validated_end_inside;
use crate::scanner::{
    findings_of, law_match_list, match_list, next_start, pending_list, pending_of, resolved,
    scan_result, FindingModel, PendingModel,
};
use crate::search::lemma_first_occurrence_is_first;
use crate::signature::{all_wf, sorted_by_name, text_le, Signature};

verus! {

/// The signatures and the data are such as a scan can be given.
pub open spec fn scannable(signatures: Seq<Signature>, s: Seq<u8>) -> bool {
    all_wf(signatures) && signatures.len() <= usize::MAX && s.len() <= usize::MAX
}

/// A finding stems from a match: signature `k` matches at its start.
pub open spec fn stems_from(
    signatures: Seq<Signature>,
    s: Seq<u8>,
    finding: FindingModel,
    k: int,
) -> bool {
    &&& 0 <= k < signatures.len()
    &&& signatures[k].matches_at(s, finding.offset_start)
    &&& finding.format == signatures[k].name@
    &&& finding.description == signatures[k].description@
    &&& finding.confidence == resolved(signatures[k], s, finding.offset_start).1
    &&& finding.name == pending_of(signatures[k], s, finding.offset_start).name
}

/// Whatever a scan reports is there: each finding stems from a match.
pub proof fn law_findings_are_matches(signatures: Seq<Signature>, s: Seq<u8>, i: int)
    requires
        scannable(signatures, s),
        0 <= i < scan_result(signatures, s).len(),
    ensures
        exists|k: int| stems_from(signatures, s, scan_result(signatures, s)[i], k),
{
    let raw = match_list(signatures, s);
    law_match_list(signatures, s);
    assert(raw.contains(raw[i]));
    assert(stems_from(signatures, s, scan_result(signatures, s)[i], raw[i].1 as int));
}

/// A scan misses nothing: each match of a signature gives a finding.
pub proof fn law_every_match_is_found(signatures: Seq<Signature>, s: Seq<u8>, start: usize, k: usize)
    requires
        scannable(signatures, s),
        k < signatures.len(),
        signatures[k as int].matches_at(s, start as int),
    ensures
        exists|i: int|
            0 <= i < scan_result(signatures, s).len() && (#[trigger] scan_result(
                signatures,
                s,
            )[i]).offset_start == start && stems_from(
                signatures,
                s,
                scan_result(signatures, s)[i],
                k as int,
            ),
{
    let raw = match_list(signatures, s);
    law_match_list(signatures, s);
    assert(raw.contains((start, k)));
    let i = raw.index_of((start, k));
    let found = scan_result(signatures, s);
    assert(found[i].offset_start == start);
    assert(stems_from(signatures, s, found[i], k as int));
}

/// Findings come in the order of their starts, those with the same start in the
/// order of their formats.
pub proof fn law_findings_ordered(signatures: Seq<Signature>, s: Seq<u8>, i: int, j: int)
    requires
        scannable(signatures, s),
        sorted_by_name(signatures),
        0 <= i < j < scan_result(signatures, s).len(),
    ensures
        ({
            let a = scan_result(signatures, s)[i];
            let b = scan_result(signatures, s)[j];
            a.offset_start < b.offset_start || (a.offset_start == b.offset_start && text_le(
                a.format,
                b.format,
            ))
        }),
{
    let raw = match_list(signatures, s);
    law_match_list(signatures, s);
    assert(raw.contains(raw[i]));
    assert(raw.contains(raw[j]));
    assert(pair_lt(raw[i], raw[j]));
    if raw[i].0 == raw[j].0 {
        assert(text_le(signatures[raw[i].1 as int].name@, signatures[raw[j].1 as int].name@));
    }
}

/// A finding has at least one byte, its size is that of its range, it begins
/// inside the data, and its confidence is from 40 to 95 percent.
pub proof fn law_finding_ranges(signatures: Seq<Signature>, s: Seq<u8>, i: int)
    requires
        scannable(signatures, s),
        0 <= i < scan_result(signatures, s).len(),
    ensures
        ({
            let f = scan_result(signatures, s)[i];
            &&& 0 <= f.offset_start < s.len()
            &&& f.offset_start <= f.offset_end
            &&& f.size == f.offset_end - f.offset_start + 1
            &&& 40 <= f.confidence <= 95
        }),
{
    let raw = match_list(signatures, s);
    law_match_list(signatures, s);
    assert(raw.contains(raw[i]));
    let signature = signatures[raw[i].1 as int];
    assert(signature.wf());
    let start = raw[i].0 as int;
    if let Some(validator) = signature.validator {
        law_validated_end_inside(validator, s, start);
    }
}

/// Only what is backed by the structure of the file or by an end marker is more
/// certain than 40 percent.
pub proof fn law_certain_means_resolved(signature: Signature, s: Seq<u8>, start: int)
    requires
        0 <= start,
        s.len() <= usize::MAX,
    ensures
        resolved(signature, s, start).0 is None <==> resolved(signature, s, start).1 == 40,
        resolved(signature, s, start).0 is Some ==> 55 <= resolved(signature, s, start).1 <= 95,
{
    if let Some(validator) = signature.validator {
        law_validated_end_inside(validator, s, start);
    }
}

/// No later match starts at or before the start that follows.
proof fn lemma_next_start_inside(pending: Seq<PendingModel>, i: int, start: int, len: int)
    requires
        forall|k: int| 0 <= k < pending.len() ==> (#[trigger] pending[k]).offset_start < len,
    ensures
        next_start(pending, i, start) matches Some(next) ==> start < next < len,
    decreases pending.len() - i,
{
    if 0 <= i < pending.len() && pending[i].offset_start <= start {
        lemma_next_start_inside(pending, i + 1, start, len);
    }
}

/// A finding lies inside the data.
pub proof fn law_finding_inside(signatures: Seq<Signature>, s: Seq<u8>, i: int)
    requires
        scannable(signatures, s),
        0 <= i < scan_result(signatures, s).len(),
    ensures
        scan_result(signatures, s)[i].offset_end < s.len(),
{
    let raw = match_list(signatures, s);
    law_match_list(signatures, s);
    assert(raw.contains(raw[i]));
    let signature = signatures[raw[i].1 as int];
    assert(signature.wf());
    let start = raw[i].0 as int;
    if let Some(validator) = signature.validator {
        law_validated_end_inside(validator, s, start);
    }
    if let Some(marker) = signature.end_marker {
        lemma_first_occurrence_is_first(
            s,
            start + signature.relative_offset + signature.magic@.len(),
            marker@,
        );
    }
    let pending = pending_list(signatures, s, raw);
    assert forall|k: int| 0 <= k < pending.len() implies (#[trigger] pending[k]).offset_start
        < s.len() by {
        assert(raw.contains(raw[k]));
        assert(signatures[raw[k].1 as int].wf());
    }
    lemma_next_start_inside(pending, i + 1, start, s.len() as int);
}

/// A finding whose end is not known by its structure stops before the next
/// start: it reaches into no finding that starts later.
pub proof fn law_unresolved_finding_stops_before_next(pending: Seq<PendingModel>, len: int, i: int, j: int)
    requires
        0 <= i < j < pending.len(),
        pending[i].resolved_end is None,
        pending[i].offset_start < pending[j].offset_start,
        forall|a: int, b: int|
            0 <= a < b < pending.len() ==> (#[trigger] pending[a]).offset_start <= (
            #[trigger] pending[b]).offset_start,
    ensures
        findings_of(pending, len)[i].offset_end < findings_of(pending, len)[j].offset_start,
{
    lemma_next_start_is_least(pending, i + 1, pending[i].offset_start, j);
}

proof fn lemma_next_start_is_least(pending: Seq<PendingModel>, i: int, start: int, j: int)
    requires
        0 <= i <= j < pending.len(),
        start < pending[j].offset_start,
        forall|a: int, b: int|
            0 <= a < b < pending.len() ==> (#[trigger] pending[a]).offset_start <= (
            #[trigger] pending[b]).offset_start,
    ensures
        next_start(pending, i, start) matches Some(next) && next <= pending[j].offset_start,
    decreases j - i,
{
    if pending[i].offset_start <= start {
        lemma_next_start_is_least(pending, i + 1, start, j);
    } else if i < j {
        assert(pending[i].offset_start <= pending[j].offset_start);
    }
}

} // verus!
