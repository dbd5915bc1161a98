//! A file put into other data is found there.
use vstd::prelude::*;
use crate::extent_laws::law_validated_end_inside;
use crate::prolongation::{is_self_delimiting, law_suffix_does_not_matter};
use crate::relocation::{keeps, law_place_does_not_matter};
use crate::scan_laws::scannable;
use crate::scanner::{law_match_list, match_list, scan_result};
use crate::signature::Signature;
use crate::validators::Validator;

verus! {

/// `core` with other data before and behind it.
pub open spec fn embedded(before: Seq<u8>, core: Seq<u8>, after: Seq<u8>) -> Seq<u8> {
    before + core + after
}

/// A complete file keeps its extent when other data are put before and behind it.
pub proof fn law_embedded_extent(validator: Validator, before: Seq<u8>, core: Seq<u8>, after: Seq<u8>)
    requires
        is_self_delimiting(validator, core, 0),
    ensures
        keeps(
            validator.extent(embedded(before, core, after), before.len() as int),
            validator.extent(core, 0),
            before.len() as int,
        ),
{
    let tail = core + after;
    assert(tail.take(core.len() as int) == core);
    law_suffix_does_not_matter(validator, tail, core.len() as int, 0);
    let whole = embedded(before, core, after);
    assert(whole.skip(before.len() as int) == tail);
    law_place_does_not_matter(validator, whole, before.len() as int);
}

/// A complete file with the magic bytes of a signature is found wherever it is
/// put, with its exact range and the confidence of its validator.
pub proof fn law_embedded_file_is_found(
    signatures: Seq<Signature>,
    k: usize,
    validator: Validator,
    before: Seq<u8>,
    core: Seq<u8>,
    after: Seq<u8>,
)
    requires
        scannable(signatures, embedded(before, core, after)),
        k < signatures.len(),
        signatures[k as int].validator == Some(validator),
        signatures[k as int].matches_at(core, 0),
        is_self_delimiting(validator, core, 0),
    ensures
        ({
            let found = scan_result(signatures, embedded(before, core, after));
            let (end, confidence) = validator.extent(core, 0)->0;
            exists|i: int|
                0 <= i < found.len() && (#[trigger] found[i]).format == signatures[k as int].name@
                    && found[i].offset_start == before.len() && found[i].offset_end == before.len() + end
                    && found[i].confidence == confidence
        }),
{
    let whole = embedded(before, core, after);
    let start = before.len() as int;
    let signature = signatures[k as int];
    let (end, confidence) = validator.extent(core, 0)->0;
    law_validated_end_inside(validator, core, 0);
    law_embedded_extent(validator, before, core, after);
    let at = signature.relative_offset as int;
    let len = signature.magic@.len();
    assert(whole.subrange(start + at, start + at + len) == core.subrange(at, at + len));
    assert(signature.matches_at(whole, start));
    law_match_list(signatures, whole);
    let raw = match_list(signatures, whole);
    assert(raw.contains((start as usize, k)));
    let i = raw.index_of((start as usize, k));
    let found = scan_result(signatures, whole);
    assert(found[i].offset_start == start);
    assert(found[i].confidence == confidence);
    assert(found[i].offset_end == start + end);
}

} // verus!
