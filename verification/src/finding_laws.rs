//! What a scan says of each file that it finds.
use vstd::prelude::*;
use vstd::string::*;
use crate::extractor::file_name_of;
use crate::numbers::{digits_value, hex, pad_left};
use crate::numeral_laws::law_hex_stands_for_the_number;
use crate::output::offset_text;
use crate::scan_laws::{law_finding_ranges, scannable};
use crate::scanner::{
    law_match_list, match_list, next_start, pending_list, resolved, scan_result, FindingModel,
    PendingModel,
};
use crate::search::first_occurrence;
use crate::signature::{extension_of, note_of, Signature};
use crate::text::lowercase;
use crate::writing::holds_at;

verus! {

/// The magic bytes of the signature stand as far behind `start` as they have to.
pub open spec fn has_magic(signature: Signature, s: Seq<u8>, start: int) -> bool {
    0 <= start && holds_at(s, start + signature.relative_offset, signature.magic@)
}

/// The finding is of the format of the signature, and has the name that the file gives
/// itself, if files of that format do.
pub open spec fn is_of(signature: Signature, s: Seq<u8>, finding: FindingModel) -> bool {
    &&& finding.format == signature.name@
    &&& finding.description == signature.description@
    &&& finding.name == match signature.name_extractor {
        Some(extractor) => extractor.name(s, finding.offset_start),
        None => None,
    }
    &&& finding.size == finding.offset_end + 1 - finding.offset_start
}

proof fn lemma_magic(signature: Signature, s: Seq<u8>, start: int)
    ensures
        has_magic(signature, s, start) <==> signature.matches_at(s, start),
{
}

/// Wherever the magic bytes of a signature stand, a file of its format is found that begins
/// so far before them as they stand behind the start of such files.
pub proof fn law_magic_bytes_are_found(signatures: Seq<Signature>, s: Seq<u8>, start: usize, k: usize)
    requires
        scannable(signatures, s),
        k < signatures.len(),
        has_magic(signatures[k as int], s, start as int),
    ensures
        exists|i: int|
            0 <= i < scan_result(signatures, s).len() && (#[trigger] scan_result(
                signatures,
                s,
            )[i]).offset_start == start && is_of(
                signatures[k as int],
                s,
                scan_result(signatures, s)[i],
            ),
{
    let raw = match_list(signatures, s);
    law_match_list(signatures, s);
    lemma_magic(signatures[k as int], s, start as int);
    assert(raw.contains((start, k)));
    let i = raw.index_of((start, k));
    let found = scan_result(signatures, s);
    assert(found[i].offset_start == start && is_of(signatures[k as int], s, found[i]));
}

/// Nothing is found but where the magic bytes of a signature stand.
pub proof fn law_nothing_is_found_without_magic_bytes(signatures: Seq<Signature>, s: Seq<u8>, i: int)
    requires
        scannable(signatures, s),
        0 <= i < scan_result(signatures, s).len(),
    ensures
        exists|k: int|
            0 <= k < signatures.len() && is_of(
                #[trigger] signatures[k],
                s,
                scan_result(signatures, s)[i],
            ) && has_magic(signatures[k], s, scan_result(signatures, s)[i].offset_start),
{
    let raw = match_list(signatures, s);
    law_match_list(signatures, s);
    assert(raw.contains(raw[i]));
    let k = raw[i].1 as int;
    lemma_magic(signatures[k], s, raw[i].0 as int);
    assert(is_of(signatures[k], s, scan_result(signatures, s)[i]));
}

/// No file is found twice: of two findings with the same start each stems from a signature
/// of its own.
pub proof fn law_no_file_is_found_twice(signatures: Seq<Signature>, s: Seq<u8>, i: int, j: int)
    requires
        scannable(signatures, s),
        0 <= i < j < scan_result(signatures, s).len(),
        scan_result(signatures, s)[i].offset_start == scan_result(signatures, s)[j].offset_start,
    ensures
        exists|a: int, b: int|
            0 <= a < b < signatures.len() && is_of(
                #[trigger] signatures[a],
                s,
                scan_result(signatures, s)[i],
            ) && is_of(#[trigger] signatures[b], s, scan_result(signatures, s)[j]),
{
    let raw = match_list(signatures, s);
    law_match_list(signatures, s);
    assert(raw.contains(raw[i]) && raw.contains(raw[j]));
    let (a, b) = (raw[i].1 as int, raw[j].1 as int);
    assert(is_of(signatures[a], s, scan_result(signatures, s)[i]));
    assert(is_of(signatures[b], s, scan_result(signatures, s)[j]));
}

proof fn lemma_first_marker(s: Seq<u8>, from: int, marker: Seq<u8>, at: int)
    requires
        0 <= from <= at,
        holds_at(s, at, marker),
        marker.len() > 0,
        forall|i: int| from <= i < at ==> !#[trigger] holds_at(s, i, marker),
    ensures
        first_occurrence(s, from, marker) == Some(at),
    decreases at - from,
{
    if from < at {
        assert(!holds_at(s, from, marker));
        lemma_first_marker(s, from + 1, marker, at);
    }
}

proof fn lemma_no_marker(s: Seq<u8>, from: int, marker: Seq<u8>)
    requires
        0 <= from,
        marker.len() > 0,
        forall|i: int| from <= i ==> !#[trigger] holds_at(s, i, marker),
    ensures
        first_occurrence(s, from, marker) is None,
    decreases s.len() - from + 1,
{
    if from <= s.len() {
        assert(!holds_at(s, from, marker));
        lemma_no_marker(s, from + 1, marker);
    }
}

/// How sure a scan is of a file, and where it ends: what its structure says; else with the
/// first end marker behind the magic bytes, and then with 75 percent; else, with 40 percent,
/// its end is not known.
pub proof fn law_how_an_end_is_found(signature: Signature, s: Seq<u8>, start: int, at: int)
    requires
        0 <= start,
        signature.end_marker matches Some(marker) ==> marker@.len() > 0,
    ensures
        ({
            let checked = match signature.validator {
                Some(validator) => validator.extent(s, start),
                None => None,
            };
            let behind = start + signature.relative_offset + signature.magic@.len();
            &&& checked matches Some((end, confidence)) ==> resolved(signature, s, start) == (
                Some(end),
                confidence,
            )
            &&& checked is None && (signature.end_marker matches Some(marker) && behind <= at
                && holds_at(s, at, marker@) && forall|i: int|
                behind <= i < at ==> !#[trigger] holds_at(s, i, marker@)) ==> resolved(signature, s, start)
                == (Some(at + signature.end_marker->0@.len() - 1), 75int)
            &&& checked is None && (signature.end_marker matches Some(marker) ==> forall|i: int|
                behind <= i ==> !#[trigger] holds_at(s, i, marker@)) ==> resolved(signature, s, start) == (
                None::<int>,
                40int,
            )
        }),
{
    let behind = start + signature.relative_offset + signature.magic@.len();
    if let Some(marker) = signature.end_marker {
        if behind <= at && holds_at(s, at, marker@) && forall|i: int|
            behind <= i < at ==> !#[trigger] holds_at(s, i, marker@) {
            lemma_first_marker(s, behind, marker@, at);
        }
        if forall|i: int| behind <= i ==> !#[trigger] holds_at(s, i, marker@) {
            lemma_no_marker(s, behind, marker@);
        }
    }
}

proof fn lemma_next_start(pending: Seq<PendingModel>, i: int, start: int)
    requires
        0 <= i,
    ensures
        match next_start(pending, i, start) {
            Some(next) => next > start && (exists|j: int|
                i <= j < pending.len() && (#[trigger] pending[j]).offset_start == next && forall|k: int|
                    i <= k < j ==> (#[trigger] pending[k]).offset_start <= start),
            None => forall|k: int| i <= k < pending.len() ==> (#[trigger] pending[k]).offset_start <= start,
        },
    decreases pending.len() - i,
{
    if i < pending.len() {
        if pending[i].offset_start > start {
            assert(pending[i].offset_start == pending[i].offset_start);
        } else {
            lemma_next_start(pending, i + 1, start);
            if let Some(next) = next_start(pending, i + 1, start) {
                let j = choose|j: int|
                    i + 1 <= j < pending.len() && (#[trigger] pending[j]).offset_start == next
                        && forall|k: int|
                        i + 1 <= k < j ==> (#[trigger] pending[k]).offset_start <= start;
                assert(i <= j && pending[j].offset_start == next);
            }
        }
    }
}

/// A file whose end is known ends there. One whose end is not known ends right before the
/// next file that begins behind its start, or with the data if there is none.
pub proof fn law_where_a_finding_ends(signatures: Seq<Signature>, s: Seq<u8>, i: int)
    requires
        scannable(signatures, s),
        0 <= i < scan_result(signatures, s).len(),
    ensures
        ({
            let found = scan_result(signatures, s);
            let (end, confidence) = resolved(
                signatures[match_list(signatures, s)[i].1 as int],
                s,
                found[i].offset_start,
            );
            &&& found[i].confidence == confidence
            &&& end matches Some(last) ==> last >= found[i].offset_start ==> found[i].offset_end == last
            &&& end is None ==> {
                ||| found[i].offset_end + 1 == s.len() && forall|j: int|
                    i < j < found.len() ==> (#[trigger] found[j]).offset_start == found[i].offset_start
                ||| exists|j: int|
                    i < j < found.len() && (#[trigger] found[j]).offset_start == found[i].offset_end + 1
                        && forall|k: int|
                        i < k < j ==> (#[trigger] found[k]).offset_start == found[i].offset_start
            }
        }),
{
    let raw = match_list(signatures, s);
    let found = scan_result(signatures, s);
    let pending = pending_list(signatures, s, raw);
    law_match_list(signatures, s);
    assert(raw.contains(raw[i]));
    let start = raw[i].0 as int;
    assert(pending[i].offset_start == start);
    law_finding_ranges(signatures, s, i);
    lemma_next_start(pending, i + 1, start);
    assert forall|k: int| i < k < found.len() implies (#[trigger] found[k]).offset_start == raw[k].0
        && found[k].offset_start >= start && pending[k].offset_start == raw[k].0 by {
        assert(crate::automaton::pair_lt(raw[i], raw[k]));
    }
    if pending[i].resolved_end is None {
        match next_start(pending, i + 1, start) {
            Some(next) => {
                let j = choose|j: int|
                    i + 1 <= j < pending.len() && (#[trigger] pending[j]).offset_start == next
                        && forall|k: int|
                        i + 1 <= k < j ==> (#[trigger] pending[k]).offset_start <= start;
                assert(found[j].offset_start == found[i].offset_end + 1);
                assert forall|k: int| i < k < j implies (#[trigger] found[k]).offset_start
                    == found[i].offset_start by {
                    assert(pending[k].offset_start <= start);
                }
            },
            None => {
                assert forall|j: int| i < j < found.len() implies (#[trigger] found[j]).offset_start
                    == found[i].offset_start by {
                    assert(pending[j].offset_start <= start);
                }
            },
        }
    }
}

/// A format has the extension and the note of the first signature with its name. One that no
/// signature has gets `bin` and no note.
pub proof fn law_extension_and_note_of_a_format(
    signatures: Seq<Signature>,
    format: Seq<char>,
    from: int,
    k: int,
)
    requires
        0 <= from <= k <= signatures.len(),
        forall|j: int| from <= j < k ==> (#[trigger] signatures[j]).name@ != format,
        k < signatures.len() ==> signatures[k].name@ == format,
    ensures
        extension_of(signatures, format, from) == if k < signatures.len() {
            signatures[k].extension@
        } else {
            "bin"@
        },
        note_of(signatures, format, from) == if k < signatures.len() {
            signatures[k].note@
        } else {
            ""@
        },
    decreases k - from,
{
    if from < k {
        law_extension_and_note_of_a_format(signatures, format, from + 1, k);
    }
}

proof fn lemma_leading_zeros(n: nat, text: Seq<char>, radix: int)
    requires
        2 <= radix,
    ensures
        digits_value(Seq::new(n, |i: int| '0') + text, radix) == digits_value(text, radix),
    decreases n + text.len(),
{
    let zeros = Seq::new(n, |i: int| '0');
    let all = zeros + text;
    if text.len() > 0 {
        lemma_leading_zeros(n, text.drop_last(), radix);
        assert(all.drop_last() == zeros + text.drop_last());
        assert(all.last() == text.last());
    } else if n > 0 {
        let fewer = Seq::new((n - 1) as nat, |i: int| '0');
        lemma_leading_zeros((n - 1) as nat, text, radix);
        assert(all.drop_last() == fewer + text);
        assert(all.last() == '0');
        assert(0 * radix == 0);
    } else {
        assert(all == text);
    }
}

/// An offset is shown with eight hexadecimal digits, or more if it needs them.
pub open spec fn is_offset(digits: Seq<char>, offset: int) -> bool {
    &&& digits_value(digits, 16) == Some(offset)
    &&& digits.len() >= 8
    &&& digits.len() > 8 ==> digits[0] != '0'
}

pub proof fn lemma_offset(offset: nat)
    ensures
        is_offset(pad_left(hex(offset), 8, '0'), offset as int),
{
    let text = hex(offset);
    law_hex_stands_for_the_number(offset);
    if text.len() < 8 {
        let n = (8 - text.len()) as nat;
        assert(pad_left(text, 8, '0') == Seq::new(n, |i: int| '0') + text);
        lemma_leading_zeros(n, text, 16);
    }
}

/// A file is named by its offset, its format in lower case and its extension.
pub proof fn law_file_name_tells_offset_and_format(signatures: Seq<Signature>, finding: FindingModel)
    requires
        finding.offset_start >= 0,
    ensures
        exists|digits: Seq<char>|
            #![trigger is_offset(digits, finding.offset_start)]
            is_offset(digits, finding.offset_start) && file_name_of(signatures, finding) == digits + "_"@
                + lowercase(finding.format) + "."@ + extension_of(signatures, finding.format, 0),
{
    lemma_offset(finding.offset_start as nat);
    let digits = pad_left(hex(finding.offset_start as nat), 8, '0');
    assert(is_offset(digits, finding.offset_start));
}

/// An offset in a report or in the browser is told with `0x` in front.
pub proof fn law_offset_is_told(offset: int)
    requires
        offset >= 0,
    ensures
        exists|digits: Seq<char>|
            #![trigger is_offset(digits, offset)]
            is_offset(digits, offset) && offset_text(offset) == "0x"@ + digits,
{
    lemma_offset(offset as nat);
    assert(is_offset(pad_left(hex(offset as nat), 8, '0'), offset));
}

} // verus!
