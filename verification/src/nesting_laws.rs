//! What an extraction reaches: files inside files, and nothing else.
use vstd::prelude::*;
use crate::extractor::{
    extract_findings, extract_place, extraction, file_name_of, goes_deeper, inside_of, item_of,
    lemma_findings_complete, lemma_findings_extend, wanted, ExtractOptions, ExtractionModel, Place,
    Progress, Rules,
};
use crate::scanner::{scan_result, FindingModel};
use crate::signature::Signature;

verus! {

/// What a chain of findings, each inside the one before, leads to in `s`.
pub open spec fn content_of(s: Seq<u8>, path: Seq<FindingModel>) -> Seq<u8>
    decreases path.len(),
{
    if path.len() == 0 {
        s
    } else {
        content_of(s.subrange(path[0].offset_start, path[0].offset_end + 1), path.skip(1))
    }
}

/// How far into the data a chain of findings leads.
pub open spec fn depth_of(path: Seq<FindingModel>) -> int
    decreases path.len(),
{
    if path.len() == 0 {
        0
    } else {
        path[0].offset_start + depth_of(path.skip(1))
    }
}

/// The directories that are named after the findings of a chain.
pub open spec fn directory_of(signatures: Seq<Signature>, path: Seq<FindingModel>) -> Seq<Seq<char>> {
    path.map_values(|f: FindingModel| file_name_of(signatures, f) + "_extracted"@)
}

/// A finding of a scan of `s` that is certain enough to be extracted.
pub open spec fn is_wanted(
    signatures: Seq<Signature>,
    opts: ExtractOptions,
    s: Seq<u8>,
    finding: FindingModel,
) -> bool {
    scan_result(signatures, s).contains(finding) && finding.confidence >= opts.min_confidence
}

/// A chain of findings that an extraction follows from `s`, which is `depth` levels
/// deep: each is found in the one before and is not all of it, and none is so deep
/// that it is not searched.
pub open spec fn is_followed(
    signatures: Seq<Signature>,
    opts: ExtractOptions,
    s: Seq<u8>,
    depth: int,
    path: Seq<FindingModel>,
) -> bool
    decreases path.len(),
{
    path.len() > 0 ==> {
        &&& opts.recursive
        &&& depth + 1 < opts.max_depth
        &&& is_wanted(signatures, opts, s, path[0])
        &&& path[0].offset_start > 0 || path[0].offset_end + 1 != s.len()
        &&& is_followed(
            signatures,
            opts,
            s.subrange(path[0].offset_start, path[0].offset_end + 1),
            depth + 1,
            path.skip(1),
        )
    }
}

/// The file for a finding behind a chain of findings.
pub open spec fn file_behind(
    signatures: Seq<Signature>,
    path: Seq<FindingModel>,
    finding: FindingModel,
) -> ExtractionModel {
    ExtractionModel {
        directory: directory_of(signatures, path),
        file_name: file_name_of(signatures, finding),
        finding,
        from: depth_of(path) + finding.offset_start,
        to: depth_of(path) + finding.offset_end + 1,
    }
}

/// The same file, as seen from a place.
spec fn file_from(
    rules: Rules,
    place: Place,
    path: Seq<FindingModel>,
    finding: FindingModel,
) -> ExtractionModel {
    ExtractionModel {
        directory: place.directory + directory_of(rules.signatures, path),
        file_name: file_name_of(rules.signatures, finding),
        finding,
        from: place.base + depth_of(path) + finding.offset_start,
        to: place.base + depth_of(path) + finding.offset_end + 1,
    }
}

proof fn lemma_wanted(rules: Rules, s: Seq<u8>, finding: FindingModel)
    ensures
        wanted(rules, s).contains(finding) <==> is_wanted(rules.signatures, rules.opts, s, finding),
{
    let all = scan_result(rules.signatures, s);
    let keep = |f: FindingModel| f.confidence >= rules.opts.min_confidence;
    if wanted(rules, s).contains(finding) {
        all.lemma_filter_contains_rev(keep, finding);
        let k = wanted(rules, s).index_of(finding);
        all.lemma_filter_pred(keep, k);
    }
    if is_wanted(rules.signatures, rules.opts, s, finding) {
        let k = all.index_of(finding);
        all.lemma_filter_contains(keep, k);
    }
}

/// From inside a finding the rest of the chain leads to the same file.
proof fn lemma_step(rules: Rules, place: Place, path: Seq<FindingModel>, finding: FindingModel)
    requires
        path.len() > 0,
    ensures
        file_from(rules, place, path, finding) == file_from(
            rules,
            inside_of(rules, place, path[0]),
            path.skip(1),
            finding,
        ),
{
    let inner = inside_of(rules, place, path[0]);
    assert(place.directory + directory_of(rules.signatures, path) == inner.directory + directory_of(
        rules.signatures,
        path.skip(1),
    ));
}

proof fn lemma_place_reaches(
    rules: Rules,
    place: Place,
    before: Progress,
    path: Seq<FindingModel>,
    finding: FindingModel,
)
    requires
        !extract_place(rules, place, before).truncated,
        is_followed(rules.signatures, rules.opts, place.s, place.depth, path),
        is_wanted(rules.signatures, rules.opts, content_of(place.s, path), finding),
    ensures
        extract_place(rules, place, before).items.contains(file_from(rules, place, path, finding)),
    decreases path.len(), 1int, 0int,
{
    let findings = wanted(rules, place.s);
    if path.len() == 0 {
        lemma_wanted(rules, place.s, finding);
        let k = findings.index_of(finding);
        lemma_findings_complete(rules, place, findings, 0, before, k);
        assert(place.directory + directory_of(rules.signatures, path) == place.directory);
        assert(item_of(rules, place, finding) == file_from(rules, place, path, finding));
    } else {
        lemma_wanted(rules, place.s, path[0]);
        let k = findings.index_of(path[0]);
        lemma_findings_reach(rules, place, findings, 0, before, k, path, finding);
    }
}

proof fn lemma_findings_reach(
    rules: Rules,
    place: Place,
    findings: Seq<FindingModel>,
    i: int,
    before: Progress,
    k: int,
    path: Seq<FindingModel>,
    finding: FindingModel,
)
    requires
        0 <= i <= k < findings.len(),
        path.len() > 0,
        findings[k] == path[0],
        !extract_findings(rules, place, findings, i, before).truncated,
        is_followed(rules.signatures, rules.opts, place.s, place.depth, path),
        is_wanted(rules.signatures, rules.opts, content_of(place.s, path), finding),
    ensures
        extract_findings(rules, place, findings, i, before).items.contains(
            file_from(rules, place, path, finding),
        ),
    decreases path.len(), 0int, findings.len() - i,
{
    let one = Progress {
        items: before.items.push(item_of(rules, place, findings[i])),
        ..before
    };
    let inner = inside_of(rules, place, findings[i]);
    let after = if goes_deeper(rules, place, findings[i]) {
        extract_place(rules, inner, one)
    } else {
        one
    };
    lemma_findings_extend(rules, place, findings, i + 1, after);
    if i == k {
        assert(goes_deeper(rules, place, findings[i]));
        lemma_place_reaches(rules, inner, one, path.skip(1), finding);
        lemma_step(rules, place, path, finding);
        let wanted_file = file_from(rules, place, path, finding);
        let last = extract_findings(rules, place, findings, i + 1, after).items;
        let at = after.items.index_of(wanted_file);
        assert(last[at] == after.items[at]);
    } else {
        lemma_findings_reach(rules, place, findings, i + 1, after, k, path, finding);
    }
}

/// An extraction that was not cut short reaches everything: whatever a scan finds with
/// enough confidence in the data, or in what a chain of findings leads to, is extracted
/// to the directory that is named after the chain. A finding is left unsearched only
/// if it is all of what it was found in, or too deep, or nothing is to be searched.
pub proof fn law_extraction_reaches_everything(
    signatures: Seq<Signature>,
    opts: ExtractOptions,
    s: Seq<u8>,
    path: Seq<FindingModel>,
    finding: FindingModel,
)
    requires
        !extraction(signatures, opts, s).truncated,
        is_followed(signatures, opts, s, 0, path),
        is_wanted(signatures, opts, content_of(s, path), finding),
    ensures
        extraction(signatures, opts, s).items.contains(file_behind(signatures, path, finding)),
{
    let rules = Rules { signatures, opts };
    let place = Place { s, base: 0, directory: Seq::empty(), depth: 0 };
    let before = Progress { items: Seq::empty(), truncated: false };
    lemma_place_reaches(rules, place, before, path, finding);
    assert(place.directory + directory_of(signatures, path) == directory_of(signatures, path));
}

/// All these files are where a chain of findings leads from a place, or were there
/// before.
spec fn all_reached(rules: Rules, place: Place, old_len: int, items: Seq<ExtractionModel>) -> bool {
    forall|n: int|
        old_len <= n < items.len() ==> #[trigger] is_reached(rules, place, items[n])
}

spec fn is_reached(rules: Rules, place: Place, item: ExtractionModel) -> bool {
    exists|path: Seq<FindingModel>|
        #![trigger is_followed(rules.signatures, rules.opts, place.s, place.depth, path)]
        is_followed(rules.signatures, rules.opts, place.s, place.depth, path) && is_wanted(
            rules.signatures,
            rules.opts,
            content_of(place.s, path),
            item.finding,
        ) && item == file_from(rules, place, path, item.finding)
}

proof fn lemma_place_only(rules: Rules, place: Place, before: Progress)
    ensures
        before.items.len() <= extract_place(rules, place, before).items.len(),
        all_reached(rules, place, before.items.len() as int, extract_place(rules, place, before).items),
    decreases rules.opts.max_depth - place.depth, 1int, 0int,
{
    if before.items.len() < rules.opts.max_files {
        let findings = wanted(rules, place.s);
        lemma_findings_only(rules, place, findings, 0, before);
    }
}

proof fn lemma_findings_only(
    rules: Rules,
    place: Place,
    findings: Seq<FindingModel>,
    i: int,
    before: Progress,
)
    requires
        findings == wanted(rules, place.s),
        0 <= i,
    ensures
        before.items.len() <= extract_findings(rules, place, findings, i, before).items.len(),
        all_reached(
            rules,
            place,
            before.items.len() as int,
            extract_findings(rules, place, findings, i, before).items,
        ),
    decreases rules.opts.max_depth - place.depth, 0int, findings.len() - i,
{
    if i < findings.len() && before.items.len() < rules.opts.max_files {
        let found = findings[i];
        let one = Progress { items: before.items.push(item_of(rules, place, found)), ..before };
        let inner = inside_of(rules, place, found);
        let deeper = goes_deeper(rules, place, found);
        let after = if deeper {
            lemma_place_only(rules, inner, one);
            lemma_findings_extend(rules, inner, wanted(rules, inner.s), 0, one);
            extract_place(rules, inner, one)
        } else {
            one
        };
        lemma_findings_only(rules, place, findings, i + 1, after);
        lemma_findings_extend(rules, place, findings, i + 1, after);
        let last = extract_findings(rules, place, findings, i + 1, after).items;
        assert(findings.contains(found));
        lemma_wanted(rules, place.s, found);
        assert forall|n: int| before.items.len() <= n < last.len() implies #[trigger] is_reached(
            rules,
            place,
            last[n],
        ) by {
            let none = Seq::<FindingModel>::empty();
            if n == before.items.len() {
                assert(last[n] == after.items[n]);
                assert(after.items[n] == one.items[n]);
                assert(is_followed(rules.signatures, rules.opts, place.s, place.depth, none));
                assert(place.directory + directory_of(rules.signatures, none) == place.directory);
                assert(last[n] == file_from(rules, place, none, found));
            } else if n < after.items.len() {
                assert(last[n] == after.items[n]);
                assert(is_reached(rules, inner, after.items[n]));
                let rest = choose|path: Seq<FindingModel>|
                    #![trigger is_followed(rules.signatures, rules.opts, inner.s, inner.depth, path)]
                    is_followed(rules.signatures, rules.opts, inner.s, inner.depth, path)
                        && is_wanted(
                        rules.signatures,
                        rules.opts,
                        content_of(inner.s, path),
                        last[n].finding,
                    ) && last[n] == file_from(rules, inner, path, last[n].finding);
                let path = seq![found] + rest;
                assert(path.skip(1) == rest);
                assert(is_followed(rules.signatures, rules.opts, place.s, place.depth, path));
                lemma_step(rules, place, path, last[n].finding);
            }
        }
    }
}

/// An extraction gives nothing else: every file is a finding with enough confidence in
/// what a chain of findings leads to that is to be followed, taken from where it stands
/// and put in the directory that is named after the chain.
pub proof fn law_extraction_reaches_nothing_else(
    signatures: Seq<Signature>,
    opts: ExtractOptions,
    s: Seq<u8>,
    n: int,
)
    requires
        0 <= n < extraction(signatures, opts, s).items.len(),
    ensures
        exists|path: Seq<FindingModel>|
            #![trigger is_followed(signatures, opts, s, 0, path)]
            is_followed(signatures, opts, s, 0, path) && is_wanted(
                signatures,
                opts,
                content_of(s, path),
                extraction(signatures, opts, s).items[n].finding,
            ) && extraction(signatures, opts, s).items[n] == file_behind(
                signatures,
                path,
                extraction(signatures, opts, s).items[n].finding,
            ),
{
    let rules = Rules { signatures, opts };
    let place = Place { s, base: 0, directory: Seq::empty(), depth: 0 };
    let before = Progress { items: Seq::empty(), truncated: false };
    lemma_place_only(rules, place, before);
    let item = extraction(signatures, opts, s).items[n];
    assert(is_reached(rules, place, item));
    let path = choose|path: Seq<FindingModel>|
        #![trigger is_followed(rules.signatures, rules.opts, place.s, place.depth, path)]
        is_followed(rules.signatures, rules.opts, place.s, place.depth, path) && is_wanted(
            rules.signatures,
            rules.opts,
            content_of(place.s, path),
            item.finding,
        ) && item == file_from(rules, place, path, item.finding);
    assert(place.directory + directory_of(signatures, path) == directory_of(signatures, path));
}

/// The rules with another limit on the number of files.
spec fn limited(rules: Rules, max_files: usize) -> Rules {
    Rules { opts: ExtractOptions { max_files, ..rules.opts }, ..rules }
}

/// The first files, as many as the limit lets through.
spec fn first_files(items: Seq<ExtractionModel>, max_files: usize) -> Seq<ExtractionModel> {
    if items.len() <= max_files {
        items
    } else {
        items.take(max_files as int)
    }
}

proof fn lemma_place_limited(rules: Rules, max_files: usize, place: Place, a: Progress, b: Progress)
    requires
        max_files <= rules.opts.max_files,
        a.items == b.items,
        b.items.len() <= max_files,
    ensures
        extract_place(limited(rules, max_files), place, a).items == first_files(
            extract_place(rules, place, b).items,
            max_files,
        ),
    decreases rules.opts.max_depth - place.depth, 1int, 0int,
{
    let few = limited(rules, max_files);
    assert(wanted(few, place.s) == wanted(rules, place.s));
    let findings = wanted(rules, place.s);
    if b.items.len() < max_files {
        lemma_findings_limited(rules, max_files, place, findings, 0, a, b);
    } else if b.items.len() < rules.opts.max_files {
        lemma_findings_extend(rules, place, findings, 0, b);
        let more = extract_place(rules, place, b).items;
        assert(first_files(more, max_files) == b.items);
    }
}

proof fn lemma_findings_limited(
    rules: Rules,
    max_files: usize,
    place: Place,
    findings: Seq<FindingModel>,
    i: int,
    a: Progress,
    b: Progress,
)
    requires
        max_files <= rules.opts.max_files,
        a.items == b.items,
        b.items.len() <= max_files,
        0 <= i,
    ensures
        extract_findings(limited(rules, max_files), place, findings, i, a).items == first_files(
            extract_findings(rules, place, findings, i, b).items,
            max_files,
        ),
    decreases rules.opts.max_depth - place.depth, 0int, findings.len() - i,
{
    let few = limited(rules, max_files);
    if i < findings.len() {
        if b.items.len() >= max_files {
            lemma_findings_extend(rules, place, findings, i, b);
            let more = extract_findings(rules, place, findings, i, b).items;
            assert(first_files(more, max_files) == b.items);
        } else {
            let found = findings[i];
            assert(item_of(few, place, found) == item_of(rules, place, found));
            let one_a = Progress { items: a.items.push(item_of(rules, place, found)), ..a };
            let one_b = Progress { items: b.items.push(item_of(rules, place, found)), ..b };
            let inner = inside_of(rules, place, found);
            assert(inside_of(few, place, found) == inner);
            let deeper = goes_deeper(rules, place, found);
            assert(goes_deeper(few, place, found) == deeper);
            let after_a = if deeper {
                extract_place(few, inner, one_a)
            } else {
                one_a
            };
            let after_b = if deeper {
                lemma_place_limited(rules, max_files, inner, one_a, one_b);
                extract_place(rules, inner, one_b)
            } else {
                one_b
            };
            assert(after_a.items == first_files(after_b.items, max_files));
            let last_a = extract_findings(few, place, findings, i + 1, after_a).items;
            let last_b = extract_findings(rules, place, findings, i + 1, after_b).items;
            lemma_findings_extend(rules, place, findings, i + 1, after_b);
            if after_b.items.len() <= max_files {
                lemma_findings_limited(rules, max_files, place, findings, i + 1, after_a, after_b);
            } else {
                assert(after_a.items.len() == max_files);
                lemma_findings_extend(few, place, findings, i + 1, after_a);
                assert(last_a == after_a.items);
                assert(last_b.take(max_files as int) == after_b.items.take(max_files as int));
            }
        }
    }
}

/// A limit on the number of files takes the first of those that a higher limit lets
/// through, and leaves nothing else out.
pub proof fn law_limit_takes_the_first_files(
    signatures: Seq<Signature>,
    opts: ExtractOptions,
    s: Seq<u8>,
    max_files: usize,
)
    requires
        max_files <= opts.max_files,
    ensures
        ({
            let all = extraction(signatures, opts, s).items;
            extraction(signatures, ExtractOptions { max_files, ..opts }, s).items == if all.len()
                <= max_files {
                all
            } else {
                all.take(max_files as int)
            }
        }),
{
    let before = Progress { items: Seq::empty(), truncated: false };
    lemma_place_limited(
        Rules { signatures, opts },
        max_files,
        Place { s, base: 0, directory: Seq::empty(), depth: 0 },
        before,
        before,
    );
}

} // verus!
