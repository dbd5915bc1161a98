//! Taking embedded files out of their surroundings.
use vstd::prelude::*;
use vstd::string::*;
use crate::lines::{no_texts, push_text, texts_of};
use crate::numbers::{hex, pad_left, padded_hex};
use crate::scan_laws::{law_finding_inside, law_finding_ranges, scannable};
use crate::scanner::{findings_view, scan, scan_result, Finding, FindingModel, Scanner};
use crate::signature::{extension_for, extension_of, Signature};
use crate::text::{lowercase, lowercase_text};

verus! {

broadcast use crate::slices::slice_len_bound;

/// How files are extracted.
#[derive(Clone, Copy)]
pub struct ExtractOptions {
    /// Search extracted files for further ones.
    pub recursive: bool,
    /// How deep extracted files may lie inside each other.
    pub max_depth: u32,
    /// How many files are extracted at most.
    pub max_files: usize,
    /// Only report what would be written.
    pub dry_run: bool,
    /// The least confidence, in percent, of what is extracted.
    pub min_confidence: u8,
}

/// What an extraction came to.
#[derive(Clone, Copy)]
pub struct ExtractSummary {
    pub extracted_count: usize,
    pub truncated_by_max_files: bool,
}

/// One file to be written.
pub struct Extraction {
    /// The directories that lead to the file from the output directory.
    pub directory: Vec<String>,
    pub file_name: String,
    /// What was found, with offsets in the file that it was found in.
    pub finding: Finding,
    /// Where the content begins in the whole data.
    pub from: usize,
    /// Where it ends there.
    pub to: usize,
}

/// The mathematical content of an [`Extraction`].
pub ghost struct ExtractionModel {
    pub directory: Seq<Seq<char>>,
    pub file_name: Seq<char>,
    pub finding: FindingModel,
    pub from: int,
    pub to: int,
}

impl View for Extraction {
    type V = ExtractionModel;

    open spec fn view(&self) -> ExtractionModel {
        ExtractionModel {
            directory: texts_of(self.directory@),
            file_name: self.file_name@,
            finding: self.finding@,
            from: self.from as int,
            to: self.to as int,
        }
    }
}

/// The contents of a list of files to be written.
pub open spec fn extractions_view(items: Seq<Extraction>) -> Seq<ExtractionModel> {
    items.map_values(|item: Extraction| item@)
}

/// The name of the file that a finding is written to: its offset, its format and
/// an extension.
pub open spec fn file_name_of(signatures: Seq<Signature>, finding: FindingModel) -> Seq<char> {
    pad_left(hex(finding.offset_start as nat), 8, '0') + "_"@ + lowercase(finding.format) + "."@
        + extension_of(signatures, finding.format, 0)
}

/// The name of the file that a finding is written to.
pub fn file_name_for(signatures: &Vec<Signature>, finding: &Finding) -> (r: String)
    ensures
        r@ == file_name_of(signatures@, finding@),
{
    let mut name = padded_hex(finding.offset_start as u64, 8);
    name.append("_");
    name.append(lowercase_text(finding.format.as_str()).as_str());
    name.append(".");
    name.append(extension_for(signatures, finding.format.as_str()));
    name
}

/// How far an extraction has come: the files so far, and whether it stopped
/// because there were too many.
pub ghost struct Progress {
    pub items: Seq<ExtractionModel>,
    pub truncated: bool,
}

/// What stays the same throughout an extraction.
pub ghost struct Rules {
    pub signatures: Seq<Signature>,
    pub opts: ExtractOptions,
}

/// Where an extraction is: in the file `s`, which begins at `base` of the whole
/// data and is `depth` levels deep, writing to `directory`.
pub ghost struct Place {
    pub s: Seq<u8>,
    pub base: int,
    pub directory: Seq<Seq<char>>,
    pub depth: int,
}

/// The findings in `s` that are certain enough.
pub open spec fn wanted(rules: Rules, s: Seq<u8>) -> Seq<FindingModel> {
    scan_result(rules.signatures, s).filter(
        |f: FindingModel| f.confidence >= rules.opts.min_confidence,
    )
}

/// The file to be written for a finding.
pub open spec fn item_of(rules: Rules, place: Place, finding: FindingModel) -> ExtractionModel {
    ExtractionModel {
        directory: place.directory,
        file_name: file_name_of(rules.signatures, finding),
        finding,
        from: place.base + finding.offset_start,
        to: place.base + finding.offset_end + 1,
    }
}

/// The place inside a finding.
pub open spec fn inside_of(rules: Rules, place: Place, finding: FindingModel) -> Place {
    Place {
        s: place.s.subrange(finding.offset_start, finding.offset_end + 1),
        base: place.base + finding.offset_start,
        directory: place.directory.push(
            file_name_of(rules.signatures, finding) + "_extracted"@,
        ),
        depth: place.depth + 1,
    }
}

/// A finding is searched for further ones, unless it is the whole file that it
/// was found in, or too deep.
pub open spec fn goes_deeper(rules: Rules, place: Place, finding: FindingModel) -> bool {
    &&& rules.opts.recursive
    &&& !(finding.offset_start == 0 && finding.offset_end + 1 == place.s.len())
    &&& place.depth + 1 < rules.opts.max_depth
}

/// All these findings have ranges inside the file `s` that they were found in.
pub open spec fn all_whole(s: Seq<u8>, findings: Seq<FindingModel>) -> bool {
    forall|k: int|
        0 <= k < findings.len() ==> 0 <= (#[trigger] findings[k]).offset_start
            <= findings[k].offset_end < s.len()
}

/// What a scan finds is whole.
proof fn lemma_wanted_whole(rules: Rules, s: Seq<u8>)
    requires
        scannable(rules.signatures, s),
    ensures
        all_whole(s, wanted(rules, s)),
{
    let all = scan_result(rules.signatures, s);
    let keep = |f: FindingModel| f.confidence >= rules.opts.min_confidence;
    assert forall|k: int| 0 <= k < wanted(rules, s).len() implies 0 <= (#[trigger] wanted(
        rules,
        s,
    )[k]).offset_start <= wanted(rules, s)[k].offset_end < s.len() by {
        let finding = wanted(rules, s)[k];
        all.lemma_filter_contains_rev(keep, finding);
        let i = all.index_of(finding);
        law_finding_ranges(rules.signatures, s, i);
        law_finding_inside(rules.signatures, s, i);
    }
}

/// The extraction of everything in a place, after `before`.
pub open spec fn extract_place(rules: Rules, place: Place, before: Progress) -> Progress
    decreases rules.opts.max_depth - place.depth, 1int, 0int,
{
    if before.items.len() >= rules.opts.max_files {
        Progress { truncated: true, ..before }
    } else {
        extract_findings(rules, place, wanted(rules, place.s), 0, before)
    }
}

/// The extraction of the findings from index `i` on in a place, after `before`.
pub open spec fn extract_findings(
    rules: Rules,
    place: Place,
    findings: Seq<FindingModel>,
    i: int,
    before: Progress,
) -> Progress
    decreases rules.opts.max_depth - place.depth, 0int, findings.len() - i,
{
    if i < 0 || i >= findings.len() {
        before
    } else if before.items.len() >= rules.opts.max_files {
        Progress { truncated: true, ..before }
    } else {
        let one = Progress {
            items: before.items.push(item_of(rules, place, findings[i])),
            ..before
        };
        let after = if goes_deeper(rules, place, findings[i]) {
            extract_place(rules, inside_of(rules, place, findings[i]), one)
        } else {
            one
        };
        extract_findings(rules, place, findings, i + 1, after)
    }
}

/// What is extracted from `s`.
pub open spec fn extraction(signatures: Seq<Signature>, opts: ExtractOptions, s: Seq<u8>) -> Progress {
    extract_place(
        Rules { signatures, opts },
        Place { s, base: 0, directory: Seq::empty(), depth: 0 },
        Progress { items: Seq::empty(), truncated: false },
    )
}

/// The findings that are certain enough, in the same order.
pub fn keep_confident(findings: Vec<Finding>, min_confidence: u8) -> (r: Vec<Finding>)
    ensures
        findings_view(r@) == findings_view(findings@).filter(
            |f: FindingModel| f.confidence >= min_confidence,
        ),
{
    let ghost model = findings_view(findings@);
    let ghost keep = |f: FindingModel| f.confidence >= min_confidence;
    let mut out: Vec<Finding> = Vec::new();
    let mut i: usize = 0;
    assert(model.take(0).filter(keep) == Seq::<FindingModel>::empty()) by {
        reveal(Seq::filter);
    }
    while i < findings.len()
        invariant
            i <= findings@.len(),
            model == findings_view(findings@),
            keep == |f: FindingModel| f.confidence >= min_confidence,
            findings_view(out@) =~= model.take(i as int).filter(keep),
        decreases findings@.len() - i,
    {
        let ghost before = findings_view(out@);
        proof {
            reveal(Seq::filter);
            assert(model.take(i + 1).drop_last() == model.take(i as int));
            assert(model.take(i + 1).last() == findings@[i as int]@);
        }
        if findings[i].confidence >= min_confidence {
            let kept = findings[i].copy();
            out.push(kept);
            assert(findings_view(out@) == before.push(model[i as int]));
        }
        i = i + 1;
    }
    assert(model.take(i as int) == model);
    out
}

/// The progress that these values stand for.
pub open spec fn progress_of(items: Seq<Extraction>, truncated: bool) -> Progress {
    Progress { items: extractions_view(items), truncated }
}

fn child_dir_for(directory: &Vec<String>, file_name: &String) -> (r: Vec<String>)
    ensures
        texts_of(r@) == texts_of(directory@).push(file_name@ + "_extracted"@),
{
    let mut child = copy_texts(directory);
    let mut name = file_name.clone();
    name.append("_extracted");
    push_text(&mut child, name);
    child
}

fn copy_texts(list: &Vec<String>) -> (r: Vec<String>)
    ensures
        texts_of(r@) == texts_of(list@),
{
    let mut out = no_texts();
    let mut i: usize = 0;
    while i < list.len()
        invariant
            i <= list@.len(),
            texts_of(out@) =~= texts_of(list@).take(i as int),
        decreases list@.len() - i,
    {
        push_text(&mut out, list[i].clone());
        i = i + 1;
    }
    assert(texts_of(list@).take(i as int) == texts_of(list@));
    out
}

/// Extracts everything in the file `data`, which begins at `base` of the whole
/// data.
fn extract_recursive(
    scanner: &Scanner,
    opts: &ExtractOptions,
    data: &[u8],
    base: usize,
    directory: &Vec<String>,
    depth: u32,
    items: &mut Vec<Extraction>,
    truncated: &mut bool,
)
    requires
        scanner.wf(),
        base + data@.len() <= usize::MAX,
    ensures
        progress_of(final(items)@, *final(truncated)) == extract_place(
            Rules { signatures: scanner.signatures@, opts: *opts },
            Place {
                s: data@,
                base: base as int,
                directory: texts_of(directory@),
                depth: depth as int,
            },
            progress_of(old(items)@, *old(truncated)),
        ),
    decreases opts.max_depth - depth, 1int,
{
    assert(extractions_view(items@).len() == items@.len());
    if items.len() >= opts.max_files {
        *truncated = true;
        return;
    }
    let findings = keep_confident(scan(scanner, data, 1), opts.min_confidence);
    proof {
        assert(scanner.signatures.len() == scanner.signatures@.len());
        lemma_wanted_whole(Rules { signatures: scanner.signatures@, opts: *opts }, data@);
    }
    extract_listed(scanner, opts, data, base, directory, depth, &findings, items, truncated);
}

/// Extracts these findings in the file `data`.
fn extract_listed(
    scanner: &Scanner,
    opts: &ExtractOptions,
    data: &[u8],
    base: usize,
    directory: &Vec<String>,
    depth: u32,
    findings: &Vec<Finding>,
    items: &mut Vec<Extraction>,
    truncated: &mut bool,
)
    requires
        scanner.wf(),
        base + data@.len() <= usize::MAX,
        all_whole(data@, findings_view(findings@)),
    ensures
        progress_of(final(items)@, *final(truncated)) == extract_findings(
            Rules { signatures: scanner.signatures@, opts: *opts },
            Place {
                s: data@,
                base: base as int,
                directory: texts_of(directory@),
                depth: depth as int,
            },
            findings_view(findings@),
            0,
            progress_of(old(items)@, *old(truncated)),
        ),
    decreases opts.max_depth - depth, 0int,
{
    let ghost rules = Rules { signatures: scanner.signatures@, opts: *opts };
    let ghost place = Place {
        s: data@,
        base: base as int,
        directory: texts_of(directory@),
        depth: depth as int,
    };
    let ghost model = findings_view(findings@);
    let ghost start = progress_of(items@, *truncated);
    let mut i: usize = 0;
    while i < findings.len()
        invariant
            i <= findings@.len(),
            scanner.wf(),
            base + data@.len() <= usize::MAX,
            rules == (Rules { signatures: scanner.signatures@, opts: *opts }),
            place == (Place {
                s: data@,
                base: base as int,
                directory: texts_of(directory@),
                depth: depth as int,
            }),
            model == findings_view(findings@),
            all_whole(data@, model),
            start == progress_of(old(items)@, *old(truncated)),
            extract_findings(rules, place, model, 0, start) == extract_findings(
                rules,
                place,
                model,
                i as int,
                progress_of(items@, *truncated),
            ),
        decreases findings@.len() - i,
    {
        assert(extractions_view(items@).len() == items@.len());
        if items.len() >= opts.max_files {
            *truncated = true;
            return;
        }
        assert(model[i as int] == findings@[i as int]@);
        let from = findings[i].offset_start;
        let last = findings[i].offset_end;
        let file_name = file_name_for(&scanner.signatures, &findings[i]);
        let child = child_dir_for(directory, &file_name);
        let item = Extraction {
            directory: copy_texts(directory),
            file_name,
            finding: findings[i].copy(),
            from: base + from,
            to: base + last + 1,
        };
        let ghost before = extractions_view(items@);
        let ghost item_model = item@;
        items.push(item);
        assert(extractions_view(items@) == before.push(item_model));
        assert(item_model == item_of(rules, place, model[i as int]));
        let whole = from == 0 && last + 1 == data.len();
        if opts.recursive && !whole && depth < u32::MAX && depth + 1 < opts.max_depth {
            let fragment = vstd::slice::slice_subrange(data, from, last + 1);
            extract_recursive(
                scanner,
                opts,
                fragment,
                base + from,
                &child,
                depth + 1,
                items,
                truncated,
            );
        }
        i = i + 1;
    }
}

/// What the extraction of these findings in `s` comes to.
pub open spec fn listed_extraction(
    signatures: Seq<Signature>,
    opts: ExtractOptions,
    s: Seq<u8>,
    findings: Seq<FindingModel>,
) -> Progress {
    let start = Progress { items: Seq::empty(), truncated: false };
    if opts.max_files == 0 {
        Progress { truncated: true, ..start }
    } else {
        extract_findings(
            Rules { signatures, opts },
            Place { s, base: 0, directory: Seq::empty(), depth: 0 },
            findings.filter(|f: FindingModel| f.confidence >= opts.min_confidence),
            0,
            start,
        )
    }
}

/// Whether all these findings have ranges inside `data`.
pub fn are_whole(data: &[u8], findings: &Vec<Finding>) -> (r: bool)
    ensures
        r == all_whole(data@, findings_view(findings@)),
{
    let ghost model = findings_view(findings@);
    let mut i: usize = 0;
    while i < findings.len()
        invariant
            i <= findings@.len(),
            model == findings_view(findings@),
            all_whole(data@, model.take(i as int)),
        decreases findings@.len() - i,
    {
        assert(model[i as int] == findings@[i as int]@);
        if findings[i].offset_start > findings[i].offset_end || findings[i].offset_end >= data.len() {
            return false;
        }
        proof {
            assert forall|k: int| 0 <= k < i + 1 implies 0 <= (#[trigger] model.take(
                i + 1,
            )[k]).offset_start <= model.take(i + 1)[k].offset_end < data@.len() by {
                if k < i {
                    assert(model.take(i as int)[k] == model[k]);
                }
            }
        }
        i = i + 1;
    }
    assert(model.take(i as int) == model);
    true
}

/// Extracts these findings in `data`, and where that is wanted the files inside
/// them: the files to be written, in that order, and a summary.
pub fn extract_findings_of(
    scanner: &Scanner,
    data: &[u8],
    findings: Vec<Finding>,
    opts: &ExtractOptions,
) -> (r: (Vec<Extraction>, ExtractSummary))
    requires
        scanner.wf(),
        all_whole(data@, findings_view(findings@)),
    ensures
        is_outcome(
            r,
            listed_extraction(scanner.signatures@, *opts, data@, findings_view(findings@)),
        ),
{
    let mut items: Vec<Extraction> = Vec::new();
    let mut truncated = false;
    let directory = no_texts();
    assert(extractions_view(items@) == Seq::<ExtractionModel>::empty());
    if opts.max_files == 0 {
        return (items, ExtractSummary { extracted_count: 0, truncated_by_max_files: true });
    }
    let kept = keep_confident(findings, opts.min_confidence);
    proof {
        let all = findings_view(findings@);
        let keep = |f: FindingModel| f.confidence >= opts.min_confidence;
        assert(findings_view(kept@) == all.filter(keep));
        assert forall|k: int| 0 <= k < all.filter(keep).len() implies 0 <= (#[trigger] all.filter(
            keep,
        )[k]).offset_start <= all.filter(keep)[k].offset_end < data@.len() by {
            all.lemma_filter_contains_rev(keep, all.filter(keep)[k]);
            let i = all.index_of(all.filter(keep)[k]);
            assert(all[i] == all.filter(keep)[k]);
        }
    }
    extract_listed(
        scanner,
        opts,
        data,
        0,
        &directory,
        0,
        &kept,
        &mut items,
        &mut truncated,
    );
    assert(extractions_view(items@).len() == items@.len());
    let count = items.len();
    (items, ExtractSummary { extracted_count: count, truncated_by_max_files: truncated })
}

/// The files and the summary are those of this extraction.
pub open spec fn is_outcome(r: (Vec<Extraction>, ExtractSummary), expected: Progress) -> bool {
    &&& extractions_view(r.0@) == expected.items
    &&& r.1.extracted_count == expected.items.len()
    &&& r.1.truncated_by_max_files == expected.truncated
}

/// Finds the files in `data` and extracts them, and where that is wanted the
/// files inside them: the files to be written, in that order, and a summary.
pub fn extract(scanner: &Scanner, data: &[u8], threads: usize, opts: &ExtractOptions) -> (r: (
    Vec<Extraction>,
    ExtractSummary,
))
    requires
        scanner.wf(),
    ensures
        is_outcome(r, extraction(scanner.signatures@, *opts, data@)),
{
    let findings = scan(scanner, data, threads);
    proof {
        let all = scan_result(scanner.signatures@, data@);
        assert(scanner.signatures.len() == scanner.signatures@.len());
        assert forall|k: int| 0 <= k < all.len() implies 0 <= (#[trigger] all[k]).offset_start
            <= all[k].offset_end < data@.len() by {
            law_finding_ranges(scanner.signatures@, data@, k);
            law_finding_inside(scanner.signatures@, data@, k);
        }
    }
    extract_findings_of(scanner, data, findings, opts)
}

/// What has been extracted so far stays within limits: not too many files, none
/// too deep, and each a part of the `len` bytes of data.
pub open spec fn within_limits(rules: Rules, len: int, progress: Progress) -> bool {
    &&& progress.items.len() <= rules.opts.max_files
    &&& progress.truncated ==> progress.items.len() == rules.opts.max_files
    &&& forall|k: int|
        0 <= k < progress.items.len() ==> {
            let item = #[trigger] progress.items[k];
            &&& 0 <= item.from < item.to <= len
            &&& item.directory.len() == 0 || item.directory.len() < rules.opts.max_depth
        }
}

/// A place lies inside `len` bytes of data and is not too deep.
pub open spec fn is_place(rules: Rules, place: Place, len: int) -> bool {
    &&& 0 <= place.base
    &&& place.base + place.s.len() <= len
    &&& place.depth == place.directory.len()
    &&& place.depth == 0 || place.depth < rules.opts.max_depth
}

proof fn lemma_place_within_limits(rules: Rules, place: Place, len: int, before: Progress)
    requires
        is_place(rules, place, len),
        scannable(rules.signatures, place.s),
        within_limits(rules, len, before),
    ensures
        within_limits(rules, len, extract_place(rules, place, before)),
    decreases rules.opts.max_depth - place.depth, 1int, 0int,
{
    if before.items.len() < rules.opts.max_files {
        lemma_wanted_whole(rules, place.s);
        lemma_findings_within_limits(rules, place, len, wanted(rules, place.s), 0, before);
    }
}

proof fn lemma_findings_within_limits(
    rules: Rules,
    place: Place,
    len: int,
    findings: Seq<FindingModel>,
    i: int,
    before: Progress,
)
    requires
        is_place(rules, place, len),
        scannable(rules.signatures, place.s),
        all_whole(place.s, findings),
        within_limits(rules, len, before),
    ensures
        within_limits(rules, len, extract_findings(rules, place, findings, i, before)),
    decreases rules.opts.max_depth - place.depth, 0int, findings.len() - i,
{
    if 0 <= i < findings.len() && before.items.len() < rules.opts.max_files {
        let one = Progress {
            items: before.items.push(item_of(rules, place, findings[i])),
            ..before
        };
        assert(within_limits(rules, len, one));
        let after = if goes_deeper(rules, place, findings[i]) {
            let inner = inside_of(rules, place, findings[i]);
            lemma_place_within_limits(rules, inner, len, one);
            extract_place(rules, inner, one)
        } else {
            one
        };
        lemma_findings_within_limits(rules, place, len, findings, i + 1, after);
    }
}

/// An extraction stays within its limits: it gives at most `max_files` files and
/// says that it was cut short only if it gave that many; each is a part of the
/// data, and none lies `max_depth` levels deep.
pub proof fn law_extraction_within_limits(signatures: Seq<Signature>, opts: ExtractOptions, s: Seq<u8>)
    requires
        scannable(signatures, s),
    ensures
        within_limits(Rules { signatures, opts }, s.len() as int, extraction(signatures, opts, s)),
{
    lemma_place_within_limits(
        Rules { signatures, opts },
        Place { s, base: 0, directory: Seq::empty(), depth: 0 },
        s.len() as int,
        Progress { items: Seq::empty(), truncated: false },
    );
}

/// Later findings add files behind those that are there.
pub proof fn lemma_findings_extend(
    rules: Rules,
    place: Place,
    findings: Seq<FindingModel>,
    i: int,
    before: Progress,
)
    ensures
        before.items.is_prefix_of(extract_findings(rules, place, findings, i, before).items),
        before.truncated ==> extract_findings(rules, place, findings, i, before).truncated,
    decreases rules.opts.max_depth - place.depth, 0int, findings.len() - i,
{
    if 0 <= i < findings.len() && before.items.len() < rules.opts.max_files {
        let one = Progress {
            items: before.items.push(item_of(rules, place, findings[i])),
            ..before
        };
        let after = if goes_deeper(rules, place, findings[i]) {
            let inner = inside_of(rules, place, findings[i]);
            if one.items.len() < rules.opts.max_files {
                lemma_findings_extend(rules, inner, wanted(rules, inner.s), 0, one);
            }
            extract_place(rules, inner, one)
        } else {
            one
        };
        assert(before.items.is_prefix_of(one.items));
        assert(one.items.is_prefix_of(after.items));
        lemma_findings_extend(rules, place, findings, i + 1, after);
        let last = extract_findings(rules, place, findings, i + 1, after).items;
        assert(before.items.is_prefix_of(last)) by {
            assert(before.items == last.take(before.items.len() as int));
        }
    }
}

pub proof fn lemma_findings_complete(
    rules: Rules,
    place: Place,
    findings: Seq<FindingModel>,
    i: int,
    before: Progress,
    k: int,
)
    requires
        0 <= i <= k < findings.len(),
        !extract_findings(rules, place, findings, i, before).truncated,
    ensures
        extract_findings(rules, place, findings, i, before).items.contains(
            item_of(rules, place, findings[k]),
        ),
    decreases findings.len() - i,
{
    let one = Progress {
        items: before.items.push(item_of(rules, place, findings[i])),
        ..before
    };
    let after = if goes_deeper(rules, place, findings[i]) {
        let inner = inside_of(rules, place, findings[i]);
        if one.items.len() < rules.opts.max_files {
            lemma_findings_extend(rules, inner, wanted(rules, inner.s), 0, one);
        }
        extract_place(rules, inner, one)
    } else {
        one
    };
    lemma_findings_extend(rules, place, findings, i + 1, after);
    let last = extract_findings(rules, place, findings, i + 1, after).items;
    if i == k {
        let at = before.items.len() as int;
        assert(one.items[at] == item_of(rules, place, findings[k]));
        assert(after.items[at] == one.items[at]);
        assert(last[at] == after.items[at]);
    } else {
        lemma_findings_complete(rules, place, findings, i + 1, after, k);
    }
}

/// An extraction that was not cut short gives every finding that is certain
/// enough.
pub proof fn law_extraction_complete(
    signatures: Seq<Signature>,
    opts: ExtractOptions,
    s: Seq<u8>,
    k: int,
)
    requires
        !extraction(signatures, opts, s).truncated,
        0 <= k < wanted(Rules { signatures, opts }, s).len(),
    ensures
        extraction(signatures, opts, s).items.contains(
            item_of(
                Rules { signatures, opts },
                Place { s, base: 0, directory: Seq::empty(), depth: 0 },
                wanted(Rules { signatures, opts }, s)[k],
            ),
        ),
{
    lemma_findings_complete(
        Rules { signatures, opts },
        Place { s, base: 0, directory: Seq::empty(), depth: 0 },
        wanted(Rules { signatures, opts }, s),
        0,
        Progress { items: Seq::empty(), truncated: false },
        k,
    );
}

/// These rules differ at most in whether files are written.
pub open spec fn same_but_for_writing(a: Rules, b: Rules) -> bool {
    &&& a.signatures == b.signatures
    &&& a.opts == (ExtractOptions { dry_run: a.opts.dry_run, ..b.opts })
}

proof fn lemma_place_without_writing(a: Rules, b: Rules, place: Place, before: Progress)
    requires
        same_but_for_writing(a, b),
    ensures
        extract_place(a, place, before) == extract_place(b, place, before),
    decreases a.opts.max_depth - place.depth, 1int, 0int,
{
    assert(wanted(a, place.s) == wanted(b, place.s));
    if before.items.len() < a.opts.max_files {
        lemma_findings_without_writing(a, b, place, wanted(a, place.s), 0, before);
    }
}

proof fn lemma_findings_without_writing(
    a: Rules,
    b: Rules,
    place: Place,
    findings: Seq<FindingModel>,
    i: int,
    before: Progress,
)
    requires
        same_but_for_writing(a, b),
    ensures
        extract_findings(a, place, findings, i, before) == extract_findings(
            b,
            place,
            findings,
            i,
            before,
        ),
    decreases a.opts.max_depth - place.depth, 0int, findings.len() - i,
{
    if 0 <= i < findings.len() && before.items.len() < a.opts.max_files {
        let one = Progress {
            items: before.items.push(item_of(a, place, findings[i])),
            ..before
        };
        let after = if goes_deeper(a, place, findings[i]) {
            let inner = inside_of(a, place, findings[i]);
            lemma_place_without_writing(a, b, inner, one);
            extract_place(a, inner, one)
        } else {
            one
        };
        lemma_findings_without_writing(a, b, place, findings, i + 1, after);
    }
}

/// A dry run comes to the same as a real one: the same files, the same number of
/// them, and cut short or not alike.
pub proof fn law_dry_run_comes_to_the_same(signatures: Seq<Signature>, opts: ExtractOptions, s: Seq<u8>)
    ensures
        extraction(signatures, ExtractOptions { dry_run: true, ..opts }, s) == extraction(
            signatures,
            ExtractOptions { dry_run: false, ..opts },
            s,
        ),
{
    lemma_place_without_writing(
        Rules { signatures, opts: ExtractOptions { dry_run: true, ..opts } },
        Rules { signatures, opts: ExtractOptions { dry_run: false, ..opts } },
        Place { s, base: 0, directory: Seq::empty(), depth: 0 },
        Progress { items: Seq::empty(), truncated: false },
    );
}

} // verus!
