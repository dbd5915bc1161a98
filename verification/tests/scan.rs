//! Scanning and extracting with small signature tables.
use great_extractor::archives::validate_tar;
use great_extractor::extractor::{
    are_whole, extract, file_name_for, keep_confident, ExtractOptions, Extraction,
};
use great_extractor::scanner::{
    apply_fallback_ends, chunk_overlap, chunk_ranges, find_in_chunk, find_matches, resolve_finding, scan,
    scan_quiet, sort_matches, Finding, PendingFinding, Scanner, MIN_CHUNK_SIZE,
};
use great_extractor::signature::{extension_for, sort_by_name, usage_note, NameExtractor, Signature};
use great_extractor::validators::Validator;

fn signature(name: &'static str, magic: &'static [u8]) -> Signature {
    Signature {
        name,
        extension: "bin",
        description: "a test format",
        note: "for tests",
        magic,
        relative_offset: 0,
        validator: None,
        end_marker: None,
        name_extractor: None,
    }
}

fn png() -> Signature {
    Signature {
        extension: "png",
        validator: Some(Validator::Png),
        ..signature("PNG", b"\x89PNG\r\n\x1a\n")
    }
}

fn riff(form: &'static [u8], name: &'static str) -> Signature {
    Signature { relative_offset: 8, validator: Some(Validator::Riff), ..signature(name, form) }
}

fn tar() -> Signature {
    Signature {
        relative_offset: 257,
        validator: Some(Validator::Tar),
        name_extractor: Some(NameExtractor::Tar),
        extension: "tar",
        ..signature("TAR", b"ustar")
    }
}

fn minimal_png() -> Vec<u8> {
    let mut out = b"\x89PNG\r\n\x1a\n".to_vec();
    out.extend_from_slice(&0u32.to_be_bytes());
    out.extend_from_slice(b"IEND");
    out.extend_from_slice(&[0xAE, 0x42, 0x60, 0x82]);
    out
}

fn tar_header(name: &[u8], size: usize) -> Vec<u8> {
    let mut header = vec![0u8; 512];
    header[..name.len()].copy_from_slice(name);
    let octal = format!("{size:011o}\0");
    header[124..136].copy_from_slice(octal.as_bytes());
    header[257..262].copy_from_slice(b"ustar");
    header
}

fn scanner(signatures: Vec<Signature>) -> Scanner {
    Scanner::new(signatures).expect("the signatures are sound")
}

fn starts(findings: &[Finding]) -> Vec<(usize, usize, String)> {
    findings.iter().map(|f| (f.offset_start, f.offset_end, f.format.clone())).collect()
}

fn options() -> ExtractOptions {
    ExtractOptions { recursive: true, max_depth: 8, max_files: 100, dry_run: false, min_confidence: 0 }
}

#[test]
fn an_empty_file_has_no_findings() {
    let scanner = scanner(vec![signature("A", b"AA")]);
    assert!(scan(&scanner, b"", 4).is_empty());
}

#[test]
fn signatures_that_are_not_sound_give_no_scanner() {
    assert!(Scanner::new(vec![signature("A", b"")]).is_none());
    let open_ended = Signature { end_marker: Some(b""), ..signature("A", b"A") };
    assert!(Scanner::new(vec![open_ended]).is_none());
    let out_of_reach = Signature { relative_offset: usize::MAX, ..signature("A", b"A") };
    assert!(!out_of_reach.is_sound());
    assert!(Scanner::new(vec![out_of_reach]).is_none());
}

#[test]
fn sound_signatures_give_a_scanner() {
    assert!(Scanner::new(Vec::new()).is_some());
    let same = vec![signature("A", &[0x41u8; 128]); 256];
    assert_eq!(scanner(same).signatures.len(), 256);
}

#[test]
fn overlapping_matches_are_all_found_in_order() {
    let scanner = scanner(vec![signature("B", b"aba"), signature("A", b"ab")]);
    let found = scan(&scanner, b"xababa", 1);
    assert_eq!(
        starts(&found),
        vec![
            (1, 2, "A".to_string()),
            (1, 2, "B".to_string()),
            (3, 5, "A".to_string()),
            (3, 5, "B".to_string()),
        ]
    );
    assert!(found.iter().all(|f| f.confidence == 40 && f.size == f.offset_end - f.offset_start + 1));
}

#[test]
fn a_finding_without_end_reaches_up_to_the_next_or_to_the_end() {
    let scanner = scanner(vec![signature("A", b"AA"), signature("B", b"BB")]);
    let found = scan_quiet(&scanner, b"..AA....BB...");
    assert_eq!(starts(&found), vec![(2, 7, "A".to_string()), (8, 12, "B".to_string())]);
}

#[test]
fn an_end_marker_closes_a_finding() {
    let marked = Signature { end_marker: Some(b"END"), ..signature("A", b"AA") };
    let scanner = scanner(vec![marked]);
    let found = scan_quiet(&scanner, b".AA123END456");
    assert_eq!(starts(&found), vec![(1, 8, "A".to_string())]);
    assert_eq!(found[0].confidence, 75);
    assert_eq!(found[0].size, 8);
}

#[test]
fn an_end_marker_inside_the_magic_bytes_does_not_count() {
    let marked = Signature { end_marker: Some(b"A"), ..signature("A", b"AA") };
    let pending = resolve_finding(b"AA..A.", 0, &marked);
    assert_eq!(pending.resolved_end, Some(4));
}

#[test]
fn a_validator_decides_before_an_end_marker() {
    let both = Signature { end_marker: Some(b"IEND"), ..png() };
    let mut data = vec![0u8; 3];
    data.extend_from_slice(&minimal_png());
    data.extend_from_slice(b"tail");
    let pending = resolve_finding(&data, 3, &both);
    assert_eq!((pending.resolved_end, pending.confidence), (Some(22), 95));

    let cut = &data[..20];
    let pending = resolve_finding(cut, 3, &both);
    assert_eq!((pending.resolved_end, pending.confidence), (Some(18), 75));
}

#[test]
fn magic_bytes_inside_a_header_give_the_start_of_the_file() {
    let mut data = vec![b'.'; 5];
    data.extend_from_slice(b"RIFF");
    data.extend_from_slice(&8u32.to_le_bytes());
    data.extend_from_slice(b"WAVEdata");
    let scanner = scanner(vec![riff(b"WAVE", "WAV")]);
    let found = scan_quiet(&scanner, &data);
    assert_eq!(starts(&found), vec![(5, 20, "WAV".to_string())]);
    assert_eq!(found[0].confidence, 90);

    // Too close to the beginning for a header in front.
    assert!(scan_quiet(&scanner, b"..WAVE......").is_empty());
}

#[test]
fn names_are_taken_from_the_structure() {
    let mut data = tar_header(b"hello.txt", 3);
    data.extend_from_slice(&[b'x'; 512]);
    data.extend_from_slice(&[0u8; 1024]);
    let found = scan_quiet(&scanner(vec![tar()]), &data);
    assert_eq!(found.len(), 1);
    assert_eq!(found[0].name.as_deref(), Some("hello.txt"));
    assert_eq!((found[0].offset_end, found[0].confidence), (2047, 95));
}

#[test]
fn the_number_of_threads_does_not_change_what_is_found() {
    let len = 3 * MIN_CHUNK_SIZE + 100;
    let mut data = vec![0u8; len];
    // One match in each chunk, one across a border, one at each end.
    for at in [0, 17, MIN_CHUNK_SIZE - 2, MIN_CHUNK_SIZE + 5, 2 * MIN_CHUNK_SIZE - 1, len - 4] {
        data[at..at + 4].copy_from_slice(b"MARK");
    }
    let scanner = scanner(vec![signature("M", b"MARK"), signature("A", b"ARK")]);
    let one = find_matches(&scanner, &data, 1);
    assert_eq!(one.len(), 12);
    for threads in [0, 2, 3, 64, usize::MAX] {
        assert_eq!(find_matches(&scanner, &data, threads), one);
        assert_eq!(starts(&scan(&scanner, &data, threads)), starts(&scan_quiet(&scanner, &data)));
    }
}

#[test]
fn chunks_cover_the_data_and_overlap() {
    assert!(chunk_ranges(0, 3, 4).is_empty());
    assert_eq!(chunk_ranges(10, 3, 4), vec![(0, 10, 10)]);
    let n = MIN_CHUNK_SIZE;
    assert_eq!(
        chunk_ranges(2 * n + 1, 3, 1),
        vec![(0, n, n + 3), (n, 2 * n, 2 * n + 1), (2 * n, 2 * n + 1, 2 * n + 1)]
    );
    assert_eq!(chunk_ranges(8 * n, 0, 1), vec![(0, 2 * n, 2 * n), (2 * n, 4 * n, 4 * n), (4 * n, 6 * n, 6 * n), (6 * n, 8 * n, 8 * n)]);
}

#[test]
fn a_chunk_keeps_only_matches_that_begin_in_its_core() {
    let scanner = scanner(vec![signature("A", b"AB"), riff(b"AB", "R")]);
    assert_eq!(chunk_overlap(&scanner.signatures), 1);
    let data = b"AB......AB..AB";
    let mut first = find_in_chunk(&scanner, data, 0, 9, 10);
    first.sort();
    assert_eq!(first, vec![(0, 0), (0, 1), (8, 0)]);
    let mut second = find_in_chunk(&scanner, data, 9, 14, 14);
    second.sort();
    assert_eq!(second, vec![(4, 1), (12, 0)]);
}

#[test]
fn matches_are_sorted_by_start_and_signature() {
    assert_eq!(sort_matches(vec![(5, 1), (2, 7), (5, 0), (2, 3)]), vec![(2, 3), (2, 7), (5, 0), (5, 1)]);
}

#[test]
fn signatures_are_sorted_by_name() {
    let sorted = sort_by_name(vec![signature("b", b"1"), signature("a", b"2"), signature("B", b"3"), signature("ab", b"4")]);
    let names: Vec<&str> = sorted.iter().map(|s| s.name).collect();
    assert_eq!(names, vec!["B", "a", "ab", "b"]);
}

fn pending(offset_start: usize, resolved_end: Option<usize>) -> PendingFinding {
    PendingFinding { format: "A", description: "a", offset_start, confidence: 40, resolved_end, name: None }
}

#[test]
fn ends_are_settled_by_the_next_greater_start() {
    let settled = apply_fallback_ends(
        vec![pending(3, None), pending(3, Some(1)), pending(9, None), pending(9, Some(30))],
        20,
    );
    let ends: Vec<(usize, usize)> = settled.iter().map(|f| (f.offset_end, f.size)).collect();
    assert_eq!(ends, vec![(8, 6), (3, 1), (19, 11), (30, 22)]);
    let alone = apply_fallback_ends(vec![pending(0, None)], 0);
    assert_eq!((alone[0].offset_end, alone[0].size), (0, 1));
}

#[test]
fn extensions_and_notes_go_by_name() {
    let table = vec![png(), tar()];
    assert_eq!(extension_for(&table, "TAR"), "tar");
    assert_eq!(extension_for(&table, "nothing"), "bin");
    assert_eq!(usage_note(&table, "PNG"), "for tests");
    assert_eq!(usage_note(&table, "nothing"), "");
}

#[test]
fn file_names_give_offset_format_and_extension() {
    let finding = Finding {
        format: "Mach-O-Fat".to_string(),
        description: String::new(),
        offset_start: 0xABC,
        offset_end: 0xABD,
        size: 2,
        confidence: 90,
        name: None,
    };
    assert_eq!(file_name_for(&vec![png()], &finding), "00000abc_mach-o-fat.bin");
}

fn paths(items: &[Extraction]) -> Vec<String> {
    items.iter().map(|i| i.directory.iter().map(|d| format!("{d}/")).collect::<String>() + &i.file_name).collect()
}

/// A container that holds a picture, and the offset of the picture in it.
fn container_with_png() -> (Vec<u8>, usize) {
    let picture = minimal_png();
    let mut out = b"RIFF".to_vec();
    out.extend_from_slice(&(4 + 4 + picture.len() as u32).to_le_bytes());
    out.extend_from_slice(b"WAVE....");
    let at = out.len();
    out.extend_from_slice(&picture);
    (out, at)
}

#[test]
fn files_inside_files_are_extracted_to_directories() {
    let (container, inner) = container_with_png();
    let mut data = b"junk".to_vec();
    data.extend_from_slice(&container);
    data.extend_from_slice(b"junk");
    let scanner = scanner(vec![png(), riff(b"WAVE", "WAV")]);

    let (items, summary) = extract(&scanner, &data, 1, &options());
    assert_eq!(summary.extracted_count, 6);
    assert!(!summary.truncated_by_max_files);
    assert_eq!(
        paths(&items),
        vec![
            "00000004_wav.bin",
            "00000004_wav.bin_extracted/00000000_wav.bin",
            "00000004_wav.bin_extracted/00000010_png.png",
            "00000004_wav.bin_extracted/00000010_png.png_extracted/00000000_png.png",
            "00000014_png.png",
            "00000014_png.png_extracted/00000000_png.png",
        ]
    );
    assert_eq!(&data[items[0].from..items[0].to], &container[..]);
    assert_eq!((items[2].from, items[2].to), (4 + inner, 4 + container.len()));
    assert_eq!(&data[items[3].from..items[3].to], &minimal_png()[..]);
    assert_eq!((items[4].from, items[4].to), (items[2].from, items[2].to));
    assert_eq!(items[2].finding.offset_start, inner);
}

#[test]
fn depth_and_number_of_files_are_limited() {
    let (container, _) = container_with_png();
    let mut data = container;
    data.extend_from_slice(b"junk");
    let scanner = scanner(vec![png(), riff(b"WAVE", "WAV")]);

    let shallow = ExtractOptions { max_depth: 1, ..options() };
    let (items, _) = extract(&scanner, &data, 1, &shallow);
    assert_eq!(paths(&items), vec!["00000000_wav.bin", "00000010_png.png"]);

    let flat = ExtractOptions { recursive: false, ..options() };
    let (items, _) = extract(&scanner, &data, 1, &flat);
    assert_eq!(items.len(), 2);

    let few = ExtractOptions { max_files: 2, ..options() };
    let (items, summary) = extract(&scanner, &data, 1, &few);
    assert_eq!((items.len(), summary.truncated_by_max_files), (2, true));

    let none = ExtractOptions { max_files: 0, ..options() };
    let (items, summary) = extract(&scanner, &data, 1, &none);
    assert_eq!((items.len(), summary.truncated_by_max_files), (0, true));
}

#[test]
fn a_file_that_is_its_own_container_is_not_searched_again() {
    let (data, _) = container_with_png();
    let scanner = scanner(vec![riff(b"WAVE", "WAV")]);
    let (items, _) = extract(&scanner, &data, 1, &options());
    assert_eq!(items.len(), 1);
}

#[test]
fn uncertain_findings_are_not_extracted() {
    let scanner = scanner(vec![png(), signature("A", b"AA")]);
    let mut data = b"..AA..".to_vec();
    data.extend_from_slice(&minimal_png());
    let certain = ExtractOptions { min_confidence: 41, ..options() };
    let (items, _) = extract(&scanner, &data, 1, &certain);
    assert_eq!(paths(&items), vec!["00000006_png.png", "00000006_png.png_extracted/00000000_png.png"]);
    let kept = keep_confident(scan_quiet(&scanner, &data), 41);
    assert_eq!(starts(&kept), vec![(6, 25, "PNG".to_string())]);
}

#[test]
fn an_entry_that_is_cut_off_does_not_count() {
    let scanner = scanner(vec![tar()]);
    let cut_off = tar_header(b"big", 4096);
    assert_eq!(validate_tar(&cut_off, 0), None);
    let found = scan_quiet(&scanner, &cut_off);
    assert_eq!(starts(&found), vec![(0, 511, "TAR".to_string())]);
    assert_eq!(found[0].confidence, 40);

    let mut two = tar_header(b"small", 11);
    two.resize(1024, b'x');
    two.extend_from_slice(&tar_header(b"big", 4096));
    assert_eq!(validate_tar(&two, 0), Some((1023, 70)));
    two.resize(1024 + 512 + 4095, b'x');
    assert_eq!(validate_tar(&two, 0), Some((1023, 70)));
    two.push(b'x');
    assert_eq!(validate_tar(&two, 0), Some((1024 + 512 + 4096 - 1, 70)));
}

#[test]
fn a_finding_past_the_end_is_not_whole() {
    let scanner = scanner(vec![png()]);
    let data = minimal_png();
    let found = scan_quiet(&scanner, &data);
    assert!(are_whole(&data, &found));
    assert!(!are_whole(&data[..data.len() - 1], &found));
}

#[test]
fn zero_blocks_end_an_archive_whatever_follows() {
    let mut closed = tar_header(b"name", 0);
    closed.resize(512 * 3, 0);
    assert_eq!(validate_tar(&closed, 0), Some((512 * 3 - 1, 95)));
    closed.resize(512 * 8, 0);
    assert_eq!(validate_tar(&closed, 0), Some((512 * 3 - 1, 95)));
    closed.extend_from_slice(&tar_header(b"more", 0));
    assert_eq!(validate_tar(&closed, 0), Some((512 * 3 - 1, 95)));
}

#[test]
fn a_dry_run_gives_the_same_counts() {
    let (container, _) = container_with_png();
    let mut data = container;
    data.extend_from_slice(b"junk");
    let scanner = scanner(vec![png(), riff(b"WAVE", "WAV")]);
    let limited = ExtractOptions { max_files: 2, ..options() };
    for opts in [options(), limited] {
        let (written, real) = extract(&scanner, &data, 1, &ExtractOptions { dry_run: false, ..opts });
        let (announced, dry) = extract(&scanner, &data, 1, &ExtractOptions { dry_run: true, ..opts });
        assert_eq!(paths(&written), paths(&announced));
        assert_eq!(real.extracted_count, dry.extracted_count);
        assert_eq!(real.truncated_by_max_files, dry.truncated_by_max_files);
    }
}
