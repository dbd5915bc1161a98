//! What is written and shown keeps together with what it is about.
use vstd::prelude::*;
use vstd::string::*;
use crate::extractor::{extraction, listed_extraction, ExtractOptions};
use crate::keys::Key;
use crate::lines::lines_from;
use crate::numbers::dec;
use crate::output::{bar_len, formats_help, formats_text, level_char};
use crate::popups::{choice_text, choices_rows, popup_of, PopupModel};
use crate::report_laws::{are_lines, law_lines_are_given_back, text_of_lines};
use crate::reports::{csv_field, csv_fields, csv_record, csv_text, finding_fields, finding_titles};
use crate::scanner::{chunk_size, chunks_from, longest_magic, scan_result, FindingModel};
use crate::signature::Signature;
use crate::theme::ThemeKind;
use crate::tui::{AppModel, MenuModel};
use crate::views::{is_image, is_text, panel_title, panels_of};

verus! {

/// To extract the findings of a scan is to extract the file.
pub proof fn law_findings_of_a_scan_are_extracted(
    signatures: Seq<Signature>,
    opts: ExtractOptions,
    s: Seq<u8>,
)
    ensures
        listed_extraction(signatures, opts, s, scan_result(signatures, s)) == extraction(
            signatures,
            opts,
            s,
        ),
{
}

/// Findings that are not certain enough make no difference to what is extracted, and those
/// that are come in their order.
pub proof fn law_uncertain_findings_are_left_out(
    signatures: Seq<Signature>,
    opts: ExtractOptions,
    s: Seq<u8>,
    findings: Seq<FindingModel>,
    finding: FindingModel,
    at: int,
)
    requires
        0 <= at <= findings.len(),
        finding.confidence < opts.min_confidence,
    ensures
        listed_extraction(signatures, opts, s, findings.insert(at, finding)) == listed_extraction(
            signatures,
            opts,
            s,
            findings,
        ),
{
    broadcast use Seq::filter_distributes_over_add;
    let certain = |f: FindingModel| f.confidence >= opts.min_confidence;
    let (a, b) = (findings.take(at), findings.skip(at));
    assert(findings == a + b);
    assert(findings.insert(at, finding) == a + (seq![finding] + b));
    assert(seq![finding].filter(certain) == Seq::<FindingModel>::empty()) by {
        reveal_with_fuel(Seq::filter, 2);
        assert(seq![finding].drop_last() == Seq::<FindingModel>::empty());
    }
    assert((seq![finding] + b).filter(certain) == b.filter(certain));
}

/// Nothing is extracted where no file may be, and that is told.
pub proof fn law_no_files_at_all(
    signatures: Seq<Signature>,
    opts: ExtractOptions,
    s: Seq<u8>,
    findings: Seq<FindingModel>,
)
    requires
        opts.max_files == 0,
    ensures
        listed_extraction(signatures, opts, s, findings).items.len() == 0,
        listed_extraction(signatures, opts, s, findings).truncated,
{
}

proof fn lemma_csv_fields_join(a: Seq<Seq<char>>, b: Seq<Seq<char>>)
    requires
        a.len() > 0,
        b.len() > 0,
    ensures
        csv_fields(a + b) == csv_fields(a) + seq![','] + csv_fields(b),
    decreases b.len(),
{
    assert((a + b).drop_last() == a + b.drop_last());
    assert((a + b).last() == b.last());
    if b.len() == 1 {
        assert(a + b.drop_last() == a);
    } else {
        lemma_csv_fields_join(a, b.drop_last());
    }
}

/// A record of a CSV file is its fields with a comma between each two: two parts of it stand
/// side by side, and a record of one field is that field.
pub proof fn law_fields_are_parted_by_commas(a: Seq<Seq<char>>, b: Seq<Seq<char>>, field: Seq<char>)
    requires
        a.len() > 0,
        b.len() > 0,
    ensures
        csv_record(a + b) == csv_fields(a) + seq![','] + csv_record(b) || csv_fields(b).len() == 0,
        csv_fields(a + b) == csv_fields(a) + seq![','] + csv_fields(b),
        csv_fields(seq![field]) == csv_field(field),
        field.len() > 0 ==> csv_record(seq![field]) == csv_field(field) + seq!['\n'],
        csv_record(seq![Seq::<char>::empty()]) == seq!['"', '"', '\n'],
{
    lemma_csv_fields_join(a, b);
    assert(csv_fields(seq![field]) == csv_field(field));
    assert(csv_fields(seq![Seq::<char>::empty()]) == csv_field(Seq::<char>::empty()));
}

/// The lines of a CSV file: the header and a line for each row.
pub open spec fn csv_lines(header: Seq<Seq<char>>, rows: Seq<Seq<Seq<char>>>) -> Seq<Seq<char>> {
    seq![csv_fields(header)] + rows.map_values(|row: Seq<Seq<char>>| csv_fields(row))
}

proof fn lemma_text_of_lines_push(lines: Seq<Seq<char>>, line: Seq<char>)
    ensures
        text_of_lines(lines.push(line)) == text_of_lines(lines) + line + seq!['\n'],
    decreases lines.len(),
{
    if lines.len() == 0 {
        reveal_with_fuel(text_of_lines, 2);
        assert(lines.push(line).skip(1) == Seq::<Seq<char>>::empty());
        assert(text_of_lines(lines.push(line)) =~= line + seq!['\n']);
    } else {
        assert(lines.push(line).skip(1) == lines.skip(1).push(line));
        lemma_text_of_lines_push(lines.skip(1), line);
        assert(lines.push(line)[0] == lines[0]);
    }
}

proof fn lemma_csv_text(header: Seq<Seq<char>>, rows: Seq<Seq<Seq<char>>>)
    requires
        forall|i: int|
            0 <= i < csv_lines(header, rows).len() ==> (#[trigger] csv_lines(header, rows)[i]).len() > 0,
    ensures
        csv_text(header, rows) == text_of_lines(csv_lines(header, rows)),
    decreases rows.len(),
{
    let lines = csv_lines(header, rows);
    assert(lines[0] == csv_fields(header));
    if rows.len() == 0 {
        assert(lines == Seq::<Seq<char>>::empty().push(csv_fields(header)));
        lemma_text_of_lines_push(Seq::empty(), csv_fields(header));
        assert(csv_text(header, rows) =~= csv_fields(header) + seq!['\n']);
    } else {
        let before = csv_lines(header, rows.drop_last());
        assert(lines == before.push(csv_fields(rows.last())));
        assert forall|i: int| 0 <= i < before.len() implies (#[trigger] before[i]).len() > 0 by {
            assert(before[i] == lines[i]);
        }
        assert(lines.last() == csv_fields(rows.last()));
        lemma_csv_text(header, rows.drop_last());
        lemma_text_of_lines_push(before, csv_fields(rows.last()));
    }
}

/// A CSV file has the header in its first line and each row, in order, in one of the lines
/// behind it. (A field with a line feed takes more than one line; such rows are left out here.)
pub proof fn law_csv_has_a_line_for_each_row(header: Seq<Seq<char>>, rows: Seq<Seq<Seq<char>>>)
    requires
        are_lines(csv_lines(header, rows)),
        forall|i: int|
            0 <= i < csv_lines(header, rows).len() ==> (#[trigger] csv_lines(header, rows)[i]).len() > 0,
    ensures
        ({
            let lines = lines_from(csv_text(header, rows), 0);
            &&& lines.len() == rows.len() + 1
            &&& lines[0] == csv_fields(header)
            &&& forall|i: int|
                0 <= i < rows.len() ==> lines[i + 1] == csv_fields(#[trigger] rows[i])
        }),
{
    lemma_csv_text(header, rows);
    law_lines_are_given_back(csv_lines(header, rows));
}

/// Both reports on findings name the same columns in the same order.
pub proof fn law_columns_of_reports()
    ensures
        finding_titles().len() == 7 && finding_fields().len() == 7,
        finding_titles()[0] == "Offset start"@ && finding_fields()[0] == "offset_start"@,
        finding_titles()[1] == "Offset end"@ && finding_fields()[1] == "offset_end"@,
        finding_titles()[2] == "Size"@ && finding_fields()[2] == "size"@,
        finding_titles()[3] == "Format"@ && finding_fields()[3] == "format"@,
        finding_titles()[4] == "Description"@ && finding_fields()[4] == "description"@,
        finding_titles()[5] == "Confidence"@ && finding_fields()[5] == "confidence"@,
        finding_titles()[6] == "Name"@ && finding_fields()[6] == "name"@,
{
}

/// The characters of the levels of entropy are the eight blocks of Unicode in their order, each
/// an eighth higher than the one before, behind a space; and a bar is two characters longer
/// for each level.
pub proof fn law_bars_grow_with_entropy(level: int)
    requires
        0 <= level <= 8,
    ensures
        level_char(0) == ' ',
        level > 0 ==> level_char(level) as u32 == 0x2580 + level,
        bar_len(0) == 1,
        level > 0 ==> bar_len(level) == bar_len(level - 1) + 2,
{
}

proof fn lemma_formats_text(a: Seq<Signature>, b: Seq<Signature>, i: int)
    requires
        0 <= i <= a.len(),
    ensures
        formats_text(a + b, i) == formats_text(a, i) + formats_text(b, 0),
    decreases a.len() - i,
{
    if i == a.len() {
        lemma_formats_text_suffix(a, b, 0);
        assert(formats_text(a, i) == Seq::<char>::empty());
    } else {
        lemma_formats_text(a, b, i + 1);
        assert((a + b)[i] == a[i]);
    }
}

proof fn lemma_formats_text_suffix(a: Seq<Signature>, b: Seq<Signature>, i: int)
    requires
        0 <= i <= b.len(),
    ensures
        formats_text(a + b, a.len() + i) == formats_text(b, i),
    decreases b.len() - i,
{
    if i < b.len() {
        lemma_formats_text_suffix(a, b, i + 1);
        assert((a + b)[a.len() + i] == b[i]);
    }
}

/// The help on the formats says how many there are, and then of each, in order, its name and,
/// on a line of its own, what it is used for.
pub proof fn law_help_tells_every_format(
    before: Seq<Signature>,
    signature: Signature,
    after: Seq<Signature>,
)
    ensures
        formats_help(before + seq![signature] + after) == "Підтримується "@ + dec(
            before.len() + 1 + after.len(),
        ) + " форматів:\n\n"@ + (formats_text(before, 0) + (signature.name@ + "\n  "@
            + signature.note@ + "\n\n"@) + formats_text(after, 0)),
        formats_text(Seq::empty(), 0) == Seq::<char>::empty(),
{
    let one = seq![signature];
    lemma_formats_text(before + one, after, 0);
    lemma_formats_text(before, one, 0);
    reveal_with_fuel(formats_text, 2);
    assert(formats_text(one, 0) == signature.name@ + "\n  "@ + signature.note@ + "\n\n"@);
}

/// The magic bytes of every signature fit in the longest.
pub proof fn law_longest_magic(signatures: Seq<Signature>, n: int, k: int)
    requires
        0 <= k < n <= signatures.len(),
    ensures
        signatures[k].magic@.len() <= longest_magic(signatures, n),
        longest_magic(signatures, n) == 1 || exists|j: int|
            0 <= j < n && (#[trigger] signatures[j]).magic@.len() == longest_magic(signatures, n),
    decreases n,
{
    let j = n - 1;
    if k < j {
        law_longest_magic(signatures, j, k);
    } else if n > 1 {
        law_longest_magic(signatures, j, 0);
    } else {
        assert(longest_magic(signatures, 0) == 1);
    }
    assert(longest_magic(signatures, n) == signatures[j].magic@.len() || longest_magic(
        signatures,
        n,
    ) == longest_magic(signatures, j));
}

/// The chunks of `len` bytes share them out: chunk `i` begins where `i` chunks of that size end
/// and is of that size, but for the last, which ends with the data; each is searched so far
/// beyond its end that nothing that begins in it and is at most one byte longer than the overlap is
/// missed.
pub proof fn law_chunks_share_out_the_data(len: int, size: int, overlap: int, i: int)
    requires
        0 <= len,
        size > 0,
        overlap >= 0,
        0 <= i < chunks_from(0, len, size, overlap).len(),
    ensures
        ({
            let (from, to, reach) = chunks_from(0, len, size, overlap)[i];
            &&& from == size * i
            &&& to == from + size || to == len && to < from + size
            &&& reach == to + overlap || reach == len && reach < to + overlap
            &&& i + 1 == chunks_from(0, len, size, overlap).len() <==> to == len
            &&& from < to <= reach <= len
        }),
{
    lemma_chunks(0, len, size, overlap, i);
}

proof fn lemma_chunks(start: int, len: int, size: int, overlap: int, i: int)
    requires
        0 <= start,
        size > 0,
        overlap >= 0,
        0 <= i < chunks_from(start, len, size, overlap).len(),
    ensures
        ({
            let (from, to, reach) = chunks_from(start, len, size, overlap)[i];
            &&& from == start + size * i
            &&& to == from + size || to == len && to < from + size
            &&& reach == to + overlap || reach == len && reach < to + overlap
            &&& i + 1 == chunks_from(start, len, size, overlap).len() <==> to == len
            &&& from < to <= reach <= len
        }),
    decreases len - start,
{
    let all = chunks_from(start, len, size, overlap);
    let end = all[0].1;
    let rest = chunks_from(end, len, size, overlap);
    assert(all.skip(1) == rest);
    if i == 0 {
        assert(size * i == 0) by (nonlinear_arith)
            requires
                i == 0,
        ;
    } else {
        assert(all[i] == rest[i - 1]);
        lemma_chunks(end, len, size, overlap, i - 1);
        assert(end == start + size);
        assert(size * (i - 1) + size == size * i) by (nonlinear_arith);
    }
}

/// A chunk is a quarter of a thread's share, rounded down, but at least a mebibyte.
pub proof fn law_chunk_size(len: int, threads: int)
    requires
        0 <= len,
        1 <= threads,
        4 * threads <= usize::MAX,
    ensures
        ({
            let size = chunk_size(len, threads);
            &&& size >= 1024 * 1024
            &&& size > 1024 * 1024 ==> 4 * threads * size <= len < 4 * threads * (size + 1)
            &&& size == 1024 * 1024 ==> len < 4 * threads * (size + 1)
        }),
{
    reveal(chunk_size);
    let n = 4 * threads;
    let q = len / n;
    vstd::arithmetic::div_mod::lemma_fundamental_div_mod(len, n);
    vstd::arithmetic::div_mod::lemma_mod_bound(len, n);
    assert(n * q <= len < n * (q + 1)) by (nonlinear_arith)
        requires
            len == n * q + len % n,
            0 <= len % n < n,
    ;
    let size = chunk_size(len, threads);
    assert(n * (q + 1) <= n * (size + 1)) by (nonlinear_arith)
        requires
            q <= size,
            n > 0,
    ;
}

/// Each format is shown in one way: as a picture, by what it holds, as a text, or as bytes.
/// The pictures are these.
pub proof fn law_pictures_are_shown(format: Seq<char>)
    ensures
        panels_of(format) is ImageAndHex <==> seq![
            "PNG"@,
            "JPEG"@,
            "GIF87a"@,
            "GIF89a"@,
            "BMP"@,
            "ICO"@,
            "CUR"@,
            "TIFF-LE"@,
            "TIFF-BE"@,
            "WEBP"@,
        ].contains(format),
{
    let list = seq![
        "PNG"@,
        "JPEG"@,
        "GIF87a"@,
        "GIF89a"@,
        "BMP"@,
        "ICO"@,
        "CUR"@,
        "TIFF-LE"@,
        "TIFF-BE"@,
        "WEBP"@,
    ];
    assert(list[0] == "PNG"@ && list[1] == "JPEG"@ && list[2] == "GIF87a"@ && list[3] == "GIF89a"@);
    assert(list[4] == "BMP"@ && list[5] == "ICO"@ && list[6] == "CUR"@ && list[7] == "TIFF-LE"@);
    assert(list[8] == "TIFF-BE"@ && list[9] == "WEBP"@);
}

/// The texts are these, and what is neither a picture nor a text nor has parts that are listed is
/// shown as bytes.
pub proof fn law_texts_are_shown(format: Seq<char>)
    ensures
        is_text(format) <==> seq![
            "SVG"@,
            "XPM"@,
            "EPS"@,
            "XFig"@,
            "PGP-Message"@,
            "PGP-PublicKey"@,
            "PGP-PrivateKey"@,
            "PGP-Signature"@,
            "PEM"@,
            "REG4"@,
            "REG5"@,
            "MBOX"@,
            "WebVTT"@,
            "ASS"@,
            "BDF"@,
            "FDF"@,
        ].contains(format),
        is_text(format) && !is_image(format) && panel_title(format) is None ==> panels_of(format) is Text,
        !is_image(format) && panel_title(format) is Some ==> panels_of(format) is ListAndHex,
        !is_image(format) && panel_title(format) is None && !is_text(format) ==> panels_of(format) is Hex,
{
    let list = seq![
        "SVG"@,
        "XPM"@,
        "EPS"@,
        "XFig"@,
        "PGP-Message"@,
        "PGP-PublicKey"@,
        "PGP-PrivateKey"@,
        "PGP-Signature"@,
        "PEM"@,
        "REG4"@,
        "REG5"@,
        "MBOX"@,
        "WebVTT"@,
        "ASS"@,
        "BDF"@,
        "FDF"@,
    ];
    assert(list[0] == "SVG"@ && list[1] == "XPM"@ && list[2] == "EPS"@ && list[3] == "XFig"@);
    assert(list[4] == "PGP-Message"@ && list[5] == "PGP-PublicKey"@ && list[6] == "PGP-PrivateKey"@);
    assert(list[7] == "PGP-Signature"@ && list[8] == "PEM"@ && list[9] == "REG4"@);
    assert(list[10] == "REG5"@ && list[11] == "MBOX"@ && list[12] == "WebVTT"@);
    assert(list[13] == "ASS"@ && list[14] == "BDF"@ && list[15] == "FDF"@);
}

/// A menu shows what its choices do: the line under the cursor names the format, the
/// confidence or the theme that Enter then chooses.
pub proof fn law_menu_says_what_it_does(state: AppModel, cursor: usize)
    ensures
        state.menu == Some(MenuModel::Format { cursor }) && 0 < cursor <= state.available_formats.len()
            ==> {
            let after = state.key(Key::Enter);
            popup_of(state) matches Some(PopupModel::Choices { options, cursor: at, .. }) && at == cursor
                && options.len() == state.available_formats.len() + 1 && after.format_filter == Some(
                options[cursor as int],
            )
        },
        state.menu == Some(MenuModel::Confidence { cursor }) && cursor < 3 ==> {
            let after = state.key(Key::Enter);
            popup_of(state) matches Some(PopupModel::Choices { options, cursor: at, .. }) && at == cursor
                && options.len() == 5 && options[cursor as int] == dec(after.confidence_filter as nat)
                + "%"@
        },
        state.menu == Some(MenuModel::Confidence { cursor }) && cursor == 4 ==> {
            let after = state.key(Key::Enter);
            popup_of(state) matches Some(PopupModel::Choices { options, .. }) && options[4]
                == "Скинути (мін. зі скану: "@ + dec(after.confidence_filter as nat) + "%)"@
        },
        state.menu == Some(MenuModel::Theme { cursor }) && cursor < 4 ==> {
            let after = state.key(Key::Enter);
            popup_of(state) matches Some(PopupModel::Choices { options, cursor: at, .. }) && at == cursor
                && options.len() == 4 && options[cursor as int] == after.theme.label_text()
        },
{
    reveal_strlit("55%");
    reveal_strlit("80%");
    reveal_strlit("95%");
    reveal_strlit("%");
    reveal_with_fuel(dec, 3);
    assert(dec(55) + "%"@ == "55%"@);
    assert(dec(80) + "%"@ == "80%"@);
    assert(dec(95) + "%"@ == "95%"@);
}

/// No two themes have the same name or place in the menu.
pub proof fn law_themes_are_told_apart(i: int, j: int)
    requires
        0 <= i < j < 4,
    ensures
        ThemeKind::at(i) != ThemeKind::at(j),
        ThemeKind::at(i).label_text() != ThemeKind::at(j).label_text(),
{
    reveal_strlit("Типова (як було)");
    reveal_strlit("Midnight Commander");
    reveal_strlit("Темна");
    reveal_strlit("Монохромна");
    assert("Типова (як було)"@.len() == 16);
    assert("Midnight Commander"@.len() == 18);
    assert("Темна"@.len() == 5);
    assert("Монохромна"@.len() == 10);
}

/// The choice under the cursor is marked, and all keep their text in the same column.
pub proof fn law_chosen_line_is_marked(option: Seq<char>, chosen: bool)
    ensures
        choice_text(option, chosen).skip(2) == option,
        choice_text(option, true) != choice_text(option, false),
{
    reveal_strlit("▶ ");
    reveal_strlit("  ");
    assert(choice_text(option, chosen).skip(2) =~= option);
    assert(choice_text(option, true)[0] == '▶');
    assert(choice_text(option, false)[0] == ' ');
}

/// A menu is as high as its choices and its frame, unless that leaves less than two rows of the
/// screen; it is never lower than three rows.
pub proof fn law_menu_fits_the_screen(n: int, screen: int)
    requires
        0 <= n,
        0 <= screen,
    ensures
        3 <= choices_rows(n, screen),
        n >= 1 && n + 4 <= screen ==> choices_rows(n, screen) == n + 2,
        screen >= 5 && n + 4 > screen ==> choices_rows(n, screen) == screen - 2,
        screen < 5 ==> choices_rows(n, screen) == 3,
{
}

} // verus!
