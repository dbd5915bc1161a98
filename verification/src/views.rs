//! What the browser shows of a finding.
use vstd::prelude::*;
use vstd::string::*;
use vstd::utf8::{
    decode_first_scalar, encode_utf8, encode_utf8_decode_utf8, encode_utf8_valid_utf8,
};
use crate::bytes::{le16, read_le16};
use crate::entries::{entries_of, ArchiveEntry};
use crate::facts::{facts_of, format_facts};
use crate::lines::{lines_from, no_texts, push_text, split_lines, texts_of};
use crate::listing::{
    entries_in, has_iff_structure, has_isobmff_structure, has_riff_structure, is_iff_format,
    is_isobmff_format, is_riff_format, list_archive_entries,
};
use crate::numbers::{
    dec, dec_text, hex, left_padded, pad_left, pad_right, padded_hex, right_padded,
};
use crate::output::{offset_text, show_offset};
use crate::scanner::{Finding, FindingModel};
use crate::signature::{note_of, usage_note, Signature};
use crate::text::{
    chars_of, law_utf16_round_trip, lossy, lossy_text, same_text, utf16_lossy, utf16_text, utf16_units,
};

verus! {

broadcast use crate::slices::slice_len_bound;

/// The number of bytes in a row of the hexadecimal view.
pub const BYTES_PER_ROW: usize = 16;

/// The formats that are shown as pictures.
pub open spec fn is_image(format: Seq<char>) -> bool {
    ||| format == "PNG"@
    ||| format == "JPEG"@
    ||| format == "GIF87a"@
    ||| format == "GIF89a"@
    ||| format == "BMP"@
    ||| format == "ICO"@
    ||| format == "CUR"@
    ||| format == "TIFF-LE"@
    ||| format == "TIFF-BE"@
    ||| format == "WEBP"@
}

/// Whether a format is shown as a picture.
pub fn is_image_format(format: &str) -> (r: bool)
    ensures
        r == is_image(format@),
{
    same_text(format, "PNG") || same_text(format, "JPEG") || same_text(format, "GIF87a") || same_text(format, "GIF89a") || same_text(format, "BMP") || same_text(format, "ICO") || same_text(format, "CUR") || same_text(format, "TIFF-LE") || same_text(format, "TIFF-BE") || same_text(format, "WEBP")
}

/// The formats that are text by nature.
pub open spec fn is_text(format: Seq<char>) -> bool {
    ||| format == "SVG"@
    ||| format == "XPM"@
    ||| format == "EPS"@
    ||| format == "XFig"@
    ||| format == "PGP-Message"@
    ||| format == "PGP-PublicKey"@
    ||| format == "PGP-PrivateKey"@
    ||| format == "PGP-Signature"@
    ||| format == "PEM"@
    ||| format == "REG4"@
    ||| format == "REG5"@
    ||| format == "MBOX"@
    ||| format == "WebVTT"@
    ||| format == "ASS"@
    ||| format == "BDF"@
    ||| format == "FDF"@
}

/// Whether a format is shown as text.
pub fn is_text_format(format: &str) -> (r: bool)
    ensures
        r == is_text(format@),
{
    same_text(format, "SVG") || same_text(format, "XPM") || same_text(format, "EPS") || same_text(format, "XFig") || same_text(format, "PGP-Message") || same_text(format, "PGP-PublicKey") || same_text(format, "PGP-PrivateKey") || same_text(format, "PGP-Signature") || same_text(format, "PEM") || same_text(format, "REG4") || same_text(format, "REG5") || same_text(format, "MBOX") || same_text(format, "WebVTT") || same_text(format, "ASS") || same_text(format, "BDF") || same_text(format, "FDF")
}

/// The archives whose files are listed.
pub open spec fn is_file_archive(format: Seq<char>) -> bool {
    ||| format == "ZIP"@
    ||| format == "TAR"@
    ||| format == "CPIO-newc"@
    ||| format == "CPIO-crc"@
    ||| format == "CPIO-odc"@
    ||| format == "AR"@
    ||| format == "WAD-I"@
    ||| format == "WAD-P"@
    ||| format == "PAK-Quake"@
    ||| format == "VPK"@
    ||| format == "RAR"@
}

fn has_file_archive(format: &str) -> (r: bool)
    ensures
        r == is_file_archive(format@),
{
    same_text(format, "ZIP") || same_text(format, "TAR") || same_text(format, "CPIO-newc") || same_text(format, "CPIO-crc") || same_text(format, "CPIO-odc") || same_text(format, "AR") || same_text(format, "WAD-I") || same_text(format, "WAD-P") || same_text(format, "PAK-Quake") || same_text(format, "VPK") || same_text(format, "RAR")
}

/// The formats made of PNG-style chunks.
pub open spec fn is_png_family(format: Seq<char>) -> bool {
    ||| format == "PNG"@
    ||| format == "MNG"@
    ||| format == "JNG"@
}

fn has_png_family(format: &str) -> (r: bool)
    ensures
        r == is_png_family(format@),
{
    same_text(format, "PNG") || same_text(format, "MNG") || same_text(format, "JNG")
}

/// The executables whose sections are listed.
pub open spec fn is_sectioned(format: Seq<char>) -> bool {
    ||| format == "ELF"@
    ||| format == "PE"@
    ||| format == "Mach-O-32-BE"@
    ||| format == "Mach-O-32-LE"@
    ||| format == "Mach-O-64-BE"@
    ||| format == "Mach-O-64-LE"@
}

fn has_sectioned(format: &str) -> (r: bool)
    ensures
        r == is_sectioned(format@),
{
    same_text(format, "ELF") || same_text(format, "PE") || same_text(format, "Mach-O-32-BE") || same_text(format, "Mach-O-32-LE") || same_text(format, "Mach-O-64-BE") || same_text(format, "Mach-O-64-LE")
}

/// The title of the structural listing of a format, if it has one.
pub open spec fn panel_title(format: Seq<char>) -> Option<Seq<char>> {
    if is_file_archive(format) {
        Some(" Файли в архіві "@)
    } else if format == "TTF"@ || format == "OTF"@ {
        Some(" Таблиці шрифту "@)
    } else if is_png_family(format) || is_riff_format(format) || is_iff_format(format) {
        Some(" Чанки "@)
    } else if is_isobmff_format(format) {
        Some(" Бокси "@)
    } else if is_sectioned(format) {
        Some(" Секції "@)
    } else if format == "Mach-O-Fat"@ {
        Some(" Архітектури "@)
    } else if format == "SQLite"@ {
        Some(" Схема бази "@)
    } else if format == "ISO9660"@ {
        Some(" Файли (корінь) "@)
    } else {
        None
    }
}

/// The content of an optional text.
pub open spec fn str_of(text: Option<&'static str>) -> Option<Seq<char>> {
    match text {
        Some(t) => Some(t@),
        None => None,
    }
}

/// The title of the structural listing of a format, if it has one.
pub fn structure_panel_title(format: &str) -> (r: Option<&'static str>)
    ensures
        str_of(r) == panel_title(format@),
{
    if has_file_archive(format) {
        Some(" Файли в архіві ")
    } else if same_text(format, "TTF") || same_text(format, "OTF") {
        Some(" Таблиці шрифту ")
    } else if has_png_family(format) || has_riff_structure(format) || has_iff_structure(format) {
        Some(" Чанки ")
    } else if has_isobmff_structure(format) {
        Some(" Бокси ")
    } else if has_sectioned(format) {
        Some(" Секції ")
    } else if same_text(format, "Mach-O-Fat") {
        Some(" Архітектури ")
    } else if same_text(format, "SQLite") {
        Some(" Схема бази ")
    } else if same_text(format, "ISO9660") {
        Some(" Файли (корінь) ")
    } else {
        None
    }
}

/// Whether a format has a structural listing.
pub fn is_archive_format(format: &str) -> (r: bool)
    ensures
        r == (panel_title(format@) is Some),
{
    structure_panel_title(format).is_some()
}

/// A format whose entries can be listed has a title for its listing, and the
/// listing is not empty.
pub proof fn law_listed_formats_have_titles(format: Seq<char>, s: Seq<u8>)
    requires
        entries_in(format, s) is Some,
    ensures
        panel_title(format) is Some,
        entries_in(format, s)->0.len() > 0,
{
}

/// The little-endian 16-bit numbers in `s` from `from` on; an odd byte at the end
/// is left out.
pub open spec fn units_from(s: Seq<u8>, from: int) -> Seq<u16> {
    Seq::new(((s.len() - from) / 2) as nat, |i: int| le16(s, from + 2 * i) as u16)
}

/// The bytes as text: UTF-16 or UTF-8 by the mark at their start, else UTF-8.
pub open spec fn decoded(s: Seq<u8>) -> Seq<char> {
    if s.len() >= 2 && s[0] == 0xFF && s[1] == 0xFE {
        utf16_lossy(units_from(s, 2))
    } else if s.len() >= 3 && s[0] == 0xEF && s[1] == 0xBB && s[2] == 0xBF {
        lossy(s.skip(3))
    } else {
        lossy(s)
    }
}

/// The bytes as text, with replacement characters where they are not valid.
pub fn decode_as_text(bytes: &[u8]) -> (r: String)
    ensures
        r@ == decoded(bytes@),
{
    let n = bytes.len();
    if n >= 2 && bytes[0] == 0xFF && bytes[1] == 0xFE {
        let mut units: Vec<u16> = Vec::new();
        let mut at: usize = 2;
        while n - at >= 2
            invariant
                2 <= at <= n == bytes@.len(),
                at % 2 == 0,
                units@ =~= units_from(bytes@, 2).take((at - 2) / 2),
            decreases n - at,
        {
            units.push(read_le16(bytes, at));
            at = at + 2;
        }
        assert(units@ == units_from(bytes@, 2));
        return utf16_text(&units);
    }
    if n >= 3 && bytes[0] == 0xEF && bytes[1] == 0xBB && bytes[2] == 0xBF {
        let rest = vstd::slice::slice_subrange(bytes, 3, n);
        assert(rest@ == bytes@.skip(3));
        return lossy_text(rest);
    }
    lossy_text(bytes)
}

/// 16-bit numbers as bytes, the low one first.
pub open spec fn unit_bytes(units: Seq<u16>) -> Seq<u8> {
    Seq::new(
        2 * units.len(),
        |i: int|
            if i % 2 == 0 {
                (units[i / 2] % 0x100) as u8
            } else {
                (units[i / 2] / 0x100) as u8
            },
    )
}

/// Decoding gives back what was encoded: a text in UTF-16 or UTF-8 behind the mark
/// of its encoding, and a text in UTF-8 without one.
pub proof fn law_decoding_gives_the_text_back(text: Seq<char>)
    ensures
        decoded(seq![0xFFu8, 0xFEu8] + unit_bytes(utf16_units(text))) == text,
        decoded(seq![0xEFu8, 0xBBu8, 0xBFu8] + encode_utf8(text)) == text,
        text.len() == 0 || text[0] != '\u{FEFF}' ==> decoded(encode_utf8(text)) == text,
{
    let units = utf16_units(text);
    let marked = seq![0xFFu8, 0xFEu8] + unit_bytes(units);
    assert(units_from(marked, 2) == units);
    law_utf16_round_trip(text);
    let bytes = encode_utf8(text);
    encode_utf8_valid_utf8(text);
    encode_utf8_decode_utf8(text);
    assert((seq![0xEFu8, 0xBBu8, 0xBFu8] + bytes).skip(3) == bytes);
    if bytes.len() >= 3 && bytes[0] == 0xEF && bytes[1] == 0xBB && bytes[2] == 0xBF {
        assert((((0xEFu8 & 0x0F) as u32) << 12) | (((0xBBu8 & 0x3F) as u32) << 6) | ((0xBFu8 & 0x3F) as u32)
            == 0xFEFF) by (bit_vector);
        assert(text[0] == decode_first_scalar(bytes) as char);
    }
}

/// The number of lines in a text.
pub fn count_lines(text: &str) -> (r: usize)
    ensures
        r == lines_from(text@, 0).len(),
{
    let chars = chars_of(text);
    let lines = split_lines(&chars);
    assert(lines@.map_values(|line: Vec<char>| line@).len() == lines@.len());
    lines.len()
}

/// The bytes of a finding, if they are all there.
pub open spec fn fragment_of(s: Seq<u8>, f: FindingModel) -> Option<Seq<u8>> {
    if 0 <= f.offset_start <= f.offset_end + 1 <= s.len() {
        Some(s.subrange(f.offset_start, f.offset_end + 1))
    } else {
        None
    }
}

/// The bytes of a finding, if they are all there.
pub fn fragment<'a>(data: &'a [u8], finding: &Finding) -> (r: Option<&'a [u8]>)
    ensures
        r is Some <==> fragment_of(data@, finding@) is Some,
        r matches Some(bytes) ==> fragment_of(data@, finding@) == Some(bytes@),
{
    let end = finding.offset_end;
    if end >= data.len() || finding.offset_start > end + 1 {
        return None;
    }
    Some(vstd::slice::slice_subrange(data, finding.offset_start, end + 1))
}

/// What is shown below the information on a finding.
#[derive(Clone, Copy, Debug, PartialEq, Eq, Structural)]
pub enum Panels {
    /// A picture above the bytes.
    ImageAndHex,
    /// The structural listing above the bytes.
    ListAndHex,
    /// Only the text.
    Text,
    /// Only the bytes.
    Hex,
}

/// What is shown of a finding of that format.
pub open spec fn panels_of(format: Seq<char>) -> Panels {
    if is_image(format) {
        Panels::ImageAndHex
    } else if panel_title(format) is Some {
        Panels::ListAndHex
    } else if is_text(format) {
        Panels::Text
    } else {
        Panels::Hex
    }
}

/// What is shown of a finding of that format.
pub fn panels_for(format: &str) -> (r: Panels)
    ensures
        r == panels_of(format@),
{
    if is_image_format(format) {
        Panels::ImageAndHex
    } else if is_archive_format(format) {
        Panels::ListAndHex
    } else if is_text_format(format) {
        Panels::Text
    } else {
        Panels::Hex
    }
}

/// The number of rows that the panel of a finding can be scrolled through:
/// entries of the listing, lines of text, or rows of bytes.
pub open spec fn rows_of(f: FindingModel, fragment: Seq<u8>) -> int {
    if panel_title(f.format) is Some {
        match entries_in(f.format, fragment) {
            Some(entries) => entries.len() as int,
            None => 0,
        }
    } else if is_text(f.format) {
        lines_from(decoded(fragment), 0).len() as int
    } else {
        (f.size + 15) / 16
    }
}

/// The number of rows that the panel of a finding can be scrolled through.
pub fn count_rows(finding: &Finding, fragment: &[u8]) -> (r: usize)
    ensures
        r == rows_of(finding@, fragment@),
{
    if is_archive_format(finding.format.as_str()) {
        match list_archive_entries(finding.format.as_str(), fragment) {
            Some(entries) => {
                assert(entries_of(entries@).len() == entries@.len());
                entries.len()
            },
            None => 0,
        }
    } else if is_text_format(finding.format.as_str()) {
        count_lines(decode_as_text(fragment).as_str())
    } else if finding.size % 16 == 0 {
        finding.size / 16
    } else {
        finding.size / 16 + 1
    }
}

/// A byte as a character; a dot stands for those that are not printable.
pub open spec fn printable(b: u8) -> char {
    if 0x20 <= b < 0x7F {
        b as char
    } else {
        '.'
    }
}

/// The bytes in hexadecimal, each followed by a space.
pub open spec fn hex_pairs(bytes: Seq<u8>) -> Seq<char>
    decreases bytes.len(),
{
    if bytes.len() == 0 {
        Seq::empty()
    } else {
        hex_pairs(bytes.drop_last()) + pad_left(hex(bytes.last() as nat), 2, '0') + " "@
    }
}

/// A row of the hexadecimal view: offset, bytes, characters.
pub open spec fn hex_row(offset: int, bytes: Seq<u8>) -> Seq<char> {
    pad_left(hex(offset as nat), 8, '0') + "  "@ + pad_right(hex_pairs(bytes), 48, ' ')
        + bytes.map_values(|b: u8| printable(b))
}

/// The end of row `row` in `len` bytes.
pub open spec fn row_end(row: int, len: int) -> int {
    if 16 * row + 16 < len {
        16 * row + 16
    } else {
        len
    }
}

/// `n` rows of the hexadecimal view of a file at `offset`, from `row` on, as far
/// as there are bytes.
pub open spec fn hex_rows(bytes: Seq<u8>, offset: int, row: int, n: int) -> Seq<Seq<char>>
    decreases n,
{
    if n <= 0 || row < 0 || 16 * row >= bytes.len() {
        Seq::empty()
    } else {
        seq![hex_row(offset + 16 * row, bytes.subrange(16 * row, row_end(row, bytes.len() as int)))]
            + hex_rows(bytes, offset, row + 1, n - 1)
    }
}

fn hex_line(offset: u64, bytes: &[u8]) -> (r: String)
    ensures
        r@ == hex_row(offset as int, bytes@),
{
    let mut pairs = String::new();
    let mut chars = String::new();
    let mut i: usize = 0;
    assert(bytes@.take(0) == Seq::<u8>::empty());
    while i < bytes.len()
        invariant
            i <= bytes@.len(),
            pairs@ == hex_pairs(bytes@.take(i as int)),
            chars@ =~= bytes@.take(i as int).map_values(|b: u8| printable(b)),
        decreases bytes@.len() - i,
    {
        let b = bytes[i];
        proof {
            assert(bytes@.take(i + 1).drop_last() == bytes@.take(i as int));
            assert(bytes@.take(i + 1).last() == b);
        }
        pairs.append(padded_hex(b as u64, 2).as_str());
        pairs.append(" ");
        chars.push(
            if 0x20 <= b && b < 0x7F {
                b as char
            } else {
                '.'
            },
        );
        i = i + 1;
    }
    assert(bytes@.take(i as int) == bytes@);
    let mut line = padded_hex(offset, 8);
    line.append("  ");
    line.append(right_padded(pairs, 48, ' ').as_str());
    line.append(chars.as_str());
    line
}

/// Up to `n` rows of the hexadecimal view of a file at `offset`, from `first` on.
pub fn hex_lines(bytes: &[u8], offset: usize, first: usize, n: usize) -> (r: Vec<String>)
    requires
        offset + bytes@.len() <= usize::MAX,
    ensures
        texts_of(r@) == hex_rows(bytes@, offset as int, first as int, n as int),
{
    let mut lines = no_texts();
    let mut row = first;
    let mut left = n;
    let ghost all = hex_rows(bytes@, offset as int, first as int, n as int);
    assert(texts_of(lines@) + all == all);
    while left > 0 && row <= usize::MAX / 16 && 16 * row < bytes.len()
        invariant
            offset + bytes@.len() <= usize::MAX,
            all == texts_of(lines@) + hex_rows(bytes@, offset as int, row as int, left as int),
        decreases left,
    {
        let from = 16 * row;
        let to = if bytes.len() - from > 16 {
            from + 16
        } else {
            bytes.len()
        };
        let chunk = vstd::slice::slice_subrange(bytes, from, to);
        let ghost before = texts_of(lines@);
        let line = hex_line((offset + from) as u64, chunk);
        let ghost text = line@;
        push_text(&mut lines, line);
        proof {
            let rest = hex_rows(bytes@, offset as int, row + 1, left - 1);
            assert(before + (seq![text] + rest) == before.push(text) + rest);
        }
        row = row + 1;
        left = left - 1;
    }
    proof {
        let done = texts_of(lines@);
        assert(done + Seq::<Seq<char>>::empty() == done);
    }
    lines
}

/// The title of the panel of a finding.
pub open spec fn title_of(kind: Seq<char>, f: FindingModel) -> Seq<char> {
    " "@ + kind + ": "@ + f.format + " ["@ + offset_text(f.offset_start) + "-"@ + offset_text(
        f.offset_end,
    ) + "] "@
}

/// The title of the panel of a finding.
pub fn panel_heading(kind: &str, finding: &Finding) -> (r: String)
    ensures
        r@ == title_of(kind@, finding@),
{
    let mut title = " ".to_owned();
    title.append(kind);
    title.append(": ");
    title.append(finding.format.as_str());
    title.append(" [");
    title.append(show_offset(finding.offset_start).as_str());
    title.append("-");
    title.append(show_offset(finding.offset_end).as_str());
    title.append("] ");
    title
}

/// A finding in the list: offset, format, size and confidence.
pub open spec fn label_of(f: FindingModel) -> Seq<char> {
    offset_text(f.offset_start) + "  "@ + pad_right(f.format, 14, ' ') + " "@ + pad_left(
        dec(f.size as nat),
        10,
        ' ',
    ) + "b  "@ + pad_left(dec(f.confidence as nat), 3, ' ') + "%"@
}

/// A finding in the list.
pub fn finding_label(finding: &Finding) -> (r: String)
    ensures
        r@ == label_of(finding@),
{
    let mut label = show_offset(finding.offset_start);
    label.append("  ");
    label.append(right_padded(finding.format.clone(), 14, ' ').as_str());
    label.append(" ");
    label.append(left_padded(dec_text(finding.size as u64), 10, ' ').as_str());
    label.append("b  ");
    label.append(left_padded(dec_text(finding.confidence as u64), 3, ' ').as_str());
    label.append("%");
    label
}

/// An entry in a structural listing: size and name.
pub open spec fn entry_text(entry: (Seq<char>, int)) -> Seq<char> {
    pad_left(dec(entry.1 as nat), 10, ' ') + "b  "@ + entry.0
}

/// An entry in a structural listing.
pub fn entry_label(entry: &ArchiveEntry) -> (r: String)
    ensures
        r@ == entry_text(entry@),
{
    let mut label = left_padded(dec_text(entry.size), 10, ' ');
    label.append("b  ");
    label.append(entry.name.as_str());
    label
}

/// What is said about a finding: what its format is used for and, where they are
/// known, the facts from its header.
pub open spec fn info_of(signatures: Seq<Signature>, s: Seq<u8>, f: FindingModel) -> Seq<char> {
    let note = note_of(signatures, f.format, 0);
    match fragment_of(s, f) {
        Some(fragment) => match facts_of(f.format, fragment) {
            Some(facts) => note + "\n\n"@ + facts,
            None => note,
        },
        None => note,
    }
}

/// What is said about a finding.
pub fn finding_info(signatures: &Vec<Signature>, data: &[u8], finding: &Finding) -> (r: String)
    ensures
        r@ == info_of(signatures@, data@, finding@),
{
    let mut text = usage_note(signatures, finding.format.as_str()).to_owned();
    if let Some(bytes) = fragment(data, finding) {
        if let Some(facts) = format_facts(finding.format.as_str(), bytes) {
            text.append("\n\n");
            text.append(facts.as_str());
        }
    }
    text
}

/// The height of the information panel without facts.
pub const INFO_BASE_HEIGHT: u16 = 5;

/// The height of the information panel: the base, and the facts with an empty
/// line before them where there are some.
pub open spec fn info_rows(s: Seq<u8>, f: FindingModel) -> int {
    match fragment_of(s, f) {
        Some(fragment) => match facts_of(f.format, fragment) {
            Some(facts) => {
                let rows = INFO_BASE_HEIGHT + 1 + lines_from(facts, 0).len();
                if rows < u16::MAX {
                    rows
                } else {
                    u16::MAX as int
                }
            },
            None => INFO_BASE_HEIGHT as int,
        },
        None => INFO_BASE_HEIGHT as int,
    }
}

/// The height of the information panel for a finding.
pub fn format_info_height(data: &[u8], finding: &Finding) -> (r: u16)
    ensures
        r == info_rows(data@, finding@),
{
    if let Some(bytes) = fragment(data, finding) {
        if let Some(facts) = format_facts(finding.format.as_str(), bytes) {
            let lines = count_lines(facts.as_str());
            return if lines < (u16::MAX - INFO_BASE_HEIGHT - 1) as usize {
                INFO_BASE_HEIGHT + 1 + lines as u16
            } else {
                u16::MAX
            };
        }
    }
    INFO_BASE_HEIGHT
}

/// A rectangle on the screen.
#[derive(Clone, Copy, Debug, PartialEq, Eq, Structural)]
pub struct Area {
    pub x: u16,
    pub y: u16,
    pub width: u16,
    pub height: u16,
}

impl Area {
    /// The far corner can be addressed.
    pub open spec fn wf(self) -> bool {
        self.x + self.width <= u16::MAX && self.y + self.height <= u16::MAX
    }

    /// All of `other` lies inside.
    pub open spec fn contains(self, other: Area) -> bool {
        &&& self.x <= other.x && other.x + other.width <= self.x + self.width
        &&& self.y <= other.y && other.y + other.height <= self.y + self.height
    }
}

/// The smaller of two numbers.
pub open spec fn at_most(n: int, max: int) -> int {
    if n < max {
        n
    } else {
        max
    }
}

/// A rectangle of `percent` of the width and of that height, as far as there is
/// room, in the middle of `area`.
pub fn centered_rect(percent: u16, height: u16, area: Area) -> (r: Area)
    requires
        area.wf(),
    ensures
        r.width == at_most(area.width * percent / 100, area.width as int),
        r.height == at_most(height as int, area.height as int),
        r.x == area.x + (area.width - r.width) / 2,
        r.y == area.y + (area.height - r.height) / 2,
        area.contains(r),
{
    assert(area.width * percent <= 0xFFFF * 0xFFFF) by (nonlinear_arith)
        requires
            area.width <= 0xFFFF,
            percent <= 0xFFFF,
    ;
    let wanted = area.width as u32 * percent as u32 / 100;
    let width = if wanted < area.width as u32 {
        wanted as u16
    } else {
        area.width
    };
    let tall = if height < area.height {
        height
    } else {
        area.height
    };
    Area {
        x: area.x + (area.width - width) / 2,
        y: area.y + (area.height - tall) / 2,
        width,
        height: tall,
    }
}

} // verus!
