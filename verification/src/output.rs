//! Reports: the texts of table rows.
use vstd::prelude::*;
use vstd::string::*;
use crate::entropy::EntropyBlock;
use crate::lines::{no_texts, push_text, texts_of};
use crate::names::name_of;
use crate::numbers::{dec, dec_text, hex, pad_left, padded_hex, push_repeated};
use crate::scanner::{Finding, FindingModel};
use crate::signature::Signature;

verus! {

/// How a report is written.
#[derive(Clone, Copy, Debug, PartialEq, Eq, Structural)]
pub enum OutputFormat {
    Table,
    Json,
    Csv,
}

/// An offset as it is shown: eight or more hexadecimal digits.
pub open spec fn offset_text(offset: int) -> Seq<char> {
    "0x"@ + pad_left(hex(offset as nat), 8, '0')
}

/// An offset as it is shown.
pub fn show_offset(offset: usize) -> (r: String)
    ensures
        r@ == offset_text(offset as int),
{
    let mut text = "0x".to_owned();
    text.append(padded_hex(offset as u64, 8).as_str());
    text
}

/// A text that is not there is shown as an empty one.
pub open spec fn shown_name(name: Option<Seq<char>>) -> Seq<char> {
    match name {
        Some(text) => text,
        None => Seq::empty(),
    }
}

fn show_name(name: &Option<String>) -> (r: String)
    ensures
        r@ == shown_name(name_of(*name)),
{
    match name {
        Some(text) => text.clone(),
        None => String::new(),
    }
}

/// A text that begins like a formula of a spreadsheet.
pub open spec fn is_formula(text: Seq<char>) -> bool {
    text.len() > 0 && (text[0] == '=' || text[0] == '+' || text[0] == '-' || text[0] == '@' || text[0]
        == '\t' || text[0] == '\r')
}

/// A text that no spreadsheet takes for a formula: one that looks like it gets an
/// apostrophe in front.
pub open spec fn sanitized(text: Seq<char>) -> Seq<char> {
    if is_formula(text) {
        seq!['\''] + text
    } else {
        text
    }
}

/// A text that no spreadsheet takes for a formula.
pub fn sanitize_csv_field(value: String) -> (r: String)
    ensures
        r@ == sanitized(value@),
{
    if value.as_str().unicode_len() == 0 {
        return value;
    }
    let first = value.as_str().get_char(0);
    if first == '=' || first == '+' || first == '-' || first == '@' || first == '\t' || first == '\r' {
        let mut text = String::new();
        text.push('\'');
        text.append(value.as_str());
        assert(text@ == seq!['\''] + value@);
        text
    } else {
        value
    }
}

/// Whatever a CSV field holds, it is not taken for a formula, and what was
/// sanitized once stays as it is.
pub proof fn law_sanitized_is_no_formula(text: Seq<char>)
    ensures
        !is_formula(sanitized(text)),
        sanitized(sanitized(text)) == sanitized(text),
{
}

/// Sanitizing loses nothing: two texts that look the same afterwards and do not
/// begin with an apostrophe were the same.
pub proof fn law_sanitized_keeps_text(a: Seq<char>, b: Seq<char>)
    requires
        sanitized(a) == sanitized(b),
        a.len() == 0 || a[0] != '\'',
        b.len() == 0 || b[0] != '\'',
    ensures
        a == b,
{
    if is_formula(a) {
        assert(sanitized(a)[0] == '\'');
        assert(is_formula(b));
        assert(a == sanitized(a).skip(1));
        assert(b == sanitized(b).skip(1));
    } else if is_formula(b) {
        assert(sanitized(b)[0] == '\'');
        assert(sanitized(a) == a);
    }
}

/// The cells of a finding in a table.
pub open spec fn table_cells(f: FindingModel) -> Seq<Seq<char>> {
    seq![
        offset_text(f.offset_start),
        offset_text(f.offset_end),
        dec(f.size as nat),
        f.format,
        f.description,
        dec(f.confidence as nat) + "%"@,
        shown_name(f.name),
    ]
}

/// The cells of a finding in a table.
pub fn table_row(finding: &Finding) -> (r: Vec<String>)
    ensures
        texts_of(r@) == table_cells(finding@),
{
    let mut row = no_texts();
    push_text(&mut row, show_offset(finding.offset_start));
    push_text(&mut row, show_offset(finding.offset_end));
    push_text(&mut row, dec_text(finding.size as u64));
    push_text(&mut row, finding.format.clone());
    push_text(&mut row, finding.description.clone());
    let mut confidence = dec_text(finding.confidence as u64);
    confidence.append("%");
    push_text(&mut row, confidence);
    push_text(&mut row, show_name(&finding.name));
    assert(texts_of(row@) == table_cells(finding@));
    row
}

/// The fields of a finding in a CSV file. Only the name comes from the data, so
/// only the name is sanitized.
pub open spec fn csv_cells(f: FindingModel) -> Seq<Seq<char>> {
    seq![
        offset_text(f.offset_start),
        offset_text(f.offset_end),
        dec(f.size as nat),
        f.format,
        f.description,
        dec(f.confidence as nat),
        sanitized(shown_name(f.name)),
    ]
}

/// The fields of a finding in a CSV file.
pub fn csv_row(finding: &Finding) -> (r: Vec<String>)
    ensures
        texts_of(r@) == csv_cells(finding@),
{
    let mut row = no_texts();
    push_text(&mut row, show_offset(finding.offset_start));
    push_text(&mut row, show_offset(finding.offset_end));
    push_text(&mut row, dec_text(finding.size as u64));
    push_text(&mut row, finding.format.clone());
    push_text(&mut row, finding.description.clone());
    push_text(&mut row, dec_text(finding.confidence as u64));
    push_text(&mut row, sanitize_csv_field(show_name(&finding.name)));
    assert(texts_of(row@) == csv_cells(finding@));
    row
}

/// The character for a level of entropy from 0 to 8.
pub open spec fn level_char(level: int) -> char {
    if level <= 0 {
        ' '
    } else if level == 1 {
        '▁'
    } else if level == 2 {
        '▂'
    } else if level == 3 {
        '▃'
    } else if level == 4 {
        '▄'
    } else if level == 5 {
        '▅'
    } else if level == 6 {
        '▆'
    } else if level == 7 {
        '▇'
    } else {
        '█'
    }
}

/// How long the bar for a level of entropy is.
pub open spec fn bar_len(level: int) -> nat {
    if 1 + 2 * level < 20 {
        (1 + 2 * level) as nat
    } else {
        20
    }
}

/// The bar for a level of entropy from 0 to 8: denser and longer for a higher
/// one.
pub fn entropy_bar(level: u8) -> (r: String)
    ensures
        r@ == Seq::new(bar_len(level as int), |i: int| level_char(level as int)),
{
    let c = match level {
        0 => ' ',
        1 => '▁',
        2 => '▂',
        3 => '▃',
        4 => '▄',
        5 => '▅',
        6 => '▆',
        7 => '▇',
        _ => '█',
    };
    let n: usize = if level < 10 {
        1 + 2 * level as usize
    } else {
        20
    };
    let mut bar = String::new();
    push_repeated(&mut bar, c, n);
    assert(bar@ == Seq::new(bar_len(level as int), |i: int| level_char(level as int)));
    bar
}

/// The mark of a block of high entropy.
pub fn high_mark(block: &EntropyBlock) -> (r: &'static str)
    ensures
        r@ == if block.high {
            "★"@
        } else {
            ""@
        },
{
    if block.high {
        "★"
    } else {
        ""
    }
}

/// The names and notes of the signatures from index `i` on.
pub open spec fn formats_text(signatures: Seq<Signature>, i: int) -> Seq<char>
    decreases signatures.len() - i,
{
    if i < 0 || i >= signatures.len() {
        Seq::empty()
    } else {
        signatures[i].name@ + "\n  "@ + signatures[i].note@ + "\n\n"@ + formats_text(
            signatures,
            i + 1,
        )
    }
}

/// The help on all formats.
pub open spec fn formats_help(signatures: Seq<Signature>) -> Seq<char> {
    "Підтримується "@ + dec(signatures.len()) + " форматів:\n\n"@ + formats_text(signatures, 0)
}

/// The help on all formats: how many there are, and the name and the note of
/// each.
pub fn describe_formats(signatures: &Vec<Signature>) -> (r: String)
    ensures
        r@ == formats_help(signatures@),
{
    let mut text = "Підтримується ".to_owned();
    text.append(dec_text(signatures.len() as u64).as_str());
    text.append(" форматів:\n\n");
    let ghost head = text@;
    let mut i: usize = 0;
    while i < signatures.len()
        invariant
            i <= signatures@.len(),
            head + formats_text(signatures@, 0) == text@ + formats_text(signatures@, i as int),
        decreases signatures@.len() - i,
    {
        let ghost before = text@;
        text.append(signatures[i].name);
        text.append("\n  ");
        text.append(signatures[i].note);
        text.append("\n\n");
        assert(before + formats_text(signatures@, i as int) == text@ + formats_text(
            signatures@,
            i + 1,
        ));
        i = i + 1;
    }
    assert(text@ + Seq::<char>::empty() == text@);
    text
}

} // verus!
