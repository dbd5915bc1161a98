//! Reports as a whole: tables and CSV files.
use vstd::prelude::*;
use vstd::string::*;
use crate::entropy::EntropyBlock;
use crate::lines::{no_texts, push_text, texts_of};
use crate::numbers::{dec, dec_text};
use crate::output::{
    bar_len, csv_cells, csv_row, entropy_bar, high_mark, level_char, offset_text, show_offset,
    table_cells, table_row,
};
use crate::scanner::{findings_view, Finding, FindingModel};

verus! {

/// The contents of a list of rows.
pub open spec fn rows_of(rows: Seq<Vec<String>>) -> Seq<Seq<Seq<char>>> {
    rows.map_values(|row: Vec<String>| texts_of(row@))
}

fn push_row(rows: &mut Vec<Vec<String>>, row: Vec<String>)
    ensures
        rows_of(final(rows)@) == rows_of(old(rows)@).push(texts_of(row@)),
{
    rows.push(row);
    assert(rows_of(rows@) == rows_of(old(rows)@).push(texts_of(row@)));
}

/// A character that a CSV field is quoted for.
pub open spec fn is_csv_special(c: char) -> bool {
    c == ',' || c == '"' || c == '\r' || c == '\n'
}

/// A text with each of its quotation marks doubled.
pub open spec fn doubled(text: Seq<char>) -> Seq<char>
    decreases text.len(),
{
    if text.len() == 0 {
        Seq::empty()
    } else if text.last() == '"' {
        doubled(text.drop_last()) + seq!['"', '"']
    } else {
        doubled(text.drop_last()).push(text.last())
    }
}

/// A field of a CSV file: quoted, with its quotation marks doubled, if it holds a
/// character that needs it.
pub open spec fn csv_field(text: Seq<char>) -> Seq<char> {
    if exists|i: int| 0 <= i < text.len() && is_csv_special(#[trigger] text[i]) {
        seq!['"'] + doubled(text) + seq!['"']
    } else {
        text
    }
}

/// The fields of a CSV record with commas between them.
pub open spec fn csv_fields(fields: Seq<Seq<char>>) -> Seq<char>
    decreases fields.len(),
{
    if fields.len() == 0 {
        Seq::empty()
    } else if fields.len() == 1 {
        csv_field(fields[0])
    } else {
        csv_fields(fields.drop_last()).push(',') + csv_field(fields.last())
    }
}

/// A CSV record, with its line feed. One that would be an empty line is a quoted
/// empty field.
pub open spec fn csv_record(fields: Seq<Seq<char>>) -> Seq<char> {
    if csv_fields(fields).len() == 0 {
        seq!['"', '"', '\n']
    } else {
        csv_fields(fields).push('\n')
    }
}

/// `csv::Writer::write_record`, to memory and with the default settings: the record
/// with its fields quoted where they need it.
#[verifier::external_body]
fn write_csv_record(fields: &Vec<String>) -> (r: String)
    ensures
        r@ == csv_record(texts_of(fields@)),
{
    let mut writer = csv::Writer::from_writer(Vec::new());
    writer.write_record(fields).expect("memory takes every record");
    let bytes = writer.into_inner().expect("memory takes every record");
    String::from_utf8(bytes).expect("the fields are texts")
}

/// What `comfy_table` makes of a header and rows of cells.
pub uninterp spec fn table_layout(header: Seq<Seq<char>>, rows: Seq<Seq<Seq<char>>>) -> Seq<char>;

/// `comfy_table::Table` with the preset `UTF8_FULL`, given a header by `set_header`
/// and rows by `add_rows`, as a text. Its columns are as wide as their contents and
/// nothing is styled, so that it depends on nothing but the header and the rows.
#[verifier::external_body]
fn lay_out_table(header: &Vec<String>, rows: &Vec<Vec<String>>) -> (r: String)
    ensures
        r@ == table_layout(texts_of(header@), rows_of(rows@)),
{
    let mut table = comfy_table::Table::new();
    table.load_preset(comfy_table::presets::UTF8_FULL);
    table.set_header(header);
    table.add_rows(rows);
    table.to_string()
}

/// The records of a CSV file, the header first.
pub open spec fn csv_text(header: Seq<Seq<char>>, rows: Seq<Seq<Seq<char>>>) -> Seq<char>
    decreases rows.len(),
{
    if rows.len() == 0 {
        csv_record(header)
    } else {
        csv_text(header, rows.drop_last()) + csv_record(rows.last())
    }
}

fn write_csv(header: &Vec<String>, rows: &Vec<Vec<String>>) -> (r: String)
    ensures
        r@ == csv_text(texts_of(header@), rows_of(rows@)),
{
    let ghost head = texts_of(header@);
    let ghost all = rows_of(rows@);
    let mut text = write_csv_record(header);
    assert(all.take(0) == Seq::<Seq<Seq<char>>>::empty());
    let mut i: usize = 0;
    while i < rows.len()
        invariant
            i <= rows@.len() == all.len(),
            all == rows_of(rows@),
            text@ == csv_text(head, all.take(i as int)),
        decreases rows@.len() - i,
    {
        text.append(write_csv_record(&rows[i]).as_str());
        proof {
            let part = all.take(i + 1);
            assert(part.drop_last() == all.take(i as int));
            assert(part.last() == texts_of(rows@[i as int]@));
        }
        i = i + 1;
    }
    assert(all.take(i as int) == all);
    text
}

/// The titles of the columns of a table of findings.
pub open spec fn finding_titles() -> Seq<Seq<char>> {
    seq![
        "Offset start"@,
        "Offset end"@,
        "Size"@,
        "Format"@,
        "Description"@,
        "Confidence"@,
        "Name"@,
    ]
}

/// The findings as the rows of a table.
pub open spec fn finding_rows(findings: Seq<FindingModel>) -> Seq<Seq<Seq<char>>> {
    findings.map_values(|f: FindingModel| table_cells(f))
}

/// The findings as the rows of a table.
pub fn table_rows(findings: &[Finding]) -> (r: Vec<Vec<String>>)
    ensures
        rows_of(r@) == finding_rows(findings_view(findings@)),
{
    let ghost all = finding_rows(findings_view(findings@));
    let mut rows: Vec<Vec<String>> = Vec::new();
    let mut i: usize = 0;
    while i < findings.len()
        invariant
            i <= findings@.len(),
            all == finding_rows(findings_view(findings@)),
            rows_of(rows@) =~= all.take(i as int),
        decreases findings@.len() - i,
    {
        push_row(&mut rows, table_row(&findings[i]));
        i = i + 1;
    }
    assert(all.take(i as int) == all);
    rows
}

/// The table of the findings.
pub fn findings_table(findings: &[Finding]) -> (r: String)
    ensures
        r@ == table_layout(finding_titles(), finding_rows(findings_view(findings@))),
{
    let mut header = no_texts();
    push_text(&mut header, "Offset start".to_owned());
    push_text(&mut header, "Offset end".to_owned());
    push_text(&mut header, "Size".to_owned());
    push_text(&mut header, "Format".to_owned());
    push_text(&mut header, "Description".to_owned());
    push_text(&mut header, "Confidence".to_owned());
    push_text(&mut header, "Name".to_owned());
    assert(texts_of(header@) == finding_titles());
    lay_out_table(&header, &table_rows(findings))
}

/// The names of the fields of a CSV file of findings.
pub open spec fn finding_fields() -> Seq<Seq<char>> {
    seq![
        "offset_start"@,
        "offset_end"@,
        "size"@,
        "format"@,
        "description"@,
        "confidence"@,
        "name"@,
    ]
}

/// The CSV file of the findings.
pub fn findings_csv(findings: &[Finding]) -> (r: String)
    ensures
        r@ == csv_text(
            finding_fields(),
            findings_view(findings@).map_values(|f: FindingModel| csv_cells(f)),
        ),
{
    let ghost all = findings_view(findings@).map_values(|f: FindingModel| csv_cells(f));
    let mut rows: Vec<Vec<String>> = Vec::new();
    let mut i: usize = 0;
    while i < findings.len()
        invariant
            i <= findings@.len(),
            all == findings_view(findings@).map_values(|f: FindingModel| csv_cells(f)),
            rows_of(rows@) =~= all.take(i as int),
        decreases findings@.len() - i,
    {
        push_row(&mut rows, csv_row(&findings[i]));
        i = i + 1;
    }
    assert(all.take(i as int) == all);
    let mut header = no_texts();
    push_text(&mut header, "offset_start".to_owned());
    push_text(&mut header, "offset_end".to_owned());
    push_text(&mut header, "size".to_owned());
    push_text(&mut header, "format".to_owned());
    push_text(&mut header, "description".to_owned());
    push_text(&mut header, "confidence".to_owned());
    push_text(&mut header, "name".to_owned());
    assert(texts_of(header@) == finding_fields());
    write_csv(&header, &rows)
}

/// The mark of a block of high entropy.
pub open spec fn mark_of(high: bool) -> Seq<char> {
    if high {
        "★"@
    } else {
        ""@
    }
}

/// The cells of a block in a table: `entropy` is its entropy as a text, and `level`
/// the level from 0 to 8 that stands for it.
pub fn entropy_row(block: &EntropyBlock, entropy: String, level: u8) -> (r: Vec<String>)
    ensures
        texts_of(r@) == seq![
            offset_text(block.offset as int),
            dec(block.size as nat),
            entropy@,
            Seq::new(bar_len(level as int), |i: int| level_char(level as int)),
            mark_of(block.high),
        ],
{
    let mut row = no_texts();
    push_text(&mut row, show_offset(block.offset));
    push_text(&mut row, dec_text(block.size as u64));
    push_text(&mut row, entropy);
    push_text(&mut row, entropy_bar(level));
    push_text(&mut row, high_mark(block).to_owned());
    row
}

/// The titles of the columns of a table of blocks.
pub open spec fn entropy_titles() -> Seq<Seq<char>> {
    seq!["Offset"@, "Size"@, "Entropy (bits/byte)"@, "Графік"@, "Підозріло"@]
}

/// The table of blocks with these rows.
pub fn entropy_table(rows: &Vec<Vec<String>>) -> (r: String)
    ensures
        r@ == table_layout(entropy_titles(), rows_of(rows@)),
{
    let mut header = no_texts();
    push_text(&mut header, "Offset".to_owned());
    push_text(&mut header, "Size".to_owned());
    push_text(&mut header, "Entropy (bits/byte)".to_owned());
    push_text(&mut header, "Графік".to_owned());
    push_text(&mut header, "Підозріло".to_owned());
    assert(texts_of(header@) == entropy_titles());
    lay_out_table(&header, rows)
}

/// The fields of a block in a CSV file: `entropy` is its entropy as a text.
pub fn entropy_csv_row(block: &EntropyBlock, entropy: String) -> (r: Vec<String>)
    ensures
        texts_of(r@) == seq![
            offset_text(block.offset as int),
            dec(block.size as nat),
            entropy@,
            if block.high {
                "true"@
            } else {
                "false"@
            },
        ],
{
    let mut row = no_texts();
    push_text(&mut row, show_offset(block.offset));
    push_text(&mut row, dec_text(block.size as u64));
    push_text(&mut row, entropy);
    push_text(
        &mut row,
        if block.high {
            "true".to_owned()
        } else {
            "false".to_owned()
        },
    );
    row
}

/// The names of the fields of a CSV file of blocks.
pub open spec fn entropy_fields() -> Seq<Seq<char>> {
    seq!["offset"@, "size"@, "entropy"@, "high"@]
}

/// The CSV file of blocks with these rows.
pub fn entropy_csv(rows: &Vec<Vec<String>>) -> (r: String)
    ensures
        r@ == csv_text(entropy_fields(), rows_of(rows@)),
{
    let mut header = no_texts();
    push_text(&mut header, "offset".to_owned());
    push_text(&mut header, "size".to_owned());
    push_text(&mut header, "entropy".to_owned());
    push_text(&mut header, "high".to_owned());
    assert(texts_of(header@) == entropy_fields());
    write_csv(&header, rows)
}

} // verus!
