//! Reports say what was found, and texts are taken apart as they were put together.
use vstd::prelude::*;
use vstd::string::*;
use vstd::utf8::{
    encode_utf8, encode_utf8_decode_utf8, encode_utf8_valid_utf8, is_ascii_chars_encode_utf8,
};
use crate::entropy::{region_findings, regions_from, EntropyBlock};
use crate::facts::{
    end_header, hdr_text, header_bytes, is_resolution_line, ply_header_text, ply_line, ply_lines,
    ply_text, resolution_in,
};
use crate::lines::{lines_from, word_start, word_stop, words, words_from};
use crate::numbers::{dec, number, pad_left};
use crate::numeral_laws::law_dec_stands_for_the_number;
use crate::output::{csv_cells, offset_text, sanitized, table_cells};
use crate::reports::{csv_field, doubled, is_csv_special};
use crate::scanner::FindingModel;
use crate::search::{lemma_first_occurrence_found, occurs_at};
use crate::text::{find_char, is_space};
use crate::views::{entry_text, label_of};

verus! {

/// A row of the table tells, in this order, where a finding begins and ends, its size, its
/// format, what that is, how certain it is in percent, and its name if it has one.
pub proof fn law_table_tells_the_finding(f: FindingModel)
    ensures
        table_cells(f).len() == 7,
        table_cells(f)[0] == offset_text(f.offset_start),
        table_cells(f)[1] == offset_text(f.offset_end),
        table_cells(f)[2] == dec(f.size as nat),
        table_cells(f)[3] == f.format,
        table_cells(f)[4] == f.description,
        table_cells(f)[5] == dec(f.confidence as nat) + "%"@,
        f.name matches Some(name) ==> table_cells(f)[6] == name,
        f.name is None ==> table_cells(f)[6].len() == 0,
{
}

/// A record of the CSV file tells the same, but for the sign of percent, and with a name that
/// no spreadsheet takes for a formula.
pub proof fn law_csv_tells_the_finding(f: FindingModel)
    ensures
        csv_cells(f).len() == 7,
        forall|i: int| 0 <= i < 5 ==> #[trigger] csv_cells(f)[i] == table_cells(f)[i],
        csv_cells(f)[5] == dec(f.confidence as nat),
        csv_cells(f)[6] == sanitized(table_cells(f)[6]),
{
}

/// Only a text that a spreadsheet would calculate is changed in the CSV file: one that begins
/// with an equals sign, a plus, a minus, an at sign, a tab or a carriage return gets an
/// apostrophe in front, and every other stays.
pub proof fn law_only_formulas_are_changed(first: char, rest: Seq<char>)
    ensures
        ({
            let text = seq![first] + rest;
            let calculated = first == '=' || first == '+' || first == '-' || first == '@' || first
                == '\t' || first == '\r';
            sanitized(text) == if calculated {
                seq!['\''] + text
            } else {
                text
            }
        }),
        sanitized(Seq::empty()) == Seq::<char>::empty(),
{
}

/// The list of the browser tells where a finding begins, its format, its size and how
/// certain it is, in columns.
pub proof fn law_list_tells_the_finding(f: FindingModel)
    requires
        f.format.len() <= 14,
        f.size >= 0,
        f.confidence >= 0,
    ensures
        ({
            let start = offset_text(f.offset_start);
            let label = label_of(f);
            &&& label.take(start.len() as int) == start
            &&& label.skip(start.len() as int + 2).take(f.format.len() as int) == f.format
            &&& label.skip(start.len() as int + 16) == " "@ + pad_left(dec(f.size as nat), 10, ' ')
                + "b  "@ + pad_left(dec(f.confidence as nat), 3, ' ') + "%"@
        }),
{
    reveal_strlit("  ");
    let start = offset_text(f.offset_start);
    let label = label_of(f);
    assert(label.take(start.len() as int) =~= start);
    assert(label.skip(start.len() as int + 2).take(f.format.len() as int) =~= f.format);
    assert(label.skip(start.len() as int + 16) =~= " "@ + pad_left(dec(f.size as nat), 10, ' ')
        + "b  "@ + pad_left(dec(f.confidence as nat), 3, ' ') + "%"@);
}

/// An entry is told by its size and its name.
pub proof fn law_entry_is_told(name: Seq<char>, size: int)
    requires
        size >= 0,
    ensures
        ({
            let text = entry_text((name, size));
            let front = text.len() - name.len();
            &&& text.skip(front) == name
            &&& text.take(front - 3) == pad_left(dec(size as nat), 10, ' ')
        }),
{
    reveal_strlit("b  ");
    let text = entry_text((name, size));
    let front = text.len() - name.len();
    assert(text.skip(front) =~= name);
    assert(text.take(front - 3) =~= pad_left(dec(size as nat), 10, ' '));
}

proof fn lemma_doubled(a: Seq<char>, b: Seq<char>)
    requires
        doubled(a) == doubled(b),
    ensures
        a == b,
    decreases a.len(),
{
    if a.len() == 0 {
        if b.len() > 0 {
            assert(doubled(b).len() > 0);
        }
        assert(a == b);
    } else if b.len() == 0 {
        assert(doubled(a).len() > 0);
    } else {
        let (x, y) = (doubled(a.drop_last()), doubled(b.drop_last()));
        assert(doubled(a).last() == a.last());
        assert(doubled(b).last() == b.last());
        if a.last() == '"' {
            assert(x == doubled(a).take(doubled(a).len() - 2));
            assert(y == doubled(b).take(doubled(b).len() - 2));
        } else {
            assert(x == doubled(a).drop_last());
            assert(y == doubled(b).drop_last());
        }
        lemma_doubled(a.drop_last(), b.drop_last());
        assert(a == a.drop_last().push(a.last()));
        assert(b == b.drop_last().push(b.last()));
    }
}

/// A field of a CSV file stands for one text only, and what is not quoted has neither a comma
/// nor a quotation mark nor an end of line in it.
pub proof fn law_csv_field_stands_for_its_text(a: Seq<char>, b: Seq<char>)
    ensures
        csv_field(a) == csv_field(b) ==> a == b,
        csv_field(a).len() > 0 && csv_field(a)[0] != '"' ==> csv_field(a) == a && forall|i: int|
            0 <= i < a.len() ==> {
                let c = #[trigger] a[i];
                c != ',' && c != '"' && c != '\r' && c != '\n'
            },
{
    let quote = |t: Seq<char>| exists|i: int| 0 <= i < t.len() && is_csv_special(#[trigger] t[i]);
    let (x, y) = (csv_field(a), csv_field(b));
    if quote(a) {
        assert(x[0] == '"');
    }
    if quote(b) {
        assert(y[0] == '"');
    }
    if x == y {
        if quote(a) && quote(b) {
            assert(doubled(a) == x.subrange(1, x.len() - 1));
            assert(doubled(b) == y.subrange(1, y.len() - 1));
            lemma_doubled(a, b);
        } else if quote(a) {
            assert(is_csv_special(b[0]));
        } else if quote(b) {
            assert(is_csv_special(a[0]));
        }
    }
    if !quote(a) {
        assert forall|i: int| 0 <= i < a.len() implies {
            let c = #[trigger] a[i];
            c != ',' && c != '"' && c != '\r' && c != '\n'
        } by {
            assert(!is_csv_special(a[i]));
        }
    }
}

/// A region of high entropy is reported as such, with half certainty, from its first to its
/// last byte.
pub proof fn law_region_is_reported(blocks: Seq<EntropyBlock>, i: int)
    requires
        0 <= i < regions_from(blocks, 0, None).len(),
    ensures
        ({
            let region = regions_from(blocks, 0, None)[i];
            let finding = region_findings(blocks)[i];
            &&& region_findings(blocks).len() == regions_from(blocks, 0, None).len()
            &&& finding.format == "high_entropy_region"@
            &&& finding.offset_start == region.0 && finding.offset_end == region.1
            &&& finding.size == region.1 - region.0 + 1
            &&& finding.confidence == 50
            &&& finding.name is None
        }),
{
}

/// Lines, each with a line feed behind it.
pub open spec fn text_of_lines(lines: Seq<Seq<char>>) -> Seq<char>
    decreases lines.len(),
{
    if lines.len() == 0 {
        Seq::empty()
    } else {
        lines[0] + seq!['\n'] + text_of_lines(lines.skip(1))
    }
}

/// No line has a line feed in it.
pub open spec fn are_lines(lines: Seq<Seq<char>>) -> bool {
    forall|i: int, k: int|
        0 <= i < lines.len() && 0 <= k < lines[i].len() ==> #[trigger] lines[i][k] != '\n'
}

proof fn lemma_find_newline(t: Seq<char>, from: int, at: int)
    requires
        0 <= from <= at < t.len(),
        t[at] == '\n',
        forall|k: int| from <= k < at ==> #[trigger] t[k] != '\n',
    ensures
        find_char(t, '\n', from) == at,
    decreases at - from,
{
    if from < at {
        lemma_find_newline(t, from + 1, at);
    }
}

proof fn lemma_lines(before: Seq<char>, lines: Seq<Seq<char>>)
    requires
        are_lines(lines),
    ensures
        lines_from(before + text_of_lines(lines), before.len() as int) == lines,
    decreases lines.len(),
{
    let t = before + text_of_lines(lines);
    let from = before.len() as int;
    if lines.len() == 0 {
        assert(lines_from(t, from) =~= lines);
    } else {
        let line = lines[0];
        let rest = lines.skip(1);
        let at = from + line.len();
        assert(t[at] == '\n');
        assert forall|k: int| from <= k < at implies #[trigger] t[k] != '\n' by {
            assert(t[k] == lines[0][k - from]);
        }
        lemma_find_newline(t, from, at);
        assert(are_lines(rest)) by {
            assert forall|i: int, k: int|
                0 <= i < rest.len() && 0 <= k < rest[i].len() implies #[trigger] rest[i][k] != '\n' by {
                assert(rest[i] == lines[i + 1]);
                assert(lines[i + 1][k] != '\n');
            }
        }
        let next = before + line + seq!['\n'];
        assert(t == next + text_of_lines(rest));
        lemma_lines(next, rest);
        assert(t.subrange(from, at) == line);
        assert(lines == seq![line] + rest);
    }
}

/// A text gives back the lines that it was made of.
pub proof fn law_lines_are_given_back(lines: Seq<Seq<char>>)
    requires
        are_lines(lines),
    ensures
        lines_from(text_of_lines(lines), 0) == lines,
{
    lemma_lines(Seq::empty(), lines);
    assert(Seq::<char>::empty() + text_of_lines(lines) == text_of_lines(lines));
}

/// Words, each with a space behind it.
pub open spec fn text_of_words(list: Seq<Seq<char>>) -> Seq<char>
    decreases list.len(),
{
    if list.len() == 0 {
        Seq::empty()
    } else {
        list[0] + seq![' '] + text_of_words(list.skip(1))
    }
}

/// No word is empty or has white space in it.
pub open spec fn are_words(list: Seq<Seq<char>>) -> bool {
    &&& forall|i: int| 0 <= i < list.len() ==> (#[trigger] list[i]).len() > 0
    &&& forall|i: int, k: int|
        0 <= i < list.len() && 0 <= k < list[i].len() ==> !is_space(#[trigger] list[i][k])
}

proof fn lemma_word_stop(t: Seq<char>, from: int, at: int)
    requires
        0 <= from <= at < t.len(),
        is_space(t[at]),
        forall|k: int| from <= k < at ==> !is_space(#[trigger] t[k]),
    ensures
        word_stop(t, from) == at,
    decreases at - from,
{
    if from < at {
        lemma_word_stop(t, from + 1, at);
    }
}

proof fn lemma_words(before: Seq<char>, list: Seq<Seq<char>>, gap: int)
    requires
        are_words(list),
        gap == 0 || gap == 1 && before.len() > 0 && is_space(before.last()),
    ensures
        words_from(before + text_of_words(list), before.len() - gap) == list,
    decreases list.len(),
{
    let t = before + text_of_words(list);
    let first = before.len() as int;
    let from = first - gap;
    if gap == 1 {
        assert(t[from] == before.last());
    }
    if list.len() == 0 {
        assert(words_from(t, from) =~= list);
    } else {
        let word = list[0];
        let rest = list.skip(1);
        let at = first + word.len();
        assert(word.len() > 0);
        assert(t[first] == list[0][0]);
        assert(!is_space(t[first]));
        assert(word_start(t, first) == first);
        assert(word_start(t, from) == first);
        assert(t[at] == ' ');
        assert forall|k: int| first <= k < at implies !is_space(#[trigger] t[k]) by {
            assert(t[k] == list[0][k - first]);
        }
        lemma_word_stop(t, first, at);
        assert(are_words(rest)) by {
            assert forall|i: int| 0 <= i < rest.len() implies (#[trigger] rest[i]).len() > 0 by {
                assert(rest[i] == list[i + 1]);
            }
            assert forall|i: int, k: int|
                0 <= i < rest.len() && 0 <= k < rest[i].len() implies !is_space(#[trigger] rest[i][k]) by {
                assert(rest[i] == list[i + 1]);
                assert(!is_space(list[i + 1][k]));
            }
        }
        let next = before + word + seq![' '];
        assert(t == next + text_of_words(rest));
        assert(next.last() == ' ');
        lemma_words(next, rest, 1);
        assert(t.subrange(first, at) == word);
        assert(list == seq![word] + rest);
    }
}

/// A line gives back the words that it was made of.
pub proof fn law_words_are_given_back(list: Seq<Seq<char>>)
    requires
        are_words(list),
    ensures
        words(text_of_words(list)) == list,
{
    lemma_words(Seq::empty(), list, 0);
    assert(Seq::<char>::empty() + text_of_words(list) == text_of_words(list));
}

proof fn lemma_dec_word(n: nat)
    ensures
        dec(n).len() > 0,
        forall|k: int| 0 <= k < dec(n).len() ==> '0' <= #[trigger] dec(n)[k] <= '9',
    decreases n,
{
    if n >= 10 {
        lemma_dec_word(n / 10);
        assert forall|k: int| 0 <= k < dec(n).len() implies '0' <= #[trigger] dec(n)[k] <= '9' by {
            if k < dec(n / 10).len() {
                assert(dec(n)[k] == dec(n / 10)[k]);
            }
        }
    }
}

/// The line that tells the resolution of a Radiance picture: a sign and an axis before each
/// number, the height first.
pub open spec fn resolution_words(top_down: bool, height: nat, left_right: bool, width: nat) -> Seq<
    Seq<char>,
> {
    seq![
        if top_down {
            "-Y"@
        } else {
            "+Y"@
        },
        dec(height),
        if left_right {
            "+X"@
        } else {
            "-X"@
        },
        dec(width),
    ]
}

proof fn lemma_resolution_line(top_down: bool, height: nat, left_right: bool, width: nat)
    requires
        height <= u32::MAX && width <= u32::MAX,
    ensures
        ({
            let list = resolution_words(top_down, height, left_right, width);
            let line = text_of_words(list);
            &&& words(line) == list
            &&& is_resolution_line(words(line))
            &&& number(words(line)[1], 10, u32::MAX as int) == Some(height as int)
            &&& number(words(line)[3], 10, u32::MAX as int) == Some(width as int)
        }),
{
    reveal_strlit("-Y");
    reveal_strlit("+Y");
    reveal_strlit("-X");
    reveal_strlit("+X");
    let list = resolution_words(top_down, height, left_right, width);
    lemma_dec_word(height);
    lemma_dec_word(width);
    law_dec_stands_for_the_number(height);
    law_dec_stands_for_the_number(width);
    assert(are_words(list)) by {
        assert forall|i: int, k: int|
            0 <= i < list.len() && 0 <= k < list[i].len() implies !is_space(#[trigger] list[i][k]) by {
            if i == 1 {
                assert(list[i][k] == dec(height)[k]);
            } else if i == 3 {
                assert(list[i][k] == dec(width)[k]);
            }
        }
    }
    law_words_are_given_back(list);
    assert(dec(height)[0] != '+');
    assert(dec(width)[0] != '+');
}

proof fn lemma_resolution_in(lines: Seq<Seq<char>>, i: int, at: int)
    requires
        0 <= i <= at < lines.len(),
        forall|k: int| i <= k < at ==> !is_resolution_line(words(#[trigger] lines[k])),
    ensures
        resolution_in(lines, i) == resolution_in(lines, at),
    decreases at - i,
{
    if i < at {
        lemma_resolution_in(lines, i + 1, at);
    }
}

/// The facts about a Radiance picture are the width and the height in the first line of its
/// header that tells them, whichever lines stand before it.
pub proof fn law_hdr_facts_are_those_written(
    before: Seq<Seq<char>>,
    top_down: bool,
    height: nat,
    left_right: bool,
    width: nat,
)
    requires
        height <= u32::MAX && width <= u32::MAX,
        are_lines(before),
        forall|k: int| 0 <= k < before.len() ==> !is_resolution_line(words(#[trigger] before[k])),
        ({
            let line = text_of_words(resolution_words(top_down, height, left_right, width));
            encode_utf8(text_of_lines(before.push(line))).len() < 2048
        }),
    ensures
        ({
            let line = text_of_words(resolution_words(top_down, height, left_right, width));
            hdr_text(encode_utf8(text_of_lines(before.push(line)))) == Some(
                "Роздільність: "@ + dec(width) + "×"@ + dec(height),
            )
        }),
{
    let list = resolution_words(top_down, height, left_right, width);
    let line = text_of_words(list);
    let lines = before.push(line);
    let text = text_of_lines(lines);
    lemma_resolution_line(top_down, height, left_right, width);
    lemma_no_newline(list, top_down, height, left_right, width);
    assert(are_lines(lines)) by {
        assert forall|i: int, k: int|
            0 <= i < lines.len() && 0 <= k < lines[i].len() implies #[trigger] lines[i][k] != '\n' by {
            if i < before.len() {
                assert(before[i][k] != '\n');
            } else {
                assert(line[k] != '\n');
            }
        }
    }
    law_lines_are_given_back(lines);
    encode_utf8_valid_utf8(text);
    encode_utf8_decode_utf8(text);
    assert forall|k: int| 0 <= k < before.len() implies !is_resolution_line(words(#[trigger] lines[k])) by {
        assert(lines[k] == before[k]);
    }
    lemma_resolution_in(lines, 0, before.len() as int);
}

proof fn lemma_no_newline(
    list: Seq<Seq<char>>,
    top_down: bool,
    height: nat,
    left_right: bool,
    width: nat,
)
    requires
        list == resolution_words(top_down, height, left_right, width),
    ensures
        forall|k: int| 0 <= k < text_of_words(list).len() ==> #[trigger] text_of_words(list)[k] != '\n',
{
    reveal_strlit("-Y");
    reveal_strlit("+Y");
    reveal_strlit("-X");
    reveal_strlit("+X");
    lemma_dec_word(height);
    lemma_dec_word(width);
    reveal_with_fuel(text_of_words, 5);
    let (a, b, c) = (list.skip(1), list.skip(1).skip(1), list.skip(1).skip(1).skip(1));
    assert(a[0] == list[1] && b[0] == list[2] && c[0] == list[3]);
    assert(c.skip(1).len() == 0);
    let text = text_of_words(list);
    assert(text == list[0] + seq![' '] + (list[1] + seq![' '] + (list[2] + seq![' '] + (list[3] + seq![' ']
        + Seq::<char>::empty()))));
}

/// A line of a PLY header tells something if it gives the format or an element: the name of
/// the format, or the name of the element and how many there are.
pub proof fn law_ply_lines_that_tell(name: Seq<char>, count: Seq<char>, rest: Seq<Seq<char>>)
    ensures
        ply_line(seq!["format"@, name] + rest) == Some("Формат: "@ + name),
        ply_line(seq!["element"@, name, count] + rest) == Some(name + ": "@ + count),
        ply_line(seq!["property"@, name] + rest) is None,
        ply_line(seq!["comment"@, name] + rest) is None,
{
    reveal_strlit("format");
    reveal_strlit("element");
    reveal_strlit("property");
    reveal_strlit("comment");
    assert("format"@.len() == 6 && "element"@.len() == 7 && "property"@.len() == 8);
    assert("comment"@.len() == 7 && "comment"@[0] == 'c' && "element"@[0] == 'e');
}

/// What the lines of a PLY header tell is told in their order, and nothing else is.
pub proof fn law_ply_facts_in_order(lines: Seq<Seq<char>>, n: int)
    requires
        0 <= n <= lines.len(),
    ensures
        ply_lines(lines, n) == lines.take(n).map_values(
            |line: Seq<char>| ply_line(words(line)),
        ).filter(|told: Option<Seq<char>>| told is Some).map_values(|told: Option<Seq<char>>| told->0),
    decreases n,
{
    reveal(Seq::filter);
    let told = lines.take(n).map_values(|line: Seq<char>| ply_line(words(line)));
    let some = |t: Option<Seq<char>>| t is Some;
    let get = |t: Option<Seq<char>>| t->0;
    if n == 0 {
        assert(ply_lines(lines, n) =~= told.filter(some).map_values(get));
    } else {
        law_ply_facts_in_order(lines, n - 1);
        let before = lines.take(n - 1).map_values(|line: Seq<char>| ply_line(words(line)));
        assert(told.drop_last() == before);
        assert(told.last() == ply_line(words(lines[n - 1])));
        if told.last() is Some {
            assert(told.filter(some) == before.filter(some).push(told.last()));
            assert(before.filter(some).push(told.last()).map_values(get) =~= before.filter(
                some,
            ).map_values(get).push(told.last()->0));
        } else {
            assert(told.filter(some) == before.filter(some));
        }
    }
}

/// A PLY file tells what the lines of its header tell, up to the words that end it; nothing behind
/// them matters.
pub proof fn law_ply_facts_are_those_of_the_header(lines: Seq<Seq<char>>, rest: Seq<u8>)
    requires
        are_lines(lines),
        forall|i: int|
            0 <= i < encode_utf8(text_of_lines(lines)).len() ==> !#[trigger] occurs_at(
                encode_utf8(text_of_lines(lines)) + end_header() + rest,
                end_header(),
                i,
            ),
    ensures
        end_header() == encode_utf8("end_header"@),
        ply_text(encode_utf8(text_of_lines(lines)) + end_header() + rest) == ply_header_text(lines),
{
    let text = text_of_lines(lines);
    let head = encode_utf8(text);
    let s = head + end_header() + rest;
    assert(end_header() == encode_utf8("end_header"@)) by {
        reveal_strlit("end_header");
        is_ascii_chars_encode_utf8("end_header"@);
        assert(encode_utf8("end_header"@) =~= end_header());
    }
    assert(s.subrange(head.len() as int, head.len() as int + end_header().len()) =~= end_header());
    assert(occurs_at(s, end_header(), head.len() as int));
    lemma_first_occurrence_found(s, 0, end_header(), head.len() as int);
    assert(s.take(head.len() as int) =~= head);
    encode_utf8_valid_utf8(text);
    encode_utf8_decode_utf8(text);
    law_lines_are_given_back(lines);
}

/// Only the first two kibibytes of a header of text are read.
pub proof fn law_header_is_read_up_to_two_kibibytes(s: Seq<u8>, rest: Seq<u8>)
    ensures
        s.len() <= 2048 ==> header_bytes(s) == s,
        s.len() == 2048 ==> header_bytes(s + rest) == s,
{
    if s.len() == 2048 {
        assert((s + rest).take(2048) =~= s);
        assert(s.take(2048) =~= s);
    }
}

} // verus!
