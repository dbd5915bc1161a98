//! The schema of an SQLite database is listed as it was written.
use vstd::prelude::*;
use vstd::string::*;
use crate::numeral_laws::power;
use crate::sqlite::{
    cell_payload, record, record_values, schema_entries, schema_entry, serial_type_len,
    serial_types, sqlite_listing, varint, varint_from,
};
use crate::text::lossy;
use crate::writing::{be16_bytes, holds_at, is_u16, lemma_byte, lemma_holds_itself};

verus! {

broadcast use crate::writing::group_reads;

/// A number can be written in `len` bytes of seven bits each.
pub open spec fn is_varint(n: int, len: int) -> bool {
    1 <= len <= 8 && 0 <= n < power(128, len as nat)
}

/// A number of variable length: seven bits to a byte, the highest first, and the eighth bit
/// set in all but the last.
#[verifier::opaque]
pub open spec fn varint_bytes(n: int, len: int) -> Seq<u8> {
    Seq::new(
        len as nat,
        |i: int|
            ((n / power(128, (len - 1 - i) as nat)) % 128 + if i < len - 1 {
                128int
            } else {
                0int
            }) as u8,
    )
}

proof fn lemma_power(n: nat)
    ensures
        power(128, n) >= 1,
        power(128, (n + 1) as nat) == 128 * power(128, n),
    decreases n,
{
    if n > 0 {
        lemma_power((n - 1) as nat);
    }
}

proof fn lemma_varint_from(s: Seq<u8>, pos: int, n: int, len: int, i: int)
    requires
        is_varint(n, len),
        holds_at(s, pos, varint_bytes(n, len)),
        0 <= i < len,
    ensures
        varint_from(s, pos, i, n / power(128, (len - i) as nat)) == Some((n, len)),
    decreases len - i,
{
    reveal(varint_bytes);
    let left = (len - 1 - i) as nat;
    lemma_power(left);
    let p = power(128, left);
    let v = n / p;
    lemma_byte(s, pos, varint_bytes(n, len), i);
    assert(n / (128 * p) == v / 128) by {
        vstd::arithmetic::div_mod::lemma_div_denominator(n, p, 128);
        assert(p * 128 == 128 * p);
    }
    assert(v >= 0) by {
        vstd::arithmetic::div_mod::lemma_div_pos_is_pos(n, p);
    }
    assert(128 * (v / 128) + v % 128 == v);
    let b = s[pos + i] as int;
    if i < len - 1 {
        assert(b == v % 128 + 128);
        assert(b % 0x80 == v % 128);
        lemma_varint_from(s, pos, n, len, i + 1);
    } else {
        assert(b == v % 128);
        assert(p == 1);
        assert(n / 1 == n);
    }
}

/// A number of variable length is read as it was written, with its length.
pub proof fn law_varint_gives_the_number_back(s: Seq<u8>, pos: int, n: int, len: int)
    requires
        is_varint(n, len),
        holds_at(s, pos, varint_bytes(n, len)),
    ensures
        varint(s, pos) == Some((n, len)),
        varint_bytes(n, len).len() == len,
{
    lemma_varint_from(s, pos, n, len, 0);
    let p = power(128, len as nat);
    vstd::arithmetic::div_mod::lemma_basic_div(n, p);
    reveal(varint_bytes);
}

/// A value of a record.
pub ghost struct Column {
    pub kind: int,
    /// How many bytes the kind is written in.
    pub kind_len: int,
    pub content: Seq<u8>,
}

/// How long a value of that kind is: numbers of one to four, six and eight bytes, constants
/// of none, and from 12 on blobs and texts by turns.
pub open spec fn kind_width(kind: int) -> int {
    if kind >= 12 && kind % 2 == 0 {
        (kind - 12) / 2
    } else if kind >= 12 {
        (kind - 13) / 2
    } else if kind == 1 {
        1
    } else if kind == 2 {
        2
    } else if kind == 3 {
        3
    } else if kind == 4 {
        4
    } else if kind == 5 {
        6
    } else if kind == 6 || kind == 7 {
        8
    } else {
        0
    }
}

/// The value can be written.
pub open spec fn is_column(c: Column) -> bool {
    is_varint(c.kind, c.kind_len) && c.kind < 0x8000_0000_0000_0000 && c.content.len() == kind_width(
        c.kind,
    )
}

/// The kinds of the values, one behind the other.
pub open spec fn kinds_bytes(columns: Seq<Column>) -> Seq<u8>
    decreases columns.len(),
{
    if columns.len() == 0 {
        Seq::empty()
    } else {
        varint_bytes(columns[0].kind, columns[0].kind_len) + kinds_bytes(columns.skip(1))
    }
}

/// The values, one behind the other.
pub open spec fn contents_bytes(columns: Seq<Column>) -> Seq<u8>
    decreases columns.len(),
{
    if columns.len() == 0 {
        Seq::empty()
    } else {
        columns[0].content + contents_bytes(columns.skip(1))
    }
}

/// A record: the length of its header, the kinds of its values, and the values.
#[verifier::opaque]
pub open spec fn record_bytes(columns: Seq<Column>, len: int) -> Seq<u8> {
    varint_bytes(len + kinds_bytes(columns).len(), len) + kinds_bytes(columns) + contents_bytes(columns)
}

/// The record can be written, with the length of its header in `len` bytes.
pub open spec fn is_record(columns: Seq<Column>, len: int) -> bool {
    &&& is_varint(len + kinds_bytes(columns).len(), len)
    &&& forall|i: int| 0 <= i < columns.len() ==> is_column(#[trigger] columns[i])
}

/// The kinds of the values as numbers.
pub open spec fn kinds_of(columns: Seq<Column>) -> Seq<int> {
    columns.map_values(|c: Column| c.kind)
}

/// What the values hold.
pub open spec fn contents_of(columns: Seq<Column>) -> Seq<Seq<u8>> {
    columns.map_values(|c: Column| c.content)
}

proof fn lemma_kinds(p: Seq<u8>, pos: int, columns: Seq<Column>)
    requires
        forall|i: int| 0 <= i < columns.len() ==> is_column(#[trigger] columns[i]),
        holds_at(p, pos, kinds_bytes(columns)),
    ensures
        serial_types(p, pos, pos + kinds_bytes(columns).len()) == Some(kinds_of(columns)),
    decreases columns.len(),
{
    let end = pos + kinds_bytes(columns).len();
    if columns.len() == 0 {
        assert(kinds_of(columns) == Seq::<int>::empty());
    } else {
        let c = columns[0];
        let rest = columns.skip(1);
        assert(is_column(c));
        assert forall|i: int| 0 <= i < rest.len() implies is_column(#[trigger] rest[i]) by {
            assert(rest[i] == columns[i + 1]);
        }
        law_varint_gives_the_number_back(p, pos, c.kind, c.kind_len);
        lemma_kinds(p, pos + c.kind_len, rest);
        assert(kinds_of(columns) == seq![c.kind] + kinds_of(rest));
    }
}

proof fn lemma_values(p: Seq<u8>, pos: int, columns: Seq<Column>)
    requires
        forall|i: int| 0 <= i < columns.len() ==> is_column(#[trigger] columns[i]),
        holds_at(p, pos, contents_bytes(columns)),
    ensures
        record_values(p, pos, kinds_of(columns)) == Some(contents_of(columns)),
    decreases columns.len(),
{
    if columns.len() == 0 {
        assert(contents_of(columns) == Seq::<Seq<u8>>::empty());
    } else {
        let c = columns[0];
        let rest = columns.skip(1);
        assert(is_column(c));
        assert forall|i: int| 0 <= i < rest.len() implies is_column(#[trigger] rest[i]) by {
            assert(rest[i] == columns[i + 1]);
        }
        assert(kinds_of(columns)[0] == c.kind);
        assert(kinds_of(columns).drop_first() == kinds_of(rest));
        assert(serial_type_len(c.kind) == kind_width(c.kind));
        lemma_values(p, pos + c.content.len(), rest);
        assert(contents_of(columns) == seq![c.content] + contents_of(rest));
    }
}

/// A record gives its values back, whatever their kinds.
pub proof fn law_record_gives_its_values_back(columns: Seq<Column>, len: int)
    requires
        is_record(columns, len),
    ensures
        record(record_bytes(columns, len)) == Some(contents_of(columns)),
{
    let p = record_bytes(columns, len);
    lemma_holds_itself(p);
    lemma_record(p, columns, len);
}

proof fn lemma_record(p: Seq<u8>, columns: Seq<Column>, len: int)
    requires
        is_record(columns, len),
        holds_at(p, 0, record_bytes(columns, len)),
    ensures
        record(p) == Some(contents_of(columns)),
{
    reveal(record_bytes);
    let header = len + kinds_bytes(columns).len();
    law_varint_gives_the_number_back(p, 0, header, len);
    lemma_kinds(p, len, columns);
    lemma_values(p, header, columns);
}

/// A row of the schema: where its cell stands, the number of the row, and the record.
pub ghost struct SchemaRow {
    pub at: int,
    pub size_len: int,
    pub row: int,
    pub row_len: int,
    pub columns: Seq<Column>,
    pub len: int,
}

/// A cell: the length of its record, the number of the row, and the record.
pub open spec fn cell_bytes(r: SchemaRow) -> Seq<u8> {
    varint_bytes(record_bytes(r.columns, r.len).len() as int, r.size_len) + varint_bytes(r.row, r.row_len)
        + record_bytes(r.columns, r.len)
}

/// The row can be written, and its cell stands in the page.
pub open spec fn is_schema_row(page: Seq<u8>, r: SchemaRow) -> bool {
    &&& is_u16(r.at)
    &&& is_record(r.columns, r.len)
    &&& is_varint(record_bytes(r.columns, r.len).len() as int, r.size_len)
    &&& record_bytes(r.columns, r.len).len() < 0x8000_0000_0000_0000
    &&& is_varint(r.row, r.row_len)
    &&& holds_at(page, r.at, cell_bytes(r))
}

/// What a row is listed as: its type and its name, and how long the statement is that made
/// it.
pub open spec fn row_entry(r: SchemaRow) -> (Seq<char>, int) {
    (
        (if r.columns.len() > 0 {
            lossy(r.columns[0].content)
        } else {
            Seq::empty()
        }) + ": "@ + (if r.columns.len() > 1 {
            lossy(r.columns[1].content)
        } else {
            Seq::empty()
        }),
        if r.columns.len() > 4 {
            r.columns[4].content.len() as int
        } else {
            0
        },
    )
}

proof fn lemma_cell(page: Seq<u8>, r: SchemaRow)
    requires
        is_schema_row(page, r),
    ensures
        cell_payload(page, r.at) == Some(record_bytes(r.columns, r.len)),
        schema_entry(contents_of(r.columns)) == row_entry(r),
{
    let payload = record_bytes(r.columns, r.len);
    law_varint_gives_the_number_back(page, r.at, payload.len() as int, r.size_len);
    law_varint_gives_the_number_back(page, r.at + r.size_len, r.row, r.row_len);
    assert(holds_at(page, r.at + r.size_len + r.row_len, payload));
}

proof fn lemma_schema(page: Seq<u8>, rows: Seq<SchemaRow>, i: int)
    requires
        0 <= i <= rows.len(),
        forall|k: int|
            0 <= k < rows.len() ==> is_schema_row(page, #[trigger] rows[k]) && holds_at(
                page,
                108 + 2 * k,
                be16_bytes(rows[k].at),
            ),
    ensures
        schema_entries(page, i, rows.len() as int) == Some(
            rows.skip(i).map_values(|r: SchemaRow| row_entry(r)),
        ),
    decreases rows.len() - i,
{
    let entry = |r: SchemaRow| row_entry(r);
    if i == rows.len() {
        assert(rows.skip(i).map_values(entry) == Seq::<(Seq<char>, int)>::empty());
    } else {
        let r = rows[i];
        assert(is_schema_row(page, r));
        assert(holds_at(page, 108 + 2 * i, be16_bytes(r.at)));
        lemma_cell(page, r);
        law_record_gives_its_values_back(r.columns, r.len);
        lemma_schema(page, rows, i + 1);
        assert(rows.skip(i).map_values(entry) == seq![row_entry(r)] + rows.skip(i + 1).map_values(entry));
    }
}

/// A database whose schema stands on its first page is listed with the types and the names
/// of what it holds, and with the lengths of the statements that made them, in the order of
/// the cell pointers.
pub proof fn law_sqlite_lists_its_schema(s: Seq<u8>, page_size: int, rows: Seq<SchemaRow>)
    requires
        page_size == 512 || page_size == 1024 || page_size == 2048 || page_size == 4096 || page_size
            == 8192 || page_size == 16_384 || page_size == 32_768 || page_size == 65_536,
        page_size <= s.len(),
        0 < rows.len() < 0x1_0000,
        holds_at(
            s,
            16,
            be16_bytes(
                if page_size == 65_536 {
                    1
                } else {
                    page_size
                },
            ),
        ),
        s[100] == 0x0D,
        holds_at(s, 103, be16_bytes(rows.len() as int)),
        forall|k: int|
            0 <= k < rows.len() ==> is_schema_row(s.take(page_size), #[trigger] rows[k]) && holds_at(
                s.take(page_size),
                108 + 2 * k,
                be16_bytes(rows[k].at),
            ),
    ensures
        sqlite_listing(s) == Some(rows.map_values(|r: SchemaRow| row_entry(r))),
{
    lemma_schema(s.take(page_size), rows, 0);
    assert(rows.skip(0) == rows);
}

} // verus!
