//! The schema of an SQLite database.
use vstd::prelude::*;
use vstd::string::*;
use crate::bytes::{advance, be16, fits, read_be16, within};
use crate::documents::{read_sqlite_page_size, sqlite_page_size};
use crate::entries::{
    entries_of, joined, listing, no_entries, nonempty, prepend, push_entry, some_entries,
    ArchiveEntry,
};
use crate::media::SIGN_64;
use crate::text::{lossy, lossy_text};

verus! {

broadcast use {crate::slices::slice_len_bound, crate::entries::group_joined};

/// The rest of the SQLite number at `pos` behind its first `i` bytes, which give
/// `high`: seven bits from each byte up to one below 128, or eight bits from
/// the ninth. The value and the length of the whole number.
pub open spec fn varint_from(s: Seq<u8>, pos: int, i: int, high: int) -> Option<(int, int)>
    decreases 9 - i,
{
    if i < 0 || i > 8 || !within(s, pos + i, 1) {
        None
    } else if i == 8 {
        Some((0x100 * high + s[pos + i], 9))
    } else {
        let value = 0x80 * high + s[pos + i] % 0x80;
        if s[pos + i] < 0x80 {
            Some((value, i + 1))
        } else {
            varint_from(s, pos, i + 1, value)
        }
    }
}

/// The SQLite number at `pos`: its 64 bits as an unsigned value, and its length.
pub open spec fn varint(s: Seq<u8>, pos: int) -> Option<(int, int)> {
    varint_from(s, pos, 0, 0)
}

/// The SQLite number at `pos`.
pub fn read_sqlite_varint(data: &[u8], pos: usize) -> (r: Option<(u64, usize)>)
    ensures
        r is Some <==> varint(data@, pos as int) is Some,
        r matches Some((value, len)) ==> varint(data@, pos as int) == Some((value as int, len as int))
            && 1 <= len <= 9 && pos + len <= data@.len(),
{
    if !fits(data, pos, 1) {
        return None;
    }
    let mut value: u64 = 0;
    let mut i: usize = 0;
    let ghost mut bound: int = 1;
    while i < 8
        invariant
            i <= 8,
            pos + i <= data@.len(),
            value < bound,
            bound <= 0x100_0000_0000_0000,
            i == 0 ==> bound == 1,
            i == 1 ==> bound == 0x80,
            i == 2 ==> bound == 0x4000,
            i == 3 ==> bound == 0x20_0000,
            i == 4 ==> bound == 0x1000_0000,
            i == 5 ==> bound == 0x8_0000_0000,
            i == 6 ==> bound == 0x400_0000_0000,
            i == 7 ==> bound == 0x2_0000_0000_0000,
            varint(data@, pos as int) == varint_from(data@, pos as int, i as int, value as int),
        decreases 8 - i,
    {
        if !fits(data, pos + i, 1) {
            return None;
        }
        let b = data[pos + i];
        value = 0x80 * value + (b % 0x80) as u64;
        if b < 0x80 {
            return Some((value, i + 1));
        }
        proof {
            bound = bound * 0x80;
        }
        i = i + 1;
    }
    if !fits(data, pos + 8, 1) {
        return None;
    }
    Some((0x100 * value + data[pos + 8] as u64, 9))
}

/// The length of a value of that serial type in a record.
pub open spec fn serial_type_len(serial_type: int) -> int {
    if serial_type >= SIGN_64 {
        0
    } else if serial_type >= 12 {
        (serial_type - 12) / 2
    } else if 1 <= serial_type <= 4 {
        serial_type
    } else if serial_type == 5 {
        6
    } else if serial_type == 6 || serial_type == 7 {
        8
    } else {
        0
    }
}

/// The length of a value of that serial type, given as 64 bits.
pub fn sqlite_serial_type_len(serial_type: u64) -> (r: u64)
    ensures
        r == serial_type_len(serial_type as int),
{
    if serial_type >= SIGN_64 {
        0
    } else if serial_type >= 12 {
        (serial_type - 12) / 2
    } else if 1 <= serial_type && serial_type <= 4 {
        serial_type
    } else if serial_type == 5 {
        6
    } else if serial_type == 6 || serial_type == 7 {
        8
    } else {
        0
    }
}

/// The serial types in the header of the record `p` from `pos` on, up to `end`.
pub open spec fn serial_types(p: Seq<u8>, pos: int, end: int) -> Option<Seq<int>>
    decreases p.len() - pos,
{
    if pos >= end {
        Some(Seq::empty())
    } else {
        match varint(p, pos) {
            Some((serial_type, n)) if n >= 1 && pos + n <= p.len() => match serial_types(p, pos + n, end) {
                Some(rest) => Some(seq![serial_type] + rest),
                None => None,
            },
            _ => None,
        }
    }
}

/// The values of the record `p` with these serial types, from `pos` on.
pub open spec fn record_values(p: Seq<u8>, pos: int, types: Seq<int>) -> Option<Seq<Seq<u8>>>
    decreases types.len(),
{
    if types.len() == 0 {
        Some(Seq::empty())
    } else {
        let len = serial_type_len(types[0]);
        if !within(p, pos, len) {
            None
        } else {
            match record_values(p, pos + len, types.drop_first()) {
                Some(rest) => Some(seq![p.subrange(pos, pos + len)] + rest),
                None => None,
            }
        }
    }
}

/// The values of the record `p`: its header gives its own length and the serial
/// types; the values follow.
pub open spec fn record(p: Seq<u8>) -> Option<Seq<Seq<u8>>> {
    match varint(p, 0) {
        Some((header_len, n)) => match serial_types(p, n, header_len) {
            Some(types) => record_values(p, header_len, types),
            None => None,
        },
        None => None,
    }
}

/// Value `i` of a record as text; empty if there is none.
pub open spec fn value_text(values: Seq<Seq<u8>>, i: int) -> Seq<char> {
    if i < values.len() {
        lossy(values[i])
    } else {
        Seq::empty()
    }
}

/// The entry for a record of the schema table: its kind and name, and the length
/// of the SQL text that defines it.
pub open spec fn schema_entry(values: Seq<Seq<u8>>) -> (Seq<char>, int) {
    (
        value_text(values, 0) + ": "@ + value_text(values, 1),
        if values.len() > 4 {
            values[4].len() as int
        } else {
            0
        },
    )
}

/// The record in the table cell at `cell` of a page: a payload length, a row
/// number and the payload.
pub open spec fn cell_payload(page: Seq<u8>, cell: int) -> Option<Seq<u8>> {
    if cell > page.len() {
        None
    } else {
        match varint(page, cell) {
            None => None,
            Some((len, n1)) => match varint(page, cell + n1) {
                None => None,
                Some((_, n2)) => {
                    let start = cell + n1 + n2;
                    if len < SIGN_64 && within(page, start, len) {
                        Some(page.subrange(start, start + len))
                    } else {
                        None
                    }
                },
            },
        }
    }
}

/// The schema entries in the cells `i..n` of the first page.
pub open spec fn schema_entries(page: Seq<u8>, i: int, n: int) -> Option<Seq<(Seq<char>, int)>>
    decreases n - i,
{
    if i >= n {
        Some(Seq::empty())
    } else if !within(page, 108 + 2 * i, 2) {
        None
    } else {
        match cell_payload(page, be16(page, 108 + 2 * i)) {
            None => None,
            Some(payload) => match record(payload) {
                None => None,
                Some(values) => prepend(schema_entry(values), schema_entries(page, i + 1, n)),
            },
        }
    }
}

/// The tables, indices, views and triggers of an SQLite database, if the root
/// page of its schema is a leaf.
pub open spec fn sqlite_listing(s: Seq<u8>) -> Option<Seq<(Seq<char>, int)>> {
    if !within(s, 16, 2) {
        None
    } else {
        match sqlite_page_size(be16(s, 16)) {
            Some(size) if size <= s.len() && s[100] == 0x0D => nonempty(
                schema_entries(s.take(size), 0, be16(s, 103)),
            ),
            _ => None,
        }
    }
}

/// The serial types of the record.
fn read_serial_types(payload: &[u8], first: usize, end: u64) -> (r: Option<Vec<u64>>)
    requires
        first <= payload@.len(),
    ensures
        r is Some <==> serial_types(payload@, first as int, end as int) is Some,
        r matches Some(types) ==> serial_types(payload@, first as int, end as int) == Some(
            types@.map_values(|t: u64| t as int),
        ),
{
    let mut pos = first;
    let mut types: Vec<u64> = Vec::new();
    let ghost all = serial_types(payload@, first as int, end as int);
    assert(types@.map_values(|t: u64| t as int) == Seq::<int>::empty());
    while (pos as u64) < end
        invariant
            first <= pos <= payload@.len(),
            all == serial_types(payload@, first as int, end as int),
            all == match serial_types(payload@, pos as int, end as int) {
                Some(rest) => Some(types@.map_values(|t: u64| t as int) + rest),
                None => None,
            },
        decreases payload@.len() - pos,
    {
        match read_sqlite_varint(payload, pos) {
            Some((serial_type, n)) => {
                let ghost before = types@.map_values(|t: u64| t as int);
                types.push(serial_type);
                proof {
                    assert(types@.map_values(|t: u64| t as int) == before.push(serial_type as int));
                    if let Some(rest) = serial_types(payload@, pos + n, end as int) {
                        assert(before + (seq![serial_type as int] + rest) == before.push(
                            serial_type as int,
                        ) + rest);
                    }
                }
                pos = pos + n;
            },
            None => {
                return None;
            },
        }
    }
    assert(types@.map_values(|t: u64| t as int) + Seq::<int>::empty() == types@.map_values(
        |t: u64| t as int,
    ));
    Some(types)
}

/// The parts of a record that these ranges cover.
pub open spec fn slices(p: Seq<u8>, ranges: Seq<(usize, usize)>) -> Seq<Seq<u8>> {
    ranges.map_values(|range: (usize, usize)| p.subrange(range.0 as int, range.1 as int))
}

/// The ranges lie inside the record.
pub open spec fn ranges_inside(p: Seq<u8>, ranges: Seq<(usize, usize)>) -> bool {
    forall|i: int| 0 <= i < ranges.len() ==> (#[trigger] ranges[i]).0 <= ranges[i].1 <= p.len()
}

fn read_record_values(payload: &[u8], first: u64, types: &Vec<u64>) -> (r: Option<Vec<(usize, usize)>>)
    ensures
        r is Some <==> record_values(
            payload@,
            first as int,
            types@.map_values(|t: u64| t as int),
        ) is Some,
        r matches Some(ranges) ==> record_values(
            payload@,
            first as int,
            types@.map_values(|t: u64| t as int),
        ) == Some(slices(payload@, ranges@)) && ranges_inside(payload@, ranges@),
{
    let ghost model = types@.map_values(|t: u64| t as int);
    let ghost all = record_values(payload@, first as int, model);
    let mut ranges: Vec<(usize, usize)> = Vec::new();
    let mut pos = first;
    let mut i: usize = 0;
    assert(model.skip(0) == model);
    assert(slices(payload@, ranges@) == Seq::<Seq<u8>>::empty());
    assert(all matches Some(rest) ==> Seq::<Seq<u8>>::empty() + rest == rest);
    while i < types.len()
        invariant
            i <= types@.len(),
            model == types@.map_values(|t: u64| t as int),
            all == record_values(payload@, first as int, model),
            all == match record_values(payload@, pos as int, model.skip(i as int)) {
                Some(rest) => Some(slices(payload@, ranges@) + rest),
                None => None,
            },
            ranges_inside(payload@, ranges@),
        decreases types@.len() - i,
    {
        assert(model.skip(i as int)[0] == types@[i as int]);
        assert(model.skip(i as int).drop_first() == model.skip(i + 1));
        let len = sqlite_serial_type_len(types[i]);
        if pos > payload.len() as u64 {
            return None;
        }
        let from = pos as usize;
        let to = match advance(payload, from, len) {
            Some(to) => to,
            None => {
                return None;
            },
        };
        let ghost before = slices(payload@, ranges@);
        let ghost value = payload@.subrange(from as int, to as int);
        ranges.push((from, to));
        proof {
            assert(slices(payload@, ranges@) == before.push(value));
            if let Some(rest) = record_values(payload@, to as int, model.skip(i + 1)) {
                assert(before + (seq![value] + rest) == before.push(value) + rest);
            }
        }
        pos = to as u64;
        i = i + 1;
    }
    proof {
        let done = slices(payload@, ranges@);
        assert(done + Seq::<Seq<u8>>::empty() == done);
    }
    Some(ranges)
}

/// Where the values of a record lie.
pub fn read_sqlite_record(payload: &[u8]) -> (r: Option<Vec<(usize, usize)>>)
    ensures
        r is Some <==> record(payload@) is Some,
        r matches Some(ranges) ==> record(payload@) == Some(slices(payload@, ranges@)) && ranges_inside(
            payload@,
            ranges@,
        ),
{
    let (header_len, n) = read_sqlite_varint(payload, 0)?;
    let types = read_serial_types(payload, n, header_len)?;
    read_record_values(payload, header_len, &types)
}

fn value_string(payload: &[u8], ranges: &Vec<(usize, usize)>, i: usize) -> (r: String)
    requires
        ranges_inside(payload@, ranges@),
    ensures
        r@ == value_text(slices(payload@, ranges@), i as int),
{
    if i >= ranges.len() {
        return String::new();
    }
    let (from, to) = ranges[i];
    assert(ranges@[i as int].0 <= ranges@[i as int].1);
    lossy_text(vstd::slice::slice_subrange(payload, from, to))
}

/// The payload of the table cell at `cell`.
fn read_cell_payload(page: &[u8], cell: usize) -> (r: Option<&[u8]>)
    ensures
        r is Some <==> cell_payload(page@, cell as int) is Some,
        r matches Some(payload) ==> cell_payload(page@, cell as int) == Some(payload@),
{
    if cell > page.len() {
        return None;
    }
    let (len, n1) = read_sqlite_varint(page, cell)?;
    let (_row, n2) = read_sqlite_varint(page, cell + n1)?;
    if len >= SIGN_64 {
        return None;
    }
    let start = cell + n1 + n2;
    let end = match advance(page, start, len) {
        Some(end) => end,
        None => {
            return None;
        },
    };
    Some(vstd::slice::slice_subrange(page, start, end))
}

fn list_schema(page: &[u8], count: u16) -> (r: Option<Vec<ArchiveEntry>>)
    ensures
        listing(r) == nonempty(schema_entries(page@, 0, count as int)),
{
    let mut entries = no_entries();
    let mut i: usize = 0;
    while i < count as usize
        invariant
            i <= count,
            schema_entries(page@, 0, count as int) == joined(
                entries_of(entries@),
                schema_entries(page@, i as int, count as int),
            ),
        decreases count - i,
    {
        if !fits(page, 108 + 2 * i, 2) {
            return None;
        }
        let payload = match read_cell_payload(page, read_be16(page, 108 + 2 * i) as usize) {
            Some(payload) => payload,
            None => {
                return None;
            },
        };
        let ranges = match read_sqlite_record(payload) {
            Some(ranges) => ranges,
            None => {
                return None;
            },
        };
        let mut name = value_string(payload, &ranges, 0);
        name.append(": ");
        name.append(value_string(payload, &ranges, 1).as_str());
        let size: u64 = if ranges.len() > 4 {
            assert(ranges@[4].0 <= ranges@[4].1);
            (ranges[4].1 - ranges[4].0) as u64
        } else {
            0
        };
        push_entry(&mut entries, name, size);
        i = i + 1;
    }
    some_entries(entries)
}

/// SQLite: the objects of the schema.
pub fn list_sqlite_entries(data: &[u8]) -> (r: Option<Vec<ArchiveEntry>>)
    ensures
        listing(r) == sqlite_listing(data@),
{
    if !fits(data, 16, 2) {
        return None;
    }
    let size = read_sqlite_page_size(read_be16(data, 16))? as usize;
    if !fits(data, 0, size) || data[100] != 0x0D {
        return None;
    }
    let count = read_be16(data, 103);
    let page = vstd::slice::slice_subrange(data, 0, size);
    assert(page@ == data@.take(size as int));
    list_schema(page, count)
}

} // verus!
