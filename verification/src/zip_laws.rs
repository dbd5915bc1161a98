//! What is written as a ZIP archive is found and listed as it was written.
use vstd::prelude::*;
use crate::archive_listing::zip_entries;
use crate::archives::{next_pk, zip_central_end, zip_extent, zip_locals_end};
use crate::entries::{nonempty, prepend};
use crate::search::occurs_at;
use crate::text::lossy;
use crate::writing::{
    be32_bytes, holds_at, is_u16, is_u32, le16_bytes, le32_bytes, lemma_byte, lemma_holds_itself,
    lemma_whole,
};

verus! {

broadcast use crate::writing::group_reads;

/// A file in a ZIP archive, as its local entry has it.
pub ghost struct ZipFile {
    pub version: int,
    pub flags: int,
    pub method: int,
    pub time: int,
    pub date: int,
    pub checksum: int,
    /// The size that is written down for the data.
    pub compressed_size: int,
    /// The size of the file itself.
    pub size: int,
    pub name: Seq<u8>,
    pub extra: Seq<u8>,
    /// The data, with what may follow to tell their size.
    pub data: Seq<u8>,
}

/// The size of the data is only told behind them.
pub open spec fn is_streamed(file: ZipFile) -> bool {
    (file.flags / 8) % 2 == 1
}

/// `PK` stands nowhere in these bytes.
pub open spec fn is_free_of_pk(data: Seq<u8>) -> bool {
    forall|i: int, j: int|
        0 <= i && j == i + 1 && j < data.len() ==> !(#[trigger] data[i] == 0x50 && #[trigger] data[j]
            == 0x4B)
}

/// The fields of the file fit in where they are written, and the data are of the
/// size that is written down for them, or free of what would seem to end them.
pub open spec fn is_zip_file(file: ZipFile) -> bool {
    &&& is_u16(file.version) && is_u16(file.flags) && is_u16(file.method)
    &&& is_u16(file.time) && is_u16(file.date) && is_u32(file.checksum)
    &&& is_u32(file.compressed_size) && is_u32(file.size)
    &&& is_u16(file.name.len() as int) && is_u16(file.extra.len() as int)
    &&& if is_streamed(file) {
        is_free_of_pk(file.extra + file.data)
    } else {
        file.compressed_size == file.data.len()
    }
}

/// The header of a local entry, without the name.
pub open spec fn zip_local_header(file: ZipFile) -> Seq<u8> {
    be32_bytes(0x504B_0304) + le16_bytes(file.version) + le16_bytes(file.flags) + le16_bytes(
        file.method,
    ) + le16_bytes(file.time) + le16_bytes(file.date) + le32_bytes(file.checksum) + le32_bytes(
        file.compressed_size,
    ) + le32_bytes(file.size) + le16_bytes(file.name.len() as int) + le16_bytes(
        file.extra.len() as int,
    )
}

/// A local entry: header, name, extra field and data.
#[verifier::opaque]
pub open spec fn zip_local(file: ZipFile) -> Seq<u8> {
    zip_local_header(file) + file.name + file.extra + file.data
}

/// The local entries of these files.
pub open spec fn zip_locals(files: Seq<ZipFile>) -> Seq<u8>
    decreases files.len(),
{
    if files.len() == 0 {
        Seq::empty()
    } else {
        zip_local(files[0]) + zip_locals(files.skip(1))
    }
}

/// A header of the central directory: the bytes between its signature and the
/// lengths, and between the lengths and the name, are left open.
pub ghost struct ZipRecord {
    pub before: Seq<u8>,
    pub after: Seq<u8>,
    pub name: Seq<u8>,
    pub extra: Seq<u8>,
    pub comment: Seq<u8>,
}

/// The parts of the record are as long as they have to be or can be.
pub open spec fn is_zip_record(record: ZipRecord) -> bool {
    &&& record.before.len() == 24
    &&& record.after.len() == 12
    &&& is_u16(record.name.len() as int)
    &&& is_u16(record.extra.len() as int)
    &&& is_u16(record.comment.len() as int)
}

/// A header of the central directory, with its name, extra field and comment.
#[verifier::opaque]
pub open spec fn zip_record(record: ZipRecord) -> Seq<u8> {
    be32_bytes(0x504B_0102) + record.before + le16_bytes(record.name.len() as int) + le16_bytes(
        record.extra.len() as int,
    ) + le16_bytes(record.comment.len() as int) + record.after + record.name + record.extra
        + record.comment
}

/// A central directory.
pub open spec fn zip_records(records: Seq<ZipRecord>) -> Seq<u8>
    decreases records.len(),
{
    if records.len() == 0 {
        Seq::empty()
    } else {
        zip_record(records[0]) + zip_records(records.skip(1))
    }
}

/// The end record: signature, sixteen bytes of counts and offsets, and the comment
/// with its length.
#[verifier::opaque]
pub open spec fn zip_end(counts: Seq<u8>, comment: Seq<u8>) -> Seq<u8> {
    be32_bytes(0x504B_0506) + counts + le16_bytes(comment.len() as int) + comment
}

/// A ZIP archive: local entries, the central directory and the end record.
pub open spec fn zip_archive(
    files: Seq<ZipFile>,
    records: Seq<ZipRecord>,
    counts: Seq<u8>,
    comment: Seq<u8>,
) -> Seq<u8> {
    zip_locals(files) + zip_records(records) + zip_end(counts, comment)
}

/// The parts of the archive can be written.
pub open spec fn is_zip_archive(
    files: Seq<ZipFile>,
    records: Seq<ZipRecord>,
    counts: Seq<u8>,
    comment: Seq<u8>,
) -> bool {
    &&& forall|i: int| 0 <= i < files.len() ==> is_zip_file(#[trigger] files[i])
    &&& forall|i: int| 0 <= i < records.len() ==> is_zip_record(#[trigger] records[i])
    &&& counts.len() == 16
    &&& is_u16(comment.len() as int)
}

/// The names and the sizes of the files themselves.
pub open spec fn zip_contents(files: Seq<ZipFile>) -> Seq<(Seq<char>, int)> {
    files.map_values(|file: ZipFile| (lossy(file.name), file.size))
}

proof fn lemma_record(s: Seq<u8>, pos: int, record: ZipRecord)
    requires
        is_zip_record(record),
        holds_at(s, pos, zip_record(record)),
    ensures
        zip_central_end(s, pos) == zip_central_end(s, pos + zip_record(record).len()),
        zip_record(record).len() >= 46,
        holds_at(s, pos, be32_bytes(0x504B_0102)),
{
    reveal(zip_record);
}

proof fn lemma_records(s: Seq<u8>, pos: int, records: Seq<ZipRecord>, counts: Seq<u8>, comment: Seq<u8>)
    requires
        forall|i: int| 0 <= i < records.len() ==> is_zip_record(#[trigger] records[i]),
        counts.len() == 16,
        is_u16(comment.len() as int),
        holds_at(s, pos, zip_records(records)),
        holds_at(s, pos + zip_records(records).len(), zip_end(counts, comment)),
    ensures
        zip_central_end(s, pos) == Some(pos + zip_records(records).len()),
    decreases records.len(),
{
    if records.len() == 0 {
        reveal(zip_end);
    }
    if records.len() > 0 {
        let rest = records.skip(1);
        assert forall|i: int| 0 <= i < rest.len() implies is_zip_record(#[trigger] rest[i]) by {
            assert(rest[i] == records[i + 1]);
        }
        lemma_record(s, pos, records[0]);
        lemma_records(s, pos + zip_record(records[0]).len(), rest, counts, comment);
    }
}

/// Where `PK` first stands behind bytes that are free of it.
proof fn lemma_next_pk(s: Seq<u8>, from: int, data: Seq<u8>, at: int)
    requires
        0 <= from <= at,
        at == from + data.len(),
        is_free_of_pk(data),
        holds_at(s, from, data),
        at + 2 <= s.len(),
        s[at] == 0x50,
        s[at + 1] == 0x4B,
    ensures
        next_pk(s, from) == Some(at),
    decreases data.len(),
{
    let needle = seq![0x50u8, 0x4Bu8];
    if data.len() == 0 {
        assert(s.subrange(at, at + 2) == needle);
    } else {
        lemma_byte(s, from, data, 0);
        if occurs_at(s, needle, from) {
            assert(s.subrange(from, from + 2)[0] == 0x50);
            assert(s.subrange(from, from + 2)[1] == 0x4B);
            if data.len() > 1 {
                lemma_byte(s, from, data, 1);
            }
        }
        let rest = data.skip(1);
        assert(s.subrange(from + 1, from + 1 + rest.len()) == rest) by {
            assert(rest == s.subrange(from, from + data.len()).skip(1));
        }
        lemma_next_pk(s, from + 1, rest, at);
    }
}

/// A local entry is stepped over, and listed with its name and the size of the file.
proof fn lemma_local(s: Seq<u8>, pos: int, file: ZipFile)
    requires
        is_zip_file(file),
        holds_at(s, pos, zip_local(file)),
        ({
            let next = pos + zip_local(file).len();
            next + 4 <= s.len() && s[next] == 0x50 && s[next + 1] == 0x4B
        }),
    ensures
        zip_locals_end(s, pos) == zip_locals_end(s, pos + zip_local(file).len()),
        zip_entries(s, pos) == prepend(
            (lossy(file.name), file.size),
            zip_entries(s, pos + zip_local(file).len()),
        ),
        holds_at(s, pos, be32_bytes(0x504B_0304)),
{
    reveal(zip_local);
    let header_end = pos + 30 + file.name.len();
    assert(zip_local_header(file).len() == 30);
    assert(s.subrange(pos + 30, pos + 30 + file.name.len()) == file.name);
    if is_streamed(file) {
        let tail = file.extra + file.data;
        lemma_whole(s, header_end, file.extra, file.data);
        assert(is_free_of_pk(file.data)) by {
            assert forall|i: int, j: int| 0 <= i && j == i + 1 && j < file.data.len() implies !(
            #[trigger] file.data[i] == 0x50 && #[trigger] file.data[j] == 0x4B) by {
                assert(tail[file.extra.len() + i] == file.data[i]);
                assert(tail[file.extra.len() + j] == file.data[j]);
            }
        }
        lemma_next_pk(
            s,
            header_end + file.extra.len(),
            file.data,
            pos + zip_local(file).len(),
        );
    }
}

/// What follows the local entries begins like the next header.
proof fn lemma_locals(s: Seq<u8>, pos: int, files: Seq<ZipFile>)
    requires
        forall|i: int| 0 <= i < files.len() ==> is_zip_file(#[trigger] files[i]),
        holds_at(s, pos, zip_locals(files)),
        ({
            let next = pos + zip_locals(files).len();
            &&& next + 4 <= s.len()
            &&& s[next] == 0x50 && s[next + 1] == 0x4B
            &&& s[next + 2] != 3
        }),
    ensures
        zip_locals_end(s, pos) == Some(pos + zip_locals(files).len()),
        zip_entries(s, pos) == Some(zip_contents(files)),
        pos + 4 <= s.len(),
        s[pos] == 0x50 && s[pos + 1] == 0x4B,
    decreases files.len(),
{
    if files.len() == 0 {
        assert(zip_contents(files) == Seq::<(Seq<char>, int)>::empty());
    } else {
        let rest = files.skip(1);
        let next = pos + zip_local(files[0]).len();
        assert forall|i: int| 0 <= i < rest.len() implies is_zip_file(#[trigger] rest[i]) by {
            assert(rest[i] == files[i + 1]);
        }
        lemma_locals(s, next, rest);
        lemma_local(s, pos, files[0]);
        assert(zip_contents(files) == seq![(lossy(files[0].name), files[0].size)] + zip_contents(rest));
        lemma_signature(s, pos, 0x504B_0304);
    }
}

/// What stands behind the local entries does not look like another one.
proof fn lemma_behind_locals(
    s: Seq<u8>,
    pos: int,
    records: Seq<ZipRecord>,
    counts: Seq<u8>,
    comment: Seq<u8>,
)
    requires
        forall|i: int| 0 <= i < records.len() ==> is_zip_record(#[trigger] records[i]),
        holds_at(s, pos, zip_records(records)),
        holds_at(s, pos + zip_records(records).len(), zip_end(counts, comment)),
    ensures
        pos + 4 <= s.len(),
        s[pos] == 0x50 && s[pos + 1] == 0x4B,
        s[pos + 2] != 3,
{
    if records.len() == 0 {
        reveal(zip_end);
        lemma_signature(s, pos, 0x504B_0506);
    } else {
        lemma_record(s, pos, records[0]);
        lemma_signature(s, pos, 0x504B_0102);
    }
}

proof fn lemma_signature(s: Seq<u8>, pos: int, n: int)
    requires
        holds_at(s, pos, be32_bytes(n)),
    ensures
        s[pos] == (n / 0x100_0000) % 0x100,
        s[pos + 1] == (n / 0x1_0000) % 0x100,
        s[pos + 2] == (n / 0x100) % 0x100,
        s[pos + 3] == n % 0x100,
{
    lemma_byte(s, pos, be32_bytes(n), 0);
    lemma_byte(s, pos, be32_bytes(n), 1);
    lemma_byte(s, pos, be32_bytes(n), 2);
    lemma_byte(s, pos, be32_bytes(n), 3);
}

/// A ZIP archive ends with the comment of its end record, however long the names,
/// extra fields and comments in it are, wherever it stands and whatever follows.
pub proof fn law_zip_ends_with_its_end_record(
    s: Seq<u8>,
    start: int,
    files: Seq<ZipFile>,
    records: Seq<ZipRecord>,
    counts: Seq<u8>,
    comment: Seq<u8>,
)
    requires
        is_zip_archive(files, records, counts, comment),
        holds_at(s, start, zip_archive(files, records, counts, comment)),
    ensures
        zip_extent(s, start) == Some(
            (start + zip_archive(files, records, counts, comment).len() - 1, 95int),
        ),
{
    let central = start + zip_locals(files).len();
    lemma_behind_locals(s, central, records, counts, comment);
    lemma_locals(s, start, files);
    lemma_records(s, central, records, counts, comment);
    reveal(zip_end);
}

/// A ZIP archive is listed with the names of its files and the sizes that the files
/// themselves have, whatever their data take up, in the order in which they stand.
pub proof fn law_zip_lists_its_files(
    files: Seq<ZipFile>,
    records: Seq<ZipRecord>,
    counts: Seq<u8>,
    comment: Seq<u8>,
)
    requires
        is_zip_archive(files, records, counts, comment),
        files.len() > 0,
    ensures
        nonempty(zip_entries(zip_archive(files, records, counts, comment), 0)) == Some(
            zip_contents(files),
        ),
{
    let s = zip_archive(files, records, counts, comment);
    lemma_holds_itself(s);
    lemma_behind_locals(s, zip_locals(files).len() as int, records, counts, comment);
    lemma_locals(s, 0, files);
}

} // verus!
