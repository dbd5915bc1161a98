//! Directory trees of VPK archives and ISO images are listed as they were written.
use vstd::prelude::*;
use vstd::string::*;
use vstd::utf8::{decode_utf8, valid_utf8};
use crate::archive_listing::{cstr, iso_entries, iso_listing, vpk_entries, vpk_listing, vpk_name};
use crate::entries::{joined, prepend};
use crate::numeral_laws::{is_free_of_nul, nuls};
use crate::search::lemma_first_byte_found;
use crate::text::{before_last, lossy, rfind_char};
use crate::writing::{
    be32_bytes, holds_at, is_u16, is_u32, le16_bytes, le32_bytes, lemma_byte, lemma_holds_itself,
};

verus! {

broadcast use {crate::writing::group_reads, crate::entries::group_joined};

/// A text that a tree can hold: not empty, valid, and without a zero byte.
pub open spec fn is_tree_text(text: Seq<u8>) -> bool {
    text.len() > 0 && valid_utf8(text) && is_free_of_nul(text)
}

/// A file in a VPK tree.
pub ghost struct VpkFile {
    pub name: Seq<u8>,
    pub checksum: Seq<u8>,
    /// How many bytes stand in the tree.
    pub preload: int,
    pub place: Seq<u8>,
    /// How many bytes stand outside it.
    pub length: int,
    pub end: Seq<u8>,
}

/// The file can be written.
pub open spec fn is_vpk_file(f: VpkFile) -> bool {
    &&& is_tree_text(f.name)
    &&& f.checksum.len() == 4 && f.place.len() == 6 && f.end.len() == 2
    &&& is_u16(f.preload) && is_u32(f.length)
}

/// A file: its name with a zero byte, checksum, sizes and place.
#[verifier::opaque]
pub open spec fn vpk_file(f: VpkFile) -> Seq<u8> {
    f.name + seq![0u8] + f.checksum + le16_bytes(f.preload) + f.place + le32_bytes(f.length) + f.end
}

/// The files of a directory, and the empty name that ends them.
pub open spec fn vpk_files(files: Seq<VpkFile>) -> Seq<u8>
    decreases files.len(),
{
    if files.len() == 0 {
        seq![0u8]
    } else {
        vpk_file(files[0]) + vpk_files(files.skip(1))
    }
}

/// A directory in a VPK tree.
pub ghost struct VpkDirectory {
    pub path: Seq<u8>,
    pub files: Seq<VpkFile>,
}

/// The directory can be written.
pub open spec fn is_vpk_directory(d: VpkDirectory) -> bool {
    is_tree_text(d.path) && forall|i: int| 0 <= i < d.files.len() ==> is_vpk_file(#[trigger] d.files[i])
}

/// The directories for an extension, and the empty path that ends them.
pub open spec fn vpk_directories(directories: Seq<VpkDirectory>) -> Seq<u8>
    decreases directories.len(),
{
    if directories.len() == 0 {
        seq![0u8]
    } else {
        directories[0].path + seq![0u8] + vpk_files(directories[0].files) + vpk_directories(
            directories.skip(1),
        )
    }
}

/// The files with an extension.
pub ghost struct VpkExtension {
    pub extension: Seq<u8>,
    pub directories: Seq<VpkDirectory>,
}

/// The extension can be written.
pub open spec fn is_vpk_extension(x: VpkExtension) -> bool {
    is_tree_text(x.extension) && forall|i: int|
        0 <= i < x.directories.len() ==> is_vpk_directory(#[trigger] x.directories[i])
}

/// A tree: the extensions, and the empty one that ends them.
pub open spec fn vpk_tree(extensions: Seq<VpkExtension>) -> Seq<u8>
    decreases extensions.len(),
{
    if extensions.len() == 0 {
        seq![0u8]
    } else {
        extensions[0].extension + seq![0u8] + vpk_directories(extensions[0].directories) + vpk_tree(
            extensions.skip(1),
        )
    }
}

/// The full name of a file: a path that is a space stands for none.
pub open spec fn full_name(path: Seq<u8>, name: Seq<u8>, extension: Seq<u8>) -> Seq<char> {
    if decode_utf8(path) == " "@ {
        decode_utf8(name) + "."@ + decode_utf8(extension)
    } else {
        decode_utf8(path) + "/"@ + decode_utf8(name) + "."@ + decode_utf8(extension)
    }
}

/// The full names of the files of a directory, and what they have inside and outside the
/// tree together.
pub open spec fn file_list(files: Seq<VpkFile>, path: Seq<u8>, extension: Seq<u8>) -> Seq<(Seq<char>, int)>
    decreases files.len(),
{
    if files.len() == 0 {
        Seq::empty()
    } else {
        seq![(full_name(path, files[0].name, extension), files[0].length + files[0].preload)] + file_list(
            files.skip(1),
            path,
            extension,
        )
    }
}

/// The files of all directories for an extension.
pub open spec fn directory_list(directories: Seq<VpkDirectory>, extension: Seq<u8>) -> Seq<(Seq<char>, int)>
    decreases directories.len(),
{
    if directories.len() == 0 {
        Seq::empty()
    } else {
        file_list(directories[0].files, directories[0].path, extension) + directory_list(
            directories.skip(1),
            extension,
        )
    }
}

/// The files of a tree.
pub open spec fn tree_list(extensions: Seq<VpkExtension>) -> Seq<(Seq<char>, int)>
    decreases extensions.len(),
{
    if extensions.len() == 0 {
        Seq::empty()
    } else {
        directory_list(extensions[0].directories, extensions[0].extension) + tree_list(
            extensions.skip(1),
        )
    }
}

proof fn lemma_text(t: Seq<u8>, pos: int, text: Seq<u8>)
    requires
        is_free_of_nul(text) && valid_utf8(text),
        holds_at(t, pos, text),
        holds_at(t, pos + text.len(), seq![0u8]),
    ensures
        cstr(t, pos) == Some((decode_utf8(text), pos + text.len() + 1)),
        text.len() > 0 ==> decode_utf8(text).len() > 0,
{
    assert forall|j: int| pos <= j < pos + text.len() implies t[j] != 0 by {
        lemma_byte(t, pos, text, j - pos);
        assert(text[j - pos] != 0);
    }
    lemma_first_byte_found(t, pos, 0, pos + text.len());
}

/// An empty text is a zero byte alone.
proof fn lemma_no_text(t: Seq<u8>, pos: int)
    requires
        holds_at(t, pos, seq![0u8]),
    ensures
        cstr(t, pos) == Some((Seq::<char>::empty(), pos + 1)),
{
    let none = Seq::<u8>::empty();
    assert(t.subrange(pos, pos + none.len()) == none);
    lemma_text(t, pos, none);
    assert(decode_utf8(none) =~= Seq::<char>::empty());
}

proof fn lemma_joined_twice(
    a: Seq<(Seq<char>, int)>,
    b: Seq<(Seq<char>, int)>,
    rest: Option<Seq<(Seq<char>, int)>>,
)
    ensures
        joined(a, joined(b, rest)) == joined(a + b, rest),
{
    if let Some(list) = rest {
        assert(a + (b + list) == (a + b) + list);
    }
}

proof fn lemma_vpk_file(t: Seq<u8>, pos: int, f: VpkFile, path: Seq<char>, extension: Seq<char>)
    requires
        is_vpk_file(f),
        holds_at(t, pos, vpk_file(f)),
    ensures
        vpk_entries(t, pos, Some(extension), Some(path)) == prepend(
            (vpk_name(path, decode_utf8(f.name), extension), f.length + f.preload),
            vpk_entries(t, pos + vpk_file(f).len(), Some(extension), Some(path)),
        ),
{
    reveal(vpk_file);
    lemma_text(t, pos, f.name);
    let next = pos + f.name.len() + 1;
    assert(holds_at(t, next + 4, le16_bytes(f.preload)));
    assert(holds_at(t, next + 12, le32_bytes(f.length)));
}

proof fn lemma_vpk_files(t: Seq<u8>, pos: int, files: Seq<VpkFile>, path: Seq<u8>, extension: Seq<u8>)
    requires
        forall|i: int| 0 <= i < files.len() ==> is_vpk_file(#[trigger] files[i]),
        holds_at(t, pos, vpk_files(files)),
    ensures
        vpk_entries(t, pos, Some(decode_utf8(extension)), Some(decode_utf8(path))) == joined(
            file_list(files, path, extension),
            vpk_entries(t, pos + vpk_files(files).len(), Some(decode_utf8(extension)), None),
        ),
    decreases files.len(),
{
    if files.len() == 0 {
        lemma_no_text(t, pos);
    } else {
        let rest = files.skip(1);
        let next = pos + vpk_file(files[0]).len();
        assert forall|i: int| 0 <= i < rest.len() implies is_vpk_file(#[trigger] rest[i]) by {
            assert(rest[i] == files[i + 1]);
        }
        lemma_vpk_file(t, pos, files[0], decode_utf8(path), decode_utf8(extension));
        lemma_vpk_files(t, next, rest, path, extension);
        let one = (full_name(path, files[0].name, extension), files[0].length + files[0].preload);
        let behind = vpk_entries(t, pos + vpk_files(files).len(), Some(decode_utf8(extension)), None);
        lemma_joined_twice(seq![one], file_list(rest, path, extension), behind);
        assert(prepend(one, joined(file_list(rest, path, extension), behind)) == joined(
            seq![one],
            joined(file_list(rest, path, extension), behind),
        ));
    }
}

proof fn lemma_vpk_directories(t: Seq<u8>, pos: int, directories: Seq<VpkDirectory>, extension: Seq<u8>)
    requires
        forall|i: int| 0 <= i < directories.len() ==> is_vpk_directory(#[trigger] directories[i]),
        holds_at(t, pos, vpk_directories(directories)),
    ensures
        vpk_entries(t, pos, Some(decode_utf8(extension)), None) == joined(
            directory_list(directories, extension),
            vpk_entries(t, pos + vpk_directories(directories).len(), None, None),
        ),
    decreases directories.len(),
{
    if directories.len() == 0 {
        lemma_no_text(t, pos);
    } else {
        let d = directories[0];
        let rest = directories.skip(1);
        let files = pos + d.path.len() + 1;
        assert(is_vpk_directory(d));
        assert forall|i: int| 0 <= i < rest.len() implies is_vpk_directory(#[trigger] rest[i]) by {
            assert(rest[i] == directories[i + 1]);
        }
        lemma_text(t, pos, d.path);
        lemma_vpk_files(t, files, d.files, d.path, extension);
        lemma_vpk_directories(t, files + vpk_files(d.files).len(), rest, extension);
        lemma_joined_twice(
            file_list(d.files, d.path, extension),
            directory_list(rest, extension),
            vpk_entries(t, pos + vpk_directories(directories).len(), None, None),
        );
    }
}

proof fn lemma_vpk_tree(t: Seq<u8>, pos: int, extensions: Seq<VpkExtension>)
    requires
        forall|i: int| 0 <= i < extensions.len() ==> is_vpk_extension(#[trigger] extensions[i]),
        holds_at(t, pos, vpk_tree(extensions)),
    ensures
        vpk_entries(t, pos, None, None) == Some(tree_list(extensions)),
    decreases extensions.len(),
{
    if extensions.len() == 0 {
        lemma_no_text(t, pos);
    } else {
        let x = extensions[0];
        let rest = extensions.skip(1);
        let next = pos + x.extension.len() + 1;
        assert(is_vpk_extension(x));
        assert forall|i: int| 0 <= i < rest.len() implies is_vpk_extension(#[trigger] rest[i]) by {
            assert(rest[i] == extensions[i + 1]);
        }
        lemma_text(t, pos, x.extension);
        lemma_vpk_directories(t, next, x.directories, x.extension);
        lemma_vpk_tree(t, next + vpk_directories(x.directories).len(), rest);
    }
}

/// A VPK archive of either version is listed with the full names of its files and their
/// sizes, in the order of its tree.
pub proof fn law_vpk_lists_its_files(
    s: Seq<u8>,
    tag: Seq<u8>,
    version: int,
    more: Seq<u8>,
    extensions: Seq<VpkExtension>,
)
    requires
        tag.len() == 4,
        version == 1 && more.len() == 0 || version == 2 && more.len() == 16,
        forall|i: int| 0 <= i < extensions.len() ==> is_vpk_extension(#[trigger] extensions[i]),
        is_u32(vpk_tree(extensions).len() as int),
        tree_list(extensions).len() > 0,
        holds_at(
            s,
            0,
            tag + le32_bytes(version) + le32_bytes(vpk_tree(extensions).len() as int) + more + vpk_tree(
                extensions,
            ),
        ),
    ensures
        vpk_listing(s) == Some(tree_list(extensions)),
{
    let tree = vpk_tree(extensions);
    assert(holds_at(s, 4, le32_bytes(version)));
    assert(holds_at(s, 8, le32_bytes(tree.len() as int)));
    assert(holds_at(s, 12 + more.len() as int, tree));
    lemma_holds_itself(tree);
    lemma_vpk_tree(tree, 0, extensions);
}

/// A record of an ISO directory.
pub ghost struct IsoRecord {
    pub before: Seq<u8>,
    pub size: int,
    pub details: Seq<u8>,
    pub id: Seq<u8>,
    pub fill: Seq<u8>,
}

/// How long the record is.
pub open spec fn iso_record_len(r: IsoRecord) -> int {
    33 + r.id.len() as int + r.fill.len() as int
}

/// The record can be written.
pub open spec fn is_iso_record(r: IsoRecord) -> bool {
    &&& r.before.len() == 9
    &&& r.details.len() == 18
    &&& is_u32(r.size)
    &&& iso_record_len(r) < 256
}

/// A record: its length, place, size, details, and the name with its length.
#[verifier::opaque]
pub open spec fn iso_record(r: IsoRecord) -> Seq<u8> {
    seq![iso_record_len(r) as u8] + r.before + le32_bytes(r.size) + r.details + seq![r.id.len() as u8]
        + r.id + r.fill
}

/// The record is that of the directory itself or of the one above it.
pub open spec fn is_own_record(r: IsoRecord) -> bool {
    r.id == seq![0u8] || r.id == seq![1u8]
}

/// Records in a row.
pub open spec fn iso_row(records: Seq<IsoRecord>) -> Seq<u8>
    decreases records.len(),
{
    if records.len() == 0 {
        Seq::empty()
    } else {
        iso_record(records[0]) + iso_row(records.skip(1))
    }
}

/// A sector of a directory: whole records, and zero bytes up to its end.
pub open spec fn iso_sector(records: Seq<IsoRecord>) -> Seq<u8> {
    iso_row(records) + nuls((2048 - iso_row(records).len()) as nat)
}

/// A directory of some sectors.
pub open spec fn iso_directory(sectors: Seq<Seq<IsoRecord>>) -> Seq<u8>
    decreases sectors.len(),
{
    if sectors.len() == 0 {
        Seq::empty()
    } else {
        iso_sector(sectors[0]) + iso_directory(sectors.skip(1))
    }
}

/// The records can be written to one sector.
pub open spec fn is_iso_sector(records: Seq<IsoRecord>) -> bool {
    &&& iso_row(records).len() <= 2048
    &&& forall|i: int| 0 <= i < records.len() ==> is_iso_record(#[trigger] records[i])
}

/// The names, without the version behind the last semicolon, and the sizes of what the
/// records are of, but for the directory itself and the one above it.
pub open spec fn record_list(records: Seq<IsoRecord>) -> Seq<(Seq<char>, int)>
    decreases records.len(),
{
    if records.len() == 0 {
        Seq::empty()
    } else if is_own_record(records[0]) {
        record_list(records.skip(1))
    } else {
        seq![(before_last(lossy(records[0].id), ';'), records[0].size)] + record_list(records.skip(1))
    }
}

/// The list of all sectors.
pub open spec fn sector_list(sectors: Seq<Seq<IsoRecord>>) -> Seq<(Seq<char>, int)>
    decreases sectors.len(),
{
    if sectors.len() == 0 {
        Seq::empty()
    } else {
        record_list(sectors[0]) + sector_list(sectors.skip(1))
    }
}

proof fn lemma_iso_record(d: Seq<u8>, pos: int, r: IsoRecord)
    requires
        is_iso_record(r),
        holds_at(d, pos, iso_record(r)),
    ensures
        iso_record(r).len() == iso_record_len(r),
        iso_entries(d, pos) == if is_own_record(r) {
            iso_entries(d, pos + iso_record(r).len())
        } else {
            prepend(
                (before_last(lossy(r.id), ';'), r.size),
                iso_entries(d, pos + iso_record(r).len()),
            )
        },
{
    reveal(iso_record);
    assert(holds_at(d, pos, seq![iso_record_len(r) as u8]));
    assert(holds_at(d, pos + 10, le32_bytes(r.size)));
    assert(holds_at(d, pos + 32, seq![r.id.len() as u8]));
    assert(holds_at(d, pos + 33, r.id));
    if r.id.len() == 1 {
        assert(r.id =~= seq![r.id[0]]);
        assert(seq![0u8][0] == 0 && seq![1u8][0] == 1);
    } else {
        assert(seq![0u8].len() == 1 && seq![1u8].len() == 1);
    }
}

proof fn lemma_iso_row(d: Seq<u8>, pos: int, records: Seq<IsoRecord>)
    requires
        forall|i: int| 0 <= i < records.len() ==> is_iso_record(#[trigger] records[i]),
        holds_at(d, pos, iso_row(records)),
    ensures
        iso_entries(d, pos) == joined(record_list(records), iso_entries(d, pos + iso_row(records).len())),
    decreases records.len(),
{
    if records.len() > 0 {
        let rest = records.skip(1);
        let next = pos + iso_record(records[0]).len();
        assert forall|i: int| 0 <= i < rest.len() implies is_iso_record(#[trigger] rest[i]) by {
            assert(rest[i] == records[i + 1]);
        }
        lemma_iso_record(d, pos, records[0]);
        lemma_iso_row(d, next, rest);
        let behind = iso_entries(d, pos + iso_row(records).len());
        if !is_own_record(records[0]) {
            let one = (before_last(lossy(records[0].id), ';'), records[0].size);
            lemma_joined_twice(seq![one], record_list(rest), behind);
            assert(prepend(one, joined(record_list(rest), behind)) == joined(
                seq![one],
                joined(record_list(rest), behind),
            ));
        }
    }
}

proof fn lemma_iso_sectors(d: Seq<u8>, pos: int, sectors: Seq<Seq<IsoRecord>>)
    requires
        forall|i: int| 0 <= i < sectors.len() ==> is_iso_sector(#[trigger] sectors[i]),
        pos % 2048 == 0,
        holds_at(d, pos, iso_directory(sectors)),
        pos + iso_directory(sectors).len() == d.len(),
    ensures
        iso_entries(d, pos) == Some(sector_list(sectors)),
    decreases sectors.len(),
{
    if sectors.len() > 0 {
        let rest = sectors.skip(1);
        let row = iso_row(sectors[0]);
        let stop = pos + row.len();
        assert(is_iso_sector(sectors[0]));
        assert forall|i: int| 0 <= i < rest.len() implies is_iso_sector(#[trigger] rest[i]) by {
            assert(rest[i] == sectors[i + 1]);
        }
        lemma_iso_row(d, pos, sectors[0]);
        lemma_iso_sectors(d, pos + 2048, rest);
        if row.len() < 2048 {
            assert(holds_at(d, stop, nuls((2048 - row.len()) as nat)));
            lemma_byte(d, stop, nuls((2048 - row.len()) as nat), 0);
            assert((stop / 2048 + 1) * 2048 == pos + 2048);
            if rest.len() == 0 {
                assert(iso_directory(rest) == Seq::<u8>::empty());
            }
        }
        assert(iso_entries(d, stop) == Some(sector_list(rest)));
    }
}

/// An ISO image is listed with the names and the sizes of what its root directory holds, but
/// for that directory itself.
pub proof fn law_iso_lists_its_root(
    s: Seq<u8>,
    system: Seq<u8>,
    before: Seq<u8>,
    block: int,
    between: Seq<u8>,
    behind: Seq<u8>,
    sectors: Seq<Seq<IsoRecord>>,
)
    requires
        system.len() == 32_768 && before.len() == 152 && between.len() == 4 && behind.len() == 1878,
        is_u32(block),
        forall|i: int| 0 <= i < sectors.len() ==> is_iso_sector(#[trigger] sectors[i]),
        is_u32(iso_directory(sectors).len() as int),
        sector_list(sectors).len() > 0,
        holds_at(
            s,
            0,
            system + seq![1u8] + be32_bytes(0x4344_3030) + seq![0x31u8] + before + le32_bytes(block)
                + between + le32_bytes(iso_directory(sectors).len() as int) + behind,
        ),
        holds_at(s, 2048 * block, iso_directory(sectors)),
    ensures
        iso_listing(s) == Some(sector_list(sectors)),
{
    let d = iso_directory(sectors);
    assert(holds_at(s, 32_768, seq![1u8]));
    assert(holds_at(s, 32_769, be32_bytes(0x4344_3030)));
    assert(holds_at(s, 32_773, seq![0x31u8]));
    assert(holds_at(s, 32_926, le32_bytes(block)));
    assert(holds_at(s, 32_934, le32_bytes(d.len() as int)));
    lemma_holds_itself(d);
    lemma_iso_sectors(d, 0, sectors);
}

/// A name loses what stands behind its last semicolon, and nothing if it has none.
pub proof fn law_version_is_cut_off(name: Seq<char>, version: Seq<char>)
    requires
        forall|i: int| 0 <= i < version.len() ==> #[trigger] version[i] != ';',
    ensures
        before_last(name + seq![';'] + version, ';') == name,
        before_last(version, ';') == version,
{
    let all = name + seq![';'] + version;
    lemma_rfind(all, name.len() as int, all.len() as int);
    assert(all.take(name.len() as int) == name);
    lemma_rfind_none(version, version.len() as int);
}

proof fn lemma_rfind(t: Seq<char>, at: int, n: int)
    requires
        0 <= at < n <= t.len(),
        t[at] == ';',
        forall|i: int| at < i < n ==> #[trigger] t[i] != ';',
    ensures
        rfind_char(t, ';', n) == Some(at),
    decreases n,
{
    if n - 1 > at {
        lemma_rfind(t, at, n - 1);
    }
}

proof fn lemma_rfind_none(t: Seq<char>, n: int)
    requires
        0 <= n <= t.len(),
        forall|i: int| 0 <= i < n ==> #[trigger] t[i] != ';',
    ensures
        rfind_char(t, ';', n) is None,
    decreases n,
{
    if n > 0 {
        lemma_rfind_none(t, n - 1);
    }
}

} // verus!
