//! What is written as an archive is found and listed as it was written.
use vstd::prelude::*;
use vstd::utf8::{encode_utf8, is_ascii_chars_encode_utf8};
use crate::archive_listing::{ar_listing, ar_entries, newc_entries, odc_entries, rar_entries, tar_entries};
use crate::archives::{
    ar_extent, ar_extent_from, ar_member_end, ar_size, newc_extent, newc_extent_from, newc_sizes,
    odc_extent, odc_sizes, rar_block_end, rar_extent, rar_extent_from, tar_extent, tar_extent_from,
    tar_size, word_end, zeros,
};
use crate::entries::prepend;
use crate::names::{ar_name, field_text, tar_name};
use crate::numeral_laws::{
    is_free_of_nul, is_numeral, law_field_gives_the_name_back, law_field_gives_the_number_back,
    law_padded_field_gives_the_number_back, lemma_numeral, nuls, numeral, spaces,
};
use crate::text::{before_first, lossy, trim};
use crate::writing::{
    be16_bytes, be32_bytes, be64_bytes, holds_at, is_u16, is_u32, le16_bytes, le32_bytes,
    lemma_byte,
};

verus! {

broadcast use crate::writing::group_reads;

/// A block of a RAR archive.
pub ghost struct RarBlock {
    pub checksum: Seq<u8>,
    pub kind: u8,
    /// The flags but for the one that announces data.
    pub flags: int,
    /// Of a file: the size that it has unpacked.
    pub size: int,
    /// Of a file: eleven bytes between the size and the length of the name.
    pub middle: Seq<u8>,
    /// Of a file: its attributes.
    pub attributes: Seq<u8>,
    /// Of a large file: the upper halves of its sizes.
    pub upper: Seq<u8>,
    /// Of a file: its name.
    pub name: Seq<u8>,
    /// What else the header holds.
    pub more: Seq<u8>,
    /// Whether data follow the header.
    pub has_data: bool,
    pub data: Seq<u8>,
}

/// The block is that of a file.
pub open spec fn is_file_block(b: RarBlock) -> bool {
    b.kind == 0x74
}

/// The sizes of the file have upper halves.
pub open spec fn is_large(b: RarBlock) -> bool {
    (b.flags / 0x100) % 2 == 1
}

/// The header of a block behind what all blocks have.
pub open spec fn rar_details(b: RarBlock) -> Seq<u8> {
    if is_file_block(b) {
        le32_bytes(b.size) + b.middle + le16_bytes(b.name.len() as int) + b.attributes + b.upper + b.name
            + b.more
    } else {
        b.more
    }
}

/// How long the header of a block is.
pub open spec fn rar_header_len(b: RarBlock) -> int {
    7 + (if b.has_data {
        4int
    } else {
        0int
    }) + rar_details(b).len()
}

/// The block can be written. The block of a file has data, if only none of them.
pub open spec fn is_rar_block(b: RarBlock) -> bool {
    &&& b.checksum.len() == 2
    &&& 0 <= b.flags < 0x8000
    &&& is_u16(rar_header_len(b))
    &&& is_u32(b.data.len() as int)
    &&& !b.has_data ==> b.data.len() == 0
    &&& is_file_block(b) ==> {
        &&& b.has_data
        &&& is_u32(b.size)
        &&& b.middle.len() == 11
        &&& b.attributes.len() == 4
        &&& b.upper.len() == if is_large(b) {
            8int
        } else {
            0int
        }
    }
}

/// A block: what all blocks have, the size of the data if there are any, details, data.
#[verifier::opaque]
pub open spec fn rar_block(b: RarBlock) -> Seq<u8> {
    if b.has_data {
        b.checksum + seq![b.kind] + le16_bytes(b.flags + 0x8000) + le16_bytes(rar_header_len(b))
            + le32_bytes(b.data.len() as int) + rar_details(b) + b.data
    } else {
        b.checksum + seq![b.kind] + le16_bytes(b.flags) + le16_bytes(rar_header_len(b)) + rar_details(b)
    }
}

/// RAR blocks in a row.
pub open spec fn rar_row(parts: Seq<RarBlock>) -> Seq<u8>
    decreases parts.len(),
{
    if parts.len() == 0 {
        Seq::empty()
    } else {
        rar_block(parts[0]) + rar_row(parts.skip(1))
    }
}

/// All of them can be written.
pub open spec fn are_rar_blocks(parts: Seq<RarBlock>) -> bool {
    forall|i: int| 0 <= i < parts.len() ==> is_rar_block(#[trigger] parts[i])
}

proof fn lemma_are_rar_blocks_rest(parts: Seq<RarBlock>)
    requires
        are_rar_blocks(parts),
        parts.len() > 0,
    ensures
        is_rar_block(parts[0]),
        are_rar_blocks(parts.skip(1)),
{
    assert forall|i: int| 0 <= i < parts.skip(1).len() implies is_rar_block(#[trigger] parts.skip(1)[i]) by {
        assert(parts.skip(1)[i] == parts[i + 1]);
    }
}

/// The names of the files, up to a zero character, and the sizes that they have
/// unpacked.
pub open spec fn rar_list(parts: Seq<RarBlock>) -> Seq<(Seq<char>, int)>
    decreases parts.len(),
{
    if parts.len() == 0 {
        Seq::empty()
    } else if is_file_block(parts[0]) {
        seq![(before_first(lossy(parts[0].name), '\0'), parts[0].size)] + rar_list(parts.skip(1))
    } else {
        rar_list(parts.skip(1))
    }
}

proof fn lemma_rar_block(s: Seq<u8>, first: int, pos: int, b: RarBlock)
    requires
        is_rar_block(b),
        holds_at(s, pos, rar_block(b)),
    ensures
        rar_block_end(s, pos) == Some(pos + rar_block(b).len()),
        rar_block(b).len() >= 7,
        s[pos + 2] == b.kind,
        rar_extent_from(s, first, pos) == if b.kind == 0x7B {
            Some((pos + rar_block(b).len() - 1, 90int))
        } else {
            rar_extent_from(s, first, pos + rar_block(b).len())
        },
{
    reveal(rar_block);
    assert(holds_at(s, pos + 2, seq![b.kind]));
    assert(holds_at(s, pos + 5, le16_bytes(rar_header_len(b))));
    if b.has_data {
        assert(holds_at(s, pos + 3, le16_bytes(b.flags + 0x8000)));
        assert(holds_at(s, pos + 7, le32_bytes(b.data.len() as int)));
    } else {
        assert(holds_at(s, pos + 3, le16_bytes(b.flags)));
    }
}

proof fn lemma_rar_entry(s: Seq<u8>, pos: int, b: RarBlock)
    requires
        is_rar_block(b),
        holds_at(s, pos, rar_block(b)),
    ensures
        ({
            let rest = if b.kind == 0x7B {
                Some(Seq::empty())
            } else {
                rar_entries(s, pos + rar_block(b).len())
            };
            rar_entries(s, pos) == if is_file_block(b) {
                prepend((before_first(lossy(b.name), '\0'), b.size), rest)
            } else {
                rest
            }
        }),
{
    lemma_rar_block(s, pos, pos, b);
    reveal(rar_block);
    assert(holds_at(s, pos + 5, le16_bytes(rar_header_len(b))));
    if b.has_data {
        assert(holds_at(s, pos + 3, le16_bytes(b.flags + 0x8000)));
        assert(holds_at(s, pos + 11, rar_details(b)));
        if is_file_block(b) {
            assert(holds_at(s, pos + 11, le32_bytes(b.size)));
            assert(holds_at(s, pos + 26, le16_bytes(b.name.len() as int)));
            assert(((b.flags + 0x8000) / 0x100) % 2 == (b.flags / 0x100) % 2);
            assert(holds_at(s, pos + 32 + b.upper.len(), b.name));
        }
    } else {
        assert(holds_at(s, pos + 3, le16_bytes(b.flags)));
    }
}

proof fn lemma_rar_row(s: Seq<u8>, first: int, pos: int, parts: Seq<RarBlock>)
    requires
        are_rar_blocks(parts),
        parts.len() > 0,
        forall|i: int| 0 <= i < parts.len() - 1 ==> (#[trigger] parts[i]).kind != 0x7B,
        parts.last().kind == 0x7B,
        holds_at(s, pos, rar_row(parts)),
    ensures
        rar_extent_from(s, first, pos) == Some((pos + rar_row(parts).len() - 1, 90int)),
        rar_entries(s, pos) == Some(rar_list(parts)),
    decreases parts.len(),
{
    lemma_are_rar_blocks_rest(parts);
    lemma_rar_block(s, first, pos, parts[0]);
    lemma_rar_entry(s, pos, parts[0]);
    let rest = parts.skip(1);
    if parts.len() == 1 {
        assert(rest == Seq::<RarBlock>::empty());
        assert(rar_row(rest) == Seq::<u8>::empty());
        assert(rar_list(rest) == Seq::<(Seq<char>, int)>::empty());
    } else {
        assert forall|i: int| 0 <= i < rest.len() - 1 implies (#[trigger] rest[i]).kind != 0x7B by {
            assert(rest[i] == parts[i + 1]);
        }
        assert(rest.last() == parts.last());
        lemma_rar_row(s, first, pos + rar_block(parts[0]).len(), rest);
    }
}

/// A RAR archive ends with its end block, and is listed with the names and the unpacked
/// sizes of its files, whatever other blocks stand between them.
pub proof fn law_rar_is_as_written(s: Seq<u8>, start: int, marker: Seq<u8>, parts: Seq<RarBlock>)
    requires
        marker.len() == 7,
        are_rar_blocks(parts),
        parts.len() > 0,
        forall|i: int| 0 <= i < parts.len() - 1 ==> (#[trigger] parts[i]).kind != 0x7B,
        parts.last().kind == 0x7B,
        holds_at(s, start, marker + rar_row(parts)),
    ensures
        rar_extent(s, start) == Some((start + 7 + rar_row(parts).len() - 1, 90int)),
        start == 0 ==> rar_entries(s, 7) == Some(rar_list(parts)),
{
    lemma_rar_row(s, start + 7, start + 7, parts);
}

/// A member of an `ar` archive.
pub ghost struct ArMember {
    /// The name with what fills it up.
    pub name: Seq<u8>,
    /// Date, owner, group and mode.
    pub details: Seq<u8>,
    /// How many digits the size has.
    pub digits: nat,
    pub data: Seq<u8>,
}

/// The member can be written.
pub open spec fn is_ar_member(m: ArMember) -> bool {
    &&& m.name.len() == 16
    &&& is_free_of_nul(m.name)
    &&& m.details.len() == 32
    &&& m.digits <= 10
    &&& is_numeral(m.data.len() as int, 10, m.digits)
}

/// What fills the data up to an even length.
pub open spec fn ar_fill(len: int) -> Seq<u8> {
    if len % 2 == 1 {
        seq![0x0Au8]
    } else {
        Seq::empty()
    }
}

/// The field with the size: digits, then spaces.
pub open spec fn ar_size_field(m: ArMember) -> Seq<u8> {
    encode_utf8(
        spaces(0) + numeral(m.data.len() as int, 10, m.digits, false) + spaces((10 - m.digits) as nat),
    )
}

/// A member: a header of sixty bytes and the data.
#[verifier::opaque]
pub open spec fn ar_member(m: ArMember) -> Seq<u8> {
    m.name + m.details + ar_size_field(m) + le16_bytes(0x0A60) + m.data + ar_fill(m.data.len() as int)
}

/// Members of an `ar` archive in a row.
pub open spec fn ar_row(parts: Seq<ArMember>) -> Seq<u8>
    decreases parts.len(),
{
    if parts.len() == 0 {
        Seq::empty()
    } else {
        ar_member(parts[0]) + ar_row(parts.skip(1))
    }
}

/// All of them can be written.
pub open spec fn are_ar_members(parts: Seq<ArMember>) -> bool {
    forall|i: int| 0 <= i < parts.len() ==> is_ar_member(#[trigger] parts[i])
}

proof fn lemma_are_ar_members_rest(parts: Seq<ArMember>)
    requires
        are_ar_members(parts),
        parts.len() > 0,
    ensures
        is_ar_member(parts[0]),
        are_ar_members(parts.skip(1)),
{
    assert forall|i: int| 0 <= i < parts.skip(1).len() implies is_ar_member(#[trigger] parts.skip(1)[i]) by {
        assert(parts.skip(1)[i] == parts[i + 1]);
    }
}

/// The names and the sizes of the members.
pub open spec fn ar_list(parts: Seq<ArMember>) -> Seq<(Seq<char>, int)> {
    parts.map_values(|m: ArMember| (trim(lossy(m.name)), m.data.len() as int))
}

proof fn lemma_ar_member(s: Seq<u8>, first: int, pos: int, m: ArMember)
    requires
        is_ar_member(m),
        holds_at(s, pos, ar_member(m)),
    ensures
        ar_size(s, pos) == Some(m.data.len() as int),
        ar_member_end(s, pos) == Some(pos + ar_member(m).len()),
        ar_member(m).len() >= 60,
        ar_extent_from(s, first, pos) == if pos + ar_member(m).len() == s.len() {
            Some((s.len() - 1, 90int))
        } else {
            ar_extent_from(s, first, pos + ar_member(m).len())
        },
        ar_entries(s, pos) == prepend(
            (trim(lossy(m.name)), m.data.len() as int),
            ar_entries(s, pos + ar_member(m).len()),
        ),
        s.subrange(pos, pos + 16) == m.name,
{
    reveal(ar_member);
    law_padded_field_gives_the_number_back(
        m.data.len() as int,
        10,
        m.digits,
        false,
        0,
        (10 - m.digits) as nat,
    );
    assert(holds_at(s, pos, m.name));
    assert(holds_at(s, pos + 48, ar_size_field(m)));
    assert(holds_at(s, pos + 58, le16_bytes(0x0A60)));
    law_field_gives_the_name_back(m.name, 0);
    assert(m.name + nuls(0) == m.name);
}

proof fn lemma_ar_row(s: Seq<u8>, first: int, pos: int, parts: Seq<ArMember>)
    requires
        are_ar_members(parts),
        holds_at(s, pos, ar_row(parts)),
    ensures
        pos + ar_row(parts).len() == s.len() && parts.len() > 0 ==> ar_extent_from(s, first, pos)
            == Some((s.len() - 1, 90int)),
        pos + ar_row(parts).len() < s.len() ==> ar_extent_from(s, first, pos) == ar_extent_from(
            s,
            first,
            pos + ar_row(parts).len(),
        ),
        ar_size(s, pos + ar_row(parts).len()) is None ==> ar_entries(s, pos) == Some(ar_list(parts)),
    decreases parts.len(),
{
    if parts.len() == 0 {
        assert(ar_list(parts) == Seq::<(Seq<char>, int)>::empty());
    } else {
        let rest = parts.skip(1);
        lemma_are_ar_members_rest(parts);
        lemma_ar_member(s, first, pos, parts[0]);
        lemma_ar_row(s, first, pos + ar_member(parts[0]).len(), rest);
        assert(ar_list(parts) == seq![(trim(lossy(parts[0].name)), parts[0].data.len() as int)]
            + ar_list(rest));
        if rest.len() > 0 {
            lemma_are_ar_members_rest(rest);
            assert(holds_at(s, pos + ar_member(parts[0]).len(), ar_member(rest[0])));
            lemma_ar_member(s, first, pos + ar_member(parts[0]).len(), rest[0]);
        } else {
            assert(ar_row(rest) == Seq::<u8>::empty());
        }
    }
}

/// An `ar` archive ends with its last member: with certainty if the data end there, too,
/// and with less if no member follows.
pub proof fn law_ar_ends_with_its_last_member(s: Seq<u8>, start: int, parts: Seq<ArMember>)
    requires
        are_ar_members(parts),
        parts.len() > 0,
        holds_at(s, start, be64_bytes(0x213C_6172_6368_3E0A) + ar_row(parts)),
    ensures
        ({
            let end = start + 8 + ar_row(parts).len();
            &&& end == s.len() ==> ar_extent(s, start) == Some((end - 1, 90int))
            &&& end < s.len() < end + 60 ==> ar_extent(s, start) == Some((end - 1, 70int))
        }),
        ar_name(s, start) == if trim(lossy(parts[0].name)).len() > 0 {
            Some(trim(lossy(parts[0].name)))
        } else {
            None
        },
{
    assert(holds_at(s, start, be64_bytes(0x213C_6172_6368_3E0A)));
    lemma_ar_row(s, start + 8, start + 8, parts);
    lemma_are_ar_members_rest(parts);
    assert(holds_at(s, start + 8, ar_member(parts[0])));
    lemma_ar_member(s, start + 8, start + 8, parts[0]);
    law_field_gives_the_name_back(parts[0].name, 0);
    assert(parts[0].name + nuls(0) == parts[0].name);
}

/// An `ar` archive is listed with the names and the sizes of its members, in order.
pub proof fn law_ar_lists_its_members(s: Seq<u8>, parts: Seq<ArMember>)
    requires
        are_ar_members(parts),
        parts.len() > 0,
        holds_at(s, 0, be64_bytes(0x213C_6172_6368_3E0A) + ar_row(parts)),
        s.len() < 8 + ar_row(parts).len() + 60,
    ensures
        ar_listing(s) == Some(ar_list(parts)),
{
    assert(holds_at(s, 0, be64_bytes(0x213C_6172_6368_3E0A)));
    lemma_ar_row(s, 8, 8, parts);
}

/// A file in a TAR archive.
pub ghost struct TarFile {
    pub name: Seq<u8>,
    pub mode: Seq<u8>,
    pub middle: Seq<u8>,
    pub link: Seq<u8>,
    pub prefix: Seq<u8>,
    pub last: Seq<u8>,
    pub data: Seq<u8>,
    pub fill: Seq<u8>,
}

/// The file can be written: the data are filled up to whole blocks.
pub open spec fn is_tar_file(f: TarFile) -> bool {
    &&& f.name.len() <= 100 && is_free_of_nul(f.name)
    &&& f.mode.len() == 24
    &&& f.middle.len() == 121
    &&& f.link.len() == 83
    &&& f.prefix.len() <= 155 && is_free_of_nul(f.prefix)
    &&& f.last.len() == 12
    &&& is_numeral(f.data.len() as int, 8, 11)
    &&& f.fill.len() < 512
    &&& (f.data.len() + f.fill.len()) % 512 == 0
}

/// The header: name, mode and owners, the size in octal digits with a zero byte behind
/// them, dates and type, `ustar`, links and devices, prefix.
#[verifier::opaque]
pub open spec fn tar_header(f: TarFile) -> Seq<u8> {
    (f.name + nuls((100 - f.name.len()) as nat)) + f.mode + encode_utf8(
        numeral(f.data.len() as int, 8, 11, false),
    ) + seq![0u8] + f.middle + be32_bytes(0x7573_7461) + seq![0x72u8] + f.link + (f.prefix + nuls(
        (155 - f.prefix.len()) as nat,
    )) + f.last
}

/// A file: its header, the data, and what fills them up.
pub open spec fn tar_file(f: TarFile) -> Seq<u8> {
    tar_header(f) + f.data + f.fill
}

/// Files of a TAR archive in a row.
pub open spec fn tar_row(parts: Seq<TarFile>) -> Seq<u8>
    decreases parts.len(),
{
    if parts.len() == 0 {
        Seq::empty()
    } else {
        tar_file(parts[0]) + tar_row(parts.skip(1))
    }
}

/// All of them can be written.
pub open spec fn are_tar_files(parts: Seq<TarFile>) -> bool {
    forall|i: int| 0 <= i < parts.len() ==> is_tar_file(#[trigger] parts[i])
}

proof fn lemma_are_tar_files_rest(parts: Seq<TarFile>)
    requires
        are_tar_files(parts),
        parts.len() > 0,
    ensures
        is_tar_file(parts[0]),
        are_tar_files(parts.skip(1)),
{
    assert forall|i: int| 0 <= i < parts.skip(1).len() implies is_tar_file(#[trigger] parts.skip(1)[i]) by {
        assert(parts.skip(1)[i] == parts[i + 1]);
    }
}

/// The names and the sizes of the files.
pub open spec fn tar_list(parts: Seq<TarFile>) -> Seq<(Seq<char>, int)> {
    parts.map_values(|f: TarFile| (trim(lossy(f.name)), f.data.len() as int))
}

/// A field with octal digits and a zero byte behind them is read up to that.
proof fn lemma_octal(s: Seq<u8>, pos: int, n: int)
    requires
        is_numeral(n, 8, 11),
        holds_at(s, pos, encode_utf8(numeral(n, 8, 11, false))),
        s[pos + 11] == 0,
        pos + 12 <= s.len(),
    ensures
        word_end(s, pos, pos + 12) == pos + 11,
        s.subrange(pos, pos + 11) == encode_utf8(numeral(n, 8, 11, false)),
        s[pos] < 0x80,
{
    let text = numeral(n, 8, 11, false);
    lemma_numeral(n, 8, 11, false);
    is_ascii_chars_encode_utf8(text);
    assert forall|k: int| pos <= k < pos + 11 implies #[trigger] s[k] != 0 && s[k] != 0x20 && s[k] < 0x80 by {
        let i = k - pos;
        lemma_byte(s, pos, encode_utf8(text), i);
        let c = text[i];
        assert(c as u8 == encode_utf8(text)[i]);
        assert('\0' <= c <= '\u{7f}');
        assert(c != '\0' && c != ' ');
    }
    lemma_word_end(s, pos, pos + 11, pos + 12);
}

proof fn lemma_word_end(s: Seq<u8>, from: int, stop: int, to: int)
    requires
        0 <= from <= stop < to <= s.len(),
        s[stop] == 0,
        forall|i: int| from <= i < stop ==> s[i] != 0 && s[i] != 0x20,
    ensures
        word_end(s, from, to) == stop,
    decreases stop - from,
{
    if from < stop {
        lemma_word_end(s, from + 1, stop, to);
    }
}

proof fn lemma_tar_header(s: Seq<u8>, pos: int, f: TarFile)
    requires
        is_tar_file(f),
        holds_at(s, pos, tar_header(f)),
    ensures
        tar_header(f).len() == 512,
        tar_size(s, pos) == Some(f.data.len() as int),
        crate::archives::is_ustar(s, pos),
        !zeros(s, pos, 512),
        field_text(s.subrange(pos, pos + 100)) == trim(lossy(f.name)),
        field_text(s.subrange(pos + 345, pos + 500)) == trim(lossy(f.prefix)),
{
    reveal(tar_header);
    let n = f.data.len() as int;
    let digits = encode_utf8(numeral(n, 8, 11, false));
    law_field_gives_the_number_back(n, 8, 11, false);
    law_field_gives_the_name_back(f.name, (100 - f.name.len()) as nat);
    law_field_gives_the_name_back(f.prefix, (155 - f.prefix.len()) as nat);
    assert(holds_at(s, pos + 124, digits));
    assert(holds_at(s, pos + 135, seq![0u8]));
    lemma_octal(s, pos + 124, n);
    assert(holds_at(s, pos + 257, be32_bytes(0x7573_7461)));
    assert(holds_at(s, pos + 261, seq![0x72u8]));
    assert(holds_at(s, pos + 345, f.prefix + nuls((155 - f.prefix.len()) as nat)));
    assert(holds_at(s, pos, f.name + nuls((100 - f.name.len()) as nat)));
    assert(s[pos + 261] != 0);
}

proof fn lemma_tar_file(s: Seq<u8>, pos: int, f: TarFile, last: Option<int>)
    requires
        is_tar_file(f),
        holds_at(s, pos, tar_file(f)),
    ensures
        tar_file(f).len() >= 512,
        tar_extent_from(s, pos, last) == tar_extent_from(
            s,
            pos + tar_file(f).len(),
            Some(pos + tar_file(f).len() - 1),
        ),
        tar_entries(s, pos) == seq![(trim(lossy(f.name)), f.data.len() as int)] + tar_entries(
            s,
            pos + tar_file(f).len(),
        ),
{
    lemma_tar_header(s, pos, f);
    let n = f.data.len() as int;
    assert((n + 511) / 512 * 512 == n + f.fill.len());
}

proof fn lemma_tar_row(s: Seq<u8>, pos: int, parts: Seq<TarFile>, last: Option<int>)
    requires
        are_tar_files(parts),
        holds_at(s, pos, tar_row(parts)),
    ensures
        tar_extent_from(s, pos, last) == tar_extent_from(
            s,
            pos + tar_row(parts).len(),
            if parts.len() == 0 {
                last
            } else {
                Some(pos + tar_row(parts).len() - 1)
            },
        ),
        tar_entries(s, pos) == tar_list(parts) + tar_entries(s, pos + tar_row(parts).len()),
    decreases parts.len(),
{
    if parts.len() == 0 {
        assert(tar_list(parts) + tar_entries(s, pos) == tar_entries(s, pos));
    } else {
        let rest = parts.skip(1);
        let next = pos + tar_file(parts[0]).len();
        lemma_are_tar_files_rest(parts);
        lemma_tar_file(s, pos, parts[0], last);
        lemma_tar_row(s, next, rest, Some(next - 1));
        let one = seq![(trim(lossy(parts[0].name)), parts[0].data.len() as int)];
        assert(tar_list(parts) == one + tar_list(rest));
        let behind = tar_entries(s, next + tar_row(rest).len());
        assert(one + (tar_list(rest) + behind) == (one + tar_list(rest)) + behind);
        if rest.len() == 0 {
            assert(tar_row(rest) == Seq::<u8>::empty());
        }
    }
}

/// A TAR archive ends with the two zero blocks behind its files. Without them it ends
/// with the last file that is all there, and is less certain. It is listed with the
/// names and the sizes of its files, and the first of them names it, together with its
/// prefix if it has one.
pub proof fn law_tar_is_as_written(s: Seq<u8>, start: int, parts: Seq<TarFile>)
    requires
        are_tar_files(parts),
        parts.len() > 0,
        holds_at(s, start, tar_row(parts)),
    ensures
        ({
            let end = start + tar_row(parts).len();
            &&& holds_at(s, end, nuls(1024)) ==> tar_extent(s, start) == Some((end + 1023, 95int))
            &&& s.len() < end + 512 ==> tar_extent(s, start) == Some((end - 1, 70int))
            &&& start == 0 && (holds_at(s, end, nuls(1024)) || s.len() < end + 512) ==> tar_entries(
                s,
                0,
            ) == tar_list(parts)
        }),
        ({
            let name = trim(lossy(parts[0].name));
            let prefix = trim(lossy(parts[0].prefix));
            tar_name(s, start) == if name.len() == 0 {
                None
            } else if prefix.len() == 0 {
                Some(name)
            } else {
                Some(prefix + "/"@ + name)
            }
        }),
{
    let end = start + tar_row(parts).len();
    lemma_tar_row(s, start, parts, None);
    lemma_are_tar_files_rest(parts);
    lemma_tar_header(s, start, parts[0]);
    if holds_at(s, end, nuls(1024)) {
        assert forall|i: int| end <= i < end + 1024 implies s[i] == 0 by {
            lemma_byte(s, end, nuls(1024), i - end);
        }
        assert(zeros(s, end, 512));
        assert(zeros(s, end + 512, 512));
    }
    if holds_at(s, end, nuls(1024)) || s.len() < end + 512 {
        assert(tar_entries(s, end) == Seq::<(Seq<char>, int)>::empty());
        assert(tar_list(parts) + Seq::<(Seq<char>, int)>::empty() == tar_list(parts));
    }
}

/// A file in a CPIO archive.
pub ghost struct CpioFile {
    /// The header before the first size.
    pub before: Seq<u8>,
    /// The header between the sizes, and behind them.
    pub between: Seq<u8>,
    pub behind: Seq<u8>,
    /// The name, with the zero byte that ends it.
    pub name: Seq<u8>,
    pub name_fill: Seq<u8>,
    pub data: Seq<u8>,
    pub data_fill: Seq<u8>,
    /// Whether hexadecimal digits are in upper case.
    pub upper: bool,
}

/// `TRAILER!!!`
pub open spec fn trailer() -> Seq<u8> {
    be64_bytes(0x5452_4149_4C45_5221) + be16_bytes(0x2121)
}

/// The name begins with `TRAILER!!!`.
#[verifier::opaque]
pub open spec fn is_trailer(f: CpioFile) -> bool {
    holds_at(f.name, 0, trailer())
}

/// The file can be written to a "newc" archive: name and data are filled up to multiples
/// of four, the name together with its header.
pub open spec fn is_newc_file(f: CpioFile) -> bool {
    &&& f.before.len() == 54 && f.between.len() == 32 && f.behind.len() == 8
    &&& is_numeral(f.name.len() as int, 16, 8)
    &&& is_numeral(f.data.len() as int, 16, 8)
    &&& f.name_fill.len() < 4 && (110 + f.name.len() + f.name_fill.len()) % 4 == 0
    &&& f.data_fill.len() < 4 && (f.data.len() + f.data_fill.len()) % 4 == 0
}

/// A file in a "newc" archive.
#[verifier::opaque]
pub open spec fn newc_file(f: CpioFile) -> Seq<u8> {
    f.before + encode_utf8(numeral(f.data.len() as int, 16, 8, f.upper)) + f.between + encode_utf8(
        numeral(f.name.len() as int, 16, 8, f.upper),
    ) + f.behind + f.name + f.name_fill + f.data + f.data_fill
}

/// Files of a "newc" archive in a row.
pub open spec fn newc_row(parts: Seq<CpioFile>) -> Seq<u8>
    decreases parts.len(),
{
    if parts.len() == 0 {
        Seq::empty()
    } else {
        newc_file(parts[0]) + newc_row(parts.skip(1))
    }
}

/// All of them can be written.
pub open spec fn are_newc_files(parts: Seq<CpioFile>) -> bool {
    forall|i: int| 0 <= i < parts.len() ==> is_newc_file(#[trigger] parts[i])
}

proof fn lemma_are_newc_files_rest(parts: Seq<CpioFile>)
    requires
        are_newc_files(parts),
        parts.len() > 0,
    ensures
        is_newc_file(parts[0]),
        are_newc_files(parts.skip(1)),
{
    assert forall|i: int| 0 <= i < parts.skip(1).len() implies is_newc_file(#[trigger] parts.skip(1)[i]) by {
        assert(parts.skip(1)[i] == parts[i + 1]);
    }
}

/// The names, up to the zero byte that ends them, and the sizes of the files.
pub open spec fn cpio_list(parts: Seq<CpioFile>) -> Seq<(Seq<char>, int)> {
    parts.map_values(|f: CpioFile| (field_text(f.name), f.data.len() as int))
}

/// The name in the archive is that of the trailer if the name that was written is.
proof fn lemma_trailer(s: Seq<u8>, pos: int, f: CpioFile)
    requires
        holds_at(s, pos, f.name),
    ensures
        crate::archives::is_trailer_name(s, pos, f.name.len() as int) <==> is_trailer(f),
{
    reveal(is_trailer);
    let n = f.name;
    if is_trailer(f) {
        assert(n.len() >= 10);
        assert(holds_at(n, 0, be64_bytes(0x5452_4149_4C45_5221)));
        assert(holds_at(n, 8, be16_bytes(0x2121)));
        assert(crate::bytes::be64(n, 0) == 0x5452_4149_4C45_5221);
        assert(crate::bytes::be16(n, 8) == 0x2121);
    }
    if n.len() >= 10 {
        assert forall|i: int| 0 <= i < 10 implies s[pos + i] == #[trigger] n[i] by {
            lemma_byte(s, pos, n, i);
        }
        assert(s[pos + 0] == n[0] && s[pos + 1] == n[1] && s[pos + 2] == n[2] && s[pos + 3] == n[3]);
        assert(s[pos + 4] == n[4] && s[pos + 5] == n[5] && s[pos + 6] == n[6] && s[pos + 7] == n[7]);
        assert(s[pos + 8] == n[8] && s[pos + 9] == n[9]);
        if crate::archives::is_trailer_name(s, pos, n.len() as int) {
            assert(n.subrange(0, 10) == trailer()) by {
                assert(n[0] == 0x54 && n[1] == 0x52 && n[2] == 0x41 && n[3] == 0x49);
                assert(n[4] == 0x4C && n[5] == 0x45 && n[6] == 0x52 && n[7] == 0x21);
                let t = trailer();
                assert(t[0] == 0x54 && t[1] == 0x52 && t[2] == 0x41 && t[3] == 0x49);
                assert(t[4] == 0x4C && t[5] == 0x45 && t[6] == 0x52 && t[7] == 0x21);
                assert(t[8] == 0x21 && t[9] == 0x21);
                assert(n.subrange(0, 10) =~= t);
            }
        }
    }
}

proof fn lemma_newc_file(s: Seq<u8>, first: int, pos: int, f: CpioFile)
    requires
        is_newc_file(f),
        0 <= first <= pos,
        (pos - first) % 4 == 0,
        holds_at(s, pos, newc_file(f)),
    ensures
        newc_file(f).len() % 4 == 0,
        newc_file(f).len() >= 110,
        newc_extent_from(s, first, pos) == if is_trailer(f) {
            Some((pos + newc_file(f).len() - 1, 90int))
        } else {
            newc_extent_from(s, first, pos + newc_file(f).len())
        },
        first == 0 ==> newc_entries(s, pos) == if is_trailer(f) {
            Some(Seq::empty())
        } else {
            prepend(
                (field_text(f.name), f.data.len() as int),
                newc_entries(s, pos + newc_file(f).len()),
            )
        },
{
    lemma_newc_parts(s, pos, f);
    lemma_trailer(s, pos + 110, f);
    lemma_newc_end(first, pos, f);
    assert(crate::archives::newc_entry_end(first, pos, (f.name.len() as int, f.data.len() as int)) == pos
        + newc_file(f).len());
}

proof fn lemma_newc_end(first: int, pos: int, f: CpioFile)
    requires
        f.name_fill.len() < 4 && (110 + f.name.len() + f.name_fill.len()) % 4 == 0,
        f.data_fill.len() < 4 && (f.data.len() + f.data_fill.len()) % 4 == 0,
        (pos - first) % 4 == 0,
    ensures
        crate::archives::newc_entry_end(first, pos, (f.name.len() as int, f.data.len() as int)) == pos
            + 110 + f.name.len() + f.name_fill.len() + f.data.len() + f.data_fill.len(),
        (110 + f.name.len() + f.name_fill.len() + f.data.len() + f.data_fill.len()) % 4 == 0,
{
    let rel = pos - first;
    let body = rel + 110 + f.name.len() + f.name_fill.len();
    assert(body % 4 == 0);
    assert(crate::archives::aligned4(rel + 110 + f.name.len()) == body);
    assert(crate::archives::aligned4(body + f.data.len()) == body + f.data.len() + f.data_fill.len());
}

/// The sizes and the name of a file can be read where they stand.
proof fn lemma_newc_parts(s: Seq<u8>, pos: int, f: CpioFile)
    requires
        is_newc_file(f),
        holds_at(s, pos, newc_file(f)),
    ensures
        newc_sizes(s, pos) == Some((f.name.len() as int, f.data.len() as int)),
        holds_at(s, pos + 110, f.name),
        newc_file(f).len() == 110 + f.name.len() + f.name_fill.len() + f.data.len() + f.data_fill.len(),
{
    reveal(newc_file);
    let size = encode_utf8(numeral(f.data.len() as int, 16, 8, f.upper));
    let name_size = encode_utf8(numeral(f.name.len() as int, 16, 8, f.upper));
    law_field_gives_the_number_back(f.data.len() as int, 16, 8, f.upper);
    law_field_gives_the_number_back(f.name.len() as int, 16, 8, f.upper);
    assert(holds_at(s, pos + 54, size));
    assert(holds_at(s, pos + 94, name_size));
    assert(holds_at(s, pos + 110, f.name));
}

proof fn lemma_newc_row(s: Seq<u8>, first: int, pos: int, parts: Seq<CpioFile>, last: CpioFile)
    requires
        are_newc_files(parts),
        is_newc_file(last),
        is_trailer(last),
        forall|i: int| 0 <= i < parts.len() ==> !is_trailer(#[trigger] parts[i]),
        0 <= first <= pos,
        (pos - first) % 4 == 0,
        holds_at(s, pos, newc_row(parts)),
        holds_at(s, pos + newc_row(parts).len(), newc_file(last)),
    ensures
        newc_extent_from(s, first, pos) == Some(
            (pos + newc_row(parts).len() + newc_file(last).len() - 1, 90int),
        ),
        first == 0 ==> newc_entries(s, pos) == Some(cpio_list(parts)),
    decreases parts.len(),
{
    if parts.len() == 0 {
        lemma_newc_file(s, first, pos, last);
        assert(cpio_list(parts) == Seq::<(Seq<char>, int)>::empty());
    } else {
        let rest = parts.skip(1);
        lemma_are_newc_files_rest(parts);
        lemma_newc_file(s, first, pos, parts[0]);
        assert forall|i: int| 0 <= i < rest.len() implies !is_trailer(#[trigger] rest[i]) by {
            assert(rest[i] == parts[i + 1]);
        }
        lemma_newc_row(s, first, pos + newc_file(parts[0]).len(), rest, last);
        assert(cpio_list(parts) == seq![(field_text(parts[0].name), parts[0].data.len() as int)]
            + cpio_list(rest));
    }
}

/// A "newc" CPIO archive ends with its trailer, with whatever fills that up, wherever it
/// stands; it is listed with the names and the sizes of the files before the trailer.
pub proof fn law_newc_is_as_written(s: Seq<u8>, start: int, parts: Seq<CpioFile>, last: CpioFile)
    requires
        are_newc_files(parts),
        is_newc_file(last),
        is_trailer(last),
        forall|i: int| 0 <= i < parts.len() ==> !is_trailer(#[trigger] parts[i]),
        holds_at(s, start, newc_row(parts) + newc_file(last)),
    ensures
        newc_extent(s, start) == Some(
            (start + newc_row(parts).len() + newc_file(last).len() - 1, 90int),
        ),
        start == 0 ==> newc_entries(s, 0) == Some(cpio_list(parts)),
{
    lemma_newc_row(s, start, start, parts, last);
}

/// The file can be written to an "odc" archive.
pub open spec fn is_odc_file(f: CpioFile) -> bool {
    &&& f.before.len() == 59
    &&& is_numeral(f.name.len() as int, 8, 6)
    &&& is_numeral(f.data.len() as int, 8, 11)
}

/// A file in an "odc" archive: nothing is filled up.
#[verifier::opaque]
pub open spec fn odc_file(f: CpioFile) -> Seq<u8> {
    f.before + encode_utf8(spaces(0) + numeral(f.name.len() as int, 8, 6, false) + spaces(0))
        + encode_utf8(spaces(0) + numeral(f.data.len() as int, 8, 11, false) + spaces(0)) + f.name + f.data
}

/// Files of an "odc" archive in a row.
pub open spec fn odc_row(parts: Seq<CpioFile>) -> Seq<u8>
    decreases parts.len(),
{
    if parts.len() == 0 {
        Seq::empty()
    } else {
        odc_file(parts[0]) + odc_row(parts.skip(1))
    }
}

/// All of them can be written.
pub open spec fn are_odc_files(parts: Seq<CpioFile>) -> bool {
    forall|i: int| 0 <= i < parts.len() ==> is_odc_file(#[trigger] parts[i])
}

proof fn lemma_are_odc_files_rest(parts: Seq<CpioFile>)
    requires
        are_odc_files(parts),
        parts.len() > 0,
    ensures
        is_odc_file(parts[0]),
        are_odc_files(parts.skip(1)),
{
    assert forall|i: int| 0 <= i < parts.skip(1).len() implies is_odc_file(#[trigger] parts.skip(1)[i]) by {
        assert(parts.skip(1)[i] == parts[i + 1]);
    }
}

proof fn lemma_odc_file(s: Seq<u8>, pos: int, f: CpioFile)
    requires
        is_odc_file(f),
        holds_at(s, pos, odc_file(f)),
    ensures
        odc_file(f).len() >= 76,
        odc_extent(s, pos) == if is_trailer(f) {
            Some((pos + odc_file(f).len() - 1, 90int))
        } else {
            odc_extent(s, pos + odc_file(f).len())
        },
        odc_entries(s, pos) == if is_trailer(f) {
            Some(Seq::empty())
        } else {
            prepend(
                (field_text(f.name), f.data.len() as int),
                odc_entries(s, pos + odc_file(f).len()),
            )
        },
{
    reveal(odc_file);
    law_padded_field_gives_the_number_back(f.name.len() as int, 8, 6, false, 0, 0);
    law_padded_field_gives_the_number_back(f.data.len() as int, 8, 11, false, 0, 0);
    let name_size = encode_utf8(spaces(0) + numeral(f.name.len() as int, 8, 6, false) + spaces(0));
    let size = encode_utf8(spaces(0) + numeral(f.data.len() as int, 8, 11, false) + spaces(0));
    assert(holds_at(s, pos + 59, name_size));
    assert(holds_at(s, pos + 65, size));
    assert(holds_at(s, pos + 76, f.name));
    assert(odc_sizes(s, pos) == Some((f.name.len() as int, f.data.len() as int)));
    lemma_trailer(s, pos + 76, f);
}

proof fn lemma_odc_row(s: Seq<u8>, pos: int, parts: Seq<CpioFile>, last: CpioFile)
    requires
        are_odc_files(parts),
        is_odc_file(last),
        is_trailer(last),
        forall|i: int| 0 <= i < parts.len() ==> !is_trailer(#[trigger] parts[i]),
        holds_at(s, pos, odc_row(parts)),
        holds_at(s, pos + odc_row(parts).len(), odc_file(last)),
    ensures
        odc_extent(s, pos) == Some((pos + odc_row(parts).len() + odc_file(last).len() - 1, 90int)),
        odc_entries(s, pos) == Some(cpio_list(parts)),
    decreases parts.len(),
{
    if parts.len() == 0 {
        lemma_odc_file(s, pos, last);
        assert(cpio_list(parts) == Seq::<(Seq<char>, int)>::empty());
    } else {
        let rest = parts.skip(1);
        lemma_are_odc_files_rest(parts);
        lemma_odc_file(s, pos, parts[0]);
        assert forall|i: int| 0 <= i < rest.len() implies !is_trailer(#[trigger] rest[i]) by {
            assert(rest[i] == parts[i + 1]);
        }
        lemma_odc_row(s, pos + odc_file(parts[0]).len(), rest, last);
        assert(cpio_list(parts) == seq![(field_text(parts[0].name), parts[0].data.len() as int)]
            + cpio_list(rest));
    }
}

/// An "odc" CPIO archive ends with its trailer, and is listed with the names and the sizes
/// of the files before it.
pub proof fn law_odc_is_as_written(s: Seq<u8>, start: int, parts: Seq<CpioFile>, last: CpioFile)
    requires
        are_odc_files(parts),
        is_odc_file(last),
        is_trailer(last),
        forall|i: int| 0 <= i < parts.len() ==> !is_trailer(#[trigger] parts[i]),
        holds_at(s, start, odc_row(parts) + odc_file(last)),
    ensures
        odc_extent(s, start) == Some((start + odc_row(parts).len() + odc_file(last).len() - 1, 90int)),
        start == 0 ==> odc_entries(s, 0) == Some(cpio_list(parts)),
{
    lemma_odc_row(s, start, parts, last);
}

} // verus!
