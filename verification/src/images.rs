//! Boundaries of image formats.
use vstd::prelude::*;
use crate::bytes::{
    advance, be16, be32, be64, extent, fits, le16, le32, num32, read_be16, read_be32, read_be64,
    read_le16, read_le32, read_u32_at, sized, sized_extent, within,
};
use crate::search::find_byte;
use crate::tables::larger;

verus! {

broadcast use crate::slices::slice_len_bound;

/// `\x89PNG\r\n\x1a\n`
pub const PNG_SIGNATURE: u64 = 0x8950_4E47_0D0A_1A0A;

/// `\x8aMNG\r\n\x1a\n`
pub const MNG_SIGNATURE: u64 = 0x8A4D_4E47_0D0A_1A0A;

/// `\x8bJNG\r\n\x1a\n`
pub const JNG_SIGNATURE: u64 = 0x8B4A_4E47_0D0A_1A0A;

/// `IEND`
pub const IEND: u32 = 0x4945_4E44;

/// `MEND`
pub const MEND: u32 = 0x4D45_4E44;

/// `JEND`
pub const JEND: u32 = 0x4A45_4E44;

/// Where a run of PNG-style chunks from `pos` on ends: behind the first chunk
/// of type `end_chunk`, if every chunk up to it lies inside `s`. A chunk is a
/// 4-byte length, a 4-byte type, that many bytes of data and a 4-byte checksum.
pub open spec fn png_chunks_end(s: Seq<u8>, pos: int, end_chunk: int) -> Option<(int, int)>
    decreases s.len() - pos,
{
    if !within(s, pos, 8) {
        None
    } else {
        let next = pos + 12 + be32(s, pos);
        if next > s.len() {
            None
        } else if be32(s, pos + 4) == end_chunk {
            Some((next - 1, 95))
        } else {
            png_chunks_end(s, next, end_chunk)
        }
    }
}

/// A PNG-style file at `start`: its signature, then chunks up to `end_chunk`.
pub open spec fn png_extent(s: Seq<u8>, start: int, signature: int, end_chunk: int) -> Option<(int, int)> {
    if within(s, start, 8) && be64(s, start) == signature {
        png_chunks_end(s, start + 8, end_chunk)
    } else {
        None
    }
}

fn validate_png_family(data: &[u8], start: usize, signature: u64, end_chunk: u32) -> (r: Option<(usize, u8)>)
    ensures
        extent(r) == png_extent(data@, start as int, signature as int, end_chunk as int),
{
    if !fits(data, start, 8) || read_be64(data, start) != signature {
        return None;
    }
    let mut pos = start + 8;
    loop
        invariant
            pos <= data@.len(),
            png_extent(data@, start as int, signature as int, end_chunk as int) == png_chunks_end(
                data@,
                pos as int,
                end_chunk as int,
            ),
        decreases data@.len() - pos,
    {
        if !fits(data, pos, 8) {
            return None;
        }
        let length = read_be32(data, pos);
        let chunk_end = advance(data, pos, 12 + length as u64)?;
        if read_be32(data, pos + 4) == end_chunk {
            return Some((chunk_end - 1, 95));
        }
        pos = chunk_end;
    }
}

/// PNG: chunks up to `IEND`.
pub fn validate_png(data: &[u8], start: usize) -> (r: Option<(usize, u8)>)
    ensures
        extent(r) == png_extent(data@, start as int, PNG_SIGNATURE as int, IEND as int),
{
    validate_png_family(data, start, PNG_SIGNATURE, IEND)
}

/// MNG: chunks up to `MEND`.
pub fn validate_mng(data: &[u8], start: usize) -> (r: Option<(usize, u8)>)
    ensures
        extent(r) == png_extent(data@, start as int, MNG_SIGNATURE as int, MEND as int),
{
    validate_png_family(data, start, MNG_SIGNATURE, MEND)
}

/// JNG: chunks up to `JEND`.
pub fn validate_jng(data: &[u8], start: usize) -> (r: Option<(usize, u8)>)
    ensures
        extent(r) == png_extent(data@, start as int, JNG_SIGNATURE as int, JEND as int),
{
    validate_png_family(data, start, JNG_SIGNATURE, JEND)
}

/// A restart marker, which carries no length and does not end a scan.
pub open spec fn is_restart(marker: u8) -> bool {
    0xD0 <= marker <= 0xD7
}

/// The first offset from `i` on that does not hold the fill byte `0xFF`.
pub open spec fn fill_end(s: Seq<u8>, i: int) -> int
    decreases s.len() - i,
{
    if 0 <= i < s.len() && s[i] == 0xFF {
        fill_end(s, i + 1)
    } else {
        i
    }
}

/// Where the entropy-coded data of a JPEG scan from `pos` on end: at the first
/// `0xFF` that begins a marker. A stuffed zero byte and restart markers do not.
pub open spec fn scan_end(s: Seq<u8>, pos: int) -> Option<int>
    decreases s.len() - pos,
{
    if !within(s, pos, 2) {
        None
    } else if s[pos] != 0xFF {
        scan_end(s, pos + 1)
    } else if s[pos + 1] == 0 || is_restart(s[pos + 1]) {
        scan_end(s, pos + 2)
    } else {
        Some(pos)
    }
}

/// Where the segment ends whose marker stands directly before `pos`, if the
/// marker is neither the end of the image nor one without a length.
pub open spec fn jpeg_segment_end(s: Seq<u8>, marker: u8, pos: int) -> Option<int> {
    if !within(s, pos, 2) || be16(s, pos) < 2 {
        None
    } else if marker == 0xDA {
        scan_end(s, pos + be16(s, pos))
    } else {
        Some(pos + be16(s, pos))
    }
}

/// The extent of a JPEG image whose next marker begins at `pos`: it ends with
/// the marker `FF D9`.
pub open spec fn jpeg_extent_from(s: Seq<u8>, pos: int) -> Option<(int, int)>
    decreases s.len() - pos,
{
    let code = fill_end(s, pos + 1);
    if !within(s, pos, 1) || s[pos] != 0xFF || code <= pos || code >= s.len() {
        None
    } else if s[code] == 0xD9 {
        Some((code, 95))
    } else if s[code] == 0x01 || is_restart(s[code]) {
        jpeg_extent_from(s, code + 1)
    } else {
        match jpeg_segment_end(s, s[code], code + 1) {
            Some(next) if pos < next <= s.len() => jpeg_extent_from(s, next),
            _ => None,
        }
    }
}

/// A JPEG image at `start`.
pub open spec fn jpeg_extent(s: Seq<u8>, start: int) -> Option<(int, int)> {
    if within(s, start, 2) && be16(s, start) == 0xFFD8 {
        jpeg_extent_from(s, start + 2)
    } else {
        None
    }
}

/// Bytes other than `0xFF` are part of the scan.
proof fn lemma_scan_skips(s: Seq<u8>, pos: int, i: int)
    requires
        0 <= pos <= i <= s.len(),
        forall|j: int| pos <= j < i ==> s[j] != 0xFF,
    ensures
        scan_end(s, pos) == scan_end(s, i),
    decreases i - pos,
{
    if pos < i {
        lemma_scan_skips(s, pos + 1, i);
    }
}

fn skip_scan_data(data: &[u8], from: usize) -> (r: Option<usize>)
    ensures
        r is Some <==> scan_end(data@, from as int) is Some,
        r matches Some(i) ==> scan_end(data@, from as int) == Some(i as int) && from <= i
            < data@.len(),
{
    let mut pos = from;
    loop
        invariant
            from <= pos,
            scan_end(data@, from as int) == scan_end(data@, pos as int),
        decreases data@.len() + 1 - pos,
    {
        proof {
            crate::search::lemma_first_byte_is_first(data@, pos as int, 0xFF);
        }
        let i = match find_byte(data, pos, 0xFF) {
            Some(i) => i,
            None => {
                proof {
                    if pos <= data@.len() {
                        lemma_scan_skips(data@, pos as int, data@.len() as int);
                    }
                }
                return None;
            },
        };
        proof {
            lemma_scan_skips(data@, pos as int, i as int);
        }
        if !fits(data, i, 2) {
            return None;
        }
        let next = data[i + 1];
        if next == 0 || (0xD0 <= next && next <= 0xD7) {
            pos = i + 2;
        } else {
            return Some(i);
        }
    }
}

/// JPEG: walks the markers up to `FF D9`. A scan has no declared length, so its
/// data are stepped over up to the next real marker.
pub fn validate_jpeg(data: &[u8], start: usize) -> (r: Option<(usize, u8)>)
    ensures
        extent(r) == jpeg_extent(data@, start as int),
{
    if !fits(data, start, 2) || read_be16(data, start) != 0xFFD8 {
        return None;
    }
    let mut pos = start + 2;
    loop
        invariant
            pos <= data@.len(),
            jpeg_extent(data@, start as int) == jpeg_extent_from(data@, pos as int),
        decreases data@.len() - pos,
    {
        if !fits(data, pos, 1) || data[pos] != 0xFF {
            return None;
        }
        let mut code = pos + 1;
        while code < data.len() && data[code] == 0xFF
            invariant
                pos < code <= data@.len(),
                fill_end(data@, pos + 1) == fill_end(data@, code as int),
            decreases data@.len() - code,
        {
            code = code + 1;
        }
        if code >= data.len() {
            return None;
        }
        let marker = data[code];
        if marker == 0xD9 {
            return Some((code, 95));
        }
        let body = code + 1;
        if marker == 0x01 || (0xD0 <= marker && marker <= 0xD7) {
            pos = body;
            continue;
        }
        if !fits(data, body, 2) {
            return None;
        }
        let length = read_be16(data, body);
        if length < 2 {
            return None;
        }
        let after = advance(data, body, length as u64)?;
        pos = if marker == 0xDA {
            skip_scan_data(data, after)?
        } else {
            after
        };
    }
}

/// A size that the header of a device-independent bitmap has, from
/// BITMAPCOREHEADER to BITMAPV5HEADER.
pub open spec fn is_dib_header_size(n: int) -> bool {
    n == 12 || n == 40 || n == 52 || n == 56 || n == 64 || n == 108 || n == 124
}

/// A PNG image or a device-independent bitmap seems to begin at `pos`.
pub open spec fn looks_like_icon_image(s: Seq<u8>, pos: int) -> bool {
    ||| within(s, pos, 8) && be64(s, pos) == PNG_SIGNATURE
    ||| within(s, pos, 4) && is_dib_header_size(le32(s, pos))
}

/// The offset of directory entry `i` of an icon file at `start`.
pub open spec fn ico_entry(start: int, i: int) -> int {
    start + 6 + 16 * i
}

/// Directory entry `i` of `count` points at image data behind the directory.
pub open spec fn ico_entry_sound(s: Seq<u8>, start: int, count: int, i: int) -> bool {
    let entry = ico_entry(start, i);
    let size = le32(s, entry + 8);
    let offset = le32(s, entry + 12);
    size > 0 && offset >= 6 + 16 * count && looks_like_icon_image(s, start + offset)
}

/// How far the images of the first `n` directory entries reach, from `start`.
pub open spec fn ico_reach(s: Seq<u8>, start: int, n: int) -> int
    decreases n,
{
    if n <= 0 {
        0
    } else {
        let entry = ico_entry(start, n - 1);
        let end = le32(s, entry + 12) + le32(s, entry + 8);
        let before = ico_reach(s, start, n - 1);
        if end > before {
            end
        } else {
            before
        }
    }
}

/// A Windows icon or cursor file at `start`: every directory entry is sound, and
/// the file ends with the image that reaches furthest.
pub open spec fn ico_extent(s: Seq<u8>, start: int) -> Option<(int, int)> {
    if !within(s, start, 6) {
        None
    } else {
        let kind = le16(s, start + 2);
        let count = le16(s, start + 4);
        if le16(s, start) == 0 && (kind == 1 || kind == 2) && count > 0 && within(
            s,
            start + 6,
            16 * count,
        ) && forall|i: int| 0 <= i < count ==> #[trigger] ico_entry_sound(s, start, count, i) {
            sized(s.len() as int, start, ico_reach(s, start, count), 90)
        } else {
            None
        }
    }
}

/// Whether a PNG image or a device-independent bitmap seems to begin at `offset`.
pub fn looks_like_ico_image_data(data: &[u8], offset: usize) -> (r: bool)
    ensures
        r == looks_like_icon_image(data@, offset as int),
{
    if fits(data, offset, 8) && read_be64(data, offset) == PNG_SIGNATURE {
        return true;
    }
    if !fits(data, offset, 4) {
        return false;
    }
    let n = read_le32(data, offset);
    n == 12 || n == 40 || n == 52 || n == 56 || n == 64 || n == 108 || n == 124
}

/// ICO/CUR: the file ends with the furthest of the images that its directory
/// lists.
pub fn validate_ico(data: &[u8], start: usize) -> (r: Option<(usize, u8)>)
    ensures
        extent(r) == ico_extent(data@, start as int),
{
    if !fits(data, start, 6) || read_le16(data, start) != 0 {
        return None;
    }
    let kind = read_le16(data, start + 2);
    let count = read_le16(data, start + 4) as usize;
    if (kind != 1 && kind != 2) || count == 0 || !fits(data, start + 6, 16 * count) {
        return None;
    }
    let mut max_end: u64 = 0;
    let mut i: usize = 0;
    while i < count
        invariant
            i <= count <= 0xFFFF,
            count == le16(data@, start + 4),
            start + 6 + 16 * count <= data@.len(),
            forall|j: int| 0 <= j < i ==> #[trigger] ico_entry_sound(data@, start as int, count as int, j),
            max_end == ico_reach(data@, start as int, i as int),
        decreases count - i,
    {
        let entry = start + 6 + 16 * i;
        let size = read_le32(data, entry + 8) as u64;
        let offset = read_le32(data, entry + 12) as u64;
        let sound = size > 0 && offset >= (6 + 16 * count) as u64 && match advance(data, start, offset) {
            Some(image) => looks_like_ico_image_data(data, image),
            None => false,
        };
        assert(sound == ico_entry_sound(data@, start as int, count as int, i as int));
        if !sound {
            return None;
        }
        if offset + size > max_end {
            max_end = offset + size;
        }
        i = i + 1;
    }
    sized_extent(data, start, max_end, 90)
}

/// An Apple icon image at `start`, which declares its own length.
pub open spec fn icns_extent(s: Seq<u8>, start: int) -> Option<(int, int)> {
    if within(s, start, 8) && be32(s, start) == 0x6963_6E73 {
        sized(s.len() as int, start, be32(s, start + 4), 95)
    } else {
        None
    }
}

/// ICNS: the length stands in the header.
pub fn validate_icns(data: &[u8], start: usize) -> (r: Option<(usize, u8)>)
    ensures
        extent(r) == icns_extent(data@, start as int),
{
    if !fits(data, start, 8) || read_be32(data, start) != 0x6963_6E73 {
        return None;
    }
    sized_extent(data, start, read_be32(data, start + 4) as u64, 95)
}

/// The end of section `i` of an EPS file with a binary header at `start`,
/// counted from `start`; 0 for an empty section.
pub open spec fn eps_section_end(s: Seq<u8>, start: int, i: int) -> int {
    let offset = le32(s, start + 4 + 8 * i);
    let len = le32(s, start + 8 + 8 * i);
    if len > 0 {
        offset + len
    } else {
        0
    }
}

/// An EPS file with a binary header at `start`: it ends with the furthest of its
/// PostScript, WMF and TIFF sections.
pub open spec fn eps_extent(s: Seq<u8>, start: int) -> Option<(int, int)> {
    if !within(s, start, 30) {
        None
    } else {
        let reach = larger(
            larger(eps_section_end(s, start, 0), eps_section_end(s, start, 1)),
            eps_section_end(s, start, 2),
        );
        if reach == 0 {
            None
        } else {
            sized(s.len() as int, start, reach, 90)
        }
    }
}

fn eps_section(data: &[u8], pos: usize) -> (r: u64)
    requires
        within(data@, pos as int, 8),
    ensures
        r == if le32(data@, pos + 4) > 0 {
            le32(data@, pos as int) + le32(data@, pos + 4)
        } else {
            0
        },
{
    let offset = read_le32(data, pos) as u64;
    let len = read_le32(data, pos + 4) as u64;
    if len > 0 {
        offset + len
    } else {
        0
    }
}

/// EPS with a DOS binary header: three sections, each with an offset and a
/// length.
pub fn validate_eps_binary_header(data: &[u8], start: usize) -> (r: Option<(usize, u8)>)
    ensures
        extent(r) == eps_extent(data@, start as int),
{
    if !fits(data, start, 30) {
        return None;
    }
    let mut max_end = eps_section(data, start + 4);
    let second = eps_section(data, start + 12);
    if second > max_end {
        max_end = second;
    }
    let third = eps_section(data, start + 20);
    if third > max_end {
        max_end = third;
    }
    if max_end == 0 {
        return None;
    }
    sized_extent(data, start, max_end, 90)
}

/// A placeable header precedes the WMF header at `start`.
pub open spec fn is_placeable(s: Seq<u8>, start: int) -> bool {
    be32(s, start) == 0xD7CD_C69A && be16(s, start + 4) == 0
}

/// A Windows metafile at `start`. Its size is declared in 16-bit words and
/// cannot be smaller than its header. With a placeable header in front the
/// match is far more certain.
pub open spec fn wmf_extent(s: Seq<u8>, start: int) -> Option<(int, int)> {
    if !within(s, start, 6) {
        None
    } else {
        let header = if is_placeable(s, start) {
            start + 22
        } else {
            start
        };
        let kind = le16(s, header);
        let words = le32(s, header + 6);
        if within(s, header, 10) && (kind == 1 || kind == 2) && le16(s, header + 2) == 9 && words >= 9 {
            sized(
                s.len() as int,
                header,
                2 * words,
                if is_placeable(s, start) {
                    90
                } else {
                    55
                },
            )
        } else {
            None
        }
    }
}

/// WMF: the header declares the size in 16-bit words.
pub fn validate_wmf(data: &[u8], start: usize) -> (r: Option<(usize, u8)>)
    ensures
        extent(r) == wmf_extent(data@, start as int),
{
    if !fits(data, start, 6) {
        return None;
    }
    let placeable = read_be32(data, start) == 0xD7CD_C69A && read_be16(data, start + 4) == 0;
    let header = if placeable {
        match advance(data, start, 22) {
            Some(header) => header,
            None => {
                return None;
            },
        }
    } else {
        start
    };
    if !fits(data, header, 10) {
        return None;
    }
    let kind = read_le16(data, header);
    let words = read_le32(data, header + 6);
    if (kind != 1 && kind != 2) || read_le16(data, header + 2) != 9 || words < 9 {
        return None;
    }
    let confidence: u8 = if placeable {
        90
    } else {
        55
    };
    sized_extent(data, header, 2 * words as u64, confidence)
}

/// An enhanced metafile at `start`, which declares its own length.
pub open spec fn emf_extent(s: Seq<u8>, start: int) -> Option<(int, int)> {
    if within(s, start, 52) && be32(s, start + 40) == 0x2045_4D46 {
        sized(s.len() as int, start, le32(s, start + 48), 90)
    } else {
        None
    }
}

/// EMF: the length stands in the header.
pub fn validate_emf(data: &[u8], start: usize) -> (r: Option<(usize, u8)>)
    ensures
        extent(r) == emf_extent(data@, start as int),
{
    if !fits(data, start, 52) || read_be32(data, start + 40) != 0x2045_4D46 {
        return None;
    }
    sized_extent(data, start, read_le32(data, start + 48) as u64, 90)
}

/// A DPX image at `start`, which declares its own length.
pub open spec fn dpx_extent(s: Seq<u8>, start: int, is_be: bool) -> Option<(int, int)> {
    if within(s, start, 20) {
        sized(s.len() as int, start, num32(s, start + 16, is_be), 90)
    } else {
        None
    }
}

/// DPX: the length stands in the header, in the byte order of the file.
pub fn validate_dpx(data: &[u8], start: usize, is_be: bool) -> (r: Option<(usize, u8)>)
    ensures
        extent(r) == dpx_extent(data@, start as int, is_be),
{
    if !fits(data, start, 20) {
        return None;
    }
    let file_size = read_u32_at(data, start + 16, is_be)?;
    sized_extent(data, start, file_size as u64, 90)
}

/// DPX, big-endian.
pub fn validate_dpx_be(data: &[u8], start: usize) -> (r: Option<(usize, u8)>)
    ensures
        extent(r) == dpx_extent(data@, start as int, true),
{
    validate_dpx(data, start, true)
}

/// DPX, little-endian.
pub fn validate_dpx_le(data: &[u8], start: usize) -> (r: Option<(usize, u8)>)
    ensures
        extent(r) == dpx_extent(data@, start as int, false),
{
    validate_dpx(data, start, false)
}

/// An ICC colour profile at `start`: it declares its own length, which cannot be
/// smaller than its header.
pub open spec fn icc_extent(s: Seq<u8>, start: int) -> Option<(int, int)> {
    if within(s, start, 4) && be32(s, start) >= 128 {
        sized(s.len() as int, start, be32(s, start), 90)
    } else {
        None
    }
}

/// ICC: the length stands at the very start.
pub fn validate_icc(data: &[u8], start: usize) -> (r: Option<(usize, u8)>)
    ensures
        extent(r) == icc_extent(data@, start as int),
{
    if !fits(data, start, 4) {
        return None;
    }
    let profile_size = read_be32(data, start);
    if profile_size < 128 {
        return None;
    }
    sized_extent(data, start, profile_size as u64, 90)
}

} // verus!
