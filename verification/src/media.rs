//! Boundaries of audio and video formats.
use vstd::prelude::*;
use crate::bytes::{
    advance, be16, be24, be32, be64, extent, fits, flag, le16, le24, le32, le64, read_be16,
    read_be24, read_be32, read_be64, read_le16, read_le24, read_le32, read_le64, sized,
    sized_extent, walked, walked_extent, within,
};
use crate::inflate::{stream_len, zlib_stream_len};
use crate::tables::larger;

verus! {

broadcast use crate::slices::slice_len_bound;

/// `RIFF`
pub const RIFF: u32 = 0x5249_4646;

/// `RIFX`
pub const RIFX: u32 = 0x5249_4658;

/// `FORM`
pub const FORM: u32 = 0x464F_524D;

/// A little-endian chunk container at `start`: 8 bytes of header and as many
/// bytes as they declare.
pub open spec fn riff_extent(s: Seq<u8>, start: int) -> Option<(int, int)> {
    if within(s, start, 8) && be32(s, start) == RIFF {
        sized(s.len() as int, start, 8 + le32(s, start + 4), 90)
    } else {
        None
    }
}

/// A big-endian chunk container at `start` with that tag.
pub open spec fn be_container_extent(s: Seq<u8>, start: int, tag: int) -> Option<(int, int)> {
    if within(s, start, 8) && be32(s, start) == tag {
        sized(s.len() as int, start, 8 + be32(s, start + 4), 90)
    } else {
        None
    }
}

/// RIFF, whatever its form type.
pub fn validate_riff(data: &[u8], start: usize) -> (r: Option<(usize, u8)>)
    ensures
        extent(r) == riff_extent(data@, start as int),
{
    if !fits(data, start, 8) || read_be32(data, start) != RIFF {
        return None;
    }
    sized_extent(data, start, 8 + read_le32(data, start + 4) as u64, 90)
}

/// IFF, whatever its form type.
pub fn validate_iff(data: &[u8], start: usize) -> (r: Option<(usize, u8)>)
    ensures
        extent(r) == be_container_extent(data@, start as int, FORM as int),
{
    if !fits(data, start, 8) || read_be32(data, start) != FORM {
        return None;
    }
    sized_extent(data, start, 8 + read_be32(data, start + 4) as u64, 90)
}

/// RIFX.
pub fn validate_rifx(data: &[u8], start: usize) -> (r: Option<(usize, u8)>)
    ensures
        extent(r) == be_container_extent(data@, start as int, RIFX as int),
{
    if !fits(data, start, 8) || read_be32(data, start) != RIFX {
        return None;
    }
    sized_extent(data, start, 8 + read_be32(data, start + 4) as u64, 90)
}

/// The extent of a sequence of ISO base media boxes that begins at `first`, when
/// the next box is at `pos`. The boxes reach the end of the data, or one of them
/// claims to; otherwise the sequence ends with its last complete box, which is
/// less certain.
pub open spec fn isobmff_extent_from(s: Seq<u8>, first: int, pos: int) -> Option<(int, int)>
    decreases s.len() - pos,
{
    if !within(s, pos, 8) {
        walked(first, pos, 70)
    } else if be32(s, pos) == 0 {
        Some((s.len() - 1, 85))
    } else if be32(s, pos) == 1 && !within(s, pos, 16) {
        walked(first, pos, 70)
    } else {
        let size = if be32(s, pos) == 1 {
            be64(s, pos + 8)
        } else {
            be32(s, pos)
        };
        let next = pos + size;
        if size < 8 || next > s.len() {
            walked(first, pos, 70)
        } else if next == s.len() {
            Some((next - 1, 90))
        } else {
            isobmff_extent_from(s, first, next)
        }
    }
}

/// A sequence of ISO base media boxes at `start`.
pub open spec fn isobmff_extent(s: Seq<u8>, start: int) -> Option<(int, int)> {
    isobmff_extent_from(s, start, start)
}

/// ISO base media (HEIC, AVIF, JPEG 2000, JPEG XL, MP4): walks the top-level
/// boxes.
pub fn validate_isobmff(data: &[u8], start: usize) -> (r: Option<(usize, u8)>)
    ensures
        extent(r) == isobmff_extent(data@, start as int),
{
    let mut pos = start;
    while fits(data, pos, 8)
        invariant_except_break
            start <= pos,
            isobmff_extent(data@, start as int) == isobmff_extent_from(data@, start as int, pos as int),
        ensures
            start <= pos,
            isobmff_extent(data@, start as int) == walked(start as int, pos as int, 70),
        decreases data@.len() - pos,
    {
        let short_size = read_be32(data, pos);
        if short_size == 0 {
            return Some((data.len() - 1, 85));
        }
        let size = if short_size == 1 {
            if !fits(data, pos, 16) {
                break;
            }
            read_be64(data, pos + 8)
        } else {
            short_size as u64
        };
        if size < 8 {
            break;
        }
        let next = match advance(data, pos, size) {
            Some(next) => next,
            None => break,
        };
        if next == data.len() {
            return Some((next - 1, 90));
        }
        pos = next;
    }
    walked_extent(start, pos, 70)
}

/// `OggS`
pub const OGGS: u32 = 0x4F67_6753;

/// The sum of the `n` bytes from `pos` on.
pub open spec fn byte_sum(s: Seq<u8>, pos: int, n: int) -> int
    decreases n,
{
    if n <= 0 {
        0
    } else {
        byte_sum(s, pos, n - 1) + s[pos + n - 1]
    }
}

/// Where the Ogg page at `pos` ends, if it is complete: behind the header, the
/// segment table and the segments whose lengths the table lists.
pub open spec fn ogg_page_end(s: Seq<u8>, pos: int) -> Option<int> {
    if !within(s, pos, 27) || be32(s, pos) != OGGS {
        None
    } else {
        let segments = s[pos + 26] as int;
        let end = pos + 27 + segments + byte_sum(s, pos + 27, segments);
        if within(s, pos + 27, segments) && end <= s.len() {
            Some(end)
        } else {
            None
        }
    }
}

/// The extent of an Ogg stream that begins at `first`, when the next page is at
/// `pos`: it ends with the page flagged as the last one, or, less certainly,
/// with the last complete page.
pub open spec fn ogg_extent_from(s: Seq<u8>, first: int, pos: int) -> Option<(int, int)>
    decreases s.len() - pos,
{
    match ogg_page_end(s, pos) {
        Some(next) if next > pos => if flag(s[pos + 5], 4) {
            Some((next - 1, 90))
        } else {
            ogg_extent_from(s, first, next)
        },
        _ => walked(first, pos, 70),
    }
}

/// An Ogg stream at `start`.
pub open spec fn ogg_extent(s: Seq<u8>, start: int) -> Option<(int, int)> {
    ogg_extent_from(s, start, start)
}

fn sum_bytes(data: &[u8], pos: usize, n: u8) -> (r: u64)
    requires
        within(data@, pos as int, n as int),
    ensures
        r == byte_sum(data@, pos as int, n as int),
        r <= 255 * 255,
{
    let mut sum: u64 = 0;
    let mut i: u8 = 0;
    while i < n
        invariant
            i <= n,
            pos + n <= data@.len(),
            sum == byte_sum(data@, pos as int, i as int),
            sum <= 255 * i,
        decreases n - i,
    {
        sum = sum + data[pos + i as usize] as u64;
        i = i + 1;
    }
    sum
}

fn ogg_page(data: &[u8], pos: usize) -> (r: Option<usize>)
    ensures
        r is Some <==> ogg_page_end(data@, pos as int) is Some,
        r matches Some(end) ==> ogg_page_end(data@, pos as int) == Some(end as int) && pos + 27 <= end
            <= data@.len(),
{
    if !fits(data, pos, 27) || read_be32(data, pos) != OGGS {
        return None;
    }
    let segments = data[pos + 26];
    if !fits(data, pos + 27, segments as usize) {
        return None;
    }
    let body = sum_bytes(data, pos + 27, segments);
    advance(data, pos, 27 + segments as u64 + body)
}

/// Ogg: walks the pages.
pub fn validate_ogg(data: &[u8], start: usize) -> (r: Option<(usize, u8)>)
    ensures
        extent(r) == ogg_extent(data@, start as int),
{
    let mut pos = start;
    loop
        invariant
            start <= pos,
            ogg_extent(data@, start as int) == ogg_extent_from(data@, start as int, pos as int),
        decreases data@.len() - pos,
    {
        match ogg_page(data, pos) {
            Some(next) => {
                if (data[pos + 5] / 4) % 2 == 1 {
                    return Some((next - 1, 90));
                }
                pos = next;
            },
            None => {
                return walked_extent(start, pos, 70);
            },
        }
    }
}

/// The GUID of the ASF header object.
pub open spec fn is_asf_header(s: Seq<u8>, pos: int) -> bool {
    be64(s, pos) == 0x3026_B275_8E66_CF11 && be64(s, pos + 8) == 0xA6D9_00AA_0062_CE6C
}

/// The GUID of the ASF file properties object.
pub open spec fn is_asf_file_properties(s: Seq<u8>, pos: int) -> bool {
    be64(s, pos) == 0xA1DC_AB8C_47A9_CF11 && be64(s, pos + 8) == 0x8EE4_00C0_0C20_5365
}

/// The file size in the first file properties object among the `n` ASF objects
/// from `pos` on.
pub open spec fn asf_file_size(s: Seq<u8>, pos: int, n: int) -> Option<int>
    decreases n,
{
    if n <= 0 || !within(s, pos, 24) || le64(s, pos + 16) < 24 {
        None
    } else if is_asf_file_properties(s, pos) {
        if within(s, pos, 48) {
            Some(le64(s, pos + 40))
        } else {
            None
        }
    } else {
        asf_file_size(s, pos + le64(s, pos + 16), n - 1)
    }
}

/// An ASF file at `start`: its header holds an object that declares its length.
pub open spec fn asf_extent(s: Seq<u8>, start: int) -> Option<(int, int)> {
    if within(s, start, 28) && is_asf_header(s, start) {
        match asf_file_size(s, start + 30, le32(s, start + 24)) {
            Some(size) => sized(s.len() as int, start, size, 90),
            None => None,
        }
    } else {
        None
    }
}

fn find_asf_file_size(data: &[u8], first: usize, count: u32) -> (r: Option<u64>)
    ensures
        r is Some <==> asf_file_size(data@, first as int, count as int) is Some,
        r matches Some(size) ==> asf_file_size(data@, first as int, count as int) == Some(size as int),
{
    let mut pos = first;
    let mut left = count;
    while left > 0
        invariant
            asf_file_size(data@, first as int, count as int) == asf_file_size(
                data@,
                pos as int,
                left as int,
            ),
        decreases left,
    {
        if !fits(data, pos, 24) {
            return None;
        }
        let size = read_le64(data, pos + 16);
        if size < 24 {
            return None;
        }
        if read_be64(data, pos) == 0xA1DC_AB8C_47A9_CF11 && read_be64(data, pos + 8)
            == 0x8EE4_00C0_0C20_5365 {
            if !fits(data, pos, 48) {
                return None;
            }
            return Some(read_le64(data, pos + 40));
        }
        pos = match advance(data, pos, size) {
            Some(next) => next,
            None => {
                assert(asf_file_size(data@, pos + size, left - 1) is None);
                return None;
            },
        };
        left = left - 1;
    }
    None
}

/// ASF: looks for the file properties object in the header object.
pub fn validate_asf(data: &[u8], start: usize) -> (r: Option<(usize, u8)>)
    ensures
        extent(r) == asf_extent(data@, start as int),
{
    if !fits(data, start, 28) || read_be64(data, start) != 0x3026_B275_8E66_CF11 || read_be64(
        data,
        start + 8,
    ) != 0xA6D9_00AA_0062_CE6C {
        return None;
    }
    let count = read_le32(data, start + 24);
    let first = match advance(data, start, 30) {
        Some(first) => first,
        None => {
            return None;
        },
    };
    let size = find_asf_file_size(data, first, count)?;
    sized_extent(data, start, size, 90)
}

/// A DSD stream file at `start`, which declares its own length.
pub open spec fn dsf_extent(s: Seq<u8>, start: int) -> Option<(int, int)> {
    if within(s, start, 20) && be32(s, start) == 0x4453_4420 {
        sized(s.len() as int, start, le64(s, start + 12), 95)
    } else {
        None
    }
}

/// DSF: the length stands in the header.
pub fn validate_dsf(data: &[u8], start: usize) -> (r: Option<(usize, u8)>)
    ensures
        extent(r) == dsf_extent(data@, start as int),
{
    if !fits(data, start, 20) || read_be32(data, start) != 0x4453_4420 {
        return None;
    }
    sized_extent(data, start, read_le64(data, start + 12), 95)
}

/// `caff`
pub const CAFF: u32 = 0x6361_6666;

/// The first number that is negative as a signed 64-bit one.
pub const SIGN_64: u64 = 0x8000_0000_0000_0000;

/// The extent of a Core Audio file whose chunks begin at `first` and whose next
/// chunk is at `pos`. A negative chunk size means "to the end of the file".
pub open spec fn caf_extent_from(s: Seq<u8>, first: int, pos: int) -> Option<(int, int)>
    decreases s.len() - pos,
{
    if !within(s, pos, 12) {
        walked(first, pos, 70)
    } else if be64(s, pos + 4) >= SIGN_64 {
        Some((s.len() - 1, 85))
    } else {
        let next = pos + 12 + be64(s, pos + 4);
        if next > s.len() {
            walked(first, pos, 70)
        } else if next == s.len() {
            Some((next - 1, 90))
        } else {
            caf_extent_from(s, first, next)
        }
    }
}

/// A Core Audio file at `start`.
pub open spec fn caf_extent(s: Seq<u8>, start: int) -> Option<(int, int)> {
    if within(s, start, 4) && be32(s, start) == CAFF {
        caf_extent_from(s, start + 8, start + 8)
    } else {
        None
    }
}

/// CAF: walks the chunks.
pub fn validate_caf(data: &[u8], start: usize) -> (r: Option<(usize, u8)>)
    ensures
        extent(r) == caf_extent(data@, start as int),
{
    if !fits(data, start, 4) || read_be32(data, start) != CAFF {
        return None;
    }
    let first = match advance(data, start, 8) {
        Some(first) => first,
        None => {
            return None;
        },
    };
    let mut pos = first;
    while fits(data, pos, 12)
        invariant_except_break
            first <= pos,
            caf_extent(data@, start as int) == caf_extent_from(data@, first as int, pos as int),
        ensures
            caf_extent(data@, start as int) == walked(first as int, pos as int, 70),
        decreases data@.len() - pos,
    {
        let size = read_be64(data, pos + 4);
        if size >= SIGN_64 {
            return Some((data.len() - 1, 85));
        }
        let next = match advance(data, pos, 12 + size) {
            Some(next) => next,
            None => break,
        };
        if next == data.len() {
            return Some((next - 1, 90));
        }
        pos = next;
    }
    walked_extent(first, pos, 70)
}

/// `MThd`
pub const MTHD: u32 = 0x4D54_6864;

/// `MTrk`
pub const MTRK: u32 = 0x4D54_726B;

/// Where the `n` MIDI tracks from `pos` on end.
pub open spec fn midi_tracks_end(s: Seq<u8>, pos: int, n: int) -> Option<int>
    decreases n,
{
    if n <= 0 {
        Some(pos)
    } else if !within(s, pos, 8) || be32(s, pos) != MTRK || pos + 8 + be32(s, pos + 4) > s.len() {
        None
    } else {
        midi_tracks_end(s, pos + 8 + be32(s, pos + 4), n - 1)
    }
}

/// A MIDI file at `start`: a header and as many tracks as it counts, at least
/// one.
pub open spec fn midi_extent(s: Seq<u8>, start: int) -> Option<(int, int)> {
    if within(s, start, 12) && be32(s, start) == MTHD && be16(s, start + 10) > 0 {
        match midi_tracks_end(s, start + 8 + be32(s, start + 4), be16(s, start + 10)) {
            Some(end) => Some((end - 1, 90)),
            None => None,
        }
    } else {
        None
    }
}

/// MIDI: walks the tracks.
pub fn validate_midi(data: &[u8], start: usize) -> (r: Option<(usize, u8)>)
    ensures
        extent(r) == midi_extent(data@, start as int),
{
    if !fits(data, start, 12) || read_be32(data, start) != MTHD {
        return None;
    }
    let header_len = read_be32(data, start + 4);
    let ntracks = read_be16(data, start + 10);
    if ntracks == 0 {
        return None;
    }
    let first = match advance(data, start, 8 + header_len as u64) {
        Some(first) => first,
        None => {
            return None;
        },
    };
    let mut pos = first;
    let mut left = ntracks;
    while left > 0
        invariant
            0 < first <= pos <= data@.len(),
            midi_extent(data@, start as int) == match midi_tracks_end(data@, pos as int, left as int) {
                Some(end) => Some((end - 1, 90int)),
                None => None,
            },
        decreases left,
    {
        if !fits(data, pos, 8) || read_be32(data, pos) != MTRK {
            return None;
        }
        pos = advance(data, pos, 8 + read_be32(data, pos + 4) as u64)?;
        left = left - 1;
    }
    Some((pos - 1, 90))
}

/// The total length of the first `n` samples of a module at `start`, whose
/// headers declare it in 16-bit words.
pub open spec fn mod_samples_len(s: Seq<u8>, start: int, n: int) -> int
    decreases n,
{
    if n <= 0 {
        0
    } else {
        mod_samples_len(s, start, n - 1) + 2 * be16(s, start + 20 + 30 * (n - 1) + 22)
    }
}

/// One more than the largest of the first `n` pattern numbers of a module at
/// `start`; 0 if there are none.
pub open spec fn mod_pattern_count(s: Seq<u8>, start: int, n: int) -> int
    decreases n,
{
    if n <= 0 {
        0
    } else {
        larger(mod_pattern_count(s, start, n - 1), s[start + 952 + n - 1] + 1)
    }
}

/// A four-channel ProTracker module at `start`: header, patterns, samples.
pub open spec fn mod_extent(s: Seq<u8>, start: int) -> Option<(int, int)> {
    if within(s, start, 1080) {
        let song_length = if s[start + 950] > 128 {
            128
        } else {
            s[start + 950] as int
        };
        sized(
            s.len() as int,
            start,
            1084 + 1024 * mod_pattern_count(s, start, song_length) + mod_samples_len(s, start, 31),
            85,
        )
    } else {
        None
    }
}

/// MOD: adds up the patterns that are played and the samples.
pub fn validate_mod(data: &[u8], start: usize) -> (r: Option<(usize, u8)>)
    ensures
        extent(r) == mod_extent(data@, start as int),
{
    if !fits(data, start, 1080) {
        return None;
    }
    let mut samples: u64 = 0;
    let mut i: usize = 0;
    while i < 31
        invariant
            i <= 31,
            start + 1080 <= data@.len(),
            samples == mod_samples_len(data@, start as int, i as int),
            samples <= 0x2_0000 * i,
        decreases 31 - i,
    {
        samples = samples + 2 * read_be16(data, start + 20 + 30 * i + 22) as u64;
        i = i + 1;
    }
    let song_length: usize = if data[start + 950] > 128 {
        128
    } else {
        data[start + 950] as usize
    };
    let mut patterns: u64 = 0;
    let mut k: usize = 0;
    while k < song_length
        invariant
            k <= song_length <= 128,
            start + 1080 <= data@.len(),
            patterns == mod_pattern_count(data@, start as int, k as int),
            patterns <= 256,
        decreases song_length - k,
    {
        let count = data[start + 952 + k] as u64 + 1;
        if count > patterns {
            patterns = count;
        }
        k = k + 1;
    }
    sized_extent(data, start, 1084 + 1024 * patterns + samples, 85)
}

/// Where the `n` RealMedia chunks from `pos` on end.
pub open spec fn realmedia_chunks_end(s: Seq<u8>, pos: int, n: int) -> Option<int>
    decreases n,
{
    if n <= 0 {
        Some(pos)
    } else if !within(s, pos, 10) || be32(s, pos + 4) < 10 {
        None
    } else {
        realmedia_chunks_end(s, pos + be32(s, pos + 4), n - 1)
    }
}

/// A RealMedia file at `start`: a first chunk that counts all top-level chunks,
/// itself among them.
pub open spec fn realmedia_extent(s: Seq<u8>, start: int) -> Option<(int, int)> {
    if within(s, start, 18) && be32(s, start) == 0x2E52_4D46 && be32(s, start + 4) >= 18 && be32(
        s,
        start + 14,
    ) > 0 {
        match realmedia_chunks_end(s, start + be32(s, start + 4), be32(s, start + 14) - 1) {
            Some(end) => sized(s.len() as int, end, 0, 80),
            None => None,
        }
    } else {
        None
    }
}

/// RealMedia: walks the top-level chunks.
pub fn validate_realmedia(data: &[u8], start: usize) -> (r: Option<(usize, u8)>)
    ensures
        extent(r) == realmedia_extent(data@, start as int),
{
    if !fits(data, start, 18) || read_be32(data, start) != 0x2E52_4D46 {
        return None;
    }
    let first_size = read_be32(data, start + 4);
    let count = read_be32(data, start + 14);
    if first_size < 18 || count == 0 {
        return None;
    }
    // `None` once the next chunk would begin outside the data.
    let mut next = advance(data, start, first_size as u64);
    let ghost mut at: int = start + first_size;
    let mut left = count - 1;
    while left > 0
        invariant
            next matches Some(p) ==> p == at && p <= data@.len(),
            next is None ==> at > data@.len(),
            realmedia_extent(data@, start as int) == match realmedia_chunks_end(data@, at, left as int) {
                Some(end) => sized(data@.len() as int, end, 0, 80),
                None => None,
            },
        decreases left,
    {
        let pos = match next {
            Some(pos) => pos,
            None => {
                return None;
            },
        };
        if !fits(data, pos, 10) {
            return None;
        }
        let size = read_be32(data, pos + 4);
        if size < 10 {
            return None;
        }
        next = advance(data, pos, size as u64);
        proof {
            at = at + size;
        }
        left = left - 1;
    }
    match next {
        Some(end) => sized_extent(data, end, 0, 80),
        None => None,
    }
}

/// `Creative Voice File\x1a` stands at `pos`.
pub open spec fn is_voc_magic(s: Seq<u8>, pos: int) -> bool {
    be64(s, pos) == 0x4372_6561_7469_7665 && be64(s, pos + 8) == 0x2056_6F69_6365_2046 && be32(s, pos + 16)
        == 0x696C_651A
}

/// The offset of the terminator of the Creative Voice blocks from `pos` on.
pub open spec fn voc_terminator(s: Seq<u8>, pos: int) -> Option<int>
    decreases s.len() - pos,
{
    if !within(s, pos, 1) {
        None
    } else if s[pos] == 0 {
        Some(pos)
    } else if !within(s, pos, 4) || pos + 4 + le24(s, pos + 1) > s.len() {
        None
    } else {
        voc_terminator(s, pos + 4 + le24(s, pos + 1))
    }
}

/// A Creative Voice file at `start`: a header that declares its own length, then
/// blocks up to the terminator.
pub open spec fn voc_extent(s: Seq<u8>, start: int) -> Option<(int, int)> {
    if within(s, start, 22) && is_voc_magic(s, start) {
        match voc_terminator(s, start + le16(s, start + 20)) {
            Some(end) => Some((end, 85)),
            None => None,
        }
    } else {
        None
    }
}

fn find_voc_terminator(data: &[u8], first: usize) -> (r: Option<usize>)
    ensures
        r is Some <==> voc_terminator(data@, first as int) is Some,
        r matches Some(end) ==> voc_terminator(data@, first as int) == Some(end as int),
{
    let mut pos = first;
    loop
        invariant
            voc_terminator(data@, first as int) == voc_terminator(data@, pos as int),
        decreases data@.len() - pos,
    {
        if !fits(data, pos, 1) {
            return None;
        }
        if data[pos] == 0 {
            return Some(pos);
        }
        if !fits(data, pos, 4) {
            return None;
        }
        pos = advance(data, pos, 4 + read_le24(data, pos + 1) as u64)?;
    }
}

/// VOC: walks the blocks.
pub fn validate_voc(data: &[u8], start: usize) -> (r: Option<(usize, u8)>)
    ensures
        extent(r) == voc_extent(data@, start as int),
{
    if !fits(data, start, 22) || read_be64(data, start) != 0x4372_6561_7469_7665 || read_be64(
        data,
        start + 8,
    ) != 0x2056_6F69_6365_2046 || read_be32(data, start + 16) != 0x696C_651A {
        return None;
    }
    let first = match advance(data, start, read_le16(data, start + 20) as u64) {
        Some(first) => first,
        None => {
            return None;
        },
    };
    let end = find_voc_terminator(data, first)?;
    Some((end, 85))
}

/// The length of an EBML number that begins with this byte: one more than its
/// leading zero bits. A zero byte begins none.
pub open spec fn vint_len(first: u8) -> int {
    if first >= 0x80 {
        1
    } else if first >= 0x40 {
        2
    } else if first >= 0x20 {
        3
    } else if first >= 0x10 {
        4
    } else if first >= 0x08 {
        5
    } else if first >= 0x04 {
        6
    } else if first >= 0x02 {
        7
    } else if first == 0x01 {
        8
    } else {
        0
    }
}

/// The marker bit of the first byte of an EBML number of that length.
pub open spec fn vint_marker(len: int) -> int {
    if len == 1 {
        0x80
    } else if len == 2 {
        0x40
    } else if len == 3 {
        0x20
    } else if len == 4 {
        0x10
    } else if len == 5 {
        0x08
    } else if len == 6 {
        0x04
    } else if len == 7 {
        0x02
    } else {
        0x01
    }
}

/// The first `n` bytes of the EBML number at `pos`, without the marker bit, as a
/// big-endian number.
pub open spec fn vint_value(s: Seq<u8>, pos: int, n: int) -> int
    decreases n,
{
    if n <= 1 {
        s[pos] - vint_marker(vint_len(s[pos]))
    } else {
        0x100 * vint_value(s, pos, n - 1) + s[pos + n - 1]
    }
}

/// The EBML number at `pos`: its value and its length.
pub open spec fn vint(s: Seq<u8>, pos: int) -> Option<(int, int)> {
    if !within(s, pos, 1) || s[pos] == 0 || !within(s, pos, vint_len(s[pos])) {
        None
    } else {
        Some((vint_value(s, pos, vint_len(s[pos])), vint_len(s[pos])))
    }
}

/// The value that means "unknown" in an EBML number of that length: all of its
/// bits are set.
pub open spec fn vint_unknown(len: int) -> int {
    if len == 1 {
        0x7F
    } else if len == 2 {
        0x3FFF
    } else if len == 3 {
        0x1F_FFFF
    } else if len == 4 {
        0x0FFF_FFFF
    } else if len == 5 {
        0x07_FFFF_FFFF
    } else if len == 6 {
        0x03FF_FFFF_FFFF
    } else if len == 7 {
        0x01_FFFF_FFFF_FFFF
    } else {
        0xFF_FFFF_FFFF_FFFF
    }
}

/// An EBML document at `start`: a header element and a segment of known size.
pub open spec fn ebml_extent(s: Seq<u8>, start: int) -> Option<(int, int)> {
    if !within(s, start, 4) || be32(s, start) != 0x1A45_DFA3 {
        None
    } else {
        match vint(s, start + 4) {
            None => None,
            Some((header_size, header_len)) => {
                let segment = start + 4 + header_len + header_size;
                if !within(s, segment, 4) || be32(s, segment) != 0x1853_8067 {
                    None
                } else {
                    match vint(s, segment + 4) {
                        None => None,
                        Some((size, len)) => if size == vint_unknown(len) {
                            None
                        } else {
                            sized(s.len() as int, segment + 4 + len, size, 90)
                        },
                    }
                }
            },
        }
    }
}

/// The EBML number at `pos`.
pub fn read_ebml_vint(data: &[u8], pos: usize) -> (r: Option<(u64, usize)>)
    ensures
        r is Some <==> vint(data@, pos as int) is Some,
        r matches Some((value, len)) ==> vint(data@, pos as int) == Some((value as int, len as int))
            && 1 <= len <= 8 && pos + len <= data@.len() && value < 0x100_0000_0000_0000,
{
    if !fits(data, pos, 1) {
        return None;
    }
    let first = data[pos];
    let (len, marker): (usize, u8) = if first >= 0x80 {
        (1, 0x80)
    } else if first >= 0x40 {
        (2, 0x40)
    } else if first >= 0x20 {
        (3, 0x20)
    } else if first >= 0x10 {
        (4, 0x10)
    } else if first >= 0x08 {
        (5, 0x08)
    } else if first >= 0x04 {
        (6, 0x04)
    } else if first >= 0x02 {
        (7, 0x02)
    } else if first == 0x01 {
        (8, 0x01)
    } else {
        return None;
    };
    if !fits(data, pos, len) {
        return None;
    }
    let mut value: u64 = (first - marker) as u64;
    let mut i: usize = 1;
    let ghost mut bound: int = marker as int;
    while i < len
        invariant
            1 <= i <= len <= 8,
            pos + len <= data@.len(),
            value == vint_value(data@, pos as int, i as int),
            value < bound,
            i == 1 ==> bound == marker,
            len == 8 ==> marker == 0x01,
            len == 7 ==> marker == 0x02,
            len == 6 ==> marker == 0x04,
            len == 5 ==> marker == 0x08,
            len == 4 ==> marker == 0x10,
            len == 3 ==> marker == 0x20,
            len == 2 ==> marker == 0x40,
            i == 2 ==> bound == marker * 0x100,
            i == 3 ==> bound == marker * 0x1_0000,
            i == 4 ==> bound == marker * 0x100_0000,
            i == 5 ==> bound == marker * 0x1_0000_0000,
            i == 6 ==> bound == marker * 0x100_0000_0000,
            i == 7 ==> bound == marker * 0x1_0000_0000_0000,
            i == 8 ==> bound == marker * 0x100_0000_0000_0000,
        decreases len - i,
    {
        value = 0x100 * value + data[pos + i] as u64;
        proof {
            bound = bound * 0x100;
        }
        i = i + 1;
    }
    Some((value, len))
}

fn unknown_size(len: usize) -> (r: u64)
    ensures
        r == vint_unknown(len as int),
{
    match len {
        1 => 0x7F,
        2 => 0x3FFF,
        3 => 0x1F_FFFF,
        4 => 0x0FFF_FFFF,
        5 => 0x07_FFFF_FFFF,
        6 => 0x03FF_FFFF_FFFF,
        7 => 0x01_FFFF_FFFF_FFFF,
        _ => 0xFF_FFFF_FFFF_FFFF,
    }
}

/// EBML (Matroska, WebM): the size of the segment element gives the end.
pub fn validate_ebml(data: &[u8], start: usize) -> (r: Option<(usize, u8)>)
    ensures
        extent(r) == ebml_extent(data@, start as int),
{
    if !fits(data, start, 4) || read_be32(data, start) != 0x1A45_DFA3 {
        return None;
    }
    let (header_size, header_len) = read_ebml_vint(data, start + 4)?;
    let segment = match advance(data, start + 4 + header_len, header_size) {
        Some(segment) => segment,
        None => {
            return None;
        },
    };
    if !fits(data, segment, 4) || read_be32(data, segment) != 0x1853_8067 {
        return None;
    }
    let (size, len) = read_ebml_vint(data, segment + 4)?;
    if size == unknown_size(len) {
        return None;
    }
    sized_extent(data, segment + 4 + len, size, 90)
}

/// The extent of a Flash video whose tags begin at `first` and whose next tag,
/// with the length of the one before it in front, is at `pos`. The tags reach
/// the end of the data, or the file ends with its last complete tag, which is
/// less certain.
pub open spec fn flv_extent_from(s: Seq<u8>, first: int, pos: int) -> Option<(int, int)>
    decreases s.len() - pos,
{
    if !within(s, pos, 4) {
        walked(first, pos, 70)
    } else if !within(s, pos, 15) {
        if pos + 4 == s.len() {
            Some((s.len() - 1, 90))
        } else {
            walked(first, pos, 70)
        }
    } else {
        let next = pos + 15 + be24(s, pos + 5);
        if next > s.len() {
            walked(first, pos, 70)
        } else {
            flv_extent_from(s, first, next)
        }
    }
}

/// A Flash video at `start`: a header that declares its own length, then tags.
pub open spec fn flv_extent(s: Seq<u8>, start: int) -> Option<(int, int)> {
    if !within(s, start, 9) || be24(s, start) != 0x46_4C56 {
        None
    } else {
        let first = start + be32(s, start + 5);
        if first == 0 {
            None
        } else {
            flv_extent_from(s, first, first)
        }
    }
}

/// FLV: walks the tags.
pub fn validate_flv(data: &[u8], start: usize) -> (r: Option<(usize, u8)>)
    ensures
        extent(r) == flv_extent(data@, start as int),
{
    if !fits(data, start, 9) || read_be24(data, start) != 0x46_4C56 {
        return None;
    }
    let first = match advance(data, start, read_be32(data, start + 5) as u64) {
        Some(first) => first,
        None => {
            return None;
        },
    };
    if first == 0 {
        return None;
    }
    let mut pos = first;
    while fits(data, pos, 15)
        invariant_except_break
            first <= pos <= data@.len(),
            flv_extent(data@, start as int) == flv_extent_from(data@, first as int, pos as int),
        ensures
            first <= pos <= data@.len(),
            flv_extent(data@, start as int) == if pos + 4 == data@.len() {
                Some((data@.len() - 1, 90int))
            } else {
                walked(first as int, pos as int, 70)
            },
        decreases data@.len() - pos,
    {
        let size = read_be24(data, pos + 5);
        pos = match advance(data, pos, 15 + size as u64) {
            Some(next) => next,
            None => break,
        };
    }
    if data.len() - pos == 4 {
        return Some((data.len() - 1, 90));
    }
    walked_extent(first, pos, 70)
}

/// An AU file at `start`: its header gives the offset and the size of its data,
/// unless the size is marked as unknown.
pub open spec fn au_extent(s: Seq<u8>, start: int) -> Option<(int, int)> {
    if within(s, start, 12) && be32(s, start + 8) != 0xFFFF_FFFF {
        sized(s.len() as int, start, be32(s, start + 4) + be32(s, start + 8), 90)
    } else {
        None
    }
}

/// AU: the header declares offset and size of the data.
pub fn validate_au(data: &[u8], start: usize) -> (r: Option<(usize, u8)>)
    ensures
        extent(r) == au_extent(data@, start as int),
{
    if !fits(data, start, 12) {
        return None;
    }
    let data_size = read_be32(data, start + 8);
    if data_size == 0xFFFF_FFFF {
        return None;
    }
    sized_extent(data, start, read_be32(data, start + 4) as u64 + data_size as u64, 90)
}

/// The extent of a compressed Flash movie at `start` whose body takes `body_len`
/// bytes.
pub open spec fn swf_body_extent(len: int, start: int, body_len: int) -> Option<(int, int)> {
    sized(len, start, 8 + body_len, 90)
}

/// A Flash movie at `start`: an uncompressed one declares its own length; of one
/// compressed with zlib the stream has to be followed.
pub open spec fn swf_extent(s: Seq<u8>, start: int) -> Option<(int, int)> {
    if !within(s, start, 8) {
        None
    } else if be24(s, start) == 0x46_5753 {
        sized(s.len() as int, start, le32(s, start + 4), 95)
    } else if be24(s, start) == 0x43_5753 {
        match stream_len(true, s.skip(start + 8)) {
            Some(n) => swf_body_extent(s.len() as int, start, n),
            None => None,
        }
    } else {
        None
    }
}

/// The extent of a compressed Flash movie at `start` whose body takes `body_len`
/// bytes.
pub fn swf_end(data: &[u8], start: usize, body_len: usize) -> (r: Option<(usize, u8)>)
    ensures
        extent(r) == swf_body_extent(data@.len() as int, start as int, body_len as int),
{
    let total = (body_len as u64).checked_add(8)?;
    sized_extent(data, start, total, 90)
}

/// SWF: plain (`FWS`) and compressed with zlib (`CWS`).
pub fn validate_swf(data: &[u8], start: usize) -> (r: Option<(usize, u8)>)
    ensures
        extent(r) == swf_extent(data@, start as int),
{
    if !fits(data, start, 8) {
        return None;
    }
    let signature = read_be24(data, start);
    if signature == 0x46_5753 {
        return sized_extent(data, start, read_le32(data, start + 4) as u64, 95);
    }
    if signature != 0x43_5753 {
        return None;
    }
    let body = vstd::slice::slice_subrange(data, start + 8, data.len());
    assert(body@ == data@.skip(start + 8));
    let body_len = zlib_stream_len(body)?;
    swf_end(data, start, body_len)
}

} // verus!
