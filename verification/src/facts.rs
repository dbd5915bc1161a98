//! Key facts from file headers, as lines of text.
use vstd::prelude::*;
use vstd::string::*;
use vstd::utf8::{decode_utf8, valid_utf8};
use crate::bytes::{
    advance, be16, be32, be64, be24, fits, flag, le16, le32, num32, read_be16, read_be24, read_be32,
    read_be64, read_le16, read_le32, read_u32_at, within,
};
use crate::json::{array_len, array_len_at, nested_text, parse_json, parsed_json, text_at};
use crate::lines::{
    join_lines, join_texts, lines_from, no_texts, push_text, split_lines, split_words, texts_of,
    words,
};
use crate::media::SIGN_64;
use crate::names::{bytes_to_trimmed_string, field_text, name_of};
use crate::numbers::{
    dec, dec_text, left_padded, number, pad_left, parse_number, push_dec, push_signed, signed_dec,
};
use crate::rates::{
    double_scale, quotient_seconds, round_quotient, round_scaled, round_scaled_capped, rounded,
    seconds_of, significand, to_double, TWO_63,
};
use crate::search::{find_bytes, first_occurrence};
use crate::structure_listing::container_end;
use crate::text::{chars_of, lossy, lossy_text, same_text, utf8_text};

verus! {

broadcast use crate::slices::slice_len_bound;

/// A number between a label and a unit.
pub open spec fn fact(label: Seq<char>, n: int, unit: Seq<char>) -> Seq<char> {
    label + dec(n as nat) + unit
}

fn fact_line(label: &str, n: u64, unit: &str) -> (r: String)
    ensures
        r@ == fact(label@, n as int, unit@),
{
    let mut line = label.to_owned();
    push_dec(&mut line, n);
    line.append(unit);
    line
}

/// A duration in minutes and seconds; one that is not known is marked so.
pub open spec fn duration(seconds: Option<int>) -> Seq<char> {
    match seconds {
        Some(n) => dec((n / 60) as nat) + ":"@ + pad_left(dec((n % 60) as nat), 2, '0'),
        None => "н/д"@,
    }
}

/// A duration in minutes and seconds; one that is not known is marked so.
pub fn format_duration(seconds: Option<u64>) -> (r: String)
    ensures
        r@ == duration(int_of_u64(seconds)),
{
    match seconds {
        Some(n) => {
            let mut text = dec_text(n / 60);
            text.append(":");
            text.append(left_padded(dec_text(n % 60), 2, '0').as_str());
            text
        },
        None => "н/д".to_owned(),
    }
}

/// The line that gives a duration.
pub open spec fn duration_line(seconds: Option<int>) -> Seq<char> {
    "Тривалість: "@ + duration(seconds)
}

fn duration_text(seconds: Option<u64>) -> (r: String)
    ensures
        r@ == duration_line(int_of_u64(seconds)),
{
    let mut line = "Тривалість: ".to_owned();
    line.append(format_duration(seconds).as_str());
    line
}

/// The line that gives the number of channels.
pub open spec fn channels_line(channels: int) -> Seq<char> {
    fact("Канали: "@, channels, ""@)
}

/// The line that gives the sampling rate.
pub open spec fn rate_line(rate: int) -> Seq<char> {
    "Частота дискретизації: "@ + signed_dec(rate) + " Гц"@
}

/// The line that gives the sample size.
pub open spec fn bits_line(bits: int) -> Seq<char> {
    fact("Розрядність: "@, bits, " біт"@)
}

fn channels_text(channels: u32) -> (r: String)
    ensures
        r@ == channels_line(channels as int),
{
    fact_line("Канали: ", channels as u64, "")
}

fn rate_text(rate: i64) -> (r: String)
    ensures
        r@ == rate_line(rate as int),
{
    let mut line = "Частота дискретизації: ".to_owned();
    push_signed(&mut line, rate);
    line.append(" Гц");
    line
}

fn bits_text(bits: u32) -> (r: String)
    ensures
        r@ == bits_line(bits as int),
{
    fact_line("Розрядність: ", bits as u64, " біт")
}

/// The facts about a sound: channels, sampling rate, and where they are to be
/// given the sample size in bits and the duration in seconds, which may be
/// unknown.
pub open spec fn audio_lines(
    channels: int,
    rate: int,
    bits: Option<int>,
    seconds: Option<Option<int>>,
) -> Seq<Seq<char>> {
    seq![channels_line(channels), rate_line(rate)] + (match bits {
        Some(n) => seq![bits_line(n)],
        None => Seq::empty(),
    }) + (match seconds {
        Some(n) => seq![duration_line(n)],
        None => Seq::empty(),
    })
}

/// The facts about a sound, one to a line.
pub open spec fn audio_facts(
    channels: int,
    rate: int,
    bits: Option<int>,
    seconds: Option<Option<int>>,
) -> Seq<char> {
    join_lines(audio_lines(channels, rate, bits, seconds))
}

/// An optional number as a mathematical one.
pub open spec fn int_of_u32(n: Option<u32>) -> Option<int> {
    match n {
        Some(n) => Some(n as int),
        None => None,
    }
}

/// An optional number as a mathematical one.
pub open spec fn int_of_u64(n: Option<u64>) -> Option<int> {
    match n {
        Some(n) => Some(n as int),
        None => None,
    }
}

/// A duration that may be left out or unknown, as a mathematical one.
pub open spec fn given_seconds(seconds: Option<Option<u64>>) -> Option<Option<int>> {
    match seconds {
        Some(n) => Some(int_of_u64(n)),
        None => None,
    }
}

/// The facts about a sound, one to a line.
pub fn describe_audio(
    channels: u32,
    rate: i64,
    bits: Option<u32>,
    seconds: Option<Option<u64>>,
) -> (r: String)
    ensures
        r@ == audio_facts(channels as int, rate as int, int_of_u32(bits), given_seconds(seconds)),
{
    let mut lines = no_texts();
    push_text(&mut lines, channels_text(channels));
    push_text(&mut lines, rate_text(rate));
    if let Some(n) = bits {
        push_text(&mut lines, bits_text(n));
    }
    if let Some(n) = seconds {
        push_text(&mut lines, duration_text(n));
    }
    assert(texts_of(lines@) == audio_lines(
        channels as int,
        rate as int,
        int_of_u32(bits),
        given_seconds(seconds),
    ));
    join_texts(&lines)
}

/// The content of the first chunk tagged `id` from `pos` on in a container that
/// ends at `end`, if all of it is there.
pub open spec fn chunk_from(s: Seq<u8>, pos: int, end: int, is_be: bool, id: int) -> Option<Seq<u8>>
    decreases end - pos,
{
    if pos + 8 > end {
        None
    } else {
        let size = num32(s, pos + 4, is_be);
        let next = pos + 8 + size + size % 2;
        if be32(s, pos) == id {
            if within(s, pos + 8, size) {
                Some(s.subrange(pos + 8, pos + 8 + size))
            } else {
                None
            }
        } else if pos < next <= end {
            chunk_from(s, next, end, is_be, id)
        } else {
            None
        }
    }
}

/// The content of the first chunk tagged `id` in a RIFF or IFF container.
pub open spec fn chunk(s: Seq<u8>, is_be: bool, id: int) -> Option<Seq<u8>> {
    if within(s, 0, 8) {
        chunk_from(s, 12, container_end(s, is_be), is_be, id)
    } else {
        None
    }
}

fn find_chunk(data: &[u8], is_be: bool, id: u32) -> (r: Option<&[u8]>)
    ensures
        r is Some <==> chunk(data@, is_be, id as int) is Some,
        r matches Some(content) ==> chunk(data@, is_be, id as int) == Some(content@),
{
    if !fits(data, 0, 8) {
        return None;
    }
    let declared = 8 + read_u32_at(data, 4, is_be)? as u64;
    let end = if declared < data.len() as u64 {
        declared as usize
    } else {
        data.len()
    };
    let mut pos: usize = 12;
    while pos <= end && end - pos >= 8
        invariant_except_break
            end <= data@.len(),
            chunk(data@, is_be, id as int) == chunk_from(data@, pos as int, end as int, is_be, id as int),
        ensures
            chunk(data@, is_be, id as int) is None,
        decreases end - pos,
    {
        let size = match read_u32_at(data, pos + 4, is_be) {
            Some(size) => size as u64,
            None => break,
        };
        if read_be32(data, pos) == id {
            return match advance(data, pos + 8, size) {
                Some(stop) => Some(vstd::slice::slice_subrange(data, pos + 8, stop)),
                None => None,
            };
        }
        pos = match advance(data, pos, 8 + size + size % 2) {
            Some(next) if next <= end => next,
            _ => break,
        };
    }
    None
}

/// WAV: the format chunk, and the length of the data chunk.
pub open spec fn wav_text(s: Seq<u8>) -> Option<Seq<char>> {
    match chunk(s, false, 0x666D_7420) {
        Some(format) if format.len() >= 16 => {
            let byte_rate = le32(format, 8);
            let seconds = match chunk(s, false, 0x6461_7461) {
                Some(samples) if byte_rate > 0 => Some(
                    Some(rounded(samples.len() as int, byte_rate)),
                ),
                _ => None,
            };
            Some(audio_facts(le16(format, 2), le32(format, 4), Some(le16(format, 14)), seconds))
        },
        _ => None,
    }
}

fn wav_facts(data: &[u8]) -> (r: Option<String>)
    ensures
        name_of(r) == wav_text(data@),
{
    let format = find_chunk(data, false, 0x666D_7420)?;
    if !fits(format, 0, 16) {
        return None;
    }
    let channels = read_le16(format, 2) as u32;
    let sample_rate = read_le32(format, 4);
    let byte_rate = read_le32(format, 8);
    let bits = read_le16(format, 14) as u32;
    let mut seconds: Option<Option<u64>> = None;
    if byte_rate > 0 {
        if let Some(samples) = find_chunk(data, false, 0x6461_7461) {
            seconds = Some(Some(round_quotient(samples.len() as u64, byte_rate as u64)));
        }
    }
    Some(describe_audio(channels, sample_rate as i64, Some(bits), seconds))
}

/// A number limited to the range of signed 64-bit ones.
pub open spec fn clamp_i64(n: int) -> int {
    if n < i64::MIN {
        i64::MIN as int
    } else if n > i64::MAX {
        i64::MAX as int
    } else {
        n
    }
}

/// A scaled number with a sign, rounded and limited to signed 64 bits.
pub open spec fn signed_rounded(negative: bool, m: int, k: int) -> int {
    clamp_i64(
        if negative {
            -round_scaled(m, k)
        } else {
            round_scaled(m, k)
        },
    )
}

fn round_signed(negative: bool, m: u64, k: i32) -> (r: i64)
    requires
        -0x1_0000 <= k <= 0x1_0000,
    ensures
        r == signed_rounded(negative, m as int, k as int),
{
    let n = round_scaled_capped(m, k, TWO_63);
    if negative {
        if n == TWO_63 {
            i64::MIN
        } else {
            -(n as i64)
        }
    } else if n == TWO_63 {
        i64::MAX
    } else {
        n as i64
    }
}

/// The binary exponent of the 80-bit extended number at `i`, for its mantissa
/// as an integer.
pub open spec fn extended_exponent(s: Seq<u8>, i: int) -> int {
    0x100 * (s[i] % 0x80) + s[i + 1] - 16383 - 63
}

/// AIFF: the common chunk, whose sampling rate is an 80-bit extended number that
/// is taken as a double: its mantissa is rounded to 53 binary digits, and a power
/// of two below `2^-1023`, the reciprocal of one that is infinite, counts as 0.
/// There is a duration where the rate is positive, and it is unknown where it is
/// infinite.
pub open spec fn aiff_text(s: Seq<u8>) -> Option<Seq<char>> {
    match chunk(s, true, 0x434F_4D4D) {
        Some(common) if common.len() >= 18 => {
            let negative = common[8] >= 0x80;
            let mantissa = be64(common, 10);
            let exponent = extended_exponent(common, 8);
            let digits = significand(mantissa);
            let scale = double_scale(mantissa, 1, 0, 0) + exponent;
            let seconds = if !negative && mantissa > 0 && exponent >= -1023 {
                Some(seconds_of(be32(common, 2), digits, scale))
            } else {
                None
            };
            Some(
                audio_facts(
                    be16(common, 0),
                    signed_rounded(negative, digits, scale),
                    Some(be16(common, 6)),
                    seconds,
                ),
            )
        },
        _ => None,
    }
}

fn aiff_facts(data: &[u8]) -> (r: Option<String>)
    ensures
        name_of(r) == aiff_text(data@),
{
    let common = find_chunk(data, true, 0x434F_4D4D)?;
    if !fits(common, 0, 18) {
        return None;
    }
    let channels = read_be16(common, 0) as u32;
    let frames = read_be32(common, 2);
    let bits = read_be16(common, 6) as u32;
    let negative = common[8] >= 0x80;
    let exponent = 0x100 * (common[8] % 0x80) as i32 + common[9] as i32 - 16383 - 63;
    let mantissa = read_be64(common, 10);
    let (digits, extra) = to_double(mantissa);
    let scale = extra + exponent;
    let rate = round_signed(negative, digits, scale);
    let mut seconds: Option<Option<u64>> = None;
    if !negative && mantissa > 0 && exponent >= -1023 {
        seconds = Some(quotient_seconds(frames, digits, scale));
    }
    Some(describe_audio(channels, rate, Some(bits), seconds))
}

/// The sample size in bits of an AU encoding, where it is fixed.
pub open spec fn encoding_bits(encoding: int) -> Option<int> {
    if encoding == 1 || encoding == 2 {
        Some(8)
    } else if encoding == 3 {
        Some(16)
    } else if encoding == 4 {
        Some(24)
    } else if encoding == 5 || encoding == 6 {
        Some(32)
    } else if encoding == 7 {
        Some(64)
    } else {
        None
    }
}

/// The sample size in bits of an AU encoding, where it is fixed.
pub fn au_encoding_bits(encoding: u32) -> (r: Option<u32>)
    ensures
        int_of_u32(r) == encoding_bits(encoding as int),
{
    match encoding {
        1 | 2 => Some(8),
        3 => Some(16),
        4 => Some(24),
        5 | 6 => Some(32),
        7 => Some(64),
        _ => None,
    }
}

/// The number of channels that a frame is counted with.
pub open spec fn counted_channels(channels: int) -> int {
    if channels > 0 {
        channels
    } else {
        1
    }
}

/// AU: the header. The duration follows from the data size unless that is
/// unknown or the byte rate does not fit in 64 bits.
pub open spec fn au_text(s: Seq<u8>) -> Option<Seq<char>> {
    if !within(s, 0, 24) {
        None
    } else {
        let size = be32(s, 8);
        let rate = be32(s, 16);
        let channels = be32(s, 20);
        let bits = encoding_bits(be32(s, 12));
        let seconds = match bits {
            Some(n) => {
                let byte_rate = (n / 8) * counted_channels(channels) * rate;
                if rate > 0 && size != 0xFFFF_FFFF && byte_rate <= u64::MAX {
                    Some(Some(rounded(size, byte_rate)))
                } else {
                    None
                }
            },
            None => None,
        };
        Some(audio_facts(channels, rate, bits, seconds))
    }
}

fn au_facts(data: &[u8]) -> (r: Option<String>)
    ensures
        name_of(r) == au_text(data@),
{
    if !fits(data, 0, 24) {
        return None;
    }
    let size = read_be32(data, 8);
    let rate = read_be32(data, 16);
    let channels = read_be32(data, 20);
    let bits = au_encoding_bits(read_be32(data, 12));
    let mut seconds: Option<Option<u64>> = None;
    if let Some(n) = bits {
        let counted: u64 = if channels > 0 {
            channels as u64
        } else {
            1
        };
        let width = (n / 8) as u64;
        assert(1 <= width * counted <= 8 * 0xFFFF_FFFF) by (nonlinear_arith)
            requires
                1 <= width <= 8,
                1 <= counted <= 0xFFFF_FFFF,
        ;
        let frame = width * counted;
        if rate > 0 && size != 0xFFFF_FFFF {
            assert(frame * rate >= 1) by (nonlinear_arith)
                requires
                    frame >= 1,
                    rate >= 1,
            ;
            if let Some(byte_rate) = frame.checked_mul(rate as u64) {
                seconds = Some(Some(round_quotient(size as u64, byte_rate)));
            }
        }
    }
    Some(describe_audio(channels, rate as i64, bits, seconds))
}

/// A 64-bit floating-point number given by its bits, rounded to an integer and
/// limited to signed 64 bits; 0 if it is not a number.
pub open spec fn double_rounded(bits: int) -> int {
    let negative = bits >= 0x8000_0000_0000_0000;
    let exponent = (bits / 0x10_0000_0000_0000) % 0x800;
    let fraction = bits % 0x10_0000_0000_0000;
    if exponent == 0x7FF {
        if fraction != 0 {
            0
        } else if negative {
            i64::MIN as int
        } else {
            i64::MAX as int
        }
    } else if exponent == 0 {
        0
    } else {
        signed_rounded(negative, 0x10_0000_0000_0000 + fraction, exponent - 1075)
    }
}

fn round_double(bits: u64) -> (r: i64)
    ensures
        r == double_rounded(bits as int),
{
    let negative = bits >= 0x8000_0000_0000_0000;
    let exponent = (bits / 0x10_0000_0000_0000) % 0x800;
    let fraction = bits % 0x10_0000_0000_0000;
    if exponent == 0x7FF {
        if fraction != 0 {
            0
        } else if negative {
            i64::MIN
        } else {
            i64::MAX
        }
    } else if exponent == 0 {
        0
    } else {
        round_signed(negative, 0x10_0000_0000_0000 + fraction, exponent as i32 - 1075)
    }
}

/// The facts in the first description chunk of a Core Audio file from `pos` on.
pub open spec fn caf_text_from(s: Seq<u8>, pos: int) -> Option<Seq<char>>
    decreases s.len() - pos,
{
    if !within(s, pos, 12) {
        None
    } else if be32(s, pos) == 0x6465_7363 {
        if within(s, pos + 12, 36) {
            let bits = be32(s, pos + 44);
            Some(
                audio_facts(
                    be32(s, pos + 40),
                    double_rounded(be64(s, pos + 12)),
                    if bits > 0 {
                        Some(bits)
                    } else {
                        None
                    },
                    None,
                ),
            )
        } else {
            None
        }
    } else {
        let next = pos + 12 + be64(s, pos + 4);
        if be64(s, pos + 4) >= SIGN_64 || next > s.len() {
            None
        } else {
            caf_text_from(s, next)
        }
    }
}

fn caf_facts(data: &[u8]) -> (r: Option<String>)
    ensures
        name_of(r) == caf_text_from(data@, 8),
{
    let mut pos: usize = 8;
    while fits(data, pos, 12)
        invariant
            caf_text_from(data@, 8) == caf_text_from(data@, pos as int),
        decreases data@.len() - pos,
    {
        if read_be32(data, pos) == 0x6465_7363 {
            if !fits(data, pos + 12, 36) {
                return None;
            }
            let bits = read_be32(data, pos + 44);
            let rate = round_double(read_be64(data, pos + 12));
            return Some(
                describe_audio(
                    read_be32(data, pos + 40),
                    rate,
                    if bits > 0 {
                        Some(bits)
                    } else {
                        None
                    },
                    None,
                ),
            );
        }
        let size = read_be64(data, pos + 4);
        if size >= SIGN_64 {
            return None;
        }
        pos = match advance(data, pos, 12 + size) {
            Some(next) => next,
            None => {
                return None;
            },
        };
    }
    None
}

/// FLAC: the stream information block, which comes first. One 64-bit field packs
/// the sampling rate, the channels, the sample size and the number of samples.
pub open spec fn flac_text(s: Seq<u8>) -> Option<Seq<char>> {
    if !within(s, 0, 42) || s[4] % 0x80 != 0 || be24(s, 5) < 34 {
        None
    } else {
        let packed = be64(s, 18);
        let rate = packed / 0x1000_0000_0000;
        let samples = packed % 0x10_0000_0000;
        Some(
            audio_facts(
                (packed / 0x200_0000_0000) % 8 + 1,
                rate,
                Some((packed / 0x10_0000_0000) % 32 + 1),
                if rate > 0 && samples > 0 {
                    Some(Some(rounded(samples, rate)))
                } else {
                    None
                },
            ),
        )
    }
}

fn flac_facts(data: &[u8]) -> (r: Option<String>)
    ensures
        name_of(r) == flac_text(data@),
{
    if !fits(data, 0, 42) || data[4] % 0x80 != 0 || read_be24(data, 5) < 34 {
        return None;
    }
    let packed = read_be64(data, 18);
    let rate = packed / 0x1000_0000_0000;
    let channels = (packed / 0x200_0000_0000) % 8 + 1;
    let bits = (packed / 0x10_0000_0000) % 32 + 1;
    let samples = packed % 0x10_0000_0000;
    let mut seconds: Option<Option<u64>> = None;
    if rate > 0 && samples > 0 {
        seconds = Some(Some(round_quotient(samples, rate)));
    }
    Some(describe_audio(channels as u32, rate as i64, Some(bits as u32), seconds))
}

/// The size of a picture.
pub open spec fn resolution(width: int, height: int) -> Seq<char> {
    "Роздільність: "@ + dec(width as nat) + "×"@ + dec(height as nat)
}

/// The size of a texture; one without height is one-dimensional.
pub open spec fn texture_size(width: int, height: int) -> Seq<char> {
    if height == 0 {
        fact("Роздільність: "@, width, " (1D-текстура)"@)
    } else {
        resolution(width, height)
    }
}

fn resolution_text(width: u32, height: u32) -> (r: String)
    ensures
        r@ == resolution(width as int, height as int),
{
    let mut text = "Роздільність: ".to_owned();
    push_dec(&mut text, width as u64);
    text.append("×");
    push_dec(&mut text, height as u64);
    text
}

fn texture_text(width: u32, height: u32) -> (r: String)
    ensures
        r@ == texture_size(width as int, height as int),
{
    if height == 0 {
        fact_line("Роздільність: ", width as u64, " (1D-текстура)")
    } else {
        resolution_text(width, height)
    }
}

/// DDS: height and width in the header.
pub open spec fn dds_text(s: Seq<u8>) -> Option<Seq<char>> {
    if within(s, 12, 8) {
        Some(resolution(le32(s, 16), le32(s, 12)))
    } else {
        None
    }
}

fn dds_facts(data: &[u8]) -> (r: Option<String>)
    ensures
        name_of(r) == dds_text(data@),
{
    if !fits(data, 12, 8) {
        return None;
    }
    Some(resolution_text(read_le32(data, 16), read_le32(data, 12)))
}

/// Width and height stand next to each other at `at`.
pub open spec fn texture_header_text(s: Seq<u8>, at: int) -> Option<Seq<char>> {
    if within(s, at, 8) {
        Some(texture_size(le32(s, at), le32(s, at + 4)))
    } else {
        None
    }
}

fn ktx_facts(data: &[u8]) -> (r: Option<String>)
    ensures
        name_of(r) == texture_header_text(data@, 36),
{
    if !fits(data, 36, 8) {
        return None;
    }
    Some(texture_text(read_le32(data, 36), read_le32(data, 40)))
}

fn ktx2_facts(data: &[u8]) -> (r: Option<String>)
    ensures
        name_of(r) == texture_header_text(data@, 20),
{
    if !fits(data, 20, 8) {
        return None;
    }
    Some(texture_text(read_le32(data, 20), read_le32(data, 24)))
}

/// PVR: height and width in the header.
pub open spec fn pvr_text(s: Seq<u8>) -> Option<Seq<char>> {
    if within(s, 24, 8) {
        Some(resolution(le32(s, 28), le32(s, 24)))
    } else {
        None
    }
}

fn pvr_facts(data: &[u8]) -> (r: Option<String>)
    ensures
        name_of(r) == pvr_text(data@),
{
    if !fits(data, 24, 8) {
        return None;
    }
    Some(resolution_text(read_le32(data, 28), read_le32(data, 24)))
}

/// How an NES cartridge mirrors its name tables.
pub open spec fn mirroring(flags: u8) -> Seq<char> {
    if flag(flags, 8) {
        "чотириекранне"@
    } else if flag(flags, 1) {
        "вертикальне"@
    } else {
        "горизонтальне"@
    }
}

/// NES: ROM sizes, mapper and mirroring. The mapper number is split between two
/// bytes.
pub open spec fn nes_text(s: Seq<u8>) -> Option<Seq<char>> {
    if !within(s, 0, 8) {
        None
    } else {
        let mapper = s[7] / 16 * 16 + s[6] / 16;
        Some(
            fact("PRG ROM: "@, s[4] * 16, " KiB\n"@) + fact("CHR ROM: "@, s[5] * 8, " KiB\n"@) + fact(
                "Мапер: "@,
                mapper,
                "\nДзеркалення: "@,
            ) + mirroring(s[6]),
        )
    }
}

fn nes_facts(data: &[u8]) -> (r: Option<String>)
    ensures
        name_of(r) == nes_text(data@),
{
    if !fits(data, 0, 8) {
        return None;
    }
    let flags = data[6];
    let mapper = data[7] / 16 * 16 + flags / 16;
    let mut text = fact_line("PRG ROM: ", data[4] as u64 * 16, " KiB\n");
    text.append(fact_line("CHR ROM: ", data[5] as u64 * 8, " KiB\n").as_str());
    text.append(fact_line("Мапер: ", mapper as u64, "\nДзеркалення: ").as_str());
    text.append(
        if (flags / 8) % 2 == 1 {
            "чотириекранне"
        } else if flags % 2 == 1 {
            "вертикальне"
        } else {
            "горизонтальне"
        },
    );
    Some(text)
}

/// Genesis: the domestic name of the game, and its region where one is given.
pub open spec fn genesis_text(s: Seq<u8>) -> Option<Seq<char>> {
    if !within(s, 0x120, 48) {
        None
    } else {
        let name = field_text(s.subrange(0x120, 0x150));
        let region = if within(s, 0x1F0, 3) {
            field_text(s.subrange(0x1F0, 0x1F3))
        } else {
            Seq::empty()
        };
        if name.len() == 0 {
            None
        } else if region.len() == 0 {
            Some("Назва: "@ + name)
        } else {
            Some("Назва: "@ + name + "\nРегіон: "@ + region)
        }
    }
}

fn genesis_facts(data: &[u8]) -> (r: Option<String>)
    ensures
        name_of(r) == genesis_text(data@),
{
    if !fits(data, 0x120, 48) {
        return None;
    }
    let name = bytes_to_trimmed_string(data, 0x120, 0x150)?;
    let mut text = "Назва: ".to_owned();
    text.append(name.as_str());
    if fits(data, 0x1F0, 3) {
        if let Some(region) = bytes_to_trimmed_string(data, 0x1F0, 0x1F3) {
            text.append("\nРегіон: ");
            text.append(region.as_str());
        }
    }
    Some(text)
}

/// The words are a Radiance resolution: height and width, each after its axis.
pub open spec fn is_resolution_line(tokens: Seq<Seq<char>>) -> bool {
    &&& tokens.len() == 4
    &&& tokens[0] == "-Y"@ || tokens[0] == "+Y"@
    &&& tokens[2] == "-X"@ || tokens[2] == "+X"@
}

/// The resolution in the first of the lines from `i` on that gives one.
pub open spec fn resolution_in(lines: Seq<Seq<char>>, i: int) -> Option<Seq<char>>
    decreases lines.len() - i,
{
    if i < 0 || i >= lines.len() {
        None
    } else if is_resolution_line(words(lines[i])) {
        match (
            number(words(lines[i])[1], 10, u32::MAX as int),
            number(words(lines[i])[3], 10, u32::MAX as int),
        ) {
            (Some(height), Some(width)) => Some(resolution(width, height)),
            _ => None,
        }
    } else {
        resolution_in(lines, i + 1)
    }
}

/// The first 2048 bytes, or all of them.
pub open spec fn header_bytes(s: Seq<u8>) -> Seq<u8> {
    if s.len() < 2048 {
        s
    } else {
        s.take(2048)
    }
}

/// HDR: the resolution line of the text header.
pub open spec fn hdr_text(s: Seq<u8>) -> Option<Seq<char>> {
    resolution_in(lines_from(lossy(header_bytes(s)), 0), 0)
}

fn parse_u32(text: &String) -> (r: Option<u32>)
    ensures
        int_of_u32(r) == number(text@, 10, u32::MAX as int),
{
    let chars = chars_of(text.as_str());
    assert(chars@.subrange(0, chars@.len() as int) == chars@);
    match parse_number(&chars, 0, chars.len(), 10, u32::MAX as u64) {
        Some(n) => Some(n as u32),
        None => None,
    }
}

/// The resolution that a line gives: `None` if it gives none, `Some(None)` if its
/// numbers are out of range.
fn line_resolution(line: &Vec<char>) -> (r: Option<Option<String>>)
    ensures
        r is Some <==> is_resolution_line(words(line@)),
        r matches Some(text) ==> name_of(text) == resolution_in(seq![line@], 0),
{
    let tokens = split_words(line);
    let ghost model = words(line@);
    if tokens.len() != 4 {
        return None;
    }
    assert(model[0] == tokens@[0]@ && model[1] == tokens@[1]@ && model[2] == tokens@[2]@ && model[3]
        == tokens@[3]@);
    if !(same_text(tokens[0].as_str(), "-Y") || same_text(tokens[0].as_str(), "+Y")) {
        return None;
    }
    if !(same_text(tokens[2].as_str(), "-X") || same_text(tokens[2].as_str(), "+X")) {
        return None;
    }
    match (parse_u32(&tokens[1]), parse_u32(&tokens[3])) {
        (Some(height), Some(width)) => Some(Some(resolution_text(width, height))),
        _ => Some(None),
    }
}

/// The resolution in the first of the lines that gives one.
pub fn find_resolution(lines: &Vec<Vec<char>>) -> (r: Option<String>)
    ensures
        name_of(r) == resolution_in(lines@.map_values(|line: Vec<char>| line@), 0),
{
    let ghost model = lines@.map_values(|line: Vec<char>| line@);
    let mut i: usize = 0;
    while i < lines.len()
        invariant
            i <= lines@.len(),
            model == lines@.map_values(|line: Vec<char>| line@),
            resolution_in(model, 0) == resolution_in(model, i as int),
        decreases lines@.len() - i,
    {
        assert(model[i as int] == lines@[i as int]@);
        if let Some(text) = line_resolution(&lines[i]) {
            assert(seq![lines@[i as int]@][0] == model[i as int]);
            return text;
        }
        i = i + 1;
    }
    None
}

fn hdr_facts(data: &[u8]) -> (r: Option<String>)
    ensures
        name_of(r) == hdr_text(data@),
{
    let end = if data.len() < 2048 {
        data.len()
    } else {
        2048
    };
    let head = vstd::slice::slice_subrange(data, 0, end);
    assert(head@ == header_bytes(data@));
    let text = lossy_text(head);
    let chars = chars_of(text.as_str());
    let lines = split_lines(&chars);
    find_resolution(&lines)
}

/// The line that a PLY header line gives, if any: the storage format, or the
/// name and number of elements.
pub open spec fn ply_line(tokens: Seq<Seq<char>>) -> Option<Seq<char>> {
    if tokens.len() >= 2 && tokens[0] == "format"@ {
        Some("Формат: "@ + tokens[1])
    } else if tokens.len() >= 3 && tokens[0] == "element"@ {
        Some(tokens[1] + ": "@ + tokens[2])
    } else {
        None
    }
}

/// The lines that the first `n` PLY header lines give.
pub open spec fn ply_lines(lines: Seq<Seq<char>>, n: int) -> Seq<Seq<char>>
    decreases n,
{
    if n <= 0 {
        Seq::empty()
    } else {
        match ply_line(words(lines[n - 1])) {
            Some(line) => ply_lines(lines, n - 1).push(line),
            None => ply_lines(lines, n - 1),
        }
    }
}

/// The facts in the lines of a PLY header.
pub open spec fn ply_header_text(lines: Seq<Seq<char>>) -> Option<Seq<char>> {
    let found = ply_lines(lines, lines.len() as int);
    if found.len() == 0 {
        None
    } else {
        Some(join_lines(found))
    }
}

/// `end_header`
pub open spec fn end_header() -> Seq<u8> {
    seq![0x65u8, 0x6Eu8, 0x64u8, 0x5Fu8, 0x68u8, 0x65u8, 0x61u8, 0x64u8, 0x65u8, 0x72u8]
}

/// PLY: the text before `end_header`.
pub open spec fn ply_text(s: Seq<u8>) -> Option<Seq<char>> {
    match first_occurrence(s, 0, end_header()) {
        Some(end) => if valid_utf8(s.take(end)) {
            ply_header_text(lines_from(decode_utf8(s.take(end)), 0))
        } else {
            None
        },
        None => None,
    }
}

fn describe_ply_line(line: &Vec<char>) -> (r: Option<String>)
    ensures
        name_of(r) == ply_line(words(line@)),
{
    let tokens = split_words(line);
    let ghost model = words(line@);
    assert(forall|i: int| 0 <= i < tokens@.len() ==> model[i] == #[trigger] tokens@[i]@);
    if tokens.len() < 2 {
        return None;
    }
    if same_text(tokens[0].as_str(), "format") {
        let mut text = "Формат: ".to_owned();
        text.append(tokens[1].as_str());
        return Some(text);
    }
    if tokens.len() < 3 || !same_text(tokens[0].as_str(), "element") {
        return None;
    }
    let mut text = tokens[1].clone();
    text.append(": ");
    text.append(tokens[2].as_str());
    Some(text)
}

/// The facts in the lines of a PLY header.
pub fn describe_ply_header(lines: &Vec<Vec<char>>) -> (r: Option<String>)
    ensures
        name_of(r) == ply_header_text(lines@.map_values(|line: Vec<char>| line@)),
{
    let ghost model = lines@.map_values(|line: Vec<char>| line@);
    let mut found = no_texts();
    let mut i: usize = 0;
    while i < lines.len()
        invariant
            i <= lines@.len(),
            model == lines@.map_values(|line: Vec<char>| line@),
            texts_of(found@) == ply_lines(model, i as int),
        decreases lines@.len() - i,
    {
        assert(model[i as int] == lines@[i as int]@);
        if let Some(text) = describe_ply_line(&lines[i]) {
            push_text(&mut found, text);
        }
        i = i + 1;
    }
    if found.len() == 0 {
        assert(texts_of(found@).len() == 0);
        None
    } else {
        assert(texts_of(found@).len() == found@.len());
        Some(join_texts(&found))
    }
}

fn ply_facts(data: &[u8]) -> (r: Option<String>)
    ensures
        name_of(r) == ply_text(data@),
{
    let needle: [u8; 10] = [0x65, 0x6E, 0x64, 0x5F, 0x68, 0x65, 0x61, 0x64, 0x65, 0x72];
    assert(needle@ == end_header());
    let end = find_bytes(data, 0, &needle)?;
    let head = vstd::slice::slice_subrange(data, 0, end);
    assert(head@ == data@.take(end as int));
    let text = utf8_text(head)?;
    let chars = chars_of(text);
    let lines = split_lines(&chars);
    describe_ply_header(&lines)
}

/// The lengths of the arrays of a glTF document that are counted.
pub open spec fn gltf_counts(document: serde_json::Value) -> Seq<Option<usize>> {
    seq![
        array_len_at(document, "scenes"@),
        array_len_at(document, "nodes"@),
        array_len_at(document, "meshes"@),
        array_len_at(document, "materials"@),
        array_len_at(document, "animations"@),
    ]
}

/// The number of elements of an array; one that is not there has none.
pub open spec fn count_of(len: Option<usize>) -> int {
    match len {
        Some(n) => n as int,
        None => 0,
    }
}

/// The lines for the answers of a glTF document: what its scene holds, its
/// animations where it has some, and the program that made it where it says so.
pub open spec fn gltf_lines(counts: Seq<Option<usize>>, generator: Option<Seq<char>>) -> Seq<Seq<char>> {
    let animations = count_of(counts[4]);
    seq![
        fact("Сцени: "@, count_of(counts[0]), ""@),
        fact("Вузли: "@, count_of(counts[1]), ""@),
        fact("Меші: "@, count_of(counts[2]), ""@),
        fact("Матеріали: "@, count_of(counts[3]), ""@),
    ] + (if animations > 0 {
        seq![fact("Анімації: "@, animations, ""@)]
    } else {
        Seq::empty()
    }) + (match generator {
        Some(name) => seq!["Створено: "@ + name],
        None => Seq::empty(),
    })
}

/// The JSON chunk of a binary glTF file, which is its first chunk.
pub open spec fn gltf_json(s: Seq<u8>) -> Option<Seq<u8>> {
    if within(s, 12, 8) && be32(s, 16) == 0x4A53_4F4E && within(s, 20, le32(s, 12)) {
        Some(s.subrange(20, 20 + le32(s, 12)))
    } else {
        None
    }
}

/// glTF: what the JSON chunk answers.
pub open spec fn gltf_text(s: Seq<u8>) -> Option<Seq<char>> {
    match gltf_json(s) {
        Some(json) => match parsed_json(json) {
            Some(document) => Some(
                join_lines(
                    gltf_lines(
                        gltf_counts(document),
                        text_at(document, "asset"@, "generator"@),
                    ),
                ),
            ),
            None => None,
        },
        None => None,
    }
}

fn count_line(label: &str, len: Option<usize>) -> (r: String)
    ensures
        r@ == fact(label@, count_of(len), ""@),
{
    let n = match len {
        Some(n) => n,
        None => 0,
    };
    fact_line(label, n as u64, "")
}

/// The facts that follow from the answers of a glTF document: the lengths of its
/// scenes, nodes, meshes, materials and animations, and its generator.
pub fn describe_gltf(counts: &Vec<Option<usize>>, generator: &Option<String>) -> (r: String)
    requires
        counts@.len() == 5,
    ensures
        r@ == join_lines(gltf_lines(counts@, name_of(*generator))),
{
    let mut lines = no_texts();
    push_text(&mut lines, count_line("Сцени: ", counts[0]));
    push_text(&mut lines, count_line("Вузли: ", counts[1]));
    push_text(&mut lines, count_line("Меші: ", counts[2]));
    push_text(&mut lines, count_line("Матеріали: ", counts[3]));
    let animated = match counts[4] {
        Some(n) => n > 0,
        None => false,
    };
    if animated {
        push_text(&mut lines, count_line("Анімації: ", counts[4]));
    }
    if let Some(name) = generator {
        let mut text = "Створено: ".to_owned();
        text.append(name.as_str());
        push_text(&mut lines, text);
    }
    assert(texts_of(lines@) == gltf_lines(counts@, name_of(*generator)));
    join_texts(&lines)
}

/// The JSON chunk of a binary glTF file.
pub fn gltf_json_chunk(data: &[u8]) -> (r: Option<&[u8]>)
    ensures
        r is Some <==> gltf_json(data@) is Some,
        r matches Some(json) ==> gltf_json(data@) == Some(json@),
{
    if !fits(data, 12, 8) || read_be32(data, 16) != 0x4A53_4F4E {
        return None;
    }
    let end = match advance(data, 20, read_le32(data, 12) as u64) {
        Some(end) => end,
        None => {
            return None;
        },
    };
    Some(vstd::slice::slice_subrange(data, 20, end))
}

fn gltf_facts(data: &[u8]) -> (r: Option<String>)
    ensures
        name_of(r) == gltf_text(data@),
{
    let json = gltf_json_chunk(data)?;
    let document = parse_json(json)?;
    let mut counts: Vec<Option<usize>> = Vec::new();
    counts.push(array_len(&document, "scenes"));
    counts.push(array_len(&document, "nodes"));
    counts.push(array_len(&document, "meshes"));
    counts.push(array_len(&document, "materials"));
    counts.push(array_len(&document, "animations"));
    assert(counts@ == gltf_counts(document));
    let generator = nested_text(&document, "asset", "generator");
    Some(describe_gltf(&counts, &generator))
}

/// The facts that are known of the file `s` of that format.
pub open spec fn facts_of(format: Seq<char>, s: Seq<u8>) -> Option<Seq<char>> {
    if format == "WAV"@ {
        wav_text(s)
    } else if format == "AIFF"@ || format == "AIFC"@ {
        aiff_text(s)
    } else if format == "AU"@ {
        au_text(s)
    } else if format == "CAF"@ {
        caf_text_from(s, 8)
    } else if format == "FLAC"@ {
        flac_text(s)
    } else if format == "DDS"@ {
        dds_text(s)
    } else if format == "KTX"@ {
        texture_header_text(s, 36)
    } else if format == "KTX2"@ {
        texture_header_text(s, 20)
    } else if format == "HDR"@ {
        hdr_text(s)
    } else if format == "PVR"@ {
        pvr_text(s)
    } else if format == "NES"@ {
        nes_text(s)
    } else if format == "Genesis"@ {
        genesis_text(s)
    } else if format == "glTF-Binary"@ {
        gltf_text(s)
    } else if format == "PLY"@ {
        ply_text(s)
    } else {
        None
    }
}

/// Key facts from the header of a file of that format, one to a line.
/// `fragment` is the file itself.
pub fn format_facts(format: &str, fragment: &[u8]) -> (r: Option<String>)
    ensures
        name_of(r) == facts_of(format@, fragment@),
{
    if same_text(format, "WAV") {
        wav_facts(fragment)
    } else if same_text(format, "AIFF") || same_text(format, "AIFC") {
        aiff_facts(fragment)
    } else if same_text(format, "AU") {
        au_facts(fragment)
    } else if same_text(format, "CAF") {
        caf_facts(fragment)
    } else if same_text(format, "FLAC") {
        flac_facts(fragment)
    } else if same_text(format, "DDS") {
        dds_facts(fragment)
    } else if same_text(format, "KTX") {
        ktx_facts(fragment)
    } else if same_text(format, "KTX2") {
        ktx2_facts(fragment)
    } else if same_text(format, "HDR") {
        hdr_facts(fragment)
    } else if same_text(format, "PVR") {
        pvr_facts(fragment)
    } else if same_text(format, "NES") {
        nes_facts(fragment)
    } else if same_text(format, "Genesis") {
        genesis_facts(fragment)
    } else if same_text(format, "glTF-Binary") {
        gltf_facts(fragment)
    } else if same_text(format, "PLY") {
        ply_facts(fragment)
    } else {
        None
    }
}

} // verus!
