//! Modules, Matroska files and sampling rates are read as they were written.
use vstd::arithmetic::div_mod::lemma_fundamental_div_mod_converse;
use vstd::arithmetic::power2::{
    lemma2_to64, lemma2_to64_rest, lemma_pow2_adds, lemma_pow2_pos, lemma_pow2_strictly_increases,
    pow2,
};
use vstd::prelude::*;
use crate::container_laws::{
    container, first_chunk, is_container, law_container_gives_a_chunk_back, Chunk,
};
use crate::facts::{
    aiff_text, audio_facts, caf_text_from, double_rounded, extended_exponent, signed_rounded,
};
use crate::header_laws::ends_after;
use crate::media::{
    ebml_extent, mod_extent, mod_pattern_count, mod_samples_len, vint, vint_len, vint_unknown,
    vint_value,
};
use crate::rates::{double_scale, is_below, lemma_scale, round_scaled, rounded, significand};
use crate::stream_laws::{are_audio_chunks, audio_chunk, audio_row, is_audio_chunk, AudioChunk};
use crate::writing::{
    be16_bytes, be32_bytes, be64_bytes, holds_at, is_u16, is_u32, is_u64, lemma_be32_back, lemma_byte,
    lemma_holds_itself,
};

verus! {

broadcast use crate::writing::group_reads;

/// A sample of a module: its name, its length in words of two bytes, and how it is played.
pub ghost struct Sample {
    pub name: Seq<u8>,
    pub words: int,
    pub details: Seq<u8>,
}

/// The sample can be written.
pub open spec fn is_sample(m: Sample) -> bool {
    m.name.len() == 22 && is_u16(m.words) && m.details.len() == 6
}

/// The header of a sample.
#[verifier::opaque]
pub open spec fn sample(m: Sample) -> Seq<u8> {
    m.name + be16_bytes(m.words) + m.details
}

/// How many bytes the samples take up together.
pub open spec fn samples_len(samples: Seq<Sample>) -> int
    decreases samples.len(),
{
    if samples.len() == 0 {
        0
    } else {
        samples_len(samples.drop_last()) + 2 * samples.last().words
    }
}

/// The headers of the samples stand one behind the other from `pos` on.
pub open spec fn has_samples(s: Seq<u8>, pos: int, samples: Seq<Sample>) -> bool {
    forall|i: int|
        0 <= i < samples.len() ==> is_sample(#[trigger] samples[i]) && holds_at(
            s,
            pos + 30 * i,
            sample(samples[i]),
        )
}

proof fn lemma_samples(s: Seq<u8>, start: int, samples: Seq<Sample>, n: int)
    requires
        has_samples(s, start + 20, samples),
        0 <= n <= samples.len(),
    ensures
        mod_samples_len(s, start, n) == samples_len(samples.take(n)),
        mod_samples_len(s, start, n) >= 0,
    decreases n,
{
    if n > 0 {
        lemma_samples(s, start, samples, n - 1);
        let m = samples[n - 1];
        assert(holds_at(s, start + 20 + 30 * (n - 1), sample(m)));
        reveal(sample);
        assert(holds_at(s, start + 20 + 30 * (n - 1) + 22, be16_bytes(m.words)));
        assert(samples.take(n).drop_last() == samples.take(n - 1));
    }
}

proof fn lemma_patterns(s: Seq<u8>, start: int, order: Seq<u8>, n: int)
    requires
        holds_at(s, start + 952, order),
        0 <= n <= order.len(),
    ensures
        forall|i: int| 0 <= i < n ==> #[trigger] order[i] < mod_pattern_count(s, start, n),
        n > 0 ==> exists|i: int| 0 <= i < n && #[trigger] order[i] + 1 == mod_pattern_count(s, start, n),
        n == 0 ==> mod_pattern_count(s, start, n) == 0,
    decreases n,
{
    if n > 0 {
        lemma_patterns(s, start, order, n - 1);
        lemma_byte(s, start + 952, order, n - 1);
        assert(s[start + 952 + n - 1] == order[n - 1]);
        if mod_pattern_count(s, start, n) == order[n - 1] + 1 {
            assert(0 <= n - 1 < n);
        }
    }
}

/// A module has a header of 1084 bytes, as many patterns of 1024 bytes as the part of the
/// order that is played needs, and its samples.
pub proof fn law_mod_ends_with_its_samples(
    s: Seq<u8>,
    start: int,
    samples: Seq<Sample>,
    song_length: u8,
    order: Seq<u8>,
    patterns: int,
)
    requires
        0 <= start,
        start + 1084 <= s.len(),
        samples.len() == 31,
        has_samples(s, start + 20, samples),
        s[start + 950] == song_length,
        0 < song_length <= 128,
        order.len() == 128,
        holds_at(s, start + 952, order),
        forall|i: int| 0 <= i < song_length ==> #[trigger] order[i] < patterns,
        exists|i: int| 0 <= i < song_length && #[trigger] order[i] + 1 == patterns,
    ensures
        ends_after(
            mod_extent(s, start),
            s,
            start,
            1084 + 1024 * patterns + samples_len(samples),
            85,
        ),
{
    lemma_samples(s, start, samples, 31);
    assert(samples.take(31) == samples);
    lemma_patterns(s, start, order, song_length as int);
    let count = mod_pattern_count(s, start, song_length as int);
    let i = choose|i: int| 0 <= i < song_length && #[trigger] order[i] + 1 == count;
    let j = choose|i: int| 0 <= i < song_length && #[trigger] order[i] + 1 == patterns;
    assert(order[i] < patterns && order[j] < count);
    assert(count == patterns);
}

/// 256 to the power of `n`, for `n` up to 7.
pub open spec fn power_256(n: int) -> int {
    if n <= 0 {
        1
    } else if n == 1 {
        0x100
    } else if n == 2 {
        0x1_0000
    } else if n == 3 {
        0x100_0000
    } else if n == 4 {
        0x1_0000_0000
    } else if n == 5 {
        0x100_0000_0000
    } else if n == 6 {
        0x1_0000_0000_0000
    } else {
        0x100_0000_0000_0000
    }
}

/// The bit that marks the length of a number of variable length, in its first byte.
pub open spec fn length_bit(len: int) -> int {
    if len == 1 {
        128
    } else if len == 2 {
        64
    } else if len == 3 {
        32
    } else if len == 4 {
        16
    } else if len == 5 {
        8
    } else if len == 6 {
        4
    } else if len == 7 {
        2
    } else {
        1
    }
}

/// The number can be written in `len` bytes, of which the length takes one bit each.
pub open spec fn is_vint(n: int, len: int) -> bool {
    1 <= len <= 8 && 0 <= n < length_bit(len) * power_256(len - 1)
}

/// A number of variable length stands at `pos`: the marked first byte, then the others, the
/// highest first.
pub open spec fn has_vint(s: Seq<u8>, pos: int, n: int, len: int) -> bool {
    &&& 0 <= pos && pos + len <= s.len()
    &&& s[pos] == length_bit(len) + n / power_256(len - 1)
    &&& forall|i: int| 1 <= i < len ==> #[trigger] s[pos + i] == (n / power_256(len - 1 - i)) % 0x100
}

proof fn lemma_vint_value(s: Seq<u8>, pos: int, n: int, len: int, k: int)
    requires
        is_vint(n, len),
        has_vint(s, pos, n, len),
        1 <= k <= len,
    ensures
        vint_len(s[pos]) == len,
        vint_value(s, pos, k) == n / power_256(len - k),
    decreases k,
{
    let p = power_256(len - 1);
    assert(0 <= n / p < length_bit(len)) by (nonlinear_arith)
        requires
            p >= 1,
            0 <= n < length_bit(len) * p,
    ;
    if k > 1 {
        lemma_vint_value(s, pos, n, len, k - 1);
        let q = power_256(len - k);
        assert(power_256(len - (k - 1)) == 0x100 * q);
        assert(s[pos + (k - 1)] == (n / power_256(len - 1 - (k - 1))) % 0x100);
        assert(n / (0x100 * q) == (n / q) / 0x100) by {
            vstd::arithmetic::div_mod::lemma_div_denominator(n, q, 0x100);
            assert(q * 0x100 == 0x100 * q);
        }
        let v = n / q;
        assert(v == 0x100 * (v / 0x100) + v % 0x100);
    }
}

/// A number of variable length is read as it was written, with its length.
pub proof fn law_vint_gives_the_number_back(s: Seq<u8>, pos: int, n: int, len: int)
    requires
        is_vint(n, len),
        has_vint(s, pos, n, len),
    ensures
        vint(s, pos) == Some((n, len)),
{
    lemma_vint_value(s, pos, n, len, len);
    assert(n / 1 == n);
}

/// A Matroska file ends with its segment: header and segment each have a tag and a size of
/// variable length. A segment whose size is written with nothing but ones is of unknown
/// size.
pub proof fn law_ebml_ends_with_its_segment(
    s: Seq<u8>,
    start: int,
    header: int,
    header_len: int,
    size: int,
    len: int,
)
    requires
        is_vint(header, header_len) && is_vint(size, len),
        size > 0,
        holds_at(s, start, be32_bytes(0x1A45_DFA3)),
        has_vint(s, start + 4, header, header_len),
        holds_at(s, start + 4 + header_len + header, be32_bytes(0x1853_8067)),
        has_vint(s, start + 8 + header_len + header, size, len),
    ensures
        size + 1 < length_bit(len) * power_256(len - 1) ==> ends_after(
            ebml_extent(s, start),
            s,
            start,
            8 + header_len + header + len + size,
            90,
        ),
        size + 1 == length_bit(len) * power_256(len - 1) ==> ebml_extent(s, start) is None,
{
    law_vint_gives_the_number_back(s, start + 4, header, header_len);
    law_vint_gives_the_number_back(s, start + 8 + header_len + header, size, len);
    assert(vint_unknown(len) + 1 == length_bit(len) * power_256(len - 1));
}

/// A whole sampling rate as a normalized number: `rate` with as many zero bits behind it as
/// make it `bits` bits long, of which `exponent` stand behind the first.
pub open spec fn is_normalized(rate: int, exponent: int, mantissa: int, bits: int) -> bool {
    &&& 0 <= exponent < bits
    &&& pow2(exponent as nat) <= rate < pow2((exponent + 1) as nat)
    &&& mantissa == rate * pow2((bits - 1 - exponent) as nat)
}

proof fn lemma_normalized(rate: int, exponent: int, mantissa: int, bits: int)
    requires
        is_normalized(rate, exponent, mantissa, bits),
    ensures
        pow2((bits - 1) as nat) <= mantissa < pow2(bits as nat),
        rate > 0,
{
    let e = exponent as nat;
    let z = (bits - 1 - exponent) as nat;
    lemma_pow2_pos(e);
    lemma_pow2_pos(z);
    lemma_pow2_adds(e, z);
    lemma_pow2_adds((e + 1) as nat, z);
    let p = pow2(z) as int;
    assert(pow2(e) * p <= rate * p < pow2((e + 1) as nat) * p) by (nonlinear_arith)
        requires
            pow2(e) <= rate < pow2((e + 1) as nat),
            p >= 1,
    ;
}

/// What is a whole number of `2^k` is that number when it is rounded.
proof fn lemma_round_back(rate: int, z: nat)
    requires
        rate >= 0,
    ensures
        round_scaled(rate * pow2(z), -(z as int)) == rate,
{
    let p = pow2(z) as int;
    lemma_pow2_pos(z);
    if z == 0 {
        lemma2_to64();
        assert(rate * 1 == rate);
    } else {
        let a = rate * p;
        assert(2 * a + p == (2 * p) * rate + p) by (nonlinear_arith)
            requires
                a == rate * p,
        ;
        lemma_fundamental_div_mod_converse(2 * a + p, 2 * p, rate, p);
    }
}

/// A Core Audio file gives a whole sampling rate as a double: the exponent above its bias,
/// and the digits behind the first. It is shown as it was meant.
pub proof fn law_double_gives_the_rate_back(rate: int, exponent: int, mantissa: int)
    requires
        is_normalized(rate, exponent, mantissa, 53),
    ensures
        double_rounded((1023 + exponent) * 0x10_0000_0000_0000 + (mantissa - 0x10_0000_0000_0000)) == rate,
        is_u64((1023 + exponent) * 0x10_0000_0000_0000 + (mantissa - 0x10_0000_0000_0000)),
{
    lemma_normalized(rate, exponent, mantissa, 53);
    lemma2_to64_rest();
    let bits = (1023 + exponent) * 0x10_0000_0000_0000 + (mantissa - 0x10_0000_0000_0000);
    let fraction = mantissa - 0x10_0000_0000_0000;
    lemma_fundamental_div_mod_converse(bits, 0x10_0000_0000_0000, 1023 + exponent, fraction);
    lemma_round_back(rate, (52 - exponent) as nat);
    assert(rate < 0x20_0000_0000_0000) by {
        if exponent + 1 < 53 {
            lemma_pow2_strictly_increases((exponent + 1) as nat, 53);
        }
    }
}

/// The description chunk of a Core Audio file: rate, format, channels and sample size.
#[verifier::opaque]
pub open spec fn caf_description(rate: int, format: Seq<u8>, channels: int, bits: int) -> Seq<u8> {
    be64_bytes(rate) + format + be32_bytes(channels) + be32_bytes(bits)
}

proof fn lemma_caf_row(s: Seq<u8>, pos: int, parts: Seq<AudioChunk>)
    requires
        are_audio_chunks(parts),
        forall|i: int|
            0 <= i < parts.len() ==> (#[trigger] parts[i]).tag != be32_bytes(0x6465_7363),
        holds_at(s, pos, audio_row(parts)),
    ensures
        caf_text_from(s, pos) == caf_text_from(s, pos + audio_row(parts).len()),
    decreases parts.len(),
{
    if parts.len() > 0 {
        let rest = parts.skip(1);
        let c = parts[0];
        assert(is_audio_chunk(c));
        assert forall|i: int| 0 <= i < rest.len() implies is_audio_chunk(#[trigger] rest[i]) && rest[i].tag
            != be32_bytes(0x6465_7363) by {
            assert(rest[i] == parts[i + 1]);
        }
        assert(holds_at(s, pos, audio_chunk(c)));
        lemma_caf_chunk(s, pos, c);
        lemma_caf_row(s, pos + audio_chunk(c).len(), rest);
    }
}

proof fn lemma_caf_chunk(s: Seq<u8>, pos: int, c: AudioChunk)
    requires
        is_audio_chunk(c),
        c.tag != be32_bytes(0x6465_7363),
        holds_at(s, pos, audio_chunk(c)),
    ensures
        caf_text_from(s, pos) == caf_text_from(s, pos + audio_chunk(c).len()),
        audio_chunk(c).len() >= 12,
{
    reveal(audio_chunk);
    assert(holds_at(s, pos, c.tag));
    assert(holds_at(s, pos + 4, be64_bytes(c.content.len() as int)));
    lemma_be32_back(s, pos);
    assert(s.subrange(pos, pos + 4) == c.tag);
}

/// The facts about a Core Audio file are those of its description chunk, whichever chunks
/// stand before it.
pub proof fn law_caf_facts_are_those_written(
    s: Seq<u8>,
    header: Seq<u8>,
    parts: Seq<AudioChunk>,
    size: int,
    rate: int,
    format: Seq<u8>,
    channels: int,
    bits: int,
)
    requires
        header.len() == 8,
        are_audio_chunks(parts),
        forall|i: int|
            0 <= i < parts.len() ==> (#[trigger] parts[i]).tag != be32_bytes(0x6465_7363),
        is_u64(rate) && is_u32(channels) && is_u32(bits),
        format.len() == 20,
        holds_at(
            s,
            0,
            header + audio_row(parts) + (be32_bytes(0x6465_7363) + be64_bytes(size) + caf_description(
                rate,
                format,
                channels,
                bits,
            )),
        ),
    ensures
        caf_text_from(s, 8) == Some(
            audio_facts(
                channels,
                double_rounded(rate),
                if bits > 0 {
                    Some(bits)
                } else {
                    None
                },
                None,
            ),
        ),
{
    lemma_caf_row(s, 8, parts);
    let at = 8 + audio_row(parts).len() as int;
    assert(holds_at(s, at, be32_bytes(0x6465_7363)));
    assert(holds_at(s, at + 12, caf_description(rate, format, channels, bits)));
    reveal(caf_description);
    assert(holds_at(s, at + 12, be64_bytes(rate)));
    assert(holds_at(s, at + 40, be32_bytes(channels)));
    assert(holds_at(s, at + 44, be32_bytes(bits)));
}

/// A mantissa of 64 bits whose last eleven are zero is taken as it is.
proof fn lemma_whole_mantissa(mantissa: int)
    requires
        pow2(63) <= mantissa < pow2(64),
        mantissa % 2048 == 0,
    ensures
        double_scale(mantissa, 1, 0, 0) == 11,
        significand(mantissa) == mantissa / 2048,
{
    lemma2_to64();
    lemma2_to64_rest();
    assert(is_below(mantissa, 1, 64));
    assert(!is_below(mantissa, 1, 63));
    lemma_scale(mantissa, 1, 0, 0, 11);
    assert(pow2(11) == 2048);
    assert(1 * pow2(11) == 2048);
}

/// An AIFF file gives a whole sampling rate as an 80-bit number. It is shown as it was
/// meant, together with the channels and the sample size.
pub proof fn law_aiff_facts_are_those_written(
    form: int,
    chunks: Seq<Chunk>,
    channels: int,
    frames: int,
    bits: int,
    rate: int,
    exponent: int,
    mantissa: int,
    rest: Seq<u8>,
)
    requires
        is_container(0x464F_524D, form, chunks, true),
        is_u16(channels) && is_u16(bits) && is_u32(frames),
        is_normalized(rate, exponent, mantissa, 64),
        exponent <= 52,
        first_chunk(chunks, 0x434F_4D4D) == Some(
            aiff_common(channels, frames, bits, 16_383 + exponent, mantissa, rest),
        ),
    ensures
        aiff_text(container(0x464F_524D, form, chunks, true)) == Some(
            audio_facts(
                channels,
                rate,
                Some(bits),
                Some(crate::rates::seconds_of(frames, mantissa / 2048, exponent - 52)),
            ),
        ),
{
    law_container_gives_a_chunk_back(0x464F_524D, form, chunks, true, 0x434F_4D4D);
    lemma2_to64();
    lemma2_to64_rest();
    lemma_normalized(rate, exponent, mantissa, 64);
    let common = aiff_common(channels, frames, bits, 16_383 + exponent, mantissa, rest);
    lemma_holds_itself(common);
    lemma_aiff_common(common, channels, frames, bits, 16_383 + exponent, mantissa, rest);
    let z = (63 - exponent) as nat;
    let y = (52 - exponent) as nat;
    lemma_pow2_adds(y, 11);
    let p = pow2(y) as int;
    assert(rate * (p * 2048) == (rate * p) * 2048) by (nonlinear_arith);
    let digits = rate * p;
    assert(mantissa == digits * 2048);
    lemma_fundamental_div_mod_converse(mantissa, 2048, digits, 0);
    lemma_whole_mantissa(mantissa);
    lemma_round_back(rate, y);
    assert(rate < 0x20_0000_0000_0000) by {
        if exponent + 1 < 53 {
            lemma_pow2_strictly_increases((exponent + 1) as nat, 53);
        }
    }
    assert(signed_rounded(false, digits, exponent - 52) == rate);
}

/// The common chunk of an AIFF file: channels, frames, sample size, and the rate with its
/// exponent and its mantissa.
#[verifier::opaque]
pub open spec fn aiff_common(
    channels: int,
    frames: int,
    bits: int,
    exponent: int,
    mantissa: int,
    rest: Seq<u8>,
) -> Seq<u8> {
    be16_bytes(channels) + be32_bytes(frames) + be16_bytes(bits) + be16_bytes(exponent) + be64_bytes(
        mantissa,
    ) + rest
}

proof fn lemma_aiff_common(
    s: Seq<u8>,
    channels: int,
    frames: int,
    bits: int,
    exponent: int,
    mantissa: int,
    rest: Seq<u8>,
)
    requires
        is_u16(channels) && is_u16(bits) && is_u32(frames) && is_u64(mantissa),
        0 <= exponent < 0x8000,
        holds_at(s, 0, aiff_common(channels, frames, bits, exponent, mantissa, rest)),
    ensures
        s.len() >= 18,
        crate::bytes::be16(s, 0) == channels,
        crate::bytes::be32(s, 2) == frames,
        crate::bytes::be16(s, 6) == bits,
        s[8] < 0x80,
        extended_exponent(s, 8) == exponent - 16_383 - 63,
        crate::bytes::be64(s, 10) == mantissa,
{
    reveal(aiff_common);
    assert(holds_at(s, 0, be16_bytes(channels)));
    assert(holds_at(s, 2, be32_bytes(frames)));
    assert(holds_at(s, 6, be16_bytes(bits)));
    assert(holds_at(s, 8, be16_bytes(exponent)));
    assert(holds_at(s, 10, be64_bytes(mantissa)));
    assert(crate::bytes::be16(s, 8) == exponent);
}

} // verus!
