//! The facts about a file are those that were written into its header.
use vstd::arithmetic::div_mod::lemma_fundamental_div_mod_converse;
use vstd::prelude::*;
use vstd::string::*;
use crate::container_laws::{
    container, first_chunk, is_container, law_container_gives_a_chunk_back, Chunk,
};
use crate::bytes::{be64, le16, le32};
use crate::facts::{
    aiff_text, au_text, audio_facts, audio_lines, caf_text_from, dds_text, duration, encoding_bits,
    facts_of, flac_text, genesis_text, gltf_json, gltf_text, hdr_text, nes_text, ply_text, pvr_text,
    texture_header_text, wav_text,
};
use crate::lines::join_lines;
use crate::numbers::{dec, pad_left, signed_dec};
use crate::numeral_laws::{is_free_of_nul, law_field_gives_the_name_back, nuls};
use crate::rates::rounded;
use crate::text::{lossy, trim};
use crate::writing::{
    be24_bytes, be32_bytes, be64_bytes, holds_at, is_u16, is_u24, is_u32, is_u64, le16_bytes,
    le32_bytes, lemma_holds_itself,
};

verus! {

broadcast use crate::writing::group_reads;

/// `n` is `a / d`, rounded to the nearest number, a half upwards.
pub open spec fn is_nearest(n: int, a: int, d: int) -> bool {
    2 * a - d < 2 * d * n <= 2 * a + d
}

/// Durations are rounded to the nearest second.
pub proof fn law_rounded_is_nearest(a: int, d: int)
    requires
        a >= 0,
        d > 0,
    ensures
        is_nearest(rounded(a, d), a, d),
{
    let n = (2 * a + d) / (2 * d);
    assert(2 * a - d < 2 * d * n <= 2 * a + d) by (nonlinear_arith)
        requires
            d > 0,
            n == (2 * a + d) / (2 * d),
    ;
}

/// A duration is told in minutes and in seconds, of which there are less than sixty and
/// always two digits.
pub proof fn law_duration_is_minutes_and_seconds(minutes: nat, seconds: nat)
    requires
        seconds < 60,
    ensures
        duration(Some((60 * minutes + seconds) as int)) == dec(minutes) + ":"@ + (if seconds < 10 {
            seq!['0'] + dec(seconds)
        } else {
            dec(seconds)
        }),
        duration(None) == "н/д"@,
{
    let n = (60 * minutes + seconds) as int;
    assert(n / 60 == minutes && n % 60 == seconds);
    let text = dec(seconds);
    if seconds < 10 {
        assert(text.len() == 1);
        assert(pad_left(text, 2, '0') == seq!['0'] + text);
    } else {
        assert(text.len() == 2) by {
            assert(text == dec((seconds / 10) as nat).push(text.last()));
            assert(dec((seconds / 10) as nat).len() == 1);
        }
    }
}

/// A sound is described by its channels, its sampling rate and, where they are given, its
/// sample size and its duration, in this order and one to a line.
pub proof fn law_sound_is_described(
    channels: int,
    rate: int,
    bits: Option<int>,
    seconds: Option<Option<int>>,
)
    ensures
        audio_facts(channels, rate, bits, seconds) == "Канали: "@ + dec(channels as nat) + "\n"@
            + "Частота дискретизації: "@ + signed_dec(rate) + " Гц"@ + (match bits {
            Some(n) => "\n"@ + "Розрядність: "@ + dec(n as nat) + " біт"@,
            None => Seq::empty(),
        }) + (match seconds {
            Some(n) => "\n"@ + "Тривалість: "@ + duration(n),
            None => Seq::empty(),
        }),
{
    reveal_strlit("");
    let lines = audio_lines(channels, rate, bits, seconds);
    reveal_with_fuel(join_lines, 5);
    let first = "Канали: "@ + dec(channels as nat);
    let second = "Частота дискретизації: "@ + signed_dec(rate) + " Гц"@;
    assert(lines[0] == first);
    assert(lines[1] == second);
    let two = seq![lines[0], lines[1]];
    assert(two.drop_last() == seq![lines[0]]);
    assert(join_lines(two) == first + "\n"@ + second);
    match (bits, seconds) {
        (None, None) => {
            assert(lines == two);
        },
        (Some(n), None) => {
            assert(lines.drop_last() == two);
            assert(lines.last() == "Розрядність: "@ + dec(n as nat) + " біт"@);
        },
        (None, Some(d)) => {
            assert(lines.drop_last() == two);
            assert(lines.last() == "Тривалість: "@ + duration(d));
        },
        (Some(n), Some(d)) => {
            let three = lines.drop_last();
            assert(three.drop_last() == two);
            assert(three.last() == "Розрядність: "@ + dec(n as nat) + " біт"@);
            assert(lines.last() == "Тривалість: "@ + duration(d));
        },
    }
    assert(audio_facts(channels, rate, bits, seconds) =~= "Канали: "@ + dec(channels as nat) + "\n"@
        + "Частота дискретизації: "@ + signed_dec(rate) + " Гц"@ + (match bits {
        Some(n) => "\n"@ + "Розрядність: "@ + dec(n as nat) + " біт"@,
        None => Seq::empty(),
    }) + (match seconds {
        Some(n) => "\n"@ + "Тривалість: "@ + duration(n),
        None => Seq::empty(),
    }));
}

/// FLAC: what was packed into the stream information is unpacked again.
pub proof fn law_flac_facts_are_those_packed(
    s: Seq<u8>,
    kind: u8,
    len: int,
    before: Seq<u8>,
    rate: int,
    channels: int,
    bits: int,
    samples: int,
    sum: Seq<u8>,
)
    requires
        kind == 0 || kind == 0x80,
        34 <= len,
        is_u24(len),
        before.len() == 10,
        sum.len() == 16,
        0 <= rate < 0x10_0000,
        1 <= channels <= 8,
        1 <= bits <= 32,
        0 <= samples < 0x10_0000_0000,
        holds_at(
            s,
            0,
            be32_bytes(0x664C_6143) + seq![kind] + be24_bytes(len) + before + be64_bytes(
                rate * 0x1000_0000_0000 + (channels - 1) * 0x200_0000_0000 + (bits - 1)
                    * 0x10_0000_0000 + samples,
            ) + sum,
        ),
    ensures
        flac_text(s) == Some(
            audio_facts(
                channels,
                rate,
                Some(bits),
                if rate > 0 && samples > 0 {
                    Some(Some(rounded(samples, rate)))
                } else {
                    None
                },
            ),
        ),
{
    let packed = rate * 0x1000_0000_0000 + (channels - 1) * 0x200_0000_0000 + (bits - 1)
        * 0x10_0000_0000 + samples;
    lemma_flac_packed(rate, channels, bits, samples);
    assert(holds_at(s, 18, be64_bytes(packed)));
    assert(be64(s, 18) == packed);
    assert(holds_at(s, 4, seq![kind]));
    assert(kind % 0x80 == 0);
}

proof fn lemma_flac_packed(rate: int, channels: int, bits: int, samples: int)
    requires
        0 <= rate < 0x10_0000,
        1 <= channels <= 8,
        1 <= bits <= 32,
        0 <= samples < 0x10_0000_0000,
    ensures
        ({
            let packed = rate * 0x1000_0000_0000 + (channels - 1) * 0x200_0000_0000 + (bits - 1)
                * 0x10_0000_0000 + samples;
            &&& is_u64(packed)
            &&& packed / 0x1000_0000_0000 == rate
            &&& (packed / 0x200_0000_0000) % 8 == channels - 1
            &&& (packed / 0x10_0000_0000) % 32 == bits - 1
            &&& packed % 0x10_0000_0000 == samples
        }),
{
    let packed = rate * 0x1000_0000_0000 + (channels - 1) * 0x200_0000_0000 + (bits - 1)
        * 0x10_0000_0000 + samples;
    let size = (bits - 1) * 0x10_0000_0000 + samples;
    let shape = (channels - 1) * 0x200_0000_0000 + size;
    let rates = 8 * rate + (channels - 1);
    let upper = 32 * rates + (bits - 1);
    lemma_fundamental_div_mod_converse(packed, 0x1000_0000_0000, rate, shape);
    lemma_fundamental_div_mod_converse(packed, 0x200_0000_0000, rates, size);
    lemma_fundamental_div_mod_converse(packed, 0x10_0000_0000, upper, samples);
    lemma_fundamental_div_mod_converse(rates, 8, rate, channels - 1);
    lemma_fundamental_div_mod_converse(upper, 32, rates, bits - 1);
}

/// The format chunk of a WAV file.
#[verifier::opaque]
pub open spec fn wav_format(
    codec: int,
    channels: int,
    rate: int,
    byte_rate: int,
    align: int,
    bits: int,
    rest: Seq<u8>,
) -> Seq<u8> {
    le16_bytes(codec) + le16_bytes(channels) + le32_bytes(rate) + le32_bytes(byte_rate) + le16_bytes(
        align,
    ) + le16_bytes(bits) + rest
}

/// WAV: channels, rate and sample size are those of the format chunk, and the duration is
/// the size of the data by the bytes for a second.
pub proof fn law_wav_facts_are_those_written(
    form: int,
    chunks: Seq<Chunk>,
    codec: int,
    channels: int,
    rate: int,
    byte_rate: int,
    align: int,
    bits: int,
    rest: Seq<u8>,
)
    requires
        is_container(0x5249_4646, form, chunks, false),
        is_u16(codec) && is_u16(channels) && is_u16(align) && is_u16(bits),
        is_u32(rate) && is_u32(byte_rate),
        first_chunk(chunks, 0x666D_7420) == Some(
            wav_format(codec, channels, rate, byte_rate, align, bits, rest),
        ),
    ensures
        wav_text(container(0x5249_4646, form, chunks, false)) == Some(
            audio_facts(
                channels,
                rate,
                Some(bits),
                match first_chunk(chunks, 0x6461_7461) {
                    Some(data) if byte_rate > 0 => Some(Some(rounded(data.len() as int, byte_rate))),
                    _ => None,
                },
            ),
        ),
{
    law_container_gives_a_chunk_back(0x5249_4646, form, chunks, false, 0x666D_7420);
    law_container_gives_a_chunk_back(0x5249_4646, form, chunks, false, 0x6461_7461);
    let format = wav_format(codec, channels, rate, byte_rate, align, bits, rest);
    lemma_holds_itself(format);
    lemma_wav_format(format, codec, channels, rate, byte_rate, align, bits, rest);
}

proof fn lemma_wav_format(
    s: Seq<u8>,
    codec: int,
    channels: int,
    rate: int,
    byte_rate: int,
    align: int,
    bits: int,
    rest: Seq<u8>,
)
    requires
        is_u16(codec) && is_u16(channels) && is_u16(align) && is_u16(bits),
        is_u32(rate) && is_u32(byte_rate),
        holds_at(s, 0, wav_format(codec, channels, rate, byte_rate, align, bits, rest)),
    ensures
        s.len() >= 16,
        le16(s, 2) == channels,
        le32(s, 4) == rate,
        le32(s, 8) == byte_rate,
        le16(s, 14) == bits,
{
    reveal(wav_format);
}

/// AU: channels and rate are those written, the sample size is that of the encoding, and
/// the duration is the size of the sound by the bytes for a second of all channels.
pub proof fn law_au_facts_are_those_written(
    s: Seq<u8>,
    tag: Seq<u8>,
    offset: int,
    size: int,
    encoding: int,
    rate: int,
    channels: int,
)
    requires
        tag.len() == 4,
        is_u32(offset) && is_u32(size) && is_u32(encoding) && is_u32(rate) && is_u32(channels),
        holds_at(
            s,
            0,
            tag + be32_bytes(offset) + be32_bytes(size) + be32_bytes(encoding) + be32_bytes(rate)
                + be32_bytes(channels),
        ),
    ensures
        match encoding_bits(encoding) {
            Some(bits) => {
                let byte_rate = bits / 8 * (if channels > 0 {
                    channels
                } else {
                    1
                }) * rate;
                au_text(s) == Some(
                    audio_facts(
                        channels,
                        rate,
                        Some(bits),
                        if rate > 0 && size != 0xFFFF_FFFF && byte_rate < 0x1_0000_0000_0000_0000 {
                            Some(Some(rounded(size, byte_rate)))
                        } else {
                            None
                        },
                    ),
                )
            },
            None => au_text(s) == Some(audio_facts(channels, rate, None, None)),
        },
{
}

/// The sample sizes of the AU encodings: mu-law and linear samples of one to four bytes,
/// and floating-point ones of four and eight.
pub proof fn law_au_encodings(encoding: int)
    ensures
        encoding == 1 ==> encoding_bits(encoding) == Some(8int),
        2 <= encoding <= 5 ==> encoding_bits(encoding) == Some(8 * (encoding - 1)),
        encoding == 6 ==> encoding_bits(encoding) == Some(32int),
        encoding == 7 ==> encoding_bits(encoding) == Some(64int),
        encoding < 1 || encoding > 7 ==> encoding_bits(encoding) is None,
{
}

/// DDS: the height stands before the width.
pub proof fn law_dds_facts_are_those_written(s: Seq<u8>, before: Seq<u8>, width: int, height: int)
    requires
        before.len() == 12,
        is_u32(width) && is_u32(height),
        holds_at(s, 0, before + le32_bytes(height) + le32_bytes(width)),
    ensures
        dds_text(s) == Some("Роздільність: "@ + dec(width as nat) + "×"@ + dec(height as nat)),
{
}

/// PVR: the height stands before the width.
pub proof fn law_pvr_facts_are_those_written(s: Seq<u8>, before: Seq<u8>, width: int, height: int)
    requires
        before.len() == 24,
        is_u32(width) && is_u32(height),
        holds_at(s, 0, before + le32_bytes(height) + le32_bytes(width)),
    ensures
        pvr_text(s) == Some("Роздільність: "@ + dec(width as nat) + "×"@ + dec(height as nat)),
{
}

/// KTX and KTX2: the width stands before the height, which is 0 in a one-dimensional
/// texture.
pub proof fn law_texture_facts_are_those_written(s: Seq<u8>, before: Seq<u8>, width: int, height: int)
    requires
        is_u32(width) && is_u32(height),
        holds_at(s, 0, before + le32_bytes(width) + le32_bytes(height)),
    ensures
        texture_header_text(s, before.len() as int) == Some(
            if height == 0 {
                "Роздільність: "@ + dec(width as nat) + " (1D-текстура)"@
            } else {
                "Роздільність: "@ + dec(width as nat) + "×"@ + dec(height as nat)
            },
        ),
{
}

/// NES: the banks in KiB, the mapper of which each half stands in a flag byte, and how the
/// picture is mirrored.
pub proof fn law_nes_facts_are_those_written(
    s: Seq<u8>,
    tag: Seq<u8>,
    programs: u8,
    pictures: u8,
    mapper: u8,
    four_screens: bool,
    trainer: bool,
    battery: bool,
    vertical: bool,
    low_flags: u8,
)
    requires
        tag.len() == 4,
        low_flags < 16,
        holds_at(
            s,
            0,
            tag + seq![programs] + seq![pictures] + seq![
                (mapper % 16 * 16 + (if four_screens {
                    8int
                } else {
                    0int
                }) + (if trainer {
                    4int
                } else {
                    0int
                }) + (if battery {
                    2int
                } else {
                    0int
                }) + (if vertical {
                    1int
                } else {
                    0int
                })) as u8,
            ] + seq![(mapper / 16 * 16 + low_flags) as u8],
        ),
    ensures
        nes_text(s) == Some(
            "PRG ROM: "@ + dec((16 * programs) as nat) + " KiB\n"@ + "CHR ROM: "@ + dec(
                (8 * pictures) as nat,
            ) + " KiB\n"@ + "Мапер: "@ + dec(mapper as nat) + "\nДзеркалення: "@ + (if four_screens {
                "чотириекранне"@
            } else if vertical {
                "вертикальне"@
            } else {
                "горизонтальне"@
            }),
        ),
{
    let flags = (mapper % 16 * 16 + (if four_screens {
        8int
    } else {
        0int
    }) + (if trainer {
        4int
    } else {
        0int
    }) + (if battery {
        2int
    } else {
        0int
    }) + (if vertical {
        1int
    } else {
        0int
    })) as u8;
    assert(s[6] == flags);
    assert(s[7] == mapper / 16 * 16 + low_flags);
    assert(s[7] / 16 * 16 + s[6] / 16 == mapper);
    assert((flags as int / 8) % 2 == if four_screens {
        1int
    } else {
        0int
    });
    assert((flags as int / 1) % 2 == if vertical {
        1int
    } else {
        0int
    });
    assert(nes_text(s)->0 =~= "PRG ROM: "@ + dec((16 * programs) as nat) + " KiB\n"@ + "CHR ROM: "@ + dec(
        (8 * pictures) as nat,
    ) + " KiB\n"@ + "Мапер: "@ + dec(mapper as nat) + "\nДзеркалення: "@ + (if four_screens {
        "чотириекранне"@
    } else if vertical {
        "вертикальне"@
    } else {
        "горизонтальне"@
    }));
}

/// Genesis: the name and the region of the cartridge.
pub proof fn law_genesis_facts_are_those_written(
    s: Seq<u8>,
    before: Seq<u8>,
    name: Seq<u8>,
    name_fill: nat,
    between: Seq<u8>,
    region: Seq<u8>,
    region_fill: nat,
)
    requires
        before.len() == 0x120,
        name.len() + name_fill == 48,
        between.len() == 0xA0,
        region.len() + region_fill == 3,
        is_free_of_nul(name) && is_free_of_nul(region),
        trim(lossy(name)).len() > 0,
        holds_at(s, 0, before + (name + nuls(name_fill)) + between + (region + nuls(region_fill))),
    ensures
        genesis_text(s) == Some(
            if trim(lossy(region)).len() == 0 {
                "Назва: "@ + trim(lossy(name))
            } else {
                "Назва: "@ + trim(lossy(name)) + "\nРегіон: "@ + trim(lossy(region))
            },
        ),
{
    law_field_gives_the_name_back(name, name_fill);
    law_field_gives_the_name_back(region, region_fill);
    assert(s.subrange(0x120, 0x150) == name + nuls(name_fill));
    assert(s.subrange(0x1F0, 0x1F3) == region + nuls(region_fill));
}

/// Binary glTF: the first chunk behind the header, which is tagged `JSON`.
pub proof fn law_gltf_document_is_that_written(s: Seq<u8>, header: Seq<u8>, json: Seq<u8>)
    requires
        header.len() == 12,
        is_u32(json.len() as int),
        holds_at(s, 0, header + le32_bytes(json.len() as int) + be32_bytes(0x4A53_4F4E) + json),
    ensures
        gltf_json(s) == Some(json),
{
}

proof fn lemma_facts_wav(s: Seq<u8>)
    ensures
        facts_of("WAV"@, s) == wav_text(s),
{
    reveal_strlit("WAV");
}

proof fn lemma_facts_aiff(s: Seq<u8>)
    ensures
        facts_of("AIFF"@, s) == aiff_text(s),
{
    reveal_strlit("WAV");
    reveal_strlit("AIFF");
    assert("AIFF"@ != "WAV"@) by {
        assert("AIFF"@.len() == 4 && "WAV"@.len() == 3);
    }
}

proof fn lemma_facts_aifc(s: Seq<u8>)
    ensures
        facts_of("AIFC"@, s) == aiff_text(s),
{
    reveal_strlit("WAV");
    reveal_strlit("AIFF");
    reveal_strlit("AIFC");
    assert("AIFC"@ != "WAV"@) by {
        assert("AIFC"@.len() == 4 && "WAV"@.len() == 3);
    }
    assert("AIFC"@ != "AIFF"@) by {
        assert("AIFC"@[3] == 'C' && "AIFF"@[3] == 'F');
    }
}

proof fn lemma_facts_au(s: Seq<u8>)
    ensures
        facts_of("AU"@, s) == au_text(s),
{
    reveal_strlit("WAV");
    reveal_strlit("AIFF");
    reveal_strlit("AIFC");
    reveal_strlit("AU");
    assert("AU"@ != "WAV"@) by {
        assert("AU"@.len() == 2 && "WAV"@.len() == 3);
    }
    assert("AU"@ != "AIFF"@) by {
        assert("AU"@.len() == 2 && "AIFF"@.len() == 4);
    }
    assert("AU"@ != "AIFC"@) by {
        assert("AU"@.len() == 2 && "AIFC"@.len() == 4);
    }
}

proof fn lemma_facts_caf(s: Seq<u8>)
    ensures
        facts_of("CAF"@, s) == caf_text_from(s, 8),
{
    reveal_strlit("WAV");
    reveal_strlit("AIFF");
    reveal_strlit("AIFC");
    reveal_strlit("AU");
    reveal_strlit("CAF");
    assert("CAF"@ != "WAV"@) by {
        assert("CAF"@[0] == 'C' && "WAV"@[0] == 'W');
    }
    assert("CAF"@ != "AIFF"@) by {
        assert("CAF"@.len() == 3 && "AIFF"@.len() == 4);
    }
    assert("CAF"@ != "AIFC"@) by {
        assert("CAF"@.len() == 3 && "AIFC"@.len() == 4);
    }
    assert("CAF"@ != "AU"@) by {
        assert("CAF"@.len() == 3 && "AU"@.len() == 2);
    }
}

proof fn lemma_facts_flac(s: Seq<u8>)
    ensures
        facts_of("FLAC"@, s) == flac_text(s),
{
    reveal_strlit("WAV");
    reveal_strlit("AIFF");
    reveal_strlit("AIFC");
    reveal_strlit("AU");
    reveal_strlit("CAF");
    reveal_strlit("FLAC");
    assert("FLAC"@ != "WAV"@) by {
        assert("FLAC"@.len() == 4 && "WAV"@.len() == 3);
    }
    assert("FLAC"@ != "AIFF"@) by {
        assert("FLAC"@[0] == 'F' && "AIFF"@[0] == 'A');
    }
    assert("FLAC"@ != "AIFC"@) by {
        assert("FLAC"@[0] == 'F' && "AIFC"@[0] == 'A');
    }
    assert("FLAC"@ != "AU"@) by {
        assert("FLAC"@.len() == 4 && "AU"@.len() == 2);
    }
    assert("FLAC"@ != "CAF"@) by {
        assert("FLAC"@.len() == 4 && "CAF"@.len() == 3);
    }
}

proof fn lemma_facts_dds(s: Seq<u8>)
    ensures
        facts_of("DDS"@, s) == dds_text(s),
{
    reveal_strlit("WAV");
    reveal_strlit("AIFF");
    reveal_strlit("AIFC");
    reveal_strlit("AU");
    reveal_strlit("CAF");
    reveal_strlit("FLAC");
    reveal_strlit("DDS");
    assert("DDS"@ != "WAV"@) by {
        assert("DDS"@[0] == 'D' && "WAV"@[0] == 'W');
    }
    assert("DDS"@ != "AIFF"@) by {
        assert("DDS"@.len() == 3 && "AIFF"@.len() == 4);
    }
    assert("DDS"@ != "AIFC"@) by {
        assert("DDS"@.len() == 3 && "AIFC"@.len() == 4);
    }
    assert("DDS"@ != "AU"@) by {
        assert("DDS"@.len() == 3 && "AU"@.len() == 2);
    }
    assert("DDS"@ != "CAF"@) by {
        assert("DDS"@[0] == 'D' && "CAF"@[0] == 'C');
    }
    assert("DDS"@ != "FLAC"@) by {
        assert("DDS"@.len() == 3 && "FLAC"@.len() == 4);
    }
}

proof fn lemma_facts_ktx(s: Seq<u8>)
    ensures
        facts_of("KTX"@, s) == texture_header_text(s, 36),
{
    reveal_strlit("WAV");
    reveal_strlit("AIFF");
    reveal_strlit("AIFC");
    reveal_strlit("AU");
    reveal_strlit("CAF");
    reveal_strlit("FLAC");
    reveal_strlit("DDS");
    reveal_strlit("KTX");
    assert("KTX"@ != "WAV"@) by {
        assert("KTX"@[0] == 'K' && "WAV"@[0] == 'W');
    }
    assert("KTX"@ != "AIFF"@) by {
        assert("KTX"@.len() == 3 && "AIFF"@.len() == 4);
    }
    assert("KTX"@ != "AIFC"@) by {
        assert("KTX"@.len() == 3 && "AIFC"@.len() == 4);
    }
    assert("KTX"@ != "AU"@) by {
        assert("KTX"@.len() == 3 && "AU"@.len() == 2);
    }
    assert("KTX"@ != "CAF"@) by {
        assert("KTX"@[0] == 'K' && "CAF"@[0] == 'C');
    }
    assert("KTX"@ != "FLAC"@) by {
        assert("KTX"@.len() == 3 && "FLAC"@.len() == 4);
    }
    assert("KTX"@ != "DDS"@) by {
        assert("KTX"@[0] == 'K' && "DDS"@[0] == 'D');
    }
}

proof fn lemma_facts_ktx2(s: Seq<u8>)
    ensures
        facts_of("KTX2"@, s) == texture_header_text(s, 20),
{
    reveal_strlit("WAV");
    reveal_strlit("AIFF");
    reveal_strlit("AIFC");
    reveal_strlit("AU");
    reveal_strlit("CAF");
    reveal_strlit("FLAC");
    reveal_strlit("DDS");
    reveal_strlit("KTX");
    reveal_strlit("KTX2");
    assert("KTX2"@ != "WAV"@) by {
        assert("KTX2"@.len() == 4 && "WAV"@.len() == 3);
    }
    assert("KTX2"@ != "AIFF"@) by {
        assert("KTX2"@[0] == 'K' && "AIFF"@[0] == 'A');
    }
    assert("KTX2"@ != "AIFC"@) by {
        assert("KTX2"@[0] == 'K' && "AIFC"@[0] == 'A');
    }
    assert("KTX2"@ != "AU"@) by {
        assert("KTX2"@.len() == 4 && "AU"@.len() == 2);
    }
    assert("KTX2"@ != "CAF"@) by {
        assert("KTX2"@.len() == 4 && "CAF"@.len() == 3);
    }
    assert("KTX2"@ != "FLAC"@) by {
        assert("KTX2"@[0] == 'K' && "FLAC"@[0] == 'F');
    }
    assert("KTX2"@ != "DDS"@) by {
        assert("KTX2"@.len() == 4 && "DDS"@.len() == 3);
    }
    assert("KTX2"@ != "KTX"@) by {
        assert("KTX2"@.len() == 4 && "KTX"@.len() == 3);
    }
}

proof fn lemma_facts_hdr(s: Seq<u8>)
    ensures
        facts_of("HDR"@, s) == hdr_text(s),
{
    reveal_strlit("WAV");
    reveal_strlit("AIFF");
    reveal_strlit("AIFC");
    reveal_strlit("AU");
    reveal_strlit("CAF");
    reveal_strlit("FLAC");
    reveal_strlit("DDS");
    reveal_strlit("KTX");
    reveal_strlit("KTX2");
    reveal_strlit("HDR");
    assert("HDR"@ != "WAV"@) by {
        assert("HDR"@[0] == 'H' && "WAV"@[0] == 'W');
    }
    assert("HDR"@ != "AIFF"@) by {
        assert("HDR"@.len() == 3 && "AIFF"@.len() == 4);
    }
    assert("HDR"@ != "AIFC"@) by {
        assert("HDR"@.len() == 3 && "AIFC"@.len() == 4);
    }
    assert("HDR"@ != "AU"@) by {
        assert("HDR"@.len() == 3 && "AU"@.len() == 2);
    }
    assert("HDR"@ != "CAF"@) by {
        assert("HDR"@[0] == 'H' && "CAF"@[0] == 'C');
    }
    assert("HDR"@ != "FLAC"@) by {
        assert("HDR"@.len() == 3 && "FLAC"@.len() == 4);
    }
    assert("HDR"@ != "DDS"@) by {
        assert("HDR"@[0] == 'H' && "DDS"@[0] == 'D');
    }
    assert("HDR"@ != "KTX"@) by {
        assert("HDR"@[0] == 'H' && "KTX"@[0] == 'K');
    }
    assert("HDR"@ != "KTX2"@) by {
        assert("HDR"@.len() == 3 && "KTX2"@.len() == 4);
    }
}

proof fn lemma_facts_pvr(s: Seq<u8>)
    ensures
        facts_of("PVR"@, s) == pvr_text(s),
{
    reveal_strlit("WAV");
    reveal_strlit("AIFF");
    reveal_strlit("AIFC");
    reveal_strlit("AU");
    reveal_strlit("CAF");
    reveal_strlit("FLAC");
    reveal_strlit("DDS");
    reveal_strlit("KTX");
    reveal_strlit("KTX2");
    reveal_strlit("HDR");
    reveal_strlit("PVR");
    assert("PVR"@ != "WAV"@) by {
        assert("PVR"@[0] == 'P' && "WAV"@[0] == 'W');
    }
    assert("PVR"@ != "AIFF"@) by {
        assert("PVR"@.len() == 3 && "AIFF"@.len() == 4);
    }
    assert("PVR"@ != "AIFC"@) by {
        assert("PVR"@.len() == 3 && "AIFC"@.len() == 4);
    }
    assert("PVR"@ != "AU"@) by {
        assert("PVR"@.len() == 3 && "AU"@.len() == 2);
    }
    assert("PVR"@ != "CAF"@) by {
        assert("PVR"@[0] == 'P' && "CAF"@[0] == 'C');
    }
    assert("PVR"@ != "FLAC"@) by {
        assert("PVR"@.len() == 3 && "FLAC"@.len() == 4);
    }
    assert("PVR"@ != "DDS"@) by {
        assert("PVR"@[0] == 'P' && "DDS"@[0] == 'D');
    }
    assert("PVR"@ != "KTX"@) by {
        assert("PVR"@[0] == 'P' && "KTX"@[0] == 'K');
    }
    assert("PVR"@ != "KTX2"@) by {
        assert("PVR"@.len() == 3 && "KTX2"@.len() == 4);
    }
    assert("PVR"@ != "HDR"@) by {
        assert("PVR"@[0] == 'P' && "HDR"@[0] == 'H');
    }
}

proof fn lemma_facts_nes(s: Seq<u8>)
    ensures
        facts_of("NES"@, s) == nes_text(s),
{
    reveal_strlit("WAV");
    reveal_strlit("AIFF");
    reveal_strlit("AIFC");
    reveal_strlit("AU");
    reveal_strlit("CAF");
    reveal_strlit("FLAC");
    reveal_strlit("DDS");
    reveal_strlit("KTX");
    reveal_strlit("KTX2");
    reveal_strlit("HDR");
    reveal_strlit("PVR");
    reveal_strlit("NES");
    assert("NES"@ != "WAV"@) by {
        assert("NES"@[0] == 'N' && "WAV"@[0] == 'W');
    }
    assert("NES"@ != "AIFF"@) by {
        assert("NES"@.len() == 3 && "AIFF"@.len() == 4);
    }
    assert("NES"@ != "AIFC"@) by {
        assert("NES"@.len() == 3 && "AIFC"@.len() == 4);
    }
    assert("NES"@ != "AU"@) by {
        assert("NES"@.len() == 3 && "AU"@.len() == 2);
    }
    assert("NES"@ != "CAF"@) by {
        assert("NES"@[0] == 'N' && "CAF"@[0] == 'C');
    }
    assert("NES"@ != "FLAC"@) by {
        assert("NES"@.len() == 3 && "FLAC"@.len() == 4);
    }
    assert("NES"@ != "DDS"@) by {
        assert("NES"@[0] == 'N' && "DDS"@[0] == 'D');
    }
    assert("NES"@ != "KTX"@) by {
        assert("NES"@[0] == 'N' && "KTX"@[0] == 'K');
    }
    assert("NES"@ != "KTX2"@) by {
        assert("NES"@.len() == 3 && "KTX2"@.len() == 4);
    }
    assert("NES"@ != "HDR"@) by {
        assert("NES"@[0] == 'N' && "HDR"@[0] == 'H');
    }
    assert("NES"@ != "PVR"@) by {
        assert("NES"@[0] == 'N' && "PVR"@[0] == 'P');
    }
}

proof fn lemma_facts_genesis(s: Seq<u8>)
    ensures
        facts_of("Genesis"@, s) == genesis_text(s),
{
    reveal_strlit("WAV");
    reveal_strlit("AIFF");
    reveal_strlit("AIFC");
    reveal_strlit("AU");
    reveal_strlit("CAF");
    reveal_strlit("FLAC");
    reveal_strlit("DDS");
    reveal_strlit("KTX");
    reveal_strlit("KTX2");
    reveal_strlit("HDR");
    reveal_strlit("PVR");
    reveal_strlit("NES");
    reveal_strlit("Genesis");
    assert("Genesis"@ != "WAV"@) by {
        assert("Genesis"@.len() == 7 && "WAV"@.len() == 3);
    }
    assert("Genesis"@ != "AIFF"@) by {
        assert("Genesis"@.len() == 7 && "AIFF"@.len() == 4);
    }
    assert("Genesis"@ != "AIFC"@) by {
        assert("Genesis"@.len() == 7 && "AIFC"@.len() == 4);
    }
    assert("Genesis"@ != "AU"@) by {
        assert("Genesis"@.len() == 7 && "AU"@.len() == 2);
    }
    assert("Genesis"@ != "CAF"@) by {
        assert("Genesis"@.len() == 7 && "CAF"@.len() == 3);
    }
    assert("Genesis"@ != "FLAC"@) by {
        assert("Genesis"@.len() == 7 && "FLAC"@.len() == 4);
    }
    assert("Genesis"@ != "DDS"@) by {
        assert("Genesis"@.len() == 7 && "DDS"@.len() == 3);
    }
    assert("Genesis"@ != "KTX"@) by {
        assert("Genesis"@.len() == 7 && "KTX"@.len() == 3);
    }
    assert("Genesis"@ != "KTX2"@) by {
        assert("Genesis"@.len() == 7 && "KTX2"@.len() == 4);
    }
    assert("Genesis"@ != "HDR"@) by {
        assert("Genesis"@.len() == 7 && "HDR"@.len() == 3);
    }
    assert("Genesis"@ != "PVR"@) by {
        assert("Genesis"@.len() == 7 && "PVR"@.len() == 3);
    }
    assert("Genesis"@ != "NES"@) by {
        assert("Genesis"@.len() == 7 && "NES"@.len() == 3);
    }
}

proof fn lemma_facts_gltf_binary(s: Seq<u8>)
    ensures
        facts_of("glTF-Binary"@, s) == gltf_text(s),
{
    reveal_strlit("WAV");
    reveal_strlit("AIFF");
    reveal_strlit("AIFC");
    reveal_strlit("AU");
    reveal_strlit("CAF");
    reveal_strlit("FLAC");
    reveal_strlit("DDS");
    reveal_strlit("KTX");
    reveal_strlit("KTX2");
    reveal_strlit("HDR");
    reveal_strlit("PVR");
    reveal_strlit("NES");
    reveal_strlit("Genesis");
    reveal_strlit("glTF-Binary");
    assert("glTF-Binary"@ != "WAV"@) by {
        assert("glTF-Binary"@.len() == 11 && "WAV"@.len() == 3);
    }
    assert("glTF-Binary"@ != "AIFF"@) by {
        assert("glTF-Binary"@.len() == 11 && "AIFF"@.len() == 4);
    }
    assert("glTF-Binary"@ != "AIFC"@) by {
        assert("glTF-Binary"@.len() == 11 && "AIFC"@.len() == 4);
    }
    assert("glTF-Binary"@ != "AU"@) by {
        assert("glTF-Binary"@.len() == 11 && "AU"@.len() == 2);
    }
    assert("glTF-Binary"@ != "CAF"@) by {
        assert("glTF-Binary"@.len() == 11 && "CAF"@.len() == 3);
    }
    assert("glTF-Binary"@ != "FLAC"@) by {
        assert("glTF-Binary"@.len() == 11 && "FLAC"@.len() == 4);
    }
    assert("glTF-Binary"@ != "DDS"@) by {
        assert("glTF-Binary"@.len() == 11 && "DDS"@.len() == 3);
    }
    assert("glTF-Binary"@ != "KTX"@) by {
        assert("glTF-Binary"@.len() == 11 && "KTX"@.len() == 3);
    }
    assert("glTF-Binary"@ != "KTX2"@) by {
        assert("glTF-Binary"@.len() == 11 && "KTX2"@.len() == 4);
    }
    assert("glTF-Binary"@ != "HDR"@) by {
        assert("glTF-Binary"@.len() == 11 && "HDR"@.len() == 3);
    }
    assert("glTF-Binary"@ != "PVR"@) by {
        assert("glTF-Binary"@.len() == 11 && "PVR"@.len() == 3);
    }
    assert("glTF-Binary"@ != "NES"@) by {
        assert("glTF-Binary"@.len() == 11 && "NES"@.len() == 3);
    }
    assert("glTF-Binary"@ != "Genesis"@) by {
        assert("glTF-Binary"@.len() == 11 && "Genesis"@.len() == 7);
    }
}

proof fn lemma_facts_ply(s: Seq<u8>)
    ensures
        facts_of("PLY"@, s) == ply_text(s),
{
    reveal_strlit("WAV");
    reveal_strlit("AIFF");
    reveal_strlit("AIFC");
    reveal_strlit("AU");
    reveal_strlit("CAF");
    reveal_strlit("FLAC");
    reveal_strlit("DDS");
    reveal_strlit("KTX");
    reveal_strlit("KTX2");
    reveal_strlit("HDR");
    reveal_strlit("PVR");
    reveal_strlit("NES");
    reveal_strlit("Genesis");
    reveal_strlit("glTF-Binary");
    reveal_strlit("PLY");
    assert("PLY"@ != "WAV"@) by {
        assert("PLY"@[0] == 'P' && "WAV"@[0] == 'W');
    }
    assert("PLY"@ != "AIFF"@) by {
        assert("PLY"@.len() == 3 && "AIFF"@.len() == 4);
    }
    assert("PLY"@ != "AIFC"@) by {
        assert("PLY"@.len() == 3 && "AIFC"@.len() == 4);
    }
    assert("PLY"@ != "AU"@) by {
        assert("PLY"@.len() == 3 && "AU"@.len() == 2);
    }
    assert("PLY"@ != "CAF"@) by {
        assert("PLY"@[0] == 'P' && "CAF"@[0] == 'C');
    }
    assert("PLY"@ != "FLAC"@) by {
        assert("PLY"@.len() == 3 && "FLAC"@.len() == 4);
    }
    assert("PLY"@ != "DDS"@) by {
        assert("PLY"@[0] == 'P' && "DDS"@[0] == 'D');
    }
    assert("PLY"@ != "KTX"@) by {
        assert("PLY"@[0] == 'P' && "KTX"@[0] == 'K');
    }
    assert("PLY"@ != "KTX2"@) by {
        assert("PLY"@.len() == 3 && "KTX2"@.len() == 4);
    }
    assert("PLY"@ != "HDR"@) by {
        assert("PLY"@[0] == 'P' && "HDR"@[0] == 'H');
    }
    assert("PLY"@ != "PVR"@) by {
        assert("PLY"@[1] == 'L' && "PVR"@[1] == 'V');
    }
    assert("PLY"@ != "NES"@) by {
        assert("PLY"@[0] == 'P' && "NES"@[0] == 'N');
    }
    assert("PLY"@ != "Genesis"@) by {
        assert("PLY"@.len() == 3 && "Genesis"@.len() == 7);
    }
    assert("PLY"@ != "glTF-Binary"@) by {
        assert("PLY"@.len() == 3 && "glTF-Binary"@.len() == 11);
    }
}

/// Each kind of facts is given for the formats that have them.
pub proof fn law_facts_of_formats(s: Seq<u8>)
    ensures
        facts_of("WAV"@, s) == wav_text(s),
        facts_of("AIFF"@, s) == aiff_text(s),
        facts_of("AIFC"@, s) == aiff_text(s),
        facts_of("AU"@, s) == au_text(s),
        facts_of("CAF"@, s) == caf_text_from(s, 8),
        facts_of("FLAC"@, s) == flac_text(s),
        facts_of("DDS"@, s) == dds_text(s),
        facts_of("KTX"@, s) == texture_header_text(s, 36),
        facts_of("KTX2"@, s) == texture_header_text(s, 20),
        facts_of("HDR"@, s) == hdr_text(s),
        facts_of("PVR"@, s) == pvr_text(s),
        facts_of("NES"@, s) == nes_text(s),
        facts_of("Genesis"@, s) == genesis_text(s),
        facts_of("glTF-Binary"@, s) == gltf_text(s),
        facts_of("PLY"@, s) == ply_text(s),
{
    lemma_facts_wav(s);
    lemma_facts_aiff(s);
    lemma_facts_aifc(s);
    lemma_facts_au(s);
    lemma_facts_caf(s);
    lemma_facts_flac(s);
    lemma_facts_dds(s);
    lemma_facts_ktx(s);
    lemma_facts_ktx2(s);
    lemma_facts_hdr(s);
    lemma_facts_pvr(s);
    lemma_facts_nes(s);
    lemma_facts_genesis(s);
    lemma_facts_gltf_binary(s);
    lemma_facts_ply(s);
}

} // verus!
