//! Values that go through decompressors, parsers and decoders.
use std::io::Write;

use great_extractor::archives::{gzip_end, skip_gzip_header, validate_gzip, validate_zip};
use great_extractor::executables::{elf_image_extent, pe_image_extent, validate_elf, validate_pe};
use great_extractor::facts::{au_encoding_bits, describe_audio, describe_gltf, format_facts};
use great_extractor::goblin_model::{ElfLayout, ElfSection, PeSection};
use great_extractor::inflate::{
    deflate_stream_len, judge_step, zlib_stream_len, StepStatus, Verdict, MAX_DECOMPRESSED,
};
use great_extractor::listing::list_archive_entries;
use great_extractor::media::{read_ebml_vint, swf_end};
use great_extractor::names::{bytes_to_trimmed_string, extract_wad_name};
use great_extractor::numbers::{padded_hex, parse_field, parse_padded_field};
use great_extractor::rates::{quotient_seconds, round_quotient, round_scaled_capped, to_double};
use great_extractor::search::{find_byte, find_bytes};
use great_extractor::sqlite::{read_sqlite_record, read_sqlite_varint, sqlite_serial_type_len};
use great_extractor::structure_listing::{elf_section_entries, macho_cputype_name, pe_section_entries};

fn deflated(payload: &[u8]) -> Vec<u8> {
    let mut encoder = flate2::write::DeflateEncoder::new(Vec::new(), flate2::Compression::default());
    encoder.write_all(payload).unwrap();
    encoder.finish().unwrap()
}

fn zlibbed(payload: &[u8]) -> Vec<u8> {
    let mut encoder = flate2::write::ZlibEncoder::new(Vec::new(), flate2::Compression::default());
    encoder.write_all(payload).unwrap();
    encoder.finish().unwrap()
}

#[test]
fn stream_lengths_do_not_count_what_follows() {
    let payload: Vec<u8> = (0..200_000u32).map(|i| (i * i / 7) as u8).collect();
    let raw = deflated(&payload);
    let mut data = raw.clone();
    data.extend_from_slice(b"trailing bytes");
    assert_eq!(deflate_stream_len(&data), Some(raw.len()));
    assert_eq!(deflate_stream_len(&raw[..raw.len() - 1]), None);

    let framed = zlibbed(&payload);
    let mut data = framed.clone();
    data.extend_from_slice(b"trailing bytes");
    assert_eq!(zlib_stream_len(&data), Some(framed.len()));
    assert_eq!(zlib_stream_len(&raw), None);
    assert_eq!(deflate_stream_len(b""), None);
}

#[test]
fn steps_are_judged_by_status_progress_and_limit() {
    assert_eq!(judge_step(StepStatus::Finished, 0, 0, 0, 0), Verdict::Complete);
    assert_eq!(judge_step(StepStatus::Running, 5, 7, 6, 7), Verdict::Continue);
    assert_eq!(judge_step(StepStatus::Running, 5, 7, 5, 8), Verdict::Continue);
    assert_eq!(judge_step(StepStatus::Running, 5, 7, 5, 7), Verdict::GiveUp);
    assert_eq!(judge_step(StepStatus::Running, 5, 7, 6, MAX_DECOMPRESSED), Verdict::Continue);
    assert_eq!(judge_step(StepStatus::Running, 5, 7, 6, MAX_DECOMPRESSED + 1), Verdict::GiveUp);
    assert_eq!(judge_step(StepStatus::Stalled, 0, 0, 1, 1), Verdict::GiveUp);
    assert_eq!(judge_step(StepStatus::Invalid, 0, 0, 1, 1), Verdict::GiveUp);
}

#[test]
fn gzip_header_fields_are_stepped_over() {
    let body = deflated(b"hello");
    let mut data = vec![0xEE, 0x1F, 0x8B, 0x08, 0x1E, 0, 0, 0, 0, 0, 3];
    data.extend_from_slice(&[2, 0, 0xAA, 0xBB]); // extra field
    data.extend_from_slice(b"name\0comment\0");
    data.extend_from_slice(&[0x12, 0x34]); // header checksum
    let stream = data.len();
    data.extend_from_slice(&body);
    data.extend_from_slice(&[0u8; 8]);
    let end = data.len() - 1;
    data.extend_from_slice(b"junk");
    assert_eq!(skip_gzip_header(&data, 1), Some(stream));
    assert_eq!(validate_gzip(&data, 1), Some((end, 95)));
    assert_eq!(gzip_end(&data, stream, body.len()), Some((end, 95)));
    assert_eq!(gzip_end(&data, stream, body.len() + 5), None);
    assert_eq!(skip_gzip_header(&data[..stream - 3], 1), None);
}

#[test]
fn a_compressed_movie_ends_with_its_body() {
    assert_eq!(swf_end(&[0u8; 30], 2, 20), Some((29, 90)));
    assert_eq!(swf_end(&[0u8; 30], 2, 21), None);
}

#[test]
fn zip_entries_of_unknown_size_end_at_the_next_header() {
    let mut data = b"PK\x03\x04\x14\0\x08\0\0\0\0\0\0\0".to_vec();
    data.extend_from_slice(&[0u8; 12]); // checksum and sizes
    data.extend_from_slice(&[1, 0, 0, 0]); // name and extra lengths
    data.extend_from_slice(b"afile contents");
    let descriptor = data.len();
    data.extend_from_slice(b"PK\x07\x08............");
    assert_eq!(validate_zip(&data, 0), None);
    data.truncate(descriptor);
    data.extend_from_slice(b"PK\x05\x06");
    data.extend_from_slice(&[0u8; 16]);
    data.extend_from_slice(&[3, 0]);
    data.extend_from_slice(b"abc");
    assert_eq!(validate_zip(&data, 0), Some((data.len() - 1, 95)));
}

#[test]
fn searches_begin_where_they_are_told() {
    assert_eq!(find_byte(b"abcabc", 1, b'a'), Some(3));
    assert_eq!(find_byte(b"abcabc", 4, b'a'), None);
    assert_eq!(find_byte(b"abc", 9, b'a'), None);
    assert_eq!(find_bytes(b"abcabc", 1, b"bc"), Some(1));
    assert_eq!(find_bytes(b"abcabc", 2, b"bc"), Some(4));
    assert_eq!(find_bytes(b"abcabc", 5, b"bc"), None);
    assert_eq!(find_bytes(b"abcabc", 7, b"bc"), None);
}

fn elf(table: (u64, u16, u16), segments: Vec<(u64, u64)>) -> ElfLayout {
    ElfLayout {
        section_table_offset: table.0,
        section_entry_size: table.1,
        section_count: table.2,
        segments,
        sections: vec![
            ElfSection { name: Some(String::new()), size: 1 },
            ElfSection { name: None, size: 2 },
            ElfSection { name: Some(".text".to_string()), size: 3 },
        ],
    }
}

#[test]
fn an_elf_image_ends_with_its_table_or_furthest_segment() {
    let data = vec![0u8; 1000];
    assert_eq!(elf_image_extent(&data, 100, &elf((200, 64, 2), vec![(0, 50)])), Some((427, 80)));
    assert_eq!(elf_image_extent(&data, 100, &elf((200, 64, 2), vec![(300, 50), (0, 9)])), Some((449, 80)));
    assert_eq!(elf_image_extent(&data, 100, &elf((200, 64, 0), vec![])), None);
    assert_eq!(elf_image_extent(&data, 100, &elf((0, 0, 0), vec![(u64::MAX, u64::MAX)])), None);
    let listed = elf_section_entries(&elf((0, 0, 0), vec![])).expect("one section has a name");
    assert_eq!(listed.len(), 1);
    assert_eq!((listed[0].name.as_str(), listed[0].size), (".text", 3));
}

#[test]
fn a_pe_image_ends_with_its_furthest_section() {
    let data = vec![0u8; 100];
    let sections = vec![
        PeSection { name: Some(".text\0\0".to_string()), offset: 10, size: 20 },
        PeSection { name: None, offset: 5, size: 5 },
    ];
    assert_eq!(pe_image_extent(&data, 50, &sections), Some((79, 75)));
    assert_eq!(pe_image_extent(&data, 71, &sections), None);
    assert_eq!(pe_image_extent(&data, 0, &Vec::new()), None);
    let listed = pe_section_entries(&sections).expect("there are sections");
    let rows: Vec<(&str, u64)> = listed.iter().map(|e| (e.name.as_str(), e.size)).collect();
    assert_eq!(rows, vec![(".text", 20), ("", 5)]);
    assert!(pe_section_entries(&Vec::new()).is_none());
}

#[test]
fn junk_is_no_executable() {
    assert_eq!(validate_elf(b"not an image at all", 0), None);
    assert_eq!(validate_elf(b"abc", 4), None);
    assert_eq!(validate_pe(b"not an image at all", 0), None);
    assert_eq!(validate_pe(b"abc", 4), None);
    assert!(list_archive_entries("ELF", b"junk").is_none());
    assert!(list_archive_entries("PE", b"junk").is_none());
}

#[test]
fn uncommon_processors_are_shown_as_numbers() {
    assert_eq!(macho_cputype_name(0x0100_000C), "arm64");
    assert_eq!(macho_cputype_name(0x12), "ppc");
    assert_eq!(macho_cputype_name(0xFFFF_FFFF), "cputype 0xffffffff");
    assert_eq!(macho_cputype_name(0x1F), "cputype 0x1f");
}

#[test]
fn gltf_answers_become_lines() {
    let counts = vec![Some(1), Some(2), None, Some(4), Some(5)];
    assert_eq!(
        describe_gltf(&counts, &Some("Tool".to_string())),
        "Сцени: 1\nВузли: 2\nМеші: 0\nМатеріали: 4\nАнімації: 5\nСтворено: Tool"
    );
    let none = vec![None, None, None, None, Some(0)];
    assert_eq!(describe_gltf(&none, &None), "Сцени: 0\nВузли: 0\nМеші: 0\nМатеріали: 0");
}

#[test]
fn a_json_chunk_that_is_no_json_has_no_facts() {
    let mut core = b"glTF\x02\0\0\0".to_vec();
    core.extend_from_slice(&23u32.to_le_bytes());
    core.extend_from_slice(&3u32.to_le_bytes());
    core.extend_from_slice(b"JSON{]}");
    assert!(format_facts("glTF-Binary", &core).is_none());
    let mut core = b"glTF\x02\0\0\0".to_vec();
    core.extend_from_slice(&22u32.to_le_bytes());
    core.extend_from_slice(&2u32.to_le_bytes());
    core.extend_from_slice(b"JSON{}");
    assert_eq!(format_facts("glTF-Binary", &core).unwrap(), "Сцени: 0\nВузли: 0\nМеші: 0\nМатеріали: 0");
}

#[test]
fn numbers_in_fields_follow_their_radix() {
    assert_eq!(parse_field(b"xx1Fyy", 2, 4, 16), Some(31));
    assert_eq!(parse_field(b"+17", 0, 3, 8), Some(15));
    assert_eq!(parse_field(b"+", 0, 1, 8), None);
    assert_eq!(parse_field(b"", 0, 0, 8), None);
    assert_eq!(parse_field(b"18", 0, 2, 8), None);
    assert_eq!(parse_field(b" 7", 0, 2, 8), None);
    assert_eq!(parse_padded_field(b" 7 ", 0, 3, 8), Some(7));
    assert_eq!(parse_padded_field("\u{3000}42\u{A0}".as_bytes(), 0, 7, 10), Some(42));
    assert_eq!(parse_padded_field(b"4\xFF", 0, 2, 10), None);
    assert_eq!(parse_field(b"18446744073709551615", 0, 20, 10), Some(u64::MAX));
    assert_eq!(parse_field(b"18446744073709551616", 0, 20, 10), None);
    assert_eq!(padded_hex(0x1F, 4), "001f");
    assert_eq!(padded_hex(0x12345, 4), "12345");
}

#[test]
fn field_texts_stop_at_nul_and_lose_outer_space() {
    assert_eq!(bytes_to_trimmed_string(b"  name \0rest", 0, 12).as_deref(), Some("name"));
    assert_eq!(bytes_to_trimmed_string(b"   \0rest", 0, 8), None);
    assert_eq!(bytes_to_trimmed_string(b"a\xFFb", 0, 3).as_deref(), Some("a\u{FFFD}b"));
    assert_eq!(extract_wad_name(b"IWAD\x01\0\0\0\xFF\xFF\xFF\xFF", 0), None);
}

#[test]
fn ebml_numbers_lose_their_marker() {
    assert_eq!(read_ebml_vint(&[0x81], 0), Some((1, 1)));
    assert_eq!(read_ebml_vint(&[0, 0x40, 0x02], 1), Some((2, 2)));
    assert_eq!(read_ebml_vint(&[0x01, 0, 0, 0, 0, 0, 1, 2], 0), Some((258, 8)));
    assert_eq!(read_ebml_vint(&[0x01, 0, 0], 0), None);
    assert_eq!(read_ebml_vint(&[0x00, 0xFF], 0), None);
    assert_eq!(read_ebml_vint(&[], 0), None);
}

#[test]
fn sqlite_numbers_take_up_to_nine_bytes() {
    assert_eq!(read_sqlite_varint(&[0x7F], 0), Some((127, 1)));
    assert_eq!(read_sqlite_varint(&[0x81, 0x00], 0), Some((128, 2)));
    assert_eq!(read_sqlite_varint(&[0xFF; 9], 0), Some((u64::MAX, 9)));
    assert_eq!(read_sqlite_varint(&[0xFF; 8], 0), None);
    assert_eq!(sqlite_serial_type_len(13), 0);
    assert_eq!(sqlite_serial_type_len(12 + 8), 4);
    assert_eq!(sqlite_serial_type_len(13 + 8), 4);
    assert_eq!(sqlite_serial_type_len(5), 6);
    assert_eq!(sqlite_serial_type_len(9), 0);
    assert_eq!(sqlite_serial_type_len(u64::MAX), 0);
}

#[test]
fn sqlite_records_list_their_values() {
    // Header of three bytes; a text of two bytes and an integer of one.
    assert_eq!(read_sqlite_record(&[3, 17, 1, b'h', b'i', 9]), Some(vec![(3, 5), (5, 6)]));
    assert_eq!(read_sqlite_record(&[3, 17, 1, b'h', b'i']), None);
    assert_eq!(read_sqlite_record(&[9, 1]), None);
    assert_eq!(read_sqlite_record(&[0]), Some(vec![]));
}

#[test]
fn durations_round_to_the_nearest_second() {
    assert_eq!(round_quotient(3, 2), 2);
    assert_eq!(round_quotient(149, 100), 1);
    assert_eq!(round_quotient(u64::MAX, 1), u64::MAX);
    assert_eq!(round_scaled_capped(3, -1, 1 << 63), 2);
    assert_eq!(round_scaled_capped(1, -2, 1 << 63), 0);
    assert_eq!(round_scaled_capped(44100 << 48, -48, 1 << 63), 44100);
    assert_eq!(round_scaled_capped(5, 3, 1 << 63), 40);
    assert_eq!(round_scaled_capped(1, 63, 1 << 63), 1 << 63);
    assert_eq!(round_scaled_capped(3, 1000, 1 << 63), 1 << 63);
    assert_eq!(round_scaled_capped(u64::MAX, -1000, 1 << 63), 0);
    assert_eq!(quotient_seconds(66150, 44100, 0), Some(2));
    assert_eq!(quotient_seconds(7, 1, 1), Some(4));
    assert_eq!(quotient_seconds(7, 1, 70), Some(0));
    assert_eq!(quotient_seconds(0, 1, -1023), Some(0));
    assert_eq!(quotient_seconds(1, 1, -63), Some(1 << 63));
    assert_eq!(quotient_seconds(1, 1, -64), Some(u64::MAX));
    assert_eq!(quotient_seconds(1, 1, -1023), Some(u64::MAX));
    assert_eq!(quotient_seconds(2, 1, -1023), None);
    assert_eq!(quotient_seconds(1, 3, -60), Some(384307168202282304));
}

#[test]
fn durations_are_those_of_doubles() {
    for m in [0, 1, 44100, (1 << 53) + 1, (1 << 62) + 513, (1 << 63) + 1025, u64::MAX] {
        let (digits, scale) = to_double(m);
        assert_eq!(digits as f64 * (1u64 << scale) as f64, m as f64);
    }
    for frames in [1u32, 3, 44100, 4294967295] {
        for digits in [1u64, 3, 44100, (1 << 53) - 1] {
            for scale in [-1000i32, -990, -200, -80, -40, -20, -3, 0, 1, 5, 31, 60, 900] {
                let seconds = frames as f64 / (digits as f64 * 2f64.powi(scale));
                let expected = if seconds.is_finite() { Some(seconds.round() as u64) } else { None };
                assert_eq!(quotient_seconds(frames, digits, scale), expected, "{frames} {digits} {scale}");
            }
        }
    }
}

fn aiff(frames: u32, exponent: u16, mantissa: u64) -> Vec<u8> {
    let mut out = b"FORM\x00\x00\x00\x1eAIFFCOMM\x00\x00\x00\x12\x00\x02".to_vec();
    out.extend_from_slice(&frames.to_be_bytes());
    out.extend_from_slice(&16u16.to_be_bytes());
    out.extend_from_slice(&exponent.to_be_bytes());
    out.extend_from_slice(&mantissa.to_be_bytes());
    out
}

fn aiff_lines(frames: u32, exponent: u16, mantissa: u64) -> Vec<String> {
    let facts = format_facts("AIFF", &aiff(frames, exponent, mantissa)).expect("the chunk is complete");
    facts.lines().map(String::from).collect()
}

#[test]
fn aiff_rates_are_taken_as_doubles() {
    let normal = aiff_lines(88200, 16383 + 15, 44100 << 48);
    assert_eq!(normal[1], "Частота дискретизації: 44100 Гц");
    assert_eq!(normal[3], "Тривалість: 0:02");

    let wide = aiff_lines(1, 16383 + 63, (1 << 62) + 513);
    assert_eq!(wide[1], "Частота дискретизації: 4611686018427388928 Гц");
    assert_eq!(wide[3], "Тривалість: 0:00");

    // The rate is 2^-1023: one frame lasts a finite time, two an infinite one.
    assert_eq!(aiff_lines(1, 16383 + 63 - 1023, 1)[3], "Тривалість: 307445734561825860:15");
    assert_eq!(aiff_lines(2, 16383 + 63 - 1023, 1)[3], "Тривалість: н/д");

    // A rate that is too small for a double is none.
    let tiny = aiff_lines(1, 100, u64::MAX);
    assert_eq!(tiny[1], "Частота дискретизації: 0 Гц");
    assert_eq!(tiny.len(), 3);

    let huge = aiff_lines(1, 0x7FFE, u64::MAX);
    assert_eq!(huge[1], format!("Частота дискретизації: {} Гц", i64::MAX));
    assert_eq!(huge[3], "Тривалість: 0:00");
    assert_eq!(aiff_lines(1, 0x8000 + 16383 + 15, 44100 << 48)[1], "Частота дискретизації: -44100 Гц");
    assert_eq!(aiff_lines(1, 0x8000 + 16383 + 15, 44100 << 48).len(), 3);
    assert_eq!(aiff_lines(1, 0, 0).len(), 3);
}

#[test]
fn audio_facts_leave_out_what_is_unknown() {
    assert_eq!(describe_audio(2, -5, None, None), "Канали: 2\nЧастота дискретизації: -5 Гц");
    assert_eq!(
        describe_audio(1, 8000, Some(16), Some(Some(61))),
        "Канали: 1\nЧастота дискретизації: 8000 Гц\nРозрядність: 16 біт\nТривалість: 1:01"
    );
    assert_eq!(au_encoding_bits(7), Some(64));
    assert_eq!(au_encoding_bits(0), None);
}

#[test]
fn one_dimensional_textures_have_no_height() {
    let mut core = vec![0u8; 44];
    core[36..40].copy_from_slice(&64u32.to_le_bytes());
    assert_eq!(format_facts("KTX", &core).unwrap(), "Роздільність: 64 (1D-текстура)");
}

#[test]
fn a_resolution_that_is_no_number_gives_no_facts() {
    assert!(format_facts("HDR", b"#?RADIANCE\n-Y 2x +X 4\n-Y 2 +X 4\n").is_none());
    assert_eq!(format_facts("HDR", b"#?RADIANCE\r\n\r\n+Y 2 -X +4\r\n").unwrap(), "Роздільність: 4×2");
}
