//! The validators, listings and facts on small files of each format.
use std::io::Write;

use great_extractor::archives::{
    validate_7z, validate_ar, validate_cab, validate_cpio_newc, validate_cpio_odc, validate_gzip,
    validate_iso9660, validate_mpq, validate_rar, validate_squashfs, validate_tar, validate_zip,
    validate_zstd,
};
use great_extractor::documents::{
    validate_apple_single_double, validate_blend, validate_glb, validate_sfnt, validate_sqlite,
    validate_woff,
};
use great_extractor::entries::ArchiveEntry;
use great_extractor::executables::{
    validate_dex, validate_elf, validate_macho_32be, validate_macho_64le, validate_macho_fat,
    validate_pe, validate_pef,
};
use great_extractor::facts::{
    format_duration, format_facts,
};
use great_extractor::games::{
    validate_nes, validate_pak_quake, validate_unityfs, validate_vbsp, validate_vpk, validate_wad,
};
use great_extractor::images::{
    looks_like_ico_image_data, validate_dpx_be, validate_dpx_le, validate_emf,
    validate_eps_binary_header, validate_icc, validate_icns, validate_ico, validate_jng, validate_jpeg, validate_mng, validate_png,
    validate_wmf,
};
use great_extractor::listing::list_archive_entries;
use great_extractor::media::{
    validate_asf, validate_au, validate_caf, validate_dsf, validate_ebml, validate_flv,
    validate_iff, validate_isobmff, validate_midi, validate_mod, validate_ogg, validate_realmedia,
    validate_riff, validate_rifx, validate_swf, validate_voc,
};
use great_extractor::names::{
    extract_ar_name, extract_cpio_newc_name, extract_cpio_odc_name, extract_pak_name,
    extract_tar_name, extract_wad_name,
};

fn wrap_with_junk(core: &[u8]) -> (Vec<u8>, usize) {
    let mut data = b"JUNK-PREFIX-".to_vec();
    let start = data.len();
    data.extend_from_slice(core);
    data.extend_from_slice(b"-JUNK-SUFFIX-TRAILING-DATA");
    (data, start)
}

fn build_minimal_zip(name: &[u8], content: &[u8]) -> Vec<u8> {
    let mut out = Vec::new();
    let local_header_offset = 0u32;

    out.extend_from_slice(b"PK\x03\x04");
    out.extend_from_slice(&20u16.to_le_bytes()); // version needed
    out.extend_from_slice(&0u16.to_le_bytes()); // flags
    out.extend_from_slice(&0u16.to_le_bytes()); // method: stored
    out.extend_from_slice(&0u16.to_le_bytes()); // mod time
    out.extend_from_slice(&0u16.to_le_bytes()); // mod date
    out.extend_from_slice(&0u32.to_le_bytes());
    out.extend_from_slice(&(content.len() as u32).to_le_bytes()); // compressed size
    out.extend_from_slice(&(content.len() as u32).to_le_bytes()); // uncompressed size
    out.extend_from_slice(&(name.len() as u16).to_le_bytes());
    out.extend_from_slice(&0u16.to_le_bytes()); // extra len
    out.extend_from_slice(name);
    out.extend_from_slice(content);

    let central_dir_offset = out.len() as u32;
    out.extend_from_slice(b"PK\x01\x02");
    out.extend_from_slice(&20u16.to_le_bytes()); // version made by
    out.extend_from_slice(&20u16.to_le_bytes()); // version needed
    out.extend_from_slice(&0u16.to_le_bytes()); // flags
    out.extend_from_slice(&0u16.to_le_bytes()); // method
    out.extend_from_slice(&0u16.to_le_bytes()); // mod time
    out.extend_from_slice(&0u16.to_le_bytes()); // mod date
    out.extend_from_slice(&0u32.to_le_bytes()); // crc32
    out.extend_from_slice(&(content.len() as u32).to_le_bytes());
    out.extend_from_slice(&(content.len() as u32).to_le_bytes());
    out.extend_from_slice(&(name.len() as u16).to_le_bytes());
    out.extend_from_slice(&0u16.to_le_bytes()); // extra len
    out.extend_from_slice(&0u16.to_le_bytes()); // comment len
    out.extend_from_slice(&0u16.to_le_bytes()); // disk number start
    out.extend_from_slice(&0u16.to_le_bytes()); // internal attrs
    out.extend_from_slice(&0u32.to_le_bytes()); // external attrs
    out.extend_from_slice(&local_header_offset.to_le_bytes());
    out.extend_from_slice(name);

    let central_dir_size = out.len() as u32 - central_dir_offset;
    out.extend_from_slice(b"PK\x05\x06");
    out.extend_from_slice(&0u16.to_le_bytes()); // disk number
    out.extend_from_slice(&0u16.to_le_bytes()); // disk with central dir
    out.extend_from_slice(&1u16.to_le_bytes()); // entries this disk
    out.extend_from_slice(&1u16.to_le_bytes()); // total entries
    out.extend_from_slice(&central_dir_size.to_le_bytes());
    out.extend_from_slice(&central_dir_offset.to_le_bytes());
    out.extend_from_slice(&0u16.to_le_bytes()); // comment len

    out
}

#[test]
fn zip_exact_boundary() {
    let core = build_minimal_zip(b"hello.txt", b"hello world");
    let (data, start) = wrap_with_junk(&core);
    let expected_end = start + core.len() - 1;

    let (end, confidence) = validate_zip(&data, start).expect("valid zip must parse");
    assert_eq!(end, expected_end);
    assert_eq!(confidence, 95);
}

#[test]
fn zip_truncated_returns_none() {
    let core = build_minimal_zip(b"hello.txt", b"hello world");
    let (data, start) = wrap_with_junk(&core[..core.len() - 5]);
    assert_eq!(validate_zip(&data, start), None);
}

fn build_minimal_gzip(payload: &[u8]) -> Vec<u8> {

    let mut out = Vec::new();
    out.extend_from_slice(&[0x1f, 0x8b, 0x08]); // magic + deflate method
    out.push(0);
    out.extend_from_slice(&[0u8; 4]); // mtime
    out.push(0); // xfl
    out.push(0xff); // os: unknown

    let mut encoder = flate2::write::DeflateEncoder::new(Vec::new(), flate2::Compression::default());
    encoder.write_all(payload).unwrap();
    let compressed = encoder.finish().unwrap();
    out.extend_from_slice(&compressed);

    out.extend_from_slice(&0u32.to_le_bytes());
    out.extend_from_slice(&(payload.len() as u32).to_le_bytes()); // isize
    out
}

#[test]
fn gzip_exact_boundary() {
    let core = build_minimal_gzip(b"some repeated payload text ".repeat(100).as_slice());
    let (data, start) = wrap_with_junk(&core);
    let expected_end = start + core.len() - 1;

    let (end, confidence) = validate_gzip(&data, start).expect("valid gzip must parse");
    assert_eq!(end, expected_end);
    assert_eq!(confidence, 95);
}

#[test]
fn gzip_truncated_mid_stream_returns_none() {
    let core = build_minimal_gzip(b"some repeated payload text ".repeat(100).as_slice());
    let (data, start) = wrap_with_junk(&core[..core.len() - 20]);
    assert_eq!(validate_gzip(&data, start), None);
}

#[test]
fn extract_tar_name_reads_name_field() {
    let core = build_minimal_tar("hello.txt", b"hello world");
    let (data, start) = wrap_with_junk(&core);
    assert_eq!(extract_tar_name(&data, start), Some("hello.txt".to_string()));
}

#[test]
fn extract_tar_name_combines_prefix_and_name() {
    let mut core = build_minimal_tar("hello.txt", b"hello world");
    core[345..345 + 8].copy_from_slice(b"some/dir");
    let (data, start) = wrap_with_junk(&core);
    assert_eq!(extract_tar_name(&data, start), Some("some/dir/hello.txt".to_string()));
}

fn build_minimal_tar(name: &str, content: &[u8]) -> Vec<u8> {
    const BLOCK: usize = 512;
    let mut header = vec![0u8; BLOCK];
    header[0..name.len()].copy_from_slice(name.as_bytes());
    let size_octal = format!("{:011o}\0", content.len());
    header[124..124 + size_octal.len()].copy_from_slice(size_octal.as_bytes());
    header[257..262].copy_from_slice(b"ustar");
    header[263..265].copy_from_slice(b"00");

    let mut out = header;
    out.extend_from_slice(content);
    let padding = (BLOCK - content.len() % BLOCK) % BLOCK;
    out.extend(std::iter::repeat_n(0u8, padding));
    out.extend(std::iter::repeat_n(0u8, 2 * BLOCK));
    out
}

#[test]
fn tar_exact_boundary_with_terminator() {
    let core = build_minimal_tar("hello.txt", b"hello world");
    let (data, start) = wrap_with_junk(&core);
    let expected_end = start + core.len() - 1;

    let (end, confidence) = validate_tar(&data, start).expect("valid tar must parse");
    assert_eq!(end, expected_end);
    assert_eq!(confidence, 95);
}

#[test]
fn tar_without_terminator_falls_back_to_lower_confidence() {
    let core = build_minimal_tar("hello.txt", b"hello world");
    let without_terminator = &core[..core.len() - 1024];
    let (data, start) = wrap_with_junk(without_terminator);
    let expected_last_entry_end = start + without_terminator.len() - 1;

    let (end, confidence) = validate_tar(&data, start).expect("partial tar still yields last entry end");
    assert_eq!(end, expected_last_entry_end);
    assert_eq!(confidence, 70);
}

fn build_minimal_elf64(section_header_count: u16) -> Vec<u8> {
    let mut e_ident = vec![0x7f, b'E', b'L', b'F', 2, 1, 1, 0, 0];
    e_ident.extend(std::iter::repeat_n(0u8, 7));

    let sh_offset: u64 = 64;
    let mut header = e_ident;
    header.extend_from_slice(&2u16.to_le_bytes()); // e_type
    header.extend_from_slice(&0x3Eu16.to_le_bytes()); // e_machine: x86-64
    header.extend_from_slice(&1u32.to_le_bytes()); // e_version
    header.extend_from_slice(&0u64.to_le_bytes()); // e_entry
    header.extend_from_slice(&0u64.to_le_bytes()); // e_phoff
    header.extend_from_slice(&sh_offset.to_le_bytes()); // e_shoff
    header.extend_from_slice(&0u32.to_le_bytes()); // e_flags
    header.extend_from_slice(&64u16.to_le_bytes()); // e_ehsize
    header.extend_from_slice(&56u16.to_le_bytes()); // e_phentsize
    header.extend_from_slice(&0u16.to_le_bytes()); // e_phnum
    header.extend_from_slice(&64u16.to_le_bytes()); // e_shentsize
    header.extend_from_slice(&section_header_count.to_le_bytes()); // e_shnum
    header.extend_from_slice(&0u16.to_le_bytes()); // e_shstrndx
    assert_eq!(header.len(), 64);

    header.extend(std::iter::repeat_n(0u8, 64 * section_header_count as usize));
    header
}

#[test]
fn elf_exact_boundary() {
    let core = build_minimal_elf64(1);
    let (data, start) = wrap_with_junk(&core);
    let expected_end = start + core.len() - 1;

    let (end, confidence) = validate_elf(&data, start).expect("valid elf must parse");
    assert_eq!(end, expected_end);
    assert_eq!(confidence, 80);
}

fn build_minimal_pe32(section_raw_data_len: u32) -> Vec<u8> {
    let mut dos = vec![0u8; 64];
    dos[0..2].copy_from_slice(b"MZ");
    dos[0x3C..0x40].copy_from_slice(&64u32.to_le_bytes());

    let pe_sig = b"PE\x00\x00";
    let mut coff = Vec::new();
    coff.extend_from_slice(&0x14cu16.to_le_bytes()); // Machine: i386
    coff.extend_from_slice(&1u16.to_le_bytes()); // NumberOfSections
    coff.extend_from_slice(&0u32.to_le_bytes()); // TimeDateStamp
    coff.extend_from_slice(&0u32.to_le_bytes()); // PointerToSymbolTable
    coff.extend_from_slice(&0u32.to_le_bytes()); // NumberOfSymbols
    coff.extend_from_slice(&224u16.to_le_bytes()); // SizeOfOptionalHeader
    coff.extend_from_slice(&0x0102u16.to_le_bytes()); // Characteristics

    let mut opt = vec![0u8; 224];
    opt[0..2].copy_from_slice(&0x10bu16.to_le_bytes()); // Magic: PE32
    opt[28..32].copy_from_slice(&0x1000u32.to_le_bytes()); // ImageBase
    opt[32..36].copy_from_slice(&0x1000u32.to_le_bytes()); // SectionAlignment
    opt[36..40].copy_from_slice(&0x200u32.to_le_bytes()); // FileAlignment
    opt[60..64].copy_from_slice(&0x400u32.to_le_bytes()); // SizeOfHeaders
    opt[92..96].copy_from_slice(&16u32.to_le_bytes()); // NumberOfRvaAndSizes

    let headers_end = (dos.len() + pe_sig.len() + coff.len() + opt.len() + 40) as u32;
    let mut section = vec![0u8; 40];
    section[0..6].copy_from_slice(b".text\0");
    section[8..12].copy_from_slice(&0x100u32.to_le_bytes()); // VirtualSize
    section[12..16].copy_from_slice(&0x1000u32.to_le_bytes()); // VirtualAddress
    section[16..20].copy_from_slice(&section_raw_data_len.to_le_bytes()); // SizeOfRawData
    section[20..24].copy_from_slice(&headers_end.to_le_bytes()); // PointerToRawData

    let mut out = dos;
    out.extend_from_slice(pe_sig);
    out.extend_from_slice(&coff);
    out.extend_from_slice(&opt);
    out.extend_from_slice(&section);
    out.extend(std::iter::repeat_n(0xCCu8, section_raw_data_len as usize));
    out
}

#[test]
fn pe_exact_boundary() {
    let core = build_minimal_pe32(64);
    let (data, start) = wrap_with_junk(&core);
    let expected_end = start + core.len() - 1;

    let (end, confidence) = validate_pe(&data, start).expect("valid pe must parse");
    assert_eq!(end, expected_end);
    assert_eq!(confidence, 75);
}

fn build_minimal_png() -> Vec<u8> {
    let mut out = b"\x89PNG\r\n\x1a\n".to_vec();

    out.extend_from_slice(&13u32.to_be_bytes());
    out.extend_from_slice(b"IHDR");
    out.extend(std::iter::repeat_n(0u8, 13));
    out.extend_from_slice(&0u32.to_be_bytes()); // crc

    // IEND: length=0
    out.extend_from_slice(&0u32.to_be_bytes());
    out.extend_from_slice(b"IEND");
    out.extend_from_slice(&0xae426082u32.to_be_bytes());

    out
}

#[test]
fn png_exact_boundary() {
    let core = build_minimal_png();
    let (data, start) = wrap_with_junk(&core);
    let expected_end = start + core.len() - 1;

    let (end, confidence) = validate_png(&data, start).expect("valid png must parse");
    assert_eq!(end, expected_end);
    assert_eq!(confidence, 95);
}

#[test]
fn png_truncated_before_iend_returns_none() {
    let core = build_minimal_png();
    let mut data = b"JUNK-PREFIX-".to_vec();
    let start = data.len();
    data.extend_from_slice(&core[..core.len() - 4]);
    assert_eq!(validate_png(&data, start), None);
}

fn build_minimal_jpeg_markers_only() -> Vec<u8> {
    let mut out = vec![0xff, 0xd8]; // SOI
    out.extend_from_slice(&[0xff, 0xe0]); // APP0
    out.extend_from_slice(&4u16.to_be_bytes());
    out.extend_from_slice(&[0xaa, 0xbb]);
    out.extend_from_slice(&[0xff, 0xd9]); // EOI
    out
}

#[test]
fn jpeg_exact_boundary_markers_only() {
    let core = build_minimal_jpeg_markers_only();
    let (data, start) = wrap_with_junk(&core);
    let expected_end = start + core.len() - 1;

    let (end, confidence) = validate_jpeg(&data, start).expect("valid jpeg must parse");
    assert_eq!(end, expected_end);
    assert_eq!(confidence, 95);
}

fn build_minimal_jpeg_with_scan() -> Vec<u8> {
    let mut out = vec![0xff, 0xd8]; // SOI
    out.extend_from_slice(&[0xff, 0xda]); // SOS
    out.extend_from_slice(&8u16.to_be_bytes());
    out.extend(std::iter::repeat_n(0u8, 6));
    out.extend_from_slice(&[0x11, 0x22]);
    out.extend_from_slice(&[0xff, 0x00]);
    out.extend_from_slice(&[0x33]);
    out.extend_from_slice(&[0xff, 0xd0]);
    out.extend_from_slice(&[0x44]);
    out.extend_from_slice(&[0xff, 0xd9]); // EOI
    out
}

#[test]
fn jpeg_exact_boundary_with_stuffed_bytes_and_restart_marker() {
    let core = build_minimal_jpeg_with_scan();
    let (data, start) = wrap_with_junk(&core);
    let expected_end = start + core.len() - 1;

    let (end, confidence) = validate_jpeg(&data, start).expect("valid jpeg must parse");
    assert_eq!(end, expected_end);
    assert_eq!(confidence, 95);
}

#[test]
fn jpeg_truncated_mid_scan_returns_none() {
    let core = build_minimal_jpeg_with_scan();
    let truncated = &core[..core.len() - 3];
    let (data, start) = wrap_with_junk(truncated);
    assert_eq!(validate_jpeg(&data, start), None);
}

fn build_minimal_sqlite(page_size: u16, page_count: u32, change_counter: u32, version_valid_for: u32) -> Vec<u8> {
    let total_size = page_size as usize * page_count as usize;
    let mut out = vec![0u8; total_size];
    out[0..16].copy_from_slice(b"SQLite format 3\0");
    out[16..18].copy_from_slice(&page_size.to_be_bytes());
    out[24..28].copy_from_slice(&change_counter.to_be_bytes());
    out[28..32].copy_from_slice(&page_count.to_be_bytes());
    out[92..96].copy_from_slice(&version_valid_for.to_be_bytes());
    out
}

#[test]
fn sqlite_exact_boundary_with_synced_counters() {
    let core = build_minimal_sqlite(512, 4, 7, 7);
    let (data, start) = wrap_with_junk(&core);
    let expected_end = start + core.len() - 1;

    let (end, confidence) = validate_sqlite(&data, start).expect("valid sqlite must parse");
    assert_eq!(end, expected_end);
    assert_eq!(confidence, 90);
}

#[test]
fn sqlite_lower_confidence_when_counters_mismatch() {
    let core = build_minimal_sqlite(512, 4, 7, 3);
    let (data, start) = wrap_with_junk(&core);
    let expected_end = start + core.len() - 1;

    let (end, confidence) = validate_sqlite(&data, start).expect("valid sqlite must parse");
    assert_eq!(end, expected_end);
    assert_eq!(confidence, 60);
}

#[test]
fn sqlite_zero_page_count_returns_none() {
    let mut core = build_minimal_sqlite(512, 1, 1, 1);
    core[28..32].copy_from_slice(&0u32.to_be_bytes());
    let (data, start) = wrap_with_junk(&core);
    assert_eq!(validate_sqlite(&data, start), None);
}

#[test]
fn sqlite_truncated_returns_none() {
    let core = build_minimal_sqlite(512, 4, 7, 7);
    let mut data = b"JUNK-PREFIX-".to_vec();
    let start = data.len();
    data.extend_from_slice(&core[..core.len() - 10]);
    assert_eq!(validate_sqlite(&data, start), None);
}

fn rar_block(head_type: u8, flags: u16, extra_header_bytes: &[u8], appended_data: &[u8]) -> Vec<u8> {
    let add_size_field_len = if flags & 0x8000 != 0 { 4 } else { 0 };
    let head_size = 7 + add_size_field_len + extra_header_bytes.len();

    let mut out = Vec::new();
    out.extend_from_slice(&0u16.to_le_bytes());
    out.push(head_type);
    out.extend_from_slice(&flags.to_le_bytes());
    out.extend_from_slice(&(head_size as u16).to_le_bytes());
    if flags & 0x8000 != 0 {
        out.extend_from_slice(&(appended_data.len() as u32).to_le_bytes());
    }
    out.extend_from_slice(extra_header_bytes);
    out.extend_from_slice(appended_data);
    out
}

fn build_minimal_rar_with_endarc() -> Vec<u8> {
    let mut out = b"Rar!\x1a\x07\x00".to_vec(); // marker block
    out.extend_from_slice(&rar_block(0x73, 0, &[0u8; 6], &[])); // MAIN_HEAD
    out.extend_from_slice(&rar_block(0x74, 0x8000, &[0u8; 25], &[0xAB; 100])); // FILE_HEAD, LONG_BLOCK
    out.extend_from_slice(&rar_block(0x7b, 0, &[], &[])); // ENDARC_HEAD
    out
}

#[test]
fn rar_exact_boundary_with_endarc_and_long_block() {
    let core = build_minimal_rar_with_endarc();
    let (data, start) = wrap_with_junk(&core);
    let expected_end = start + core.len() - 1;

    let (end, confidence) = validate_rar(&data, start).expect("valid rar must parse");
    assert_eq!(end, expected_end);
    assert_eq!(confidence, 90);
}

#[test]
fn rar_without_endarc_falls_back_to_lower_confidence() {
    let mut core = b"Rar!\x1a\x07\x00".to_vec();
    core.extend_from_slice(&rar_block(0x73, 0, &[0u8; 6], &[]));
    let (data, start) = wrap_with_junk(&core);
    let expected_end = start + core.len() - 1;

    let (end, confidence) = validate_rar(&data, start).expect("partial rar still yields last block end");
    assert_eq!(end, expected_end);
    assert_eq!(confidence, 65);
}

#[test]
fn rar_only_marker_returns_none() {
    let core = b"Rar!\x1a\x07\x00".to_vec();
    let (data, start) = wrap_with_junk(&core);
    assert_eq!(validate_rar(&data, start), None);
}

#[test]
fn rar_truncated_long_block_returns_none() {
    let core = build_minimal_rar_with_endarc();
    let mut data = b"JUNK-PREFIX-".to_vec();
    let start = data.len();
    data.extend_from_slice(&core[..core.len() - 50]);
    assert_eq!(validate_rar(&data, start), Some((start + 7 + 13 - 1, 65)));
}

fn build_minimal_7z(packed_data: &[u8], next_header: &[u8]) -> Vec<u8> {
    let mut out = b"7z\xbc\xaf\x27\x1c".to_vec();
    out.extend_from_slice(&[0, 4]);
    out.extend_from_slice(&0u32.to_le_bytes());
    out.extend_from_slice(&(packed_data.len() as u64).to_le_bytes()); // NextHeaderOffset
    out.extend_from_slice(&(next_header.len() as u64).to_le_bytes()); // NextHeaderSize
    out.extend_from_slice(&0u32.to_le_bytes());
    out.extend_from_slice(packed_data);
    out.extend_from_slice(next_header);
    out
}

#[test]
fn sevenzip_exact_boundary() {
    let core = build_minimal_7z(&[0xCD; 200], &[0xEF; 40]);
    let (data, start) = wrap_with_junk(&core);
    let expected_end = start + core.len() - 1;

    let (end, confidence) = validate_7z(&data, start).expect("valid 7z must parse");
    assert_eq!(end, expected_end);
    assert_eq!(confidence, 85);
}

#[test]
fn sevenzip_truncated_returns_none() {
    let core = build_minimal_7z(&[0xCD; 200], &[0xEF; 40]);
    let mut data = b"JUNK-PREFIX-".to_vec();
    let start = data.len();
    data.extend_from_slice(&core[..core.len() - 5]);
    assert_eq!(validate_7z(&data, start), None);
}

fn build_minimal_riff(form_type: &[u8; 4], payload: &[u8]) -> Vec<u8> {
    let mut out = b"RIFF".to_vec();
    let chunk_size = 4 + payload.len() as u32; // form_type(4) + payload
    out.extend_from_slice(&chunk_size.to_le_bytes());
    out.extend_from_slice(form_type);
    out.extend_from_slice(payload);
    out
}

#[test]
fn riff_exact_boundary() {
    let core = build_minimal_riff(b"WEBP", &[0xAB; 50]);
    let (data, start) = wrap_with_junk(&core);
    let expected_end = start + core.len() - 1;

    let (end, confidence) = validate_riff(&data, start).expect("valid riff must parse");
    assert_eq!(end, expected_end);
    assert_eq!(confidence, 90);
}

#[test]
fn riff_truncated_returns_none() {
    let core = build_minimal_riff(b"CDR6", &[0xAB; 50]);
    let mut data = b"JUNK-PREFIX-".to_vec();
    let start = data.len();
    data.extend_from_slice(&core[..core.len() - 5]);
    assert_eq!(validate_riff(&data, start), None);
}

fn build_minimal_ico(img_type: u16, entries_meta: &[(u32, u32)], total_len: usize) -> Vec<u8> {
    let mut out = vec![0u8; 6 + entries_meta.len() * 16];
    out[2..4].copy_from_slice(&img_type.to_le_bytes());
    out[4..6].copy_from_slice(&(entries_meta.len() as u16).to_le_bytes());
    for (i, (bytes_in_res, image_offset)) in entries_meta.iter().enumerate() {
        let base = 6 + i * 16;
        out[base + 8..base + 12].copy_from_slice(&bytes_in_res.to_le_bytes());
        out[base + 12..base + 16].copy_from_slice(&image_offset.to_le_bytes());
    }
    out.resize(total_len, 0xCC);
    for (_, image_offset) in entries_meta {
        let offset = *image_offset as usize;
        out[offset..offset + 4].copy_from_slice(&40u32.to_le_bytes());
    }
    out
}

#[test]
fn ico_exact_boundary_single_entry() {
    let core = build_minimal_ico(1, &[(100, 22)], 122);
    let (data, start) = wrap_with_junk(&core);
    let expected_end = start + core.len() - 1;

    let (end, confidence) = validate_ico(&data, start).expect("valid ico must parse");
    assert_eq!(end, expected_end);
    assert_eq!(confidence, 90);
}

#[test]
fn cur_exact_boundary_multiple_entries() {
    let core = build_minimal_ico(2, &[(50, 38), (80, 88)], 168);
    let (data, start) = wrap_with_junk(&core);
    let expected_end = start + core.len() - 1;

    let (end, confidence) = validate_ico(&data, start).expect("valid cur must parse");
    assert_eq!(end, expected_end);
    assert_eq!(confidence, 90);
}

#[test]
fn ico_truncated_returns_none() {
    let core = build_minimal_ico(1, &[(100, 22)], 122);
    let mut data = b"JUNK-PREFIX-".to_vec();
    let start = data.len();
    data.extend_from_slice(&core[..core.len() - 10]);
    assert_eq!(validate_ico(&data, start), None);
}

#[test]
fn ico_rejects_arithmetically_consistent_but_non_image_payload() {
    let mut core = build_minimal_ico(1, &[(100, 22)], 122);
    core[22..26].copy_from_slice(&[0xCC, 0xCC, 0xCC, 0xCC]);
    let (data, start) = wrap_with_junk(&core);
    assert_eq!(validate_ico(&data, start), None);
}

fn build_minimal_icns(payload_len: usize) -> Vec<u8> {
    let total = 8 + payload_len;
    let mut out = b"icns".to_vec();
    out.extend_from_slice(&(total as u32).to_be_bytes());
    out.extend(std::iter::repeat_n(0xABu8, payload_len));
    out
}

#[test]
fn icns_exact_boundary() {
    let core = build_minimal_icns(200);
    let (data, start) = wrap_with_junk(&core);
    let expected_end = start + core.len() - 1;

    let (end, confidence) = validate_icns(&data, start).expect("valid icns must parse");
    assert_eq!(end, expected_end);
    assert_eq!(confidence, 95);
}

#[test]
fn icns_truncated_returns_none() {
    let core = build_minimal_icns(200);
    let mut data = b"JUNK-PREFIX-".to_vec();
    let start = data.len();
    data.extend_from_slice(&core[..core.len() - 5]);
    assert_eq!(validate_icns(&data, start), None);
}

fn build_isobmff_box(box_type: &[u8; 4], payload_len: usize) -> Vec<u8> {
    let size = 8 + payload_len as u32;
    let mut out = size.to_be_bytes().to_vec();
    out.extend_from_slice(box_type);
    out.extend(std::iter::repeat_n(0u8, payload_len));
    out
}

fn build_minimal_heic_boxes() -> Vec<u8> {
    let mut out = build_isobmff_box(b"ftyp", 8);
    out.extend_from_slice(&build_isobmff_box(b"meta", 20));
    out.extend_from_slice(&build_isobmff_box(b"mdat", 100));
    out
}

#[test]
fn isobmff_exact_boundary_at_end_of_data() {
    let core = build_minimal_heic_boxes();
    let mut data = b"JUNK-PREFIX-".to_vec();
    let start = data.len();
    data.extend_from_slice(&core);

    let (end, confidence) = validate_isobmff(&data, start).expect("valid isobmff must parse");
    assert_eq!(end, data.len() - 1);
    assert_eq!(confidence, 90);
}

#[test]
fn isobmff_size_zero_extends_to_end_of_data() {
    let mut core = build_isobmff_box(b"ftyp", 8);
    core.extend_from_slice(&0u32.to_be_bytes());
    core.extend_from_slice(b"mdat");
    core.extend(std::iter::repeat_n(0xEEu8, 40));

    let mut data = b"JUNK-PREFIX-".to_vec();
    let start = data.len();
    data.extend_from_slice(&core);

    let (end, confidence) = validate_isobmff(&data, start).expect("valid isobmff must parse");
    assert_eq!(end, data.len() - 1);
    assert_eq!(confidence, 85);
}

#[test]
fn isobmff_truncated_last_box_falls_back_to_lower_confidence() {
    let core = build_minimal_heic_boxes(); // ftyp(16) + meta(28) + mdat(108) = 152
    let truncated = &core[..16 + 28 + 50];

    let mut data = b"JUNK-PREFIX-".to_vec();
    let start = data.len();
    data.extend_from_slice(truncated);
    let expected_last_good_end = start + 16 + 28 - 1;

    let (end, confidence) =
        validate_isobmff(&data, start).expect("partial isobmff still yields last box end");
    assert_eq!(end, expected_last_good_end);
    assert_eq!(confidence, 70);
}

#[test]
fn isobmff_no_valid_box_returns_none() {
    let mut data = b"JUNK-PREFIX-".to_vec();
    let start = data.len();
    data.extend_from_slice(&[0, 0, 0]);
    assert_eq!(validate_isobmff(&data, start), None);
}

fn build_minimal_mng() -> Vec<u8> {
    let mut out = b"\x8aMNG\r\n\x1a\n".to_vec();
    out.extend_from_slice(&0u32.to_be_bytes()); // MHDR length
    out.extend_from_slice(b"MHDR");
    out.extend_from_slice(&0u32.to_be_bytes());
    out.extend_from_slice(&0u32.to_be_bytes()); // MEND length
    out.extend_from_slice(b"MEND");
    out.extend_from_slice(&0u32.to_be_bytes());
    out
}

#[test]
fn mng_exact_boundary() {
    let core = build_minimal_mng();
    let (data, start) = wrap_with_junk(&core);
    let expected_end = start + core.len() - 1;

    let (end, confidence) = validate_mng(&data, start).expect("valid mng must parse");
    assert_eq!(end, expected_end);
    assert_eq!(confidence, 95);
}

fn build_minimal_jng() -> Vec<u8> {
    let mut out = b"\x8bJNG\r\n\x1a\n".to_vec();
    out.extend_from_slice(&0u32.to_be_bytes()); // JHDR length
    out.extend_from_slice(b"JHDR");
    out.extend_from_slice(&0u32.to_be_bytes());
    out.extend_from_slice(&0u32.to_be_bytes()); // JEND length
    out.extend_from_slice(b"JEND");
    out.extend_from_slice(&0u32.to_be_bytes());
    out
}

#[test]
fn jng_exact_boundary() {
    let core = build_minimal_jng();
    let (data, start) = wrap_with_junk(&core);
    let expected_end = start + core.len() - 1;

    let (end, confidence) = validate_jng(&data, start).expect("valid jng must parse");
    assert_eq!(end, expected_end);
    assert_eq!(confidence, 95);
}

fn build_minimal_eps_binary(ps_off: u32, ps_len: u32, wmf_off: u32, wmf_len: u32, tiff_off: u32, tiff_len: u32, total_len: usize) -> Vec<u8> {
    let mut out = b"\xc5\xd0\xd3\xc6".to_vec();
    out.extend_from_slice(&ps_off.to_le_bytes());
    out.extend_from_slice(&ps_len.to_le_bytes());
    out.extend_from_slice(&wmf_off.to_le_bytes());
    out.extend_from_slice(&wmf_len.to_le_bytes());
    out.extend_from_slice(&tiff_off.to_le_bytes());
    out.extend_from_slice(&tiff_len.to_le_bytes());
    out.extend_from_slice(&0u16.to_le_bytes());
    out.resize(total_len, 0xCC);
    out
}

#[test]
fn eps_binary_exact_boundary_from_furthest_section() {
    let core = build_minimal_eps_binary(30, 400, 0, 0, 500, 100, 600);
    let (data, start) = wrap_with_junk(&core);
    let expected_end = start + core.len() - 1;

    let (end, confidence) = validate_eps_binary_header(&data, start).expect("valid eps binary must parse");
    assert_eq!(end, expected_end);
    assert_eq!(confidence, 90);
}

#[test]
fn eps_binary_truncated_returns_none() {
    let core = build_minimal_eps_binary(30, 400, 0, 0, 500, 100, 600);
    let mut data = b"JUNK-PREFIX-".to_vec();
    let start = data.len();
    data.extend_from_slice(&core[..core.len() - 50]);
    assert_eq!(validate_eps_binary_header(&data, start), None);
}

fn build_standard_wmf_header(file_size_words: u32) -> Vec<u8> {
    let mut out = Vec::new();
    out.extend_from_slice(&1u16.to_le_bytes());
    out.extend_from_slice(&9u16.to_le_bytes());
    out.extend_from_slice(&0x0300u16.to_le_bytes()); // version
    out.extend_from_slice(&file_size_words.to_le_bytes());
    out.extend_from_slice(&0u16.to_le_bytes()); // numOfObjects
    out.extend_from_slice(&0u32.to_le_bytes()); // maxRecord
    out.extend_from_slice(&0u16.to_le_bytes()); // numOfParams
    out
}

#[test]
fn wmf_placeable_exact_boundary() {
    let mut core = b"\xd7\xcd\xc6\x9a\x00\x00".to_vec();
    core.extend(std::iter::repeat_n(0u8, 16));
    let payload = vec![0xAB; 40];
    let file_size_words = (build_standard_wmf_header(0).len() + payload.len()) as u32 / 2;
    core.extend_from_slice(&build_standard_wmf_header(file_size_words));
    core.extend_from_slice(&payload);

    let (data, start) = wrap_with_junk(&core);
    let expected_end = start + core.len() - 1;

    let (end, confidence) = validate_wmf(&data, start).expect("valid placeable wmf must parse");
    assert_eq!(end, expected_end);
    assert_eq!(confidence, 90);
}

#[test]
fn wmf_standard_without_placeable_wrapper_has_lower_confidence() {
    let payload = vec![0xAB; 40];
    let file_size_words = (build_standard_wmf_header(0).len() + payload.len()) as u32 / 2;
    let mut core = build_standard_wmf_header(file_size_words);
    core.extend_from_slice(&payload);

    let (data, start) = wrap_with_junk(&core);
    let expected_end = start + core.len() - 1;

    let (end, confidence) = validate_wmf(&data, start).expect("valid standard wmf must parse");
    assert_eq!(end, expected_end);
    assert_eq!(confidence, 55);
}

#[test]
fn wmf_truncated_returns_none() {
    let payload = vec![0xAB; 40];
    let file_size_words = (build_standard_wmf_header(0).len() + payload.len()) as u32 / 2;
    let mut core = build_standard_wmf_header(file_size_words);
    core.extend_from_slice(&payload);

    let mut data = b"JUNK-PREFIX-".to_vec();
    let start = data.len();
    data.extend_from_slice(&core[..core.len() - 10]);
    assert_eq!(validate_wmf(&data, start), None);
}

fn build_minimal_emf(n_bytes: u32) -> Vec<u8> {
    let mut out = vec![0u8; 52];
    out[0..4].copy_from_slice(&1u32.to_le_bytes()); // iType = EMR_HEADER
    out[40..44].copy_from_slice(b" EMF"); // dSignature
    out[48..52].copy_from_slice(&n_bytes.to_le_bytes());
    out.resize(n_bytes as usize, 0xCC);
    out
}

#[test]
fn emf_exact_boundary() {
    let core = build_minimal_emf(200);
    let (data, start) = wrap_with_junk(&core);
    let expected_end = start + core.len() - 1;

    let (end, confidence) = validate_emf(&data, start).expect("valid emf must parse");
    assert_eq!(end, expected_end);
    assert_eq!(confidence, 90);
}

#[test]
fn emf_truncated_returns_none() {
    let core = build_minimal_emf(200);
    let mut data = b"JUNK-PREFIX-".to_vec();
    let start = data.len();
    data.extend_from_slice(&core[..core.len() - 20]);
    assert_eq!(validate_emf(&data, start), None);
}

fn put_u32(out: &mut Vec<u8>, v: u32, is_be: bool) {
    if is_be {
        out.extend_from_slice(&v.to_be_bytes());
    } else {
        out.extend_from_slice(&v.to_le_bytes());
    }
}

fn put_u64(out: &mut Vec<u8>, v: u64, is_be: bool) {
    if is_be {
        out.extend_from_slice(&v.to_be_bytes());
    } else {
        out.extend_from_slice(&v.to_le_bytes());
    }
}

fn build_mach_header32(is_be: bool, ncmds: u32, sizeofcmds: u32) -> Vec<u8> {
    let mut out = Vec::new();
    put_u32(&mut out, 0xfeedface, is_be);
    put_u32(&mut out, 0, is_be); // cputype
    put_u32(&mut out, 0, is_be); // cpusubtype
    put_u32(&mut out, 2, is_be); // filetype: MH_EXECUTE
    put_u32(&mut out, ncmds, is_be);
    put_u32(&mut out, sizeofcmds, is_be);
    put_u32(&mut out, 0, is_be); // flags
    out
}

fn build_mach_header64(is_be: bool, ncmds: u32, sizeofcmds: u32) -> Vec<u8> {
    let mut out = build_mach_header32(is_be, ncmds, sizeofcmds);
    put_u32(&mut out, 0, is_be); // reserved
    out
}

fn build_lc_segment32(is_be: bool, fileoff: u32, filesize: u32) -> Vec<u8> {
    let mut out = Vec::new();
    put_u32(&mut out, 0x1, is_be); // LC_SEGMENT
    put_u32(&mut out, 56, is_be); // cmdsize
    out.extend_from_slice(&[0u8; 16]); // segname
    put_u32(&mut out, 0, is_be); // vmaddr
    put_u32(&mut out, filesize, is_be); // vmsize
    put_u32(&mut out, fileoff, is_be);
    put_u32(&mut out, filesize, is_be);
    put_u32(&mut out, 0, is_be); // maxprot
    put_u32(&mut out, 0, is_be); // initprot
    put_u32(&mut out, 0, is_be); // nsects
    put_u32(&mut out, 0, is_be); // flags
    out
}

fn build_lc_segment64(is_be: bool, vmsize: u64, fileoff: u64, filesize: u64) -> Vec<u8> {
    let mut out = Vec::new();
    put_u32(&mut out, 0x19, is_be); // LC_SEGMENT_64
    put_u32(&mut out, 72, is_be); // cmdsize
    out.extend_from_slice(&[0u8; 16]); // segname
    put_u64(&mut out, 0, is_be); // vmaddr
    put_u64(&mut out, vmsize, is_be);
    put_u64(&mut out, fileoff, is_be);
    put_u64(&mut out, filesize, is_be);
    put_u32(&mut out, 0, is_be); // maxprot
    put_u32(&mut out, 0, is_be); // initprot
    put_u32(&mut out, 0, is_be); // nsects
    put_u32(&mut out, 0, is_be); // flags
    out
}

#[test]
fn macho_64le_exact_boundary_via_segment_with_distinct_vmsize() {
    let lc_seg = build_lc_segment64(false, 999_999, 40, 300);
    let header = build_mach_header64(false, 1, lc_seg.len() as u32);

    let mut core = header;
    core.extend_from_slice(&lc_seg);
    core.resize(340, 0xCC);

    let (data, start) = wrap_with_junk(&core);
    let expected_end = start + core.len() - 1;

    let (end, confidence) = validate_macho_64le(&data, start).expect("valid macho64 via segment must parse");
    assert_eq!(end, expected_end);
    assert_eq!(confidence, 80);
}

fn build_lc_symtab(is_be: bool, symoff: u32, nsyms: u32, stroff: u32, strsize: u32) -> Vec<u8> {
    let mut out = Vec::new();
    put_u32(&mut out, 0x2, is_be); // LC_SYMTAB
    put_u32(&mut out, 24, is_be); // cmdsize
    put_u32(&mut out, symoff, is_be);
    put_u32(&mut out, nsyms, is_be);
    put_u32(&mut out, stroff, is_be);
    put_u32(&mut out, strsize, is_be);
    out
}

fn build_lc_code_signature(is_be: bool, dataoff: u32, datasize: u32) -> Vec<u8> {
    let mut out = Vec::new();
    put_u32(&mut out, 0x1d, is_be); // LC_CODE_SIGNATURE
    put_u32(&mut out, 16, is_be); // cmdsize
    put_u32(&mut out, dataoff, is_be);
    put_u32(&mut out, datasize, is_be);
    out
}

#[test]
fn macho_32be_exact_boundary_via_segment() {
    let header = build_mach_header32(true, 1, 56);
    let lc = build_lc_segment32(true, 28 + 56, 100); // fileoff = header(28)+sizeofcmds(56) = 84
    let mut core = header;
    core.extend_from_slice(&lc);
    core.extend(std::iter::repeat_n(0xABu8, 100));

    let (data, start) = wrap_with_junk(&core);
    let expected_end = start + core.len() - 1;

    let (end, confidence) = validate_macho_32be(&data, start).expect("valid macho must parse");
    assert_eq!(end, expected_end);
    assert_eq!(confidence, 80);
}

#[test]
fn macho_64le_exact_boundary_via_code_signature() {
    let lc_seg = build_lc_segment64(false, 999_999, 32, 50);
    let lc_symtab = build_lc_symtab(false, 82, 2, 106, 20);
    let lc_sig = build_lc_code_signature(false, 200, 300);
    let sizeofcmds = (lc_seg.len() + lc_symtab.len() + lc_sig.len()) as u32;
    let header = build_mach_header64(false, 3, sizeofcmds);

    let mut core = header;
    core.extend_from_slice(&lc_seg);
    core.extend_from_slice(&lc_symtab);
    core.extend_from_slice(&lc_sig);
    core.resize(500, 0xCC);

    let (data, start) = wrap_with_junk(&core);
    let expected_end = start + core.len() - 1;

    let (end, confidence) = validate_macho_64le(&data, start).expect("valid macho64 must parse");
    assert_eq!(end, expected_end);
    assert_eq!(confidence, 80);
}

#[test]
fn macho_truncated_returns_none() {
    let header = build_mach_header32(true, 1, 56);
    let lc = build_lc_segment32(true, 84, 100);
    let mut core = header;
    core.extend_from_slice(&lc);
    core.extend(std::iter::repeat_n(0xABu8, 100));

    let mut data = b"JUNK-PREFIX-".to_vec();
    let start = data.len();
    data.extend_from_slice(&core[..core.len() - 10]);
    assert_eq!(validate_macho_32be(&data, start), None);
}

fn build_fat_arch(offset: u32, size: u32) -> Vec<u8> {
    let mut out = Vec::new();
    out.extend_from_slice(&0u32.to_be_bytes()); // cputype
    out.extend_from_slice(&0u32.to_be_bytes()); // cpusubtype
    out.extend_from_slice(&offset.to_be_bytes());
    out.extend_from_slice(&size.to_be_bytes());
    out.extend_from_slice(&0u32.to_be_bytes()); // align
    out
}

fn build_minimal_fat(arches: &[(u32, u32)]) -> Vec<u8> {
    let mut out = b"\xca\xfe\xba\xbe".to_vec();
    out.extend_from_slice(&(arches.len() as u32).to_be_bytes());
    for &(offset, size) in arches {
        out.extend_from_slice(&build_fat_arch(offset, size));
    }
    out
}

#[test]
fn macho_fat_exact_boundary() {
    let mut core = build_minimal_fat(&[(4096, 1000), (8192, 2000)]);
    core.resize(10192, 0xEE);
    let (data, start) = wrap_with_junk(&core);
    let expected_end = start + core.len() - 1;

    let (end, confidence) = validate_macho_fat(&data, start).expect("valid fat macho must parse");
    assert_eq!(end, expected_end);
    assert_eq!(confidence, 90);
}

#[test]
fn macho_fat_truncated_returns_none() {
    let mut core = build_minimal_fat(&[(4096, 1000), (8192, 2000)]);
    core.resize(10192, 0xEE);
    let mut data = b"JUNK-PREFIX-".to_vec();
    let start = data.len();
    data.extend_from_slice(&core[..core.len() - 50]);
    assert_eq!(validate_macho_fat(&data, start), None);
}

fn build_pef_section(container_offset: u32, packed_size: u32) -> Vec<u8> {
    let mut out = Vec::new();
    out.extend_from_slice(&0i32.to_be_bytes()); // nameOffset
    out.extend_from_slice(&0u32.to_be_bytes()); // defaultAddress
    out.extend_from_slice(&packed_size.to_be_bytes()); // totalSize
    out.extend_from_slice(&packed_size.to_be_bytes()); // unpackedSize
    out.extend_from_slice(&packed_size.to_be_bytes()); // packedSize
    out.extend_from_slice(&container_offset.to_be_bytes()); // containerOffset
    out.push(0); // sectionKind
    out.push(0); // shareKind
    out.push(0); // alignment
    out.push(0); // reservedA
    out
}

fn build_minimal_pef(sections: &[(u32, u32)]) -> Vec<u8> {
    let mut out = b"Joy!peff".to_vec();
    out.extend_from_slice(b"pwpc"); // architecture
    out.extend_from_slice(&0u32.to_be_bytes()); // formatVersion
    out.extend_from_slice(&0u32.to_be_bytes()); // dateTimeStamp
    out.extend_from_slice(&0u32.to_be_bytes()); // oldDefVersion
    out.extend_from_slice(&0u32.to_be_bytes()); // oldImpVersion
    out.extend_from_slice(&0u32.to_be_bytes()); // currentVersion
    out.extend_from_slice(&(sections.len() as u16).to_be_bytes()); // sectionCount
    out.extend_from_slice(&0u16.to_be_bytes()); // instSectionCount
    out.extend_from_slice(&0u32.to_be_bytes()); // reservedA
    for &(offset, size) in sections {
        out.extend_from_slice(&build_pef_section(offset, size));
    }
    out
}

#[test]
fn pef_exact_boundary() {
    let mut core = build_minimal_pef(&[(68, 100), (168, 300)]);
    core.resize(468, 0xDD);
    let (data, start) = wrap_with_junk(&core);
    let expected_end = start + core.len() - 1;

    let (end, confidence) = validate_pef(&data, start).expect("valid pef must parse");
    assert_eq!(end, expected_end);
    assert_eq!(confidence, 85);
}

#[test]
fn pef_truncated_returns_none() {
    let mut core = build_minimal_pef(&[(68, 100), (168, 300)]);
    core.resize(468, 0xDD);
    let mut data = b"JUNK-PREFIX-".to_vec();
    let start = data.len();
    data.extend_from_slice(&core[..core.len() - 20]);
    assert_eq!(validate_pef(&data, start), None);
}

fn build_minimal_iff(form_type: &[u8; 4], payload: &[u8]) -> Vec<u8> {
    let mut out = b"FORM".to_vec();
    let chunk_size = 4 + payload.len() as u32;
    out.extend_from_slice(&chunk_size.to_be_bytes());
    out.extend_from_slice(form_type);
    out.extend_from_slice(payload);
    out
}

#[test]
fn iff_exact_boundary() {
    let core = build_minimal_iff(b"AIFF", &[0xAB; 60]);
    let (data, start) = wrap_with_junk(&core);
    let expected_end = start + core.len() - 1;

    let (end, confidence) = validate_iff(&data, start).expect("valid iff must parse");
    assert_eq!(end, expected_end);
    assert_eq!(confidence, 90);
}

#[test]
fn iff_truncated_returns_none() {
    let core = build_minimal_iff(b"8SVX", &[0xAB; 60]);
    let mut data = b"JUNK-PREFIX-".to_vec();
    let start = data.len();
    data.extend_from_slice(&core[..core.len() - 5]);
    assert_eq!(validate_iff(&data, start), None);
}

fn build_ogg_page(header_type: u8, segment_table: &[u8], payload: &[u8]) -> Vec<u8> {
    let mut out = b"OggS".to_vec();
    out.push(0); // version
    out.push(header_type);
    out.extend_from_slice(&0u64.to_le_bytes()); // granule_position
    out.extend_from_slice(&0u32.to_le_bytes()); // serial
    out.extend_from_slice(&0u32.to_le_bytes()); // page_sequence
    out.extend_from_slice(&0u32.to_le_bytes()); // crc
    out.push(segment_table.len() as u8);
    out.extend_from_slice(segment_table);
    out.extend_from_slice(payload);
    out
}

#[test]
fn ogg_exact_boundary_with_eos() {
    const EOS: u8 = 0x04;
    let core = build_ogg_page(EOS, &[10], &[0xAB; 10]);
    let (data, start) = wrap_with_junk(&core);
    let expected_end = start + core.len() - 1;

    let (end, confidence) = validate_ogg(&data, start).expect("valid ogg must parse");
    assert_eq!(end, expected_end);
    assert_eq!(confidence, 90);
}

#[test]
fn ogg_without_eos_falls_back_to_lower_confidence() {
    let core = build_ogg_page(0x00, &[10], &[0xAB; 10]);
    let mut data = b"JUNK-PREFIX-".to_vec();
    let start = data.len();
    data.extend_from_slice(&core);
    let expected_end = start + core.len() - 1;

    let (end, confidence) = validate_ogg(&data, start).expect("partial ogg still yields last page end");
    assert_eq!(end, expected_end);
    assert_eq!(confidence, 70);
}

#[test]
fn ogg_no_valid_page_returns_none() {
    let mut data = b"JUNK-PREFIX-".to_vec();
    let start = data.len();
    data.extend_from_slice(b"NOTOGG");
    assert_eq!(validate_ogg(&data, start), None);
}

const ASF_HEADER_GUID: [u8; 16] = [
    0x30, 0x26, 0xb2, 0x75, 0x8e, 0x66, 0xcf, 0x11, 0xa6, 0xd9, 0x00, 0xaa, 0x00, 0x62, 0xce, 0x6c,
];
const ASF_FILE_PROPS_GUID: [u8; 16] = [
    0xa1, 0xdc, 0xab, 0x8c, 0x47, 0xa9, 0xcf, 0x11, 0x8e, 0xe4, 0x00, 0xc0, 0x0c, 0x20, 0x53, 0x65,
];

fn build_minimal_asf(file_size: u64) -> Vec<u8> {
    let mut file_props_obj = ASF_FILE_PROPS_GUID.to_vec();
    let obj_size: u64 = 24 + 24;
    file_props_obj.extend_from_slice(&obj_size.to_le_bytes());
    file_props_obj.extend_from_slice(&[0u8; 16]); // FileID
    file_props_obj.extend_from_slice(&file_size.to_le_bytes());

    let mut out = ASF_HEADER_GUID.to_vec();
    let header_object_size = 30 + file_props_obj.len() as u64;
    out.extend_from_slice(&header_object_size.to_le_bytes());
    out.extend_from_slice(&1u32.to_le_bytes()); // num_header_objects
    out.push(0);
    out.push(0);
    out.extend_from_slice(&file_props_obj);
    out
}

#[test]
fn asf_exact_boundary() {
    let mut core = build_minimal_asf(500);
    core.resize(500, 0xEE);
    let (data, start) = wrap_with_junk(&core);
    let expected_end = start + core.len() - 1;

    let (end, confidence) = validate_asf(&data, start).expect("valid asf must parse");
    assert_eq!(end, expected_end);
    assert_eq!(confidence, 90);
}

#[test]
fn asf_truncated_returns_none() {
    let mut core = build_minimal_asf(500);
    core.resize(500, 0xEE);
    let mut data = b"JUNK-PREFIX-".to_vec();
    let start = data.len();
    data.extend_from_slice(&core[..core.len() - 10]);
    assert_eq!(validate_asf(&data, start), None);
}

fn build_minimal_dsf(file_size: u64) -> Vec<u8> {
    let mut out = b"DSD ".to_vec();
    out.extend_from_slice(&28u64.to_le_bytes());
    out.extend_from_slice(&file_size.to_le_bytes());
    out.extend_from_slice(&0u64.to_le_bytes()); // metadataOffset
    out
}

#[test]
fn dsf_exact_boundary() {
    let mut core = build_minimal_dsf(300);
    core.resize(300, 0xAB);
    let (data, start) = wrap_with_junk(&core);
    let expected_end = start + core.len() - 1;

    let (end, confidence) = validate_dsf(&data, start).expect("valid dsf must parse");
    assert_eq!(end, expected_end);
    assert_eq!(confidence, 95);
}

#[test]
fn dsf_truncated_returns_none() {
    let mut core = build_minimal_dsf(300);
    core.resize(300, 0xAB);
    let mut data = b"JUNK-PREFIX-".to_vec();
    let start = data.len();
    data.extend_from_slice(&core[..core.len() - 10]);
    assert_eq!(validate_dsf(&data, start), None);
}

fn build_caf_chunk(chunk_type: &[u8; 4], size: i64, payload_len: usize) -> Vec<u8> {
    let mut out = chunk_type.to_vec();
    out.extend_from_slice(&size.to_be_bytes());
    out.extend(std::iter::repeat_n(0u8, payload_len));
    out
}

#[test]
fn caf_exact_boundary_at_end_of_data() {
    let mut core = b"caff".to_vec();
    core.extend_from_slice(&1u16.to_be_bytes()); // mFileVersion
    core.extend_from_slice(&0u16.to_be_bytes()); // mFileFlags
    core.extend_from_slice(&build_caf_chunk(b"desc", 32, 32));
    core.extend_from_slice(&build_caf_chunk(b"data", 100, 100));

    let mut data = b"JUNK-PREFIX-".to_vec();
    let start = data.len();
    data.extend_from_slice(&core);

    let (end, confidence) = validate_caf(&data, start).expect("valid caf must parse");
    assert_eq!(end, data.len() - 1);
    assert_eq!(confidence, 90);
}

#[test]
fn caf_unknown_size_extends_to_end_of_data() {
    let mut core = b"caff".to_vec();
    core.extend_from_slice(&1u16.to_be_bytes());
    core.extend_from_slice(&0u16.to_be_bytes());
    core.extend_from_slice(&build_caf_chunk(b"desc", 32, 32));
    core.extend_from_slice(b"data");
    core.extend_from_slice(&(-1i64).to_be_bytes());
    core.extend(std::iter::repeat_n(0xEEu8, 50));

    let mut data = b"JUNK-PREFIX-".to_vec();
    let start = data.len();
    data.extend_from_slice(&core);

    let (end, confidence) = validate_caf(&data, start).expect("valid caf must parse");
    assert_eq!(end, data.len() - 1);
    assert_eq!(confidence, 85);
}

#[test]
fn caf_truncated_falls_back_to_lower_confidence() {
    let mut core = b"caff".to_vec();
    core.extend_from_slice(&1u16.to_be_bytes());
    core.extend_from_slice(&0u16.to_be_bytes());
    core.extend_from_slice(&build_caf_chunk(b"desc", 32, 32));
    let desc_end = core.len();
    core.extend_from_slice(b"data");
    core.extend_from_slice(&200i64.to_be_bytes());
    core.extend(std::iter::repeat_n(0xEEu8, 50));

    let mut data = b"JUNK-PREFIX-".to_vec();
    let start = data.len();
    data.extend_from_slice(&core);
    let expected_last_good_end = start + desc_end - 1;

    let (end, confidence) = validate_caf(&data, start).expect("partial caf still yields last chunk end");
    assert_eq!(end, expected_last_good_end);
    assert_eq!(confidence, 70);
}

fn build_midi_track(events: &[u8]) -> Vec<u8> {
    let mut out = b"MTrk".to_vec();
    out.extend_from_slice(&(events.len() as u32).to_be_bytes());
    out.extend_from_slice(events);
    out
}

fn build_minimal_midi(ntracks: u16, tracks: &[Vec<u8>]) -> Vec<u8> {
    let mut out = b"MThd".to_vec();
    out.extend_from_slice(&6u32.to_be_bytes()); // header_len
    out.extend_from_slice(&1u16.to_be_bytes()); // format
    out.extend_from_slice(&ntracks.to_be_bytes());
    out.extend_from_slice(&96u16.to_be_bytes()); // division
    for t in tracks {
        out.extend_from_slice(t);
    }
    out
}

#[test]
fn midi_exact_boundary() {
    let track1 = build_midi_track(&[0x00, 0x90, 0x40, 0x40]);
    let track2 = build_midi_track(&[0x00, 0xFF, 0x2F, 0x00]);
    let core = build_minimal_midi(2, &[track1, track2]);
    let (data, start) = wrap_with_junk(&core);
    let expected_end = start + core.len() - 1;

    let (end, confidence) = validate_midi(&data, start).expect("valid midi must parse");
    assert_eq!(end, expected_end);
    assert_eq!(confidence, 90);
}

#[test]
fn midi_truncated_returns_none() {
    let track1 = build_midi_track(&[0x00, 0x90, 0x40, 0x40]);
    let track2 = build_midi_track(&[0x00, 0xFF, 0x2F, 0x00]);
    let core = build_minimal_midi(2, &[track1, track2]);
    let mut data = b"JUNK-PREFIX-".to_vec();
    let start = data.len();
    data.extend_from_slice(&core[..core.len() - 3]);
    assert_eq!(validate_midi(&data, start), None);
}

fn build_minimal_mod(song_length: u8, pattern_order: &[u8], sample_lengths_words: &[u16; 31]) -> Vec<u8> {
    let mut out = vec![0u8; 20]; // title
    for &len_words in sample_lengths_words {
        let mut sample = vec![0u8; 30];
        sample[22..24].copy_from_slice(&len_words.to_be_bytes());
        out.extend_from_slice(&sample);
    }
    out.push(song_length); // offset 950
    out.push(0); // restart position, offset 951
    let mut table = [0u8; 128];
    table[..pattern_order.len()].copy_from_slice(pattern_order);
    out.extend_from_slice(&table); // offset 952..1080
    out.extend_from_slice(b"M.K."); // offset 1080..1084
    out
}

#[test]
fn mod_exact_boundary() {
    let mut sample_lengths = [0u16; 31];
    sample_lengths[0] = 100;
    sample_lengths[1] = 50;
    let pattern_order = [0u8, 1, 0];
    let core_header = build_minimal_mod(3, &pattern_order, &sample_lengths);
    assert_eq!(core_header.len(), 1084);

    let mut core = core_header;
    core.extend(std::iter::repeat_n(0u8, 2 * 1024));
    core.extend(std::iter::repeat_n(0xABu8, 200));
    core.extend(std::iter::repeat_n(0xCDu8, 100));

    let (data, start) = wrap_with_junk(&core);
    let expected_end = start + core.len() - 1;

    let (end, confidence) = validate_mod(&data, start).expect("valid mod must parse");
    assert_eq!(end, expected_end);
    assert_eq!(confidence, 85);
}

#[test]
fn mod_truncated_returns_none() {
    let mut sample_lengths = [0u16; 31];
    sample_lengths[0] = 100;
    let pattern_order = [0u8];
    let core_header = build_minimal_mod(1, &pattern_order, &sample_lengths);
    let mut core = core_header;
    core.extend(std::iter::repeat_n(0u8, 1024));
    core.extend(std::iter::repeat_n(0xABu8, 200));

    let mut data = b"JUNK-PREFIX-".to_vec();
    let start = data.len();
    data.extend_from_slice(&core[..core.len() - 10]);
    assert_eq!(validate_mod(&data, start), None);
}

fn build_cpio_newc_entry(name: &str, content: &[u8]) -> Vec<u8> {
    let namesize = name.len() + 1;
    let field = |v: u32| format!("{v:08x}").into_bytes();
    let mut out = b"070701".to_vec();
    out.extend_from_slice(&field(1)); // ino
    out.extend_from_slice(&field(0o100644)); // mode
    out.extend_from_slice(&field(0)); // uid
    out.extend_from_slice(&field(0)); // gid
    out.extend_from_slice(&field(1)); // nlink
    out.extend_from_slice(&field(0)); // mtime
    out.extend_from_slice(&field(content.len() as u32)); // filesize
    out.extend_from_slice(&field(0)); // devmajor
    out.extend_from_slice(&field(0)); // devminor
    out.extend_from_slice(&field(0)); // rdevmajor
    out.extend_from_slice(&field(0)); // rdevminor
    out.extend_from_slice(&field(namesize as u32)); // namesize
    out.extend_from_slice(&field(0)); // check
    out.extend_from_slice(name.as_bytes());
    out.push(0);
    while !out.len().is_multiple_of(4) {
        out.push(0);
    }
    out.extend_from_slice(content);
    while !out.len().is_multiple_of(4) {
        out.push(0);
    }
    out
}

#[test]
fn cpio_newc_exact_boundary() {
    let mut core = build_cpio_newc_entry("hello.txt", b"hello world");
    core.extend_from_slice(&build_cpio_newc_entry("TRAILER!!!", b""));
    let (data, start) = wrap_with_junk(&core);
    let expected_end = start + core.len() - 1;

    let (end, confidence) = validate_cpio_newc(&data, start).expect("valid cpio newc must parse");
    assert_eq!(end, expected_end);
    assert_eq!(confidence, 90);
}

#[test]
fn cpio_newc_truncated_returns_none() {
    let mut core = build_cpio_newc_entry("hello.txt", b"hello world");
    core.extend_from_slice(&build_cpio_newc_entry("TRAILER!!!", b""));
    let mut data = b"JUNK-PREFIX-".to_vec();
    let start = data.len();
    data.extend_from_slice(&core[..core.len() - 5]);
    assert_eq!(validate_cpio_newc(&data, start), None);
}

fn build_cpio_odc_entry(name: &str, content: &[u8]) -> Vec<u8> {
    let namesize = name.len() + 1;
    let field6 = |v: u32| format!("{v:06o}").into_bytes();
    let field11 = |v: u64| format!("{v:011o}").into_bytes();
    let mut out = b"070707".to_vec();
    out.extend_from_slice(&field6(0)); // dev
    out.extend_from_slice(&field6(1)); // ino
    out.extend_from_slice(&field6(0o100644)); // mode
    out.extend_from_slice(&field6(0)); // uid
    out.extend_from_slice(&field6(0)); // gid
    out.extend_from_slice(&field6(1)); // nlink
    out.extend_from_slice(&field6(0)); // rdev
    out.extend_from_slice(&field11(0)); // mtime
    out.extend_from_slice(&field6(namesize as u32)); // namesize
    out.extend_from_slice(&field11(content.len() as u64)); // filesize
    out.extend_from_slice(name.as_bytes());
    out.push(0);
    out.extend_from_slice(content);
    out
}

#[test]
fn cpio_odc_exact_boundary() {
    let mut core = build_cpio_odc_entry("hello.txt", b"hello world");
    core.extend_from_slice(&build_cpio_odc_entry("TRAILER!!!", b""));
    let (data, start) = wrap_with_junk(&core);
    let expected_end = start + core.len() - 1;

    let (end, confidence) = validate_cpio_odc(&data, start).expect("valid cpio odc must parse");
    assert_eq!(end, expected_end);
    assert_eq!(confidence, 90);
}

#[test]
fn cpio_odc_truncated_returns_none() {
    let mut core = build_cpio_odc_entry("hello.txt", b"hello world");
    core.extend_from_slice(&build_cpio_odc_entry("TRAILER!!!", b""));
    let mut data = b"JUNK-PREFIX-".to_vec();
    let start = data.len();
    data.extend_from_slice(&core[..core.len() - 5]);
    assert_eq!(validate_cpio_odc(&data, start), None);
}

fn build_ar_entry(name: &str, content: &[u8]) -> Vec<u8> {
    let mut out = Vec::new();
    let mut name_field = name.as_bytes().to_vec();
    name_field.resize(16, b' ');
    out.extend_from_slice(&name_field);
    out.extend_from_slice(format!("{:<12}", 0).as_bytes()); // mtime
    out.extend_from_slice(format!("{:<6}", 0).as_bytes()); // uid
    out.extend_from_slice(format!("{:<6}", 0).as_bytes()); // gid
    out.extend_from_slice(format!("{:<8}", "100644").as_bytes()); // mode
    out.extend_from_slice(format!("{:<10}", content.len()).as_bytes()); // size
    out.extend_from_slice(b"\x60\x0a"); // end marker
    out.extend_from_slice(content);
    if content.len() % 2 == 1 {
        out.push(b'\n');
    }
    out
}

#[test]
fn ar_exact_boundary_at_end_of_data() {
    let mut core = b"!<arch>\n".to_vec();
    core.extend_from_slice(&build_ar_entry("hello.txt", b"hello world"));
    core.extend_from_slice(&build_ar_entry("second", b"data"));

    let mut data = b"JUNK-PREFIX-".to_vec();
    let start = data.len();
    data.extend_from_slice(&core);

    let (end, confidence) = validate_ar(&data, start).expect("valid ar must parse");
    assert_eq!(end, data.len() - 1);
    assert_eq!(confidence, 90);
}

#[test]
fn ar_truncated_falls_back_to_lower_confidence() {
    let mut core = b"!<arch>\n".to_vec();
    core.extend_from_slice(&build_ar_entry("hello.txt", b"hello world"));
    let first_entry_end = core.len();
    core.extend_from_slice(&build_ar_entry("second", b"data"));
    let truncated = &core[..first_entry_end + 30];

    let mut data = b"JUNK-PREFIX-".to_vec();
    let start = data.len();
    data.extend_from_slice(truncated);
    let expected_last_good_end = start + first_entry_end - 1;

    let (end, confidence) = validate_ar(&data, start).expect("partial ar still yields last entry end");
    assert_eq!(end, expected_last_good_end);
    assert_eq!(confidence, 70);
}

fn build_minimal_iso9660(volume_space_size: u32, logical_block_size: u16) -> Vec<u8> {
    let mut out = vec![0u8; 32768];
    let mut pvd = vec![0u8; 2048];
    pvd[0] = 1;
    pvd[1..6].copy_from_slice(b"CD001");
    pvd[80..84].copy_from_slice(&volume_space_size.to_le_bytes());
    pvd[84..88].copy_from_slice(&volume_space_size.to_be_bytes());
    pvd[128..130].copy_from_slice(&logical_block_size.to_le_bytes());
    pvd[130..132].copy_from_slice(&logical_block_size.to_be_bytes());
    out.extend_from_slice(&pvd);
    out
}

#[test]
fn iso9660_exact_boundary() {
    let mut core = build_minimal_iso9660(20, 2048);
    core.resize(40960, 0xAB);
    let (data, start) = wrap_with_junk(&core);
    let expected_end = start + core.len() - 1;

    let (end, confidence) = validate_iso9660(&data, start).expect("valid iso9660 must parse");
    assert_eq!(end, expected_end);
    assert_eq!(confidence, 90);
}

#[test]
fn iso9660_truncated_returns_none() {
    let core = build_minimal_iso9660(20, 2048);
    let mut data = b"JUNK-PREFIX-".to_vec();
    let start = data.len();
    data.extend_from_slice(&core);
    assert_eq!(validate_iso9660(&data, start), None);
}

fn build_zstd_block(last_block: bool, block_type: u32, size: u32) -> Vec<u8> {
    let header = last_block as u32 | (block_type << 1) | (size << 3);
    vec![
        (header & 0xFF) as u8,
        ((header >> 8) & 0xFF) as u8,
        ((header >> 16) & 0xFF) as u8,
    ]
}

#[test]
fn zstd_exact_boundary_single_raw_block() {
    let mut core = b"\x28\xb5\x2f\xfd".to_vec();
    core.push(0x00);
    core.push(0x00); // Window_Descriptor
    core.extend_from_slice(&build_zstd_block(true, 0, 20));
    core.extend(std::iter::repeat_n(0xABu8, 20));

    let (data, start) = wrap_with_junk(&core);
    let expected_end = start + core.len() - 1;

    let (end, confidence) = validate_zstd(&data, start).expect("valid zstd must parse");
    assert_eq!(end, expected_end);
    assert_eq!(confidence, 85);
}

#[test]
fn zstd_single_segment_with_content_checksum() {
    let fhd: u8 = 0x04 | 0x20;
    let mut core = b"\x28\xb5\x2f\xfd".to_vec();
    core.push(fhd);
    core.push(5);
    core.extend_from_slice(&build_zstd_block(true, 2, 15));
    core.extend(std::iter::repeat_n(0xCDu8, 15));
    core.extend_from_slice(&[0u8; 4]); // Content_Checksum

    let (data, start) = wrap_with_junk(&core);
    let expected_end = start + core.len() - 1;

    let (end, confidence) = validate_zstd(&data, start).expect("valid zstd (single segment) must parse");
    assert_eq!(end, expected_end);
    assert_eq!(confidence, 85);
}

#[test]
fn zstd_truncated_returns_none() {
    let mut core = b"\x28\xb5\x2f\xfd".to_vec();
    core.push(0x00);
    core.push(0x00);
    core.extend_from_slice(&build_zstd_block(true, 0, 20));
    core.extend(std::iter::repeat_n(0xABu8, 20));

    let mut data = b"JUNK-PREFIX-".to_vec();
    let start = data.len();
    data.extend_from_slice(&core[..core.len() - 5]);
    assert_eq!(validate_zstd(&data, start), None);
}

fn build_wad_lump(name: &[u8; 8], filepos: u32, size: u32) -> Vec<u8> {
    let mut out = Vec::new();
    out.extend_from_slice(&filepos.to_le_bytes());
    out.extend_from_slice(&size.to_le_bytes());
    out.extend_from_slice(name);
    out
}

fn build_minimal_wad(lumps: &[u8]) -> Vec<u8> {
    let mut out = b"IWAD".to_vec();
    out.extend_from_slice(&1u32.to_le_bytes()); // numlumps
    let infotableofs = (12 + lumps.len()) as u32;
    out.extend_from_slice(&infotableofs.to_le_bytes());
    out.extend_from_slice(lumps);
    out.extend_from_slice(&build_wad_lump(b"LUMP1\0\0\0", 12, lumps.len() as u32));
    out
}

#[test]
fn wad_exact_boundary() {
    let core = build_minimal_wad(b"HELLOWORLD");
    let (data, start) = wrap_with_junk(&core);
    let expected_end = start + core.len() - 1;

    let (end, confidence) = validate_wad(&data, start).expect("valid wad must parse");
    assert_eq!(end, expected_end);
    assert_eq!(confidence, 90);
}

#[test]
fn wad_truncated_returns_none() {
    let core = build_minimal_wad(b"HELLOWORLD");
    let mut data = b"JUNK-PREFIX-".to_vec();
    let start = data.len();
    data.extend_from_slice(&core[..core.len() - 5]);
    assert_eq!(validate_wad(&data, start), None);
}

fn build_pak_entry(name: &str, filepos: u32, filelength: u32) -> Vec<u8> {
    let mut out = vec![0u8; 56];
    out[..name.len()].copy_from_slice(name.as_bytes());
    out.extend_from_slice(&filepos.to_le_bytes());
    out.extend_from_slice(&filelength.to_le_bytes());
    out
}

fn build_minimal_pak(content: &[u8]) -> Vec<u8> {
    let mut out = b"PACK".to_vec();
    let diroffset = (12 + content.len()) as u32;
    out.extend_from_slice(&diroffset.to_le_bytes());
    out.extend_from_slice(&64u32.to_le_bytes());
    out.extend_from_slice(content);
    out.extend_from_slice(&build_pak_entry("maps/e1m1.bsp", 12, content.len() as u32));
    out
}

#[test]
fn pak_exact_boundary() {
    let core = build_minimal_pak(b"quakecontentdata");
    let (data, start) = wrap_with_junk(&core);
    let expected_end = start + core.len() - 1;

    let (end, confidence) = validate_pak_quake(&data, start).expect("valid pak must parse");
    assert_eq!(end, expected_end);
    assert_eq!(confidence, 90);
}

#[test]
fn pak_truncated_returns_none() {
    let core = build_minimal_pak(b"quakecontentdata");
    let mut data = b"JUNK-PREFIX-".to_vec();
    let start = data.len();
    data.extend_from_slice(&core[..core.len() - 5]);
    assert_eq!(validate_pak_quake(&data, start), None);
}

fn build_vbsp_lump(fileofs: u32, filelen: u32) -> Vec<u8> {
    let mut out = Vec::new();
    out.extend_from_slice(&fileofs.to_le_bytes());
    out.extend_from_slice(&filelen.to_le_bytes());
    out.extend_from_slice(&0u32.to_le_bytes()); // version
    out.extend_from_slice(&0u32.to_le_bytes()); // fourCC
    out
}

fn build_minimal_vbsp(lump_data: &[(u32, u32)]) -> Vec<u8> {
    let mut out = b"VBSP".to_vec();
    out.extend_from_slice(&20u32.to_le_bytes()); // version
    for i in 0..17 {
        let (ofs, len) = lump_data.get(i).copied().unwrap_or((0, 0));
        out.extend_from_slice(&build_vbsp_lump(ofs, len));
    }
    out
}

#[test]
fn vbsp_exact_boundary() {
    let mut core = build_minimal_vbsp(&[(280, 500)]);
    core.resize(780, 0xAB);
    let (data, start) = wrap_with_junk(&core);
    let expected_end = start + core.len() - 1;

    let (end, confidence) = validate_vbsp(&data, start).expect("valid vbsp must parse");
    assert_eq!(end, expected_end);
    assert_eq!(confidence, 80);
}

#[test]
fn vbsp_truncated_returns_none() {
    let core = build_minimal_vbsp(&[(280, 500)]);
    let mut data = b"JUNK-PREFIX-".to_vec();
    let start = data.len();
    data.extend_from_slice(&core);
    assert_eq!(validate_vbsp(&data, start), None);
}

fn build_minimal_nes(prg_units: u8, chr_units: u8, trainer: bool) -> Vec<u8> {
    let mut out = b"NES\x1a".to_vec();
    out.push(prg_units);
    out.push(chr_units);
    out.push(if trainer { 0x04 } else { 0x00 }); // flags6
    out.push(0); // flags7
    out.extend(std::iter::repeat_n(0u8, 8));
    if trainer {
        out.extend(std::iter::repeat_n(0u8, 512));
    }
    out.extend(std::iter::repeat_n(0xABu8, prg_units as usize * 16384));
    out.extend(std::iter::repeat_n(0xCDu8, chr_units as usize * 8192));
    out
}

#[test]
fn nes_exact_boundary() {
    let core = build_minimal_nes(1, 1, false);
    let (data, start) = wrap_with_junk(&core);
    let expected_end = start + core.len() - 1;

    let (end, confidence) = validate_nes(&data, start).expect("valid nes must parse");
    assert_eq!(end, expected_end);
    assert_eq!(confidence, 85);
}

#[test]
fn nes_with_trainer_exact_boundary() {
    let core = build_minimal_nes(1, 0, true);
    let (data, start) = wrap_with_junk(&core);
    let expected_end = start + core.len() - 1;

    let (end, confidence) = validate_nes(&data, start).expect("valid nes must parse");
    assert_eq!(end, expected_end);
    assert_eq!(confidence, 85);
}

#[test]
fn nes_truncated_returns_none() {
    let core = build_minimal_nes(1, 1, false);
    let mut data = b"JUNK-PREFIX-".to_vec();
    let start = data.len();
    data.extend_from_slice(&core[..core.len() - 100]);
    assert_eq!(validate_nes(&data, start), None);
}

fn build_minimal_unityfs(total_size: i64) -> Vec<u8> {
    let mut out = b"UnityFS\0".to_vec();
    out.extend_from_slice(&6u32.to_be_bytes()); // version
    out.extend_from_slice(b"5.6.0f1\0"); // unityVersion
    out.extend_from_slice(b"2018.4.0f1\0"); // unityRevision
    out.extend_from_slice(&total_size.to_be_bytes());
    out
}

#[test]
fn unityfs_exact_boundary() {
    let mut core = build_minimal_unityfs(500);
    core.resize(500, 0xAB);
    let (data, start) = wrap_with_junk(&core);
    let expected_end = start + core.len() - 1;

    let (end, confidence) = validate_unityfs(&data, start).expect("valid unityfs must parse");
    assert_eq!(end, expected_end);
    assert_eq!(confidence, 90);
}

#[test]
fn unityfs_truncated_returns_none() {
    let mut core = build_minimal_unityfs(500);
    core.resize(500, 0xAB);
    let mut data = b"JUNK-PREFIX-".to_vec();
    let start = data.len();
    data.extend_from_slice(&core[..core.len() - 10]);
    assert_eq!(validate_unityfs(&data, start), None);
}

fn build_minimal_vpk(tree: &[u8], file_data: &[u8]) -> Vec<u8> {
    let mut out = vec![0x34, 0x12, 0xAA, 0x55];
    out.extend_from_slice(&2u32.to_le_bytes()); // version
    out.extend_from_slice(&(tree.len() as u32).to_le_bytes());
    out.extend_from_slice(&(file_data.len() as u32).to_le_bytes());
    out.extend_from_slice(&0u32.to_le_bytes()); // archiveMD5SectionSize
    out.extend_from_slice(&0u32.to_le_bytes()); // otherMD5SectionSize
    out.extend_from_slice(&0u32.to_le_bytes()); // signatureSectionSize
    out.extend_from_slice(tree);
    out.extend_from_slice(file_data);
    out
}

#[test]
fn vpk_exact_boundary() {
    let core = build_minimal_vpk(&[0u8; 50], &[0xABu8; 200]);
    let (data, start) = wrap_with_junk(&core);
    let expected_end = start + core.len() - 1;

    let (end, confidence) = validate_vpk(&data, start).expect("valid vpk must parse");
    assert_eq!(end, expected_end);
    assert_eq!(confidence, 85);
}

#[test]
fn vpk_v1_not_supported_returns_none() {
    let mut core = vec![0x34, 0x12, 0xAA, 0x55];
    core.extend_from_slice(&1u32.to_le_bytes());
    core.extend_from_slice(&0u32.to_le_bytes());
    let (data, start) = wrap_with_junk(&core);
    assert_eq!(validate_vpk(&data, start), None);
}

#[test]
fn vpk_truncated_returns_none() {
    let core = build_minimal_vpk(&[0u8; 50], &[0xABu8; 200]);
    let mut data = b"JUNK-PREFIX-".to_vec();
    let start = data.len();
    data.extend_from_slice(&core[..core.len() - 10]);
    assert_eq!(validate_vpk(&data, start), None);
}

fn build_swf_fws(body: &[u8]) -> Vec<u8> {
    let file_length = (8 + body.len()) as u32;
    let mut out = b"FWS".to_vec();
    out.push(6); // version
    out.extend_from_slice(&file_length.to_le_bytes());
    out.extend_from_slice(body);
    out
}

#[test]
fn swf_fws_exact_boundary() {
    let core = build_swf_fws(&[0xAB; 40]);
    let (data, start) = wrap_with_junk(&core);
    let expected_end = start + core.len() - 1;

    let (end, confidence) = validate_swf(&data, start).expect("valid fws must parse");
    assert_eq!(end, expected_end);
    assert_eq!(confidence, 95);
}

fn build_swf_cws(body: &[u8]) -> Vec<u8> {
    let mut encoder = flate2::write::ZlibEncoder::new(Vec::new(), flate2::Compression::default());
    encoder.write_all(body).unwrap();
    let compressed = encoder.finish().unwrap();

    let file_length = (8 + body.len()) as u32;
    let mut out = b"CWS".to_vec();
    out.push(6);
    out.extend_from_slice(&file_length.to_le_bytes());
    out.extend_from_slice(&compressed);
    out
}

#[test]
fn swf_cws_exact_boundary() {
    let core = build_swf_cws(b"some repeated swf tag data ".repeat(50).as_slice());
    let (data, start) = wrap_with_junk(&core);
    let expected_end = start + core.len() - 1;

    let (end, confidence) = validate_swf(&data, start).expect("valid cws must parse");
    assert_eq!(end, expected_end);
    assert_eq!(confidence, 90);
}

#[test]
fn swf_cws_truncated_returns_none() {
    let core = build_swf_cws(b"some repeated swf tag data ".repeat(50).as_slice());
    let mut data = b"JUNK-PREFIX-".to_vec();
    let start = data.len();
    data.extend_from_slice(&core[..core.len() - 10]);
    assert_eq!(validate_swf(&data, start), None);
}

#[test]
fn swf_zws_not_supported_returns_none() {
    let mut core = b"ZWS".to_vec();
    core.push(6);
    core.extend_from_slice(&100u32.to_le_bytes());
    core.extend_from_slice(&[0xAB; 20]);
    let (data, start) = wrap_with_junk(&core);
    assert_eq!(validate_swf(&data, start), None);
}

fn build_minimal_rifx(form_type: &[u8; 4], payload: &[u8]) -> Vec<u8> {
    let mut out = b"RIFX".to_vec();
    let chunk_size = 4 + payload.len() as u32;
    out.extend_from_slice(&chunk_size.to_be_bytes());
    out.extend_from_slice(form_type);
    out.extend_from_slice(payload);
    out
}

#[test]
fn rifx_exact_boundary() {
    let core = build_minimal_rifx(b"MV93", &[0xAB; 60]);
    let (data, start) = wrap_with_junk(&core);
    let expected_end = start + core.len() - 1;

    let (end, confidence) = validate_rifx(&data, start).expect("valid rifx must parse");
    assert_eq!(end, expected_end);
    assert_eq!(confidence, 90);
}

#[test]
fn rifx_truncated_returns_none() {
    let core = build_minimal_rifx(b"MV93", &[0xAB; 60]);
    let mut data = b"JUNK-PREFIX-".to_vec();
    let start = data.len();
    data.extend_from_slice(&core[..core.len() - 5]);
    assert_eq!(validate_rifx(&data, start), None);
}

fn build_rmf_chunk() -> Vec<u8> {
    let mut out = b".RMF".to_vec();
    out.extend_from_slice(&18u32.to_be_bytes()); // size
    out.extend_from_slice(&0u16.to_be_bytes()); // object_version
    out.extend_from_slice(&0u32.to_be_bytes()); // file_version
    out.extend_from_slice(&2u32.to_be_bytes());
    out
}

fn build_generic_rm_chunk(id: &[u8; 4], payload_len: usize) -> Vec<u8> {
    let size = 10 + payload_len as u32;
    let mut out = id.to_vec();
    out.extend_from_slice(&size.to_be_bytes());
    out.extend_from_slice(&0u16.to_be_bytes()); // version
    out.extend(std::iter::repeat_n(0u8, payload_len));
    out
}

#[test]
fn realmedia_exact_boundary() {
    let mut core = build_rmf_chunk();
    core.extend_from_slice(&build_generic_rm_chunk(b"DATA", 100));
    let (data, start) = wrap_with_junk(&core);
    let expected_end = start + core.len() - 1;

    let (end, confidence) = validate_realmedia(&data, start).expect("valid realmedia must parse");
    assert_eq!(end, expected_end);
    assert_eq!(confidence, 80);
}

#[test]
fn realmedia_truncated_returns_none() {
    let mut core = build_rmf_chunk();
    core.extend_from_slice(&build_generic_rm_chunk(b"DATA", 100));
    let mut data = b"JUNK-PREFIX-".to_vec();
    let start = data.len();
    data.extend_from_slice(&core[..core.len() - 10]);
    assert_eq!(validate_realmedia(&data, start), None);
}

fn build_minimal_voc(blocks: &[u8]) -> Vec<u8> {
    let mut out = b"Creative Voice File\x1a".to_vec();
    out.extend_from_slice(&26u16.to_le_bytes()); // header_size
    out.extend_from_slice(&0x010au16.to_le_bytes());
    out.extend_from_slice(&0u16.to_le_bytes()); // checksum
    out.extend_from_slice(blocks);
    out
}

fn build_voc_data_block(payload_len: usize) -> Vec<u8> {
    let size = 2 + payload_len as u32;
    let mut out = vec![1u8]; // block_type=1: Sound data
    out.push((size & 0xFF) as u8);
    out.push(((size >> 8) & 0xFF) as u8);
    out.push(((size >> 16) & 0xFF) as u8);
    out.push(0);
    out.push(0);
    out.extend(std::iter::repeat_n(0xABu8, payload_len));
    out
}

#[test]
fn voc_exact_boundary() {
    let mut blocks = build_voc_data_block(50);
    blocks.push(0); // Terminator
    let core = build_minimal_voc(&blocks);
    let (data, start) = wrap_with_junk(&core);
    let expected_end = start + core.len() - 1;

    let (end, confidence) = validate_voc(&data, start).expect("valid voc must parse");
    assert_eq!(end, expected_end);
    assert_eq!(confidence, 85);
}

#[test]
fn voc_truncated_returns_none() {
    let mut blocks = build_voc_data_block(50);
    blocks.push(0);
    let core = build_minimal_voc(&blocks);
    let mut data = b"JUNK-PREFIX-".to_vec();
    let start = data.len();
    data.extend_from_slice(&core[..core.len() - 5]);
    assert_eq!(validate_voc(&data, start), None);
}

fn encode_vint(value: u64, len: usize) -> Vec<u8> {
    let mut bytes = vec![0u8; len];
    for i in (0..len).rev() {
        bytes[i] = (value >> (8 * (len - 1 - i))) as u8;
    }
    bytes[0] |= 1u8 << (8 - len);
    bytes
}

fn build_ebml_element(id: &[u8; 4], content: &[u8]) -> Vec<u8> {
    let mut out = id.to_vec();
    out.extend_from_slice(&encode_vint(content.len() as u64, 4));
    out.extend_from_slice(content);
    out
}

#[test]
fn ebml_exact_boundary() {
    let ebml_header = build_ebml_element(b"\x1a\x45\xdf\xa3", &[0u8; 20]);
    let segment = build_ebml_element(b"\x18\x53\x80\x67", &vec![0xABu8; 300]);
    let mut core = ebml_header;
    core.extend_from_slice(&segment);

    let (data, start) = wrap_with_junk(&core);
    let expected_end = start + core.len() - 1;

    let (end, confidence) = validate_ebml(&data, start).expect("valid ebml must parse");
    assert_eq!(end, expected_end);
    assert_eq!(confidence, 90);
}

#[test]
fn ebml_truncated_returns_none() {
    let ebml_header = build_ebml_element(b"\x1a\x45\xdf\xa3", &[0u8; 20]);
    let segment = build_ebml_element(b"\x18\x53\x80\x67", &vec![0xABu8; 300]);
    let mut core = ebml_header;
    core.extend_from_slice(&segment);

    let mut data = b"JUNK-PREFIX-".to_vec();
    let start = data.len();
    data.extend_from_slice(&core[..core.len() - 10]);
    assert_eq!(validate_ebml(&data, start), None);
}

#[test]
fn ebml_eight_byte_vint_does_not_panic() {
    let ebml_header = build_ebml_element(b"\x1a\x45\xdf\xa3", &[0u8; 20]);
    let segment_content = vec![0xABu8; 300];
    let mut core = ebml_header;
    core.extend_from_slice(b"\x18\x53\x80\x67");
    core.extend_from_slice(&encode_vint(segment_content.len() as u64, 8));
    core.extend_from_slice(&segment_content);

    let (data, start) = wrap_with_junk(&core);
    let expected_end = start + core.len() - 1;

    let (end, confidence) = validate_ebml(&data, start).expect("valid ebml with 8-byte vint must parse");
    assert_eq!(end, expected_end);
    assert_eq!(confidence, 90);
}

#[test]
fn ebml_unknown_size_returns_none() {
    let ebml_header = build_ebml_element(b"\x1a\x45\xdf\xa3", &[0u8; 20]);
    let mut core = ebml_header;
    core.extend_from_slice(b"\x18\x53\x80\x67");
    core.push(0xFF);
    core.extend(std::iter::repeat_n(0xABu8, 50));

    let (data, start) = wrap_with_junk(&core);
    assert_eq!(validate_ebml(&data, start), None);
}

fn build_flv_tag(tag_type: u8, data_bytes: &[u8]) -> Vec<u8> {
    let mut out = vec![tag_type];
    let size = data_bytes.len() as u32;
    out.push((size >> 16) as u8);
    out.push((size >> 8) as u8);
    out.push(size as u8);
    out.extend_from_slice(&[0u8; 3]); // timestamp
    out.push(0); // timestamp extended
    out.extend_from_slice(&[0u8; 3]); // stream id
    out.extend_from_slice(data_bytes);
    out
}

fn build_minimal_flv(tags: &[Vec<u8>]) -> Vec<u8> {
    let mut out = b"FLV".to_vec();
    out.push(1); // version
    out.push(0x01);
    out.extend_from_slice(&9u32.to_be_bytes()); // header_size
    out.extend_from_slice(&0u32.to_be_bytes()); // PreviousTagSize0 = 0
    for tag in tags {
        out.extend_from_slice(tag);
        out.extend_from_slice(&(tag.len() as u32).to_be_bytes());
    }
    out
}

#[test]
fn flv_exact_boundary_at_end_of_data() {
    let tag1 = build_flv_tag(9, &[0xAB; 40]);
    let core = build_minimal_flv(&[tag1]);

    let mut data = b"JUNK-PREFIX-".to_vec();
    let start = data.len();
    data.extend_from_slice(&core);

    let (end, confidence) = validate_flv(&data, start).expect("valid flv must parse");
    assert_eq!(end, data.len() - 1);
    assert_eq!(confidence, 90);
}

#[test]
fn flv_with_trailing_garbage_falls_back_to_lower_confidence() {
    let tag1 = build_flv_tag(9, &[0xAB; 40]);
    let core = build_minimal_flv(&[tag1]);
    let expected_last_good_end = 9 + 4 + 11 + 40 - 1;

    let mut data = b"JUNK-PREFIX-".to_vec();
    let start = data.len();
    data.extend_from_slice(&core);
    data.extend_from_slice(b"NOTAVALIDFLVTAGHEADERBYTES");

    let (end, confidence) = validate_flv(&data, start).expect("partial flv still yields last tag end");
    assert_eq!(end, start + expected_last_good_end);
    assert_eq!(confidence, 70);
}

#[test]
fn flv_no_valid_tag_returns_none() {
    let mut data = b"JUNK-PREFIX-".to_vec();
    let start = data.len();
    data.extend_from_slice(b"FLV\x01\x01");
    data.extend_from_slice(&9u32.to_be_bytes());
    data.extend_from_slice(&[0, 0, 0]);
    assert_eq!(validate_flv(&data, start), None);
}

#[test]
fn extract_cpio_newc_name_reads_name_field() {
    let core = build_cpio_newc_entry("hello.txt", b"hello world");
    let (data, start) = wrap_with_junk(&core);
    assert_eq!(extract_cpio_newc_name(&data, start), Some("hello.txt".to_string()));
}

#[test]
fn extract_cpio_newc_name_reads_trailer() {
    let core = build_cpio_newc_entry("TRAILER!!!", b"");
    let (data, start) = wrap_with_junk(&core);
    assert_eq!(extract_cpio_newc_name(&data, start), Some("TRAILER!!!".to_string()));
}

#[test]
fn extract_cpio_odc_name_reads_name_field() {
    let core = build_cpio_odc_entry("hello.txt", b"hello world");
    let (data, start) = wrap_with_junk(&core);
    assert_eq!(extract_cpio_odc_name(&data, start), Some("hello.txt".to_string()));
}

#[test]
fn extract_ar_name_reads_first_entry() {
    let mut core = b"!<arch>\n".to_vec();
    core.extend_from_slice(&build_ar_entry("hello.txt", b"hello world"));
    let mut data = b"JUNK-PREFIX-".to_vec();
    let start = data.len();
    data.extend_from_slice(&core);
    assert_eq!(extract_ar_name(&data, start), Some("hello.txt".to_string()));
}

#[test]
fn extract_wad_name_reads_first_directory_entry() {
    let core = build_minimal_wad(b"HELLOWORLD");
    let (data, start) = wrap_with_junk(&core);
    assert_eq!(extract_wad_name(&data, start), Some("LUMP1".to_string()));
}

#[test]
fn extract_pak_name_reads_first_directory_entry() {
    let core = build_minimal_pak(b"quakecontentdata");
    let (data, start) = wrap_with_junk(&core);
    assert_eq!(extract_pak_name(&data, start), Some("maps/e1m1.bsp".to_string()));
}

fn build_minimal_woff(magic: &[u8; 4], total_len: u32) -> Vec<u8> {
    let mut out = magic.to_vec();
    out.extend_from_slice(b"true");
    out.extend_from_slice(&total_len.to_be_bytes());
    out.resize(total_len as usize, 0xAB);
    out
}

#[test]
fn woff_exact_boundary() {
    let core = build_minimal_woff(b"wOFF", 300);
    let (data, start) = wrap_with_junk(&core);
    let expected_end = start + core.len() - 1;
    let (end, confidence) = validate_woff(&data, start).expect("valid woff must parse");
    assert_eq!(end, expected_end);
    assert_eq!(confidence, 90);
}

#[test]
fn woff2_exact_boundary() {
    let core = build_minimal_woff(b"wOF2", 300);
    let (data, start) = wrap_with_junk(&core);
    let expected_end = start + core.len() - 1;
    let (end, confidence) = validate_woff(&data, start).expect("valid woff2 must parse");
    assert_eq!(end, expected_end);
    assert_eq!(confidence, 90);
}

#[test]
fn woff_truncated_returns_none() {
    let core = build_minimal_woff(b"wOFF", 300);
    let mut data = b"JUNK-PREFIX-".to_vec();
    let start = data.len();
    data.extend_from_slice(&core[..core.len() - 10]);
    assert_eq!(validate_woff(&data, start), None);
}

fn build_minimal_glb(total_len: u32) -> Vec<u8> {
    let mut out = b"glTF".to_vec();
    out.extend_from_slice(&2u32.to_le_bytes()); // version
    out.extend_from_slice(&total_len.to_le_bytes());
    out.resize(total_len as usize, 0xAB);
    out
}

#[test]
fn glb_exact_boundary() {
    let core = build_minimal_glb(300);
    let (data, start) = wrap_with_junk(&core);
    let expected_end = start + core.len() - 1;
    let (end, confidence) = validate_glb(&data, start).expect("valid glb must parse");
    assert_eq!(end, expected_end);
    assert_eq!(confidence, 90);
}

#[test]
fn glb_truncated_returns_none() {
    let core = build_minimal_glb(300);
    let mut data = b"JUNK-PREFIX-".to_vec();
    let start = data.len();
    data.extend_from_slice(&core[..core.len() - 10]);
    assert_eq!(validate_glb(&data, start), None);
}

fn build_minimal_mpq(archive_size: u32) -> Vec<u8> {
    let mut out = b"MPQ\x1a".to_vec();
    out.extend_from_slice(&32u32.to_le_bytes());
    out.extend_from_slice(&archive_size.to_le_bytes());
    out.resize(archive_size as usize, 0xAB);
    out
}

#[test]
fn mpq_exact_boundary() {
    let core = build_minimal_mpq(300);
    let (data, start) = wrap_with_junk(&core);
    let expected_end = start + core.len() - 1;
    let (end, confidence) = validate_mpq(&data, start).expect("valid mpq must parse");
    assert_eq!(end, expected_end);
    assert_eq!(confidence, 85);
}

#[test]
fn mpq_truncated_returns_none() {
    let core = build_minimal_mpq(300);
    let mut data = b"JUNK-PREFIX-".to_vec();
    let start = data.len();
    data.extend_from_slice(&core[..core.len() - 10]);
    assert_eq!(validate_mpq(&data, start), None);
}

fn build_minimal_squashfs(bytes_used: u64) -> Vec<u8> {
    let mut out = b"hsqs".to_vec();
    out.extend(std::iter::repeat_n(0u8, 36));
    out.extend_from_slice(&bytes_used.to_le_bytes());
    out.resize(bytes_used as usize, 0xAB);
    out
}

#[test]
fn squashfs_exact_boundary() {
    let core = build_minimal_squashfs(200);
    let (data, start) = wrap_with_junk(&core);
    let expected_end = start + core.len() - 1;
    let (end, confidence) = validate_squashfs(&data, start).expect("valid squashfs must parse");
    assert_eq!(end, expected_end);
    assert_eq!(confidence, 90);
}

#[test]
fn squashfs_truncated_returns_none() {
    let core = build_minimal_squashfs(200);
    let mut data = b"JUNK-PREFIX-".to_vec();
    let start = data.len();
    data.extend_from_slice(&core[..core.len() - 10]);
    assert_eq!(validate_squashfs(&data, start), None);
}

fn build_minimal_cab(cb_cabinet: u32) -> Vec<u8> {
    let mut out = b"MSCF".to_vec();
    out.extend_from_slice(&0u32.to_le_bytes()); // reserved1
    out.extend_from_slice(&cb_cabinet.to_le_bytes());
    out.resize(cb_cabinet as usize, 0xAB);
    out
}

#[test]
fn cab_exact_boundary() {
    let core = build_minimal_cab(300);
    let (data, start) = wrap_with_junk(&core);
    let expected_end = start + core.len() - 1;
    let (end, confidence) = validate_cab(&data, start).expect("valid cab must parse");
    assert_eq!(end, expected_end);
    assert_eq!(confidence, 90);
}

#[test]
fn cab_truncated_returns_none() {
    let core = build_minimal_cab(300);
    let mut data = b"JUNK-PREFIX-".to_vec();
    let start = data.len();
    data.extend_from_slice(&core[..core.len() - 10]);
    assert_eq!(validate_cab(&data, start), None);
}

fn build_minimal_dex(file_size: u32) -> Vec<u8> {
    let mut out = b"dex\n035\0".to_vec();
    out.extend_from_slice(&0u32.to_le_bytes()); // checksum
    out.extend(std::iter::repeat_n(0u8, 20)); // signature
    out.extend_from_slice(&file_size.to_le_bytes());
    out.resize(file_size as usize, 0xAB);
    out
}

#[test]
fn dex_exact_boundary() {
    let core = build_minimal_dex(300);
    let (data, start) = wrap_with_junk(&core);
    let expected_end = start + core.len() - 1;
    let (end, confidence) = validate_dex(&data, start).expect("valid dex must parse");
    assert_eq!(end, expected_end);
    assert_eq!(confidence, 90);
}

#[test]
fn dex_truncated_returns_none() {
    let core = build_minimal_dex(300);
    let mut data = b"JUNK-PREFIX-".to_vec();
    let start = data.len();
    data.extend_from_slice(&core[..core.len() - 10]);
    assert_eq!(validate_dex(&data, start), None);
}

fn build_minimal_dpx(is_be: bool, file_size: u32) -> Vec<u8> {
    let mut out = if is_be { b"SDPX".to_vec() } else { b"XPDS".to_vec() };
    out.extend_from_slice(&0u32.to_le_bytes());
    out.extend(std::iter::repeat_n(0u8, 8)); // version
    if is_be {
        out.extend_from_slice(&file_size.to_be_bytes());
    } else {
        out.extend_from_slice(&file_size.to_le_bytes());
    }
    out.resize(file_size as usize, 0xAB);
    out
}

#[test]
fn dpx_be_exact_boundary() {
    let core = build_minimal_dpx(true, 300);
    let (data, start) = wrap_with_junk(&core);
    let expected_end = start + core.len() - 1;
    let (end, confidence) = validate_dpx_be(&data, start).expect("valid dpx (be) must parse");
    assert_eq!(end, expected_end);
    assert_eq!(confidence, 90);
}

#[test]
fn dpx_le_exact_boundary() {
    let core = build_minimal_dpx(false, 300);
    let (data, start) = wrap_with_junk(&core);
    let expected_end = start + core.len() - 1;
    let (end, confidence) = validate_dpx_le(&data, start).expect("valid dpx (le) must parse");
    assert_eq!(end, expected_end);
    assert_eq!(confidence, 90);
}

#[test]
fn dpx_truncated_returns_none() {
    let core = build_minimal_dpx(true, 300);
    let mut data = b"JUNK-PREFIX-".to_vec();
    let start = data.len();
    data.extend_from_slice(&core[..core.len() - 10]);
    assert_eq!(validate_dpx_be(&data, start), None);
}

fn build_minimal_icc(profile_size: u32) -> Vec<u8> {
    let mut out = profile_size.to_be_bytes().to_vec();
    out.resize(36, 0u8);
    out.extend_from_slice(b"acsp");
    out.resize(profile_size as usize, 0xAB);
    out
}

#[test]
fn icc_exact_boundary() {
    let core = build_minimal_icc(300);
    let (data, start) = wrap_with_junk(&core);
    let expected_end = start + core.len() - 1;
    let (end, confidence) = validate_icc(&data, start).expect("valid icc must parse");
    assert_eq!(end, expected_end);
    assert_eq!(confidence, 90);
}

#[test]
fn icc_truncated_returns_none() {
    let core = build_minimal_icc(300);
    let mut data = b"JUNK-PREFIX-".to_vec();
    let start = data.len();
    data.extend_from_slice(&core[..core.len() - 10]);
    assert_eq!(validate_icc(&data, start), None);
}

fn build_apple_entry(id: u32, offset: u32, length: u32) -> Vec<u8> {
    let mut out = Vec::new();
    out.extend_from_slice(&id.to_be_bytes());
    out.extend_from_slice(&offset.to_be_bytes());
    out.extend_from_slice(&length.to_be_bytes());
    out
}

fn build_minimal_apple_single(entries: &[(u32, u32, u32)]) -> Vec<u8> {
    let mut out = 0x0005_1600u32.to_be_bytes().to_vec(); // magic
    out.extend_from_slice(&0x0002_0000u32.to_be_bytes()); // version
    out.extend(std::iter::repeat_n(0u8, 16)); // filler
    out.extend_from_slice(&(entries.len() as u16).to_be_bytes());
    for &(id, offset, length) in entries {
        out.extend_from_slice(&build_apple_entry(id, offset, length));
    }
    out
}

#[test]
fn apple_single_exact_boundary() {
    let mut core = build_minimal_apple_single(&[(1, 50, 100), (2, 150, 200)]);
    core.resize(350, 0xAB);
    let (data, start) = wrap_with_junk(&core);
    let expected_end = start + core.len() - 1;
    let (end, confidence) = validate_apple_single_double(&data, start).expect("valid applesingle must parse");
    assert_eq!(end, expected_end);
    assert_eq!(confidence, 90);
}

#[test]
fn apple_double_truncated_returns_none() {
    let mut core = build_minimal_apple_single(&[(1, 50, 100), (2, 150, 200)]);
    core.resize(350, 0xAB);
    let mut data = b"JUNK-PREFIX-".to_vec();
    let start = data.len();
    data.extend_from_slice(&core[..core.len() - 10]);
    assert_eq!(validate_apple_single_double(&data, start), None);
}

fn build_blend_block(code: &[u8; 4], is_be: bool, ptr_size: usize, payload_len: usize) -> Vec<u8> {
    let mut out = code.to_vec();
    let size = payload_len as u32;
    if is_be {
        out.extend_from_slice(&size.to_be_bytes());
    } else {
        out.extend_from_slice(&size.to_le_bytes());
    }
    out.extend(std::iter::repeat_n(0u8, ptr_size)); // old_address
    out.extend_from_slice(&0u32.to_le_bytes()); // SDNAindex
    out.extend_from_slice(&0u32.to_le_bytes()); // count
    out.extend(std::iter::repeat_n(0xABu8, payload_len));
    out
}

fn build_minimal_blend(ptr_size_char: u8, endian_char: u8, is_be: bool, ptr_size: usize) -> Vec<u8> {
    let mut out = b"BLENDER".to_vec();
    out.push(ptr_size_char);
    out.push(endian_char);
    out.extend_from_slice(b"280");
    out.extend_from_slice(&build_blend_block(b"DATA", is_be, ptr_size, 50));
    out.extend_from_slice(&build_blend_block(b"ENDB", is_be, ptr_size, 0));
    out
}

#[test]
fn blend_exact_boundary_little_endian_32bit_ptr() {
    let core = build_minimal_blend(b'_', b'v', false, 4);
    let (data, start) = wrap_with_junk(&core);
    let expected_end = start + core.len() - 1;
    let (end, confidence) = validate_blend(&data, start).expect("valid blend must parse");
    assert_eq!(end, expected_end);
    assert_eq!(confidence, 85);
}

#[test]
fn blend_exact_boundary_big_endian_64bit_ptr() {
    let core = build_minimal_blend(b'-', b'V', true, 8);
    let (data, start) = wrap_with_junk(&core);
    let expected_end = start + core.len() - 1;
    let (end, confidence) = validate_blend(&data, start).expect("valid blend must parse");
    assert_eq!(end, expected_end);
    assert_eq!(confidence, 85);
}

#[test]
fn blend_truncated_returns_none() {
    let core = build_minimal_blend(b'_', b'v', false, 4);
    let mut data = b"JUNK-PREFIX-".to_vec();
    let start = data.len();
    data.extend_from_slice(&core[..core.len() - 5]);
    assert_eq!(validate_blend(&data, start), None);
}

fn build_minimal_au(data_offset: u32, data_size: u32) -> Vec<u8> {
    let mut out = b".snd".to_vec();
    out.extend_from_slice(&data_offset.to_be_bytes());
    out.extend_from_slice(&data_size.to_be_bytes());
    out.extend_from_slice(&0u32.to_be_bytes()); // encoding
    out.extend_from_slice(&0u32.to_be_bytes()); // sample_rate
    out.extend_from_slice(&0u32.to_be_bytes()); // channels
    out.resize((data_offset + data_size) as usize, 0xAB);
    out
}

#[test]
fn au_exact_boundary() {
    let core = build_minimal_au(24, 100);
    let (data, start) = wrap_with_junk(&core);
    let expected_end = start + core.len() - 1;
    let (end, confidence) = validate_au(&data, start).expect("valid au must parse");
    assert_eq!(end, expected_end);
    assert_eq!(confidence, 90);
}

#[test]
fn au_unknown_size_returns_none() {
    let mut core = b".snd".to_vec();
    core.extend_from_slice(&24u32.to_be_bytes());
    core.extend_from_slice(&0xFFFF_FFFFu32.to_be_bytes());
    core.extend_from_slice(&[0u8; 12]);
    let (data, start) = wrap_with_junk(&core);
    assert_eq!(validate_au(&data, start), None);
}

#[test]
fn au_truncated_returns_none() {
    let core = build_minimal_au(24, 100);
    let mut data = b"JUNK-PREFIX-".to_vec();
    let start = data.len();
    data.extend_from_slice(&core[..core.len() - 10]);
    assert_eq!(validate_au(&data, start), None);
}

fn build_minimal_sfnt(num_tables: u16, table_entries: &[(u32, u32)]) -> Vec<u8> {
    let entry_selector = 15 - (num_tables | 1).leading_zeros() as u16;
    let search_range = (1u16 << entry_selector).wrapping_mul(16);
    let range_shift = num_tables.wrapping_mul(16).wrapping_sub(search_range);

    let mut out = vec![0u8; 4];
    out.extend_from_slice(&num_tables.to_be_bytes());
    out.extend_from_slice(&search_range.to_be_bytes());
    out.extend_from_slice(&entry_selector.to_be_bytes());
    out.extend_from_slice(&range_shift.to_be_bytes());

    for &(offset, length) in table_entries {
        out.extend_from_slice(b"TEST"); // tag
        out.extend_from_slice(&0u32.to_be_bytes()); // checksum
        out.extend_from_slice(&offset.to_be_bytes());
        out.extend_from_slice(&length.to_be_bytes());
    }
    out
}

#[test]
fn sfnt_exact_boundary() {
    let mut core = build_minimal_sfnt(2, &[(44, 100), (144, 200)]);
    core.resize(344, 0xAB);
    let (data, start) = wrap_with_junk(&core);
    let expected_end = start + core.len() - 1;

    let (end, confidence) = validate_sfnt(&data, start).expect("valid sfnt must parse");
    assert_eq!(end, expected_end);
    assert_eq!(confidence, 90);
}

#[test]
fn sfnt_rejects_invalid_invariants() {
    let mut core = build_minimal_sfnt(2, &[(44, 100)]);
    core[6] = 0xFF;
    let (data, start) = wrap_with_junk(&core);
    assert_eq!(validate_sfnt(&data, start), None);
}

#[test]
fn sfnt_zero_tables_returns_none() {
    let mut data = b"JUNK-PREFIX-".to_vec();
    let start = data.len();
    data.extend_from_slice(&[0u8; 12]);
    assert_eq!(validate_sfnt(&data, start), None);
}

#[test]
fn sfnt_truncated_returns_none() {
    let mut core = build_minimal_sfnt(2, &[(44, 100), (144, 200)]);
    core.resize(344, 0xAB);
    let mut data = b"JUNK-PREFIX-".to_vec();
    let start = data.len();
    data.extend_from_slice(&core[..core.len() - 10]);
    assert_eq!(validate_sfnt(&data, start), None);
}

fn entry_names(entries: &[ArchiveEntry]) -> Vec<&str> {
    entries.iter().map(|e| e.name.as_str()).collect()
}

#[test]
fn list_zip_entries_reads_name_and_size() {
    let core = build_minimal_zip(b"hello.txt", b"hello world");
    let entries = list_archive_entries("ZIP", &core).expect("zip must list entries");
    assert_eq!(entry_names(&entries), vec!["hello.txt"]);
    assert_eq!(entries[0].size, 11);
}

#[test]
fn list_tar_entries_reads_name_and_size() {
    let core = build_minimal_tar("hello.txt", b"hello world");
    let entries = list_archive_entries("TAR", &core).expect("tar must list entries");
    assert_eq!(entry_names(&entries), vec!["hello.txt"]);
    assert_eq!(entries[0].size, 11);
}

#[test]
fn list_cpio_newc_entries_lists_all_files_and_skips_trailer() {
    let mut core = build_cpio_newc_entry("a.txt", b"AAA");
    core.extend_from_slice(&build_cpio_newc_entry("b.txt", b"BB"));
    core.extend_from_slice(&build_cpio_newc_entry("TRAILER!!!", b""));

    let entries = list_archive_entries("CPIO-newc", &core).expect("cpio newc must list entries");
    assert_eq!(entry_names(&entries), vec!["a.txt", "b.txt"]);
    assert_eq!(entries[0].size, 3);
    assert_eq!(entries[1].size, 2);
}

#[test]
fn list_cpio_odc_entries_lists_all_files_and_skips_trailer() {
    let mut core = build_cpio_odc_entry("a.txt", b"AAA");
    core.extend_from_slice(&build_cpio_odc_entry("b.txt", b"BB"));
    core.extend_from_slice(&build_cpio_odc_entry("TRAILER!!!", b""));

    let entries = list_archive_entries("CPIO-odc", &core).expect("cpio odc must list entries");
    assert_eq!(entry_names(&entries), vec!["a.txt", "b.txt"]);
    assert_eq!(entries[0].size, 3);
    assert_eq!(entries[1].size, 2);
}

#[test]
fn list_ar_entries_lists_all_members() {
    let mut core = b"!<arch>\n".to_vec();
    core.extend_from_slice(&build_ar_entry("hello.txt", b"hello world"));
    core.extend_from_slice(&build_ar_entry("second", b"data"));

    let entries = list_archive_entries("AR", &core).expect("ar must list entries");
    assert_eq!(entry_names(&entries), vec!["hello.txt", "second"]);
    assert_eq!(entries[0].size, 11);
    assert_eq!(entries[1].size, 4);
}

#[test]
fn list_wad_entries_reads_lump_directory() {
    let core = build_minimal_wad(b"HELLOWORLD");
    let entries = list_archive_entries("WAD-I", &core).expect("wad must list entries");
    assert_eq!(entry_names(&entries), vec!["LUMP1"]);
    assert_eq!(entries[0].size, 10);
}

#[test]
fn list_pak_entries_reads_directory() {
    let core = build_minimal_pak(b"quakecontentdata");
    let entries = list_archive_entries("PAK-Quake", &core).expect("pak must list entries");
    assert_eq!(entry_names(&entries), vec!["maps/e1m1.bsp"]);
    assert_eq!(entries[0].size, 16);
}

#[test]
fn list_archive_entries_returns_none_for_unsupported_format() {
    assert!(list_archive_entries("JPEG", b"whatever").is_none());
}

#[test]
fn list_sfnt_tables_reads_tag_and_length() {
    let core = build_minimal_sfnt(2, &[(44, 100), (144, 200)]);
    let entries = list_archive_entries("TTF", &core).expect("sfnt must list tables");
    assert_eq!(entry_names(&entries), vec!["TEST", "TEST"]);
    assert_eq!(entries[0].size, 100);
    assert_eq!(entries[1].size, 200);
}

#[test]
fn list_png_chunks_reads_type_and_length() {
    let core = build_minimal_png();
    let entries = list_archive_entries("PNG", &core).expect("png must list chunks");
    assert_eq!(entry_names(&entries), vec!["IHDR", "IEND"]);
    assert_eq!(entries[0].size, 13);
    assert_eq!(entries[1].size, 0);
}

#[test]
fn list_riff_chunks_reads_subchunks() {
    let mut payload = Vec::new();
    payload.extend_from_slice(b"fmt ");
    payload.extend_from_slice(&16u32.to_le_bytes());
    payload.extend_from_slice(&[0u8; 16]);
    payload.extend_from_slice(b"data");
    payload.extend_from_slice(&3u32.to_le_bytes());
    payload.extend_from_slice(&[1, 2, 3]);
    payload.push(0);

    let core = build_minimal_riff(b"WAVE", &payload);
    let entries = list_archive_entries("WAV", &core).expect("riff must list chunks");
    assert_eq!(entry_names(&entries), vec!["fmt ", "data"]);
    assert_eq!(entries[0].size, 16);
    assert_eq!(entries[1].size, 3);
}

#[test]
fn list_iff_chunks_reads_subchunks_big_endian() {
    let mut payload = Vec::new();
    payload.extend_from_slice(b"COMM");
    payload.extend_from_slice(&18u32.to_be_bytes());
    payload.extend_from_slice(&[0u8; 18]);
    payload.extend_from_slice(b"SSND");
    payload.extend_from_slice(&5u32.to_be_bytes());
    payload.extend_from_slice(&[1, 2, 3, 4, 5]);
    payload.push(0);

    let core = build_minimal_iff(b"AIFF", &payload);
    let entries = list_archive_entries("AIFF", &core).expect("iff must list chunks");
    assert_eq!(entry_names(&entries), vec!["COMM", "SSND"]);
    assert_eq!(entries[0].size, 18);
    assert_eq!(entries[1].size, 5);
}

#[test]
fn list_isobmff_boxes_reads_type_and_size() {
    let core = build_minimal_heic_boxes(); // ftyp(16) + meta(28) + mdat(108)
    let entries = list_archive_entries("HEIC", &core).expect("isobmff must list boxes");
    assert_eq!(entry_names(&entries), vec!["ftyp", "meta", "mdat"]);
    assert_eq!(entries[0].size, 16);
    assert_eq!(entries[1].size, 28);
    assert_eq!(entries[2].size, 108);
}

fn build_elf64_shdr(name: u32, sh_type: u32, offset: u64, size: u64) -> Vec<u8> {
    let mut out = vec![0u8; 64];
    out[0..4].copy_from_slice(&name.to_le_bytes());
    out[4..8].copy_from_slice(&sh_type.to_le_bytes());
    out[24..32].copy_from_slice(&offset.to_le_bytes());
    out[32..40].copy_from_slice(&size.to_le_bytes());
    out
}

fn build_elf64_with_named_sections(sections: &[(&str, u64)]) -> Vec<u8> {
    let mut e_ident = vec![0x7f, b'E', b'L', b'F', 2, 1, 1, 0, 0];
    e_ident.extend(std::iter::repeat_n(0u8, 7));

    let mut strtab = vec![0u8];
    let mut name_offsets = Vec::new();
    for (name, _) in sections {
        name_offsets.push(strtab.len() as u32);
        strtab.extend_from_slice(name.as_bytes());
        strtab.push(0);
    }
    let shstrtab_name_offset = strtab.len() as u32;
    strtab.extend_from_slice(b".shstrtab");
    strtab.push(0);

    let num_sections = sections.len() + 2;
    let ehdr_size: u64 = 64;
    let strtab_offset = ehdr_size;
    let shoff = strtab_offset + strtab.len() as u64;

    let mut header = e_ident;
    header.extend_from_slice(&2u16.to_le_bytes()); // e_type
    header.extend_from_slice(&0x3Eu16.to_le_bytes()); // e_machine: x86-64
    header.extend_from_slice(&1u32.to_le_bytes()); // e_version
    header.extend_from_slice(&0u64.to_le_bytes()); // e_entry
    header.extend_from_slice(&0u64.to_le_bytes()); // e_phoff
    header.extend_from_slice(&shoff.to_le_bytes()); // e_shoff
    header.extend_from_slice(&0u32.to_le_bytes()); // e_flags
    header.extend_from_slice(&64u16.to_le_bytes()); // e_ehsize
    header.extend_from_slice(&56u16.to_le_bytes()); // e_phentsize
    header.extend_from_slice(&0u16.to_le_bytes()); // e_phnum
    header.extend_from_slice(&64u16.to_le_bytes()); // e_shentsize
    header.extend_from_slice(&(num_sections as u16).to_le_bytes()); // e_shnum
    header.extend_from_slice(&((num_sections - 1) as u16).to_le_bytes()); // e_shstrndx
    assert_eq!(header.len(), 64);

    let mut out = header;
    out.extend_from_slice(&strtab);

    out.extend_from_slice(&build_elf64_shdr(0, 0, 0, 0)); // SHT_NULL
    for ((_, size), &name_offset) in sections.iter().zip(&name_offsets) {
        out.extend_from_slice(&build_elf64_shdr(name_offset, 1, 0, *size)); // SHT_PROGBITS
    }
    out.extend_from_slice(&build_elf64_shdr(shstrtab_name_offset, 3, strtab_offset, strtab.len() as u64));

    out
}

#[test]
fn list_elf_sections_reads_names_via_shstrtab() {
    let core = build_elf64_with_named_sections(&[(".text", 100), (".data", 20)]);
    let entries = list_archive_entries("ELF", &core).expect("elf must list sections");
    assert_eq!(entry_names(&entries), vec![".text", ".data", ".shstrtab"]);
    assert_eq!(entries[0].size, 100);
    assert_eq!(entries[1].size, 20);
}

#[test]
fn list_pe_sections_reads_name_and_raw_size() {
    let core = build_minimal_pe32(64);
    let entries = list_archive_entries("PE", &core).expect("pe must list sections");
    assert_eq!(entry_names(&entries), vec![".text"]);
    assert_eq!(entries[0].size, 64);
}

fn build_lc_segment64_with_sections(is_be: bool, segname: &str, sections: &[(&str, u64)]) -> Vec<u8> {
    let nsects = sections.len() as u32;
    let cmdsize = 72 + 80 * nsects;
    let mut segname_bytes = segname.as_bytes().to_vec();
    segname_bytes.resize(16, 0);

    let mut out = Vec::new();
    put_u32(&mut out, 0x19, is_be); // LC_SEGMENT_64
    put_u32(&mut out, cmdsize, is_be);
    out.extend_from_slice(&segname_bytes);
    put_u64(&mut out, 0, is_be); // vmaddr
    put_u64(&mut out, 0, is_be); // vmsize
    put_u64(&mut out, 0, is_be); // fileoff
    put_u64(&mut out, 0, is_be); // filesize
    put_u32(&mut out, 0, is_be); // maxprot
    put_u32(&mut out, 0, is_be); // initprot
    put_u32(&mut out, nsects, is_be);
    put_u32(&mut out, 0, is_be); // flags

    for (name, size) in sections {
        let mut sectname = name.as_bytes().to_vec();
        sectname.resize(16, 0);
        out.extend_from_slice(&sectname);
        out.extend_from_slice(&segname_bytes);
        put_u64(&mut out, 0, is_be); // addr
        put_u64(&mut out, *size, is_be); // size
        put_u32(&mut out, 0, is_be); // offset
        put_u32(&mut out, 0, is_be); // align
        put_u32(&mut out, 0, is_be); // reloff
        put_u32(&mut out, 0, is_be); // nreloc
        put_u32(&mut out, 0, is_be); // flags
        put_u32(&mut out, 0, is_be); // reserved1
        put_u32(&mut out, 0, is_be); // reserved2
        put_u32(&mut out, 0, is_be); // reserved3
    }
    out
}

#[test]
fn list_macho_sections_reads_segname_sectname_and_size() {
    let lc_seg = build_lc_segment64_with_sections(false, "__TEXT", &[("__text", 500), ("__cstring", 42)]);
    let header = build_mach_header64(false, 1, lc_seg.len() as u32);
    let mut core = header;
    core.extend_from_slice(&lc_seg);

    let entries = list_archive_entries("Mach-O-64-LE", &core).expect("macho must list sections");
    assert_eq!(entry_names(&entries), vec!["__TEXT,__text", "__TEXT,__cstring"]);
    assert_eq!(entries[0].size, 500);
    assert_eq!(entries[1].size, 42);
}

#[test]
fn list_macho_fat_archs_reads_cputype_and_size() {
    let mut core = b"\xca\xfe\xba\xbe".to_vec();
    core.extend_from_slice(&2u32.to_be_bytes()); // nfat_arch
    core.extend_from_slice(&0x01000007u32.to_be_bytes());
    core.extend_from_slice(&0u32.to_be_bytes()); // cpusubtype
    core.extend_from_slice(&0u32.to_be_bytes()); // offset
    core.extend_from_slice(&1000u32.to_be_bytes()); // size
    core.extend_from_slice(&0u32.to_be_bytes()); // align
    core.extend_from_slice(&0x0100000cu32.to_be_bytes());
    core.extend_from_slice(&0u32.to_be_bytes());
    core.extend_from_slice(&1000u32.to_be_bytes());
    core.extend_from_slice(&2000u32.to_be_bytes());
    core.extend_from_slice(&0u32.to_be_bytes());

    let entries = list_archive_entries("Mach-O-Fat", &core).expect("macho fat must list archs");
    assert_eq!(entry_names(&entries), vec!["x86_64", "arm64"]);
    assert_eq!(entries[0].size, 1000);
    assert_eq!(entries[1].size, 2000);
}

#[test]
fn format_duration_writes_minutes_and_seconds() {
    assert_eq!(format_duration(Some(65)), "1:05");
    assert_eq!(format_duration(Some(0)), "0:00");
    assert_eq!(format_duration(Some(3600)), "60:00");
    assert_eq!(format_duration(None), "н/д");
}

#[test]
fn wav_facts_reads_channels_rate_bits_and_duration() {
    let mut fmt = Vec::new();
    fmt.extend_from_slice(&1u16.to_le_bytes()); // PCM
    fmt.extend_from_slice(&2u16.to_le_bytes()); // channels
    fmt.extend_from_slice(&44100u32.to_le_bytes()); // sample rate
    let byte_rate = 44100u32 * 2 * 2; // sampleRate * channels * bytesPerSample
    fmt.extend_from_slice(&byte_rate.to_le_bytes());
    fmt.extend_from_slice(&4u16.to_le_bytes()); // block align
    fmt.extend_from_slice(&16u16.to_le_bytes()); // bits per sample

    let mut payload = b"WAVE".to_vec();
    payload.extend_from_slice(b"fmt ");
    payload.extend_from_slice(&(fmt.len() as u32).to_le_bytes());
    payload.extend_from_slice(&fmt);
    let data_bytes = vec![0u8; byte_rate as usize];
    payload.extend_from_slice(b"data");
    payload.extend_from_slice(&(data_bytes.len() as u32).to_le_bytes());
    payload.extend_from_slice(&data_bytes);

    let mut core = b"RIFF".to_vec();
    core.extend_from_slice(&(payload.len() as u32).to_le_bytes());
    core.extend_from_slice(&payload);

    let facts = format_facts("WAV", &core).expect("wav must produce facts");
    assert!(facts.contains("Канали: 2"), "{facts}");
    assert!(facts.contains("Частота дискретизації: 44100 Гц"), "{facts}");
    assert!(facts.contains("Розрядність: 16 біт"), "{facts}");
    assert!(facts.contains("Тривалість: 0:01"), "{facts}");
}

fn build_aiff_comm(channels: u16, num_frames: u32, sample_size: u16, sample_rate: f64) -> Vec<u8> {
    let mut out = Vec::new();
    out.extend_from_slice(&channels.to_be_bytes());
    out.extend_from_slice(&num_frames.to_be_bytes());
    out.extend_from_slice(&sample_size.to_be_bytes());

    let exponent_stored: u16 = 16383 + 15;
    let mantissa = (sample_rate as u64) << 48;
    out.extend_from_slice(&exponent_stored.to_be_bytes());
    out.extend_from_slice(&mantissa.to_be_bytes());
    out
}

#[test]
fn aiff_facts_reads_channels_rate_bits_and_duration() {
    let comm = build_aiff_comm(2, 44100, 16, 44100.0);
    let mut payload = b"COMM".to_vec();
    payload.extend_from_slice(&(comm.len() as u32).to_be_bytes());
    payload.extend_from_slice(&comm);

    let core = build_minimal_iff(b"AIFF", &payload);
    let facts = format_facts("AIFF", &core).expect("aiff must produce facts");
    assert!(facts.contains("Канали: 2"), "{facts}");
    assert!(facts.contains("Частота дискретизації: 44100 Гц"), "{facts}");
    assert!(facts.contains("Розрядність: 16 біт"), "{facts}");
    assert!(facts.contains("Тривалість: 0:01"), "{facts}");
}

#[test]
fn au_facts_reads_channels_rate_bits_and_duration() {
    let mut core = b".snd".to_vec();
    core.extend_from_slice(&24u32.to_be_bytes()); // data_offset
    let sample_rate = 8000u32;
    let channels = 1u32;
    let duration_secs = 2u32;
    let data_size = sample_rate * channels * 2 * duration_secs;
    core.extend_from_slice(&data_size.to_be_bytes());
    core.extend_from_slice(&3u32.to_be_bytes()); // encoding: 16-bit linear PCM
    core.extend_from_slice(&sample_rate.to_be_bytes());
    core.extend_from_slice(&channels.to_be_bytes());
    core.extend(std::iter::repeat_n(0u8, data_size as usize));

    let facts = format_facts("AU", &core).expect("au must produce facts");
    assert!(facts.contains("Канали: 1"), "{facts}");
    assert!(facts.contains("Частота дискретизації: 8000 Гц"), "{facts}");
    assert!(facts.contains("Розрядність: 16 біт"), "{facts}");
    assert!(facts.contains("Тривалість: 0:02"), "{facts}");
}

#[test]
fn au_facts_does_not_panic_on_extreme_channels_and_sample_rate() {
    let mut core = b".snd".to_vec();
    core.extend_from_slice(&24u32.to_be_bytes()); // data_offset
    core.extend_from_slice(&100u32.to_be_bytes()); // data_size
    core.extend_from_slice(&3u32.to_be_bytes()); // encoding: 16-bit linear PCM
    core.extend_from_slice(&u32::MAX.to_be_bytes()); // sample_rate
    core.extend_from_slice(&u32::MAX.to_be_bytes()); // channels

    let facts = format_facts("AU", &core).expect("au must still produce basic facts");
    assert!(!facts.contains("Тривалість"), "{facts}");
}

#[test]
fn caf_facts_reads_channels_rate_and_bits_from_desc_chunk() {
    let mut desc = Vec::new();
    desc.extend_from_slice(&48000f64.to_be_bytes());
    desc.extend_from_slice(b"lpcm");
    desc.extend_from_slice(&0u32.to_be_bytes()); // formatFlags
    desc.extend_from_slice(&4u32.to_be_bytes()); // bytesPerPacket
    desc.extend_from_slice(&1u32.to_be_bytes()); // framesPerPacket
    desc.extend_from_slice(&4u32.to_be_bytes()); // bytesPerFrame
    desc.extend_from_slice(&2u32.to_be_bytes()); // channelsPerFrame
    desc.extend_from_slice(&16u32.to_be_bytes()); // bitsPerChannel

    let mut core = b"caff".to_vec();
    core.extend_from_slice(&1u16.to_be_bytes()); // version
    core.extend_from_slice(&0u16.to_be_bytes()); // flags
    core.extend_from_slice(b"desc");
    core.extend_from_slice(&(desc.len() as i64).to_be_bytes());
    core.extend_from_slice(&desc);

    let facts = format_facts("CAF", &core).expect("caf must produce facts");
    assert!(facts.contains("Канали: 2"), "{facts}");
    assert!(facts.contains("Частота дискретизації: 48000 Гц"), "{facts}");
    assert!(facts.contains("Розрядність: 16 біт"), "{facts}");
}

fn build_minimal_flac_streaminfo(sample_rate: u32, channels: u32, bits_per_sample: u32, total_samples: u64) -> Vec<u8> {
    let mut core = b"fLaC".to_vec();
    core.push(0x80);
    core.extend_from_slice(&34u32.to_be_bytes()[1..]);

    let mut info = vec![0u8; 10];
    let combined: u64 = ((sample_rate as u64) << 44)
        | (((channels - 1) as u64) << 41)
        | (((bits_per_sample - 1) as u64) << 36)
        | (total_samples & 0xF_FFFF_FFFF);
    info.extend_from_slice(&combined.to_be_bytes());
    info.extend(std::iter::repeat_n(0u8, 16));
    assert_eq!(info.len(), 34);

    core.extend_from_slice(&info);
    core
}

#[test]
fn flac_facts_reads_packed_streaminfo_fields() {
    let core = build_minimal_flac_streaminfo(44100, 2, 16, 44100 * 3);
    let facts = format_facts("FLAC", &core).expect("flac must produce facts");
    assert!(facts.contains("Канали: 2"), "{facts}");
    assert!(facts.contains("Частота дискретизації: 44100 Гц"), "{facts}");
    assert!(facts.contains("Розрядність: 16 біт"), "{facts}");
    assert!(facts.contains("Тривалість: 0:03"), "{facts}");
}

#[test]
fn dds_facts_reads_width_and_height() {
    let mut core = b"DDS ".to_vec();
    core.extend_from_slice(&124u32.to_le_bytes()); // dwSize
    core.extend_from_slice(&0u32.to_le_bytes()); // dwFlags
    core.extend_from_slice(&768u32.to_le_bytes()); // dwHeight
    core.extend_from_slice(&1024u32.to_le_bytes()); // dwWidth
    assert_eq!(format_facts("DDS", &core), Some("Роздільність: 1024×768".to_string()));
}

#[test]
fn ktx_facts_reads_pixel_width_and_height() {
    let mut core = vec![0u8; 44];
    core[36..40].copy_from_slice(&256u32.to_le_bytes());
    core[40..44].copy_from_slice(&128u32.to_le_bytes());
    assert_eq!(format_facts("KTX", &core), Some("Роздільність: 256×128".to_string()));
}

#[test]
fn ktx2_facts_reads_pixel_width_and_height() {
    let mut core = vec![0u8; 28];
    core[20..24].copy_from_slice(&512u32.to_le_bytes());
    core[24..28].copy_from_slice(&256u32.to_le_bytes());
    assert_eq!(format_facts("KTX2", &core), Some("Роздільність: 512×256".to_string()));
}

#[test]
fn hdr_facts_reads_resolution_line() {
    let core = b"#?RADIANCE\nFORMAT=32-bit_rle_rgbe\n\n-Y 200 +X 400\n".to_vec();
    assert_eq!(format_facts("HDR", &core), Some("Роздільність: 400×200".to_string()));
}

#[test]
fn pvr_facts_reads_height_and_width() {
    let mut core = vec![0u8; 32];
    core[24..28].copy_from_slice(&64u32.to_le_bytes()); // height
    core[28..32].copy_from_slice(&128u32.to_le_bytes()); // width
    assert_eq!(format_facts("PVR", &core), Some("Роздільність: 128×64".to_string()));
}

#[test]
fn nes_facts_reads_rom_sizes_mapper_and_mirroring() {
    let core = vec![b'N', b'E', b'S', 0x1a, 2, 1, 0b0001_0001, 0x00];
    let facts = format_facts("NES", &core).expect("nes must produce facts");
    assert!(facts.contains("PRG ROM: 32 KiB"), "{facts}");
    assert!(facts.contains("CHR ROM: 8 KiB"), "{facts}");
    assert!(facts.contains("Мапер: 1"), "{facts}");
    assert!(facts.contains("Дзеркалення: вертикальне"), "{facts}");
}

#[test]
fn genesis_facts_reads_domestic_title_and_region() {
    let mut core = vec![0u8; 0x1f3];
    core[0x120..0x120 + 11].copy_from_slice(b"TEST GAME 1");
    core[0x1f0..0x1f3].copy_from_slice(b"JUE");
    let facts = format_facts("Genesis", &core).expect("genesis must produce facts");
    assert!(facts.contains("Назва: TEST GAME 1"), "{facts}");
    assert!(facts.contains("Регіон: JUE"), "{facts}");
}

#[test]
fn format_facts_returns_none_for_unsupported_format() {
    assert!(format_facts("JPEG", b"whatever").is_none());
}

fn build_sqlite_text_serial(s: &str) -> (i64, Vec<u8>) {
    (2 * s.len() as i64 + 13, s.as_bytes().to_vec())
}

fn build_sqlite_schema_record(obj_type: &str, name: &str, tbl_name: &str, rootpage: u8, sql: &str) -> Vec<u8> {
    let (st_type, b_type) = build_sqlite_text_serial(obj_type);
    let (st_name, b_name) = build_sqlite_text_serial(name);
    let (st_tbl, b_tbl) = build_sqlite_text_serial(tbl_name);
    let (st_sql, b_sql) = build_sqlite_text_serial(sql);
    let serials = [st_type, st_name, st_tbl, 1i64, st_sql];

    let mut record = vec![(1 + serials.len()) as u8]; // varint(header_length)
    record.extend(serials.iter().map(|&s| s as u8));
    record.extend_from_slice(&b_type);
    record.extend_from_slice(&b_name);
    record.extend_from_slice(&b_tbl);
    record.push(rootpage);
    record.extend_from_slice(&b_sql);
    record
}

fn build_sqlite_cell(rowid: u8, record: &[u8]) -> Vec<u8> {
    let mut out = vec![record.len() as u8, rowid];
    out.extend_from_slice(record);
    out
}

fn build_minimal_sqlite_schema(records: &[Vec<u8>]) -> Vec<u8> {
    const PAGE_SIZE: usize = 4096;
    const CELL_PTR_START: usize = 108;

    let mut file_header = vec![0u8; 100];
    file_header[0..16].copy_from_slice(b"SQLite format 3\0");
    file_header[16..18].copy_from_slice(&(PAGE_SIZE as u16).to_be_bytes());

    let cells: Vec<Vec<u8>> = records.iter().enumerate().map(|(i, r)| build_sqlite_cell(i as u8 + 1, r)).collect();
    let mut cell_data = Vec::new();
    let mut cell_offsets = Vec::new();
    let mut offset = CELL_PTR_START + cells.len() * 2;
    for cell in &cells {
        cell_offsets.push(offset as u16);
        cell_data.extend_from_slice(cell);
        offset += cell.len();
    }

    let mut page1 = file_header;
    page1.push(0x0d); // page type: leaf table b-tree
    page1.extend_from_slice(&0u16.to_be_bytes()); // first_freeblock
    page1.extend_from_slice(&(cells.len() as u16).to_be_bytes());
    page1.extend_from_slice(&0u16.to_be_bytes());
    page1.push(0); // fragmented_free_bytes
    for off in &cell_offsets {
        page1.extend_from_slice(&off.to_be_bytes());
    }
    page1.extend_from_slice(&cell_data);
    page1.resize(PAGE_SIZE, 0);
    page1
}

#[test]
fn list_sqlite_entries_reads_schema_rows() {
    let record1 = build_sqlite_schema_record("table", "users", "users", 2, "CREATE TABLE users (id INTEGER)");
    let record2 = build_sqlite_schema_record("index", "idx_users", "users", 3, "CREATE INDEX idx_users ON users(id)");
    let core = build_minimal_sqlite_schema(&[record1, record2]);

    let entries = list_archive_entries("SQLite", &core).expect("sqlite must list schema");
    assert_eq!(entry_names(&entries), vec!["table: users", "index: idx_users"]);
    assert_eq!(entries[0].size, "CREATE TABLE users (id INTEGER)".len() as u64);
    assert_eq!(entries[1].size, "CREATE INDEX idx_users ON users(id)".len() as u64);
}

#[test]
fn list_sqlite_entries_rejects_negative_varint_payload_length_without_panicking() {
    let mut malicious_cell = vec![0xFFu8; 9];
    malicious_cell.push(1); // varint rowid = 1

    const PAGE_SIZE: usize = 4096;
    const CELL_PTR_START: usize = 108;
    let mut file_header = vec![0u8; 100];
    file_header[0..16].copy_from_slice(b"SQLite format 3\0");
    file_header[16..18].copy_from_slice(&(PAGE_SIZE as u16).to_be_bytes());

    let cell_offset = CELL_PTR_START + 2;
    let mut page1 = file_header;
    page1.push(0x0d);
    page1.extend_from_slice(&0u16.to_be_bytes());
    page1.extend_from_slice(&1u16.to_be_bytes()); // num_cells
    page1.extend_from_slice(&0u16.to_be_bytes());
    page1.push(0);
    page1.extend_from_slice(&(cell_offset as u16).to_be_bytes());
    page1.extend_from_slice(&malicious_cell);
    page1.resize(PAGE_SIZE, 0);

    assert!(list_archive_entries("SQLite", &page1).is_none());
}

fn build_iso9660_dir_record(name: &str, extent: u32, length: u32, is_dir: bool) -> Vec<u8> {
    let id_len = name.len();
    let mut record_len = 33 + id_len;
    if record_len % 2 == 1 {
        record_len += 1;
    }
    let mut out = vec![0u8; record_len];
    out[0] = record_len as u8;
    out[2..6].copy_from_slice(&extent.to_le_bytes());
    out[6..10].copy_from_slice(&extent.to_be_bytes());
    out[10..14].copy_from_slice(&length.to_le_bytes());
    out[14..18].copy_from_slice(&length.to_be_bytes());
    out[25] = if is_dir { 0x02 } else { 0x00 };
    out[32] = id_len as u8;
    out[33..33 + id_len].copy_from_slice(name.as_bytes());
    out
}

fn build_minimal_iso9660_with_root(files: &[(&str, u32)]) -> Vec<u8> {
    const SECTOR: usize = 2048;
    let root_extent = 20u32;

    let mut dir_content = build_iso9660_dir_record("\0", root_extent, SECTOR as u32, true); // "."
    dir_content.extend_from_slice(&build_iso9660_dir_record("\x01", root_extent, SECTOR as u32, true)); // ".."
    for (name, size) in files {
        dir_content.extend_from_slice(&build_iso9660_dir_record(name, root_extent + 1, *size, false));
    }
    let dir_len = dir_content.len() as u32;

    let mut pvd = vec![0u8; SECTOR];
    pvd[0] = 1;
    pvd[1..6].copy_from_slice(b"CD001");
    let root_record = build_iso9660_dir_record("\0", root_extent, dir_len, true);
    pvd[156..156 + root_record.len()].copy_from_slice(&root_record);

    let total_sectors = root_extent as usize + 2;
    let mut image = vec![0u8; total_sectors * SECTOR];
    image[16 * SECTOR..16 * SECTOR + SECTOR].copy_from_slice(&pvd);
    image[root_extent as usize * SECTOR..root_extent as usize * SECTOR + dir_content.len()].copy_from_slice(&dir_content);
    image
}

#[test]
fn list_iso9660_entries_reads_root_level_files() {
    let core = build_minimal_iso9660_with_root(&[("README.TXT;1", 1234), ("DATA.BIN;1", 5678)]);
    let entries = list_archive_entries("ISO9660", &core).expect("iso9660 must list root files");
    assert_eq!(entry_names(&entries), vec!["README.TXT", "DATA.BIN"]);
    assert_eq!(entries[0].size, 1234);
    assert_eq!(entries[1].size, 5678);
}

fn build_vpk_tree_entry(entry_length: u32) -> Vec<u8> {
    let mut out = vec![0u8; 8]; // CRC(4) + PreloadBytes(2) + ArchiveIndex(2)
    out.extend_from_slice(&0u32.to_le_bytes()); // EntryOffset
    out.extend_from_slice(&entry_length.to_le_bytes());
    out.extend_from_slice(&0xffffu16.to_le_bytes()); // Terminator
    out
}

#[test]
fn list_vpk_entries_reads_extension_path_and_name() {
    let mut tree = Vec::new();
    tree.extend_from_slice(b"txt\0");
    tree.extend_from_slice(b" \0");
    tree.extend_from_slice(b"readme\0");
    tree.extend_from_slice(&build_vpk_tree_entry(100));
    tree.push(0);
    tree.push(0);
    tree.push(0);

    let core = build_minimal_vpk(&tree, &[]);
    let entries = list_archive_entries("VPK", &core).expect("vpk must list entries");
    assert_eq!(entry_names(&entries), vec!["readme.txt"]);
    assert_eq!(entries[0].size, 100);
}

fn build_rar_file_head(name: &str, unp_size: u32) -> Vec<u8> {
    let mut file_specific = Vec::new();
    file_specific.extend_from_slice(&0u32.to_le_bytes()); // PACK_SIZE
    file_specific.extend_from_slice(&unp_size.to_le_bytes()); // UNP_SIZE
    file_specific.push(0); // HOST_OS
    file_specific.extend_from_slice(&0u32.to_le_bytes()); // FILE_CRC
    file_specific.extend_from_slice(&0u32.to_le_bytes()); // FTIME
    file_specific.push(0); // UNP_VER
    file_specific.push(0); // METHOD
    file_specific.extend_from_slice(&(name.len() as u16).to_le_bytes()); // NAME_SIZE
    file_specific.extend_from_slice(&0u32.to_le_bytes()); // ATTR
    file_specific.extend_from_slice(name.as_bytes());

    let head_size = (7 + file_specific.len()) as u16;
    let mut out = vec![0u8, 0u8, 0x74]; // HEAD_CRC(2) + HEAD_TYPE: FILE_HEAD
    out.extend_from_slice(&0u16.to_le_bytes());
    out.extend_from_slice(&head_size.to_le_bytes());
    out.extend_from_slice(&file_specific);
    out
}

#[test]
fn list_rar_entries_reads_name_and_unpacked_size() {
    let mut core = b"Rar!\x1a\x07\x00".to_vec();
    core.extend_from_slice(&build_rar_file_head("test.txt", 12345));
    core.extend_from_slice(&build_rar_file_head("second.bin", 999));

    let entries = list_archive_entries("RAR", &core).expect("rar must list entries");
    assert_eq!(entry_names(&entries), vec!["test.txt", "second.bin"]);
    assert_eq!(entries[0].size, 12345);
    assert_eq!(entries[1].size, 999);
}

#[test]
fn gltf_facts_reads_scene_counts_from_json_chunk() {
    let empty = serde_json::Value::Object(serde_json::Map::new());
    let mut asset = serde_json::Map::new();
    asset.insert("generator".to_string(), serde_json::Value::from("TestExporter 1.0"));
    let mut document = serde_json::Map::new();
    document.insert("asset".to_string(), serde_json::Value::Object(asset));
    document.insert("scenes".to_string(), serde_json::Value::from(vec![empty.clone()]));
    document.insert("nodes".to_string(), serde_json::Value::from(vec![empty.clone(); 3]));
    document.insert("meshes".to_string(), serde_json::Value::from(vec![empty.clone()]));
    document.insert("materials".to_string(), serde_json::Value::from(vec![empty.clone(); 2]));
    let json = serde_json::Value::Object(document);
    let json_bytes = serde_json::to_vec(&json).unwrap();

    let mut core = b"glTF".to_vec();
    core.extend_from_slice(&2u32.to_le_bytes()); // version
    let total_len = 12 + 8 + json_bytes.len();
    core.extend_from_slice(&(total_len as u32).to_le_bytes());
    core.extend_from_slice(&(json_bytes.len() as u32).to_le_bytes());
    core.extend_from_slice(b"JSON");
    core.extend_from_slice(&json_bytes);

    let facts = format_facts("glTF-Binary", &core).expect("gltf must produce facts");
    assert!(facts.contains("Сцени: 1"), "{facts}");
    assert!(facts.contains("Вузли: 3"), "{facts}");
    assert!(facts.contains("Меші: 1"), "{facts}");
    assert!(facts.contains("Матеріали: 2"), "{facts}");
    assert!(facts.contains("Створено: TestExporter 1.0"), "{facts}");
}

#[test]
fn ply_facts_reads_format_and_elements() {
    let core = b"ply\nformat ascii 1.0\nelement vertex 1234\nproperty float x\nelement face 567\nproperty list uchar int vertex_indices\nend_header\n".to_vec();
    let facts = format_facts("PLY", &core).expect("ply must produce facts");
    assert!(facts.contains("Формат: ascii"), "{facts}");
    assert!(facts.contains("vertex: 1234"), "{facts}");
    assert!(facts.contains("face: 567"), "{facts}");
}

#[test]
fn valid_files_are_listed() {
    let ar = [b"!<arch>\n".to_vec(), build_ar_entry("hello.txt", b"hello world")].concat();
    let newc = [build_cpio_newc_entry("a.txt", b"AAA"), build_cpio_newc_entry("TRAILER!!!", b"")].concat();
    let odc = [build_cpio_odc_entry("a.txt", b"AAA"), build_cpio_odc_entry("TRAILER!!!", b"")].concat();
    let zip = build_minimal_zip(b"hello.txt", b"hello world");
    let tar = build_minimal_tar("hello.txt", b"hello world");
    let png = build_minimal_png();
    let mut sfnt = build_minimal_sfnt(2, &[(44, 100), (144, 200)]);
    sfnt.resize(344, 0xAB);
    let boxes = build_minimal_heic_boxes();
    let wad = build_minimal_wad(b"HELLOWORLD");
    let pak = build_minimal_pak(b"quakecontentdata");

    assert!(validate_ar(&ar, 0).is_some() && list_archive_entries("AR", &ar).is_some());
    assert!(validate_cpio_newc(&newc, 0).is_some() && list_archive_entries("CPIO-newc", &newc).is_some());
    assert!(validate_cpio_odc(&odc, 0).is_some() && list_archive_entries("CPIO-odc", &odc).is_some());
    assert!(validate_zip(&zip, 0).is_some() && list_archive_entries("ZIP", &zip).is_some());
    assert!(validate_tar(&tar, 0).is_some() && list_archive_entries("TAR", &tar).is_some());
    assert!(validate_png(&png, 0).is_some() && list_archive_entries("PNG", &png).is_some());
    assert!(validate_sfnt(&sfnt, 0).is_some() && list_archive_entries("TTF", &sfnt).is_some());
    assert!(validate_isobmff(&boxes, 0).is_some() && list_archive_entries("HEIC", &boxes).is_some());
    assert!(validate_wad(&wad, 0).is_some() && list_archive_entries("WAD-I", &wad).is_some());
    assert!(validate_pak_quake(&pak, 0).is_some() && list_archive_entries("PAK-Quake", &pak).is_some());
}

#[test]
fn an_archive_is_named_after_its_first_entry() {
    let ar = [
        b"!<arch>\n".to_vec(),
        build_ar_entry("first", b"abcd"),
        build_ar_entry("second", b"data"),
    ]
    .concat();
    let newc = [build_cpio_newc_entry("a.txt", b"AAA"), build_cpio_newc_entry("TRAILER!!!", b"")].concat();
    let odc = [build_cpio_odc_entry("a.txt", b"AAA"), build_cpio_odc_entry("TRAILER!!!", b"")].concat();
    let wad = build_minimal_wad(b"HELLOWORLD");
    let pak = build_minimal_pak(b"quakecontentdata");

    assert_eq!(extract_ar_name(&ar, 0).unwrap(), list_archive_entries("AR", &ar).unwrap()[0].name);
    assert_eq!(extract_cpio_newc_name(&newc, 0).unwrap(), list_archive_entries("CPIO-newc", &newc).unwrap()[0].name);
    assert_eq!(extract_cpio_odc_name(&odc, 0).unwrap(), list_archive_entries("CPIO-odc", &odc).unwrap()[0].name);
    assert_eq!(extract_wad_name(&wad, 0).unwrap(), list_archive_entries("WAD-I", &wad).unwrap()[0].name);
    assert_eq!(extract_pak_name(&pak, 0).unwrap(), list_archive_entries("PAK-Quake", &pak).unwrap()[0].name);
}

#[test]
fn a_box_whose_size_is_cut_off_does_not_count() {
    let mut boxes = b"\x00\x00\x00\x08ftyp\x00\x00\x00\x01mdat".to_vec();
    assert_eq!(validate_isobmff(&boxes, 0), Some((7, 70)));
    let entries = list_archive_entries("HEIC", &boxes).expect("the first box is complete");
    assert_eq!(entry_names(&entries), vec!["ftyp"]);
    assert_eq!(validate_isobmff(&boxes[8..], 0), None);
    assert!(list_archive_entries("HEIC", &boxes[8..]).is_none());
    boxes.extend_from_slice(&16u64.to_be_bytes());
    assert_eq!(validate_isobmff(&boxes, 0), Some((23, 90)));
}

#[test]
fn icon_images_may_have_any_bitmap_header() {
    for size in [12u32, 40, 52, 56, 64, 108, 124] {
        assert!(looks_like_ico_image_data(&size.to_le_bytes(), 0), "{size}");
    }
    assert!(!looks_like_ico_image_data(&[41, 0, 0, 0], 0));
    assert!(!looks_like_ico_image_data(&[124, 0, 0], 0));
}

#[test]
fn padding_counts_from_the_start_of_the_archive() {
    let core = [build_cpio_newc_entry("hello.txt", b"hello world"), build_cpio_newc_entry("TRAILER!!!", b"")].concat();
    for before in 0..8 {
        let mut data = vec![b'x'; before];
        data.extend_from_slice(&core);
        data.extend_from_slice(b"junk behind");
        assert_eq!(validate_cpio_newc(&data, before), Some((before + core.len() - 1, 90)), "{before}");
    }
}
