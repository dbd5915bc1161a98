//! Reports, entropy, themes and what the browser shows.
use great_extractor::config::Config;
use great_extractor::entries::ArchiveEntry;
use great_extractor::entropy::{
    block_ranges, byte_counts, findings, is_ordered, merge_findings, EntropyBlock,
};
use great_extractor::keys::{normalize_key_code, Key};
use great_extractor::output::{
    csv_row, describe_formats, entropy_bar, high_mark, sanitize_csv_field, show_offset, table_row,
};
use great_extractor::popups::{
    choice_label, choices_height, filter_bar, help_height, list_title, menu_popup, Popup,
};
use great_extractor::reports::{
    entropy_csv, entropy_csv_row, entropy_row, entropy_table, findings_csv, findings_table, table_rows,
};
use great_extractor::scanner::Finding;
use great_extractor::signature::Signature;
use great_extractor::theme::{Color, ThemeKind, THEME_COUNT};
use great_extractor::tui::{Action, App, Focus};
use great_extractor::views::{
    centered_rect, count_lines, entry_label, finding_info, finding_label, fragment, hex_lines, format_info_height,
    panel_heading, panels_for, structure_panel_title, Area, Panels,
};

const DEFAULT_THRESHOLD: f64 = 7.5;

fn entropy_of(data: &[u8]) -> f64 {
    let len = data.len() as f64;
    byte_counts(data)
        .iter()
        .filter(|&&count| count > 0)
        .map(|&count| {
            let p = count as f64 / len;
            -p * p.log2()
        })
        .sum()
}

fn compute(data: &[u8], window: usize, threshold: f64) -> Vec<EntropyBlock> {
    block_ranges(data.len(), window)
        .into_iter()
        .map(|(offset, size)| EntropyBlock {
            offset,
            size,
            high: entropy_of(&data[offset..offset + size]) >= threshold,
        })
        .collect()
}

fn finding(offset_start: usize, offset_end: usize, format: &str) -> Finding {
    Finding {
        format: format.to_string(),
        description: "what it is".to_string(),
        offset_start,
        offset_end,
        size: offset_end - offset_start + 1,
        confidence: 90,
        name: None,
    }
}

#[test]
fn zero_bytes_have_zero_entropy() {
    let data = vec![0u8; 1024];
    let blocks = compute(&data, 1024, DEFAULT_THRESHOLD);
    assert_eq!(blocks.len(), 1);
    assert_eq!(entropy_of(&data), 0.0);
    assert!(!blocks[0].high);
}

#[test]
fn all_byte_values_have_max_entropy() {
    let data: Vec<u8> = (0..=255u8).collect();
    let blocks = compute(&data, 256, DEFAULT_THRESHOLD);
    assert_eq!(blocks.len(), 1);
    assert!((entropy_of(&data) - 8.0).abs() < 1e-9);
    assert!(blocks[0].high);
}

#[test]
fn last_chunk_may_be_smaller_than_window() {
    let data = vec![0u8; 100];
    let blocks = compute(&data, 64, DEFAULT_THRESHOLD);
    assert_eq!(blocks.len(), 2);
    assert_eq!(blocks[0].size, 64);
    assert_eq!(blocks[1].size, 36);
    assert_eq!(blocks[1].offset, 64);
}

#[test]
fn adjacent_high_entropy_blocks_merge_into_one_region() {
    let mut data = vec![0u8; 3 * 256];
    for (i, chunk) in data.chunks_mut(256).enumerate() {
        if i != 1 {
            for (j, b) in chunk.iter_mut().enumerate() {
                *b = j as u8;
            }
        }
    }
    let blocks = compute(&data, 256, DEFAULT_THRESHOLD);
    assert!(blocks[0].high && blocks[2].high && !blocks[1].high);

    let regions = findings(&blocks);
    assert_eq!(regions.len(), 2);
    assert_eq!(regions[0].offset_start, 0);
    assert_eq!(regions[0].offset_end, 255);
    assert_eq!(regions[1].offset_start, 512);
    assert_eq!(regions[1].offset_end, 767);
}

#[test]
fn regions_join_neighbours_and_carry_a_fixed_confidence() {
    let block = |offset, high| EntropyBlock { offset, size: 10, high };
    let blocks = vec![block(0, false), block(10, true), block(20, true), block(30, false), block(40, true)];
    assert!(is_ordered(&blocks));
    let regions = findings(&blocks);
    let ranges: Vec<(usize, usize, usize)> =
        regions.iter().map(|r| (r.offset_start, r.offset_end, r.size)).collect();
    assert_eq!(ranges, vec![(10, 29, 20), (40, 49, 10)]);
    assert!(regions.iter().all(|r| r.confidence == 50 && r.format == "high_entropy_region"));
    assert!(findings(&Vec::new()).is_empty());
}

#[test]
fn blocks_out_of_order_are_told_apart() {
    let block = |offset, size| EntropyBlock { offset, size, high: true };
    assert!(!is_ordered(&vec![block(0, 0)]));
    assert!(!is_ordered(&vec![block(usize::MAX, 1)]));
    assert!(!is_ordered(&vec![block(10, 1), block(9, 1)]));
    assert!(is_ordered(&vec![block(9, 1), block(9, 5)]));
}

#[test]
fn no_window_gives_no_blocks() {
    assert!(block_ranges(100, 0).is_empty());
    assert!(block_ranges(0, 16).is_empty());
    assert_eq!(block_ranges(32, 16), vec![(0, 16), (16, 16)]);
    assert_eq!(byte_counts(b"abca")[b'a' as usize], 2);
}

#[test]
fn merging_keeps_the_order_of_starts() {
    let a = vec![finding(1, 2, "A"), finding(5, 6, "A"), finding(9, 9, "A")];
    let b = vec![finding(0, 9, "B"), finding(5, 9, "B")];
    let order: Vec<(usize, String)> =
        merge_findings(&a, &b).iter().map(|f| (f.offset_start, f.format.clone())).collect();
    let expected = [(0, "B"), (1, "A"), (5, "A"), (5, "B"), (9, "A")];
    assert_eq!(order, expected.map(|(at, f)| (at, f.to_string())).to_vec());
    assert_eq!(merge_findings(&a, &Vec::new()).len(), 3);
    assert_eq!(merge_findings(&Vec::new(), &b).len(), 2);
}

#[test]
fn sanitize_csv_field_neutralizes_formula_prefixes() {
    for dangerous in ["=cmd|'/c calc'!A1", "+1+1", "-1+1", "@SUM(1,1)", "\ttab", "\rcr"] {
        let sanitized = sanitize_csv_field(dangerous.to_string());
        assert!(sanitized.starts_with('\''), "{dangerous:?} -> {sanitized:?}");
        assert_eq!(&sanitized[1..], dangerous);
    }
}

#[test]
fn sanitize_csv_field_leaves_normal_values_untouched() {
    for normal in ["readme.txt", "some/path/file.bin", "", "1file.txt"] {
        assert_eq!(sanitize_csv_field(normal.to_string()), normal);
    }
}

#[test]
fn rows_show_offsets_sizes_and_names() {
    let mut f = finding(0x10, 0x1F, "ZIP");
    assert_eq!(table_row(&f), vec!["0x00000010", "0x0000001f", "16", "ZIP", "what it is", "90%", ""]);
    f.name = Some("=evil".to_string());
    assert_eq!(table_row(&f)[6], "=evil");
    assert_eq!(csv_row(&f), vec!["0x00000010", "0x0000001f", "16", "ZIP", "what it is", "90", "'=evil"]);
    assert_eq!(show_offset(0x1_2345_6789), "0x123456789");
}

#[test]
fn entropy_bars_grow() {
    assert_eq!(entropy_bar(0), " ");
    assert_eq!(entropy_bar(1), "▁▁▁");
    assert_eq!(entropy_bar(8), "█".repeat(17));
    assert_eq!(entropy_bar(200), "█".repeat(20));
    assert_eq!(high_mark(&EntropyBlock { offset: 0, size: 1, high: true }), "★");
    assert_eq!(high_mark(&EntropyBlock { offset: 0, size: 1, high: false }), "");
}

#[test]
fn csv_files_quote_what_needs_it() {
    let mut f = finding(0x10, 0x1F, "ZIP");
    f.name = Some("a,\"b\"\n".to_string());
    assert_eq!(
        findings_csv(&[f]),
        "offset_start,offset_end,size,format,description,confidence,name\n\
         0x00000010,0x0000001f,16,ZIP,what it is,90,\"a,\"\"b\"\"\n\"\n"
    );
    assert_eq!(findings_csv(&[]).lines().count(), 1);
    let high = EntropyBlock { offset: 0, size: 4096, high: true };
    let low = EntropyBlock { offset: 4096, size: 10, high: false };
    let rows = vec![
        entropy_csv_row(&high, "7.900000".to_string()),
        entropy_csv_row(&low, "0.000000".to_string()),
    ];
    assert_eq!(
        entropy_csv(&rows),
        "offset,size,entropy,high\n0x00000000,4096,7.900000,true\n0x00001000,10,0.000000,false\n"
    );
    let lone = vec![vec![String::new()], vec!["\r".to_string()], Vec::new()];
    assert_eq!(entropy_csv(&lone), "offset,size,entropy,high\n\"\"\n\"\r\"\n\"\"\n");
}

#[test]
fn tables_have_a_header_and_rows() {
    let block = EntropyBlock { offset: 0x1000, size: 16, high: true };
    let rows = vec![entropy_row(&block, "8.000".to_string(), 8)];
    assert_eq!(rows[0], vec!["0x00001000", "16", "8.000", "█████████████████", "★"]);
    assert_eq!(
        entropy_table(&rows),
        "┌────────────┬──────┬─────────────────────┬───────────────────┬───────────┐\n\
         │ Offset     ┆ Size ┆ Entropy (bits/byte) ┆ Графік            ┆ Підозріло │\n\
         ╞════════════╪══════╪═════════════════════╪═══════════════════╪═══════════╡\n\
         │ 0x00001000 ┆ 16   ┆ 8.000               ┆ █████████████████ ┆ ★         │\n\
         └────────────┴──────┴─────────────────────┴───────────────────┴───────────┘"
    );
    let found = [finding(0x10, 0x1F, "ZIP"), finding(0x20, 0x2F, "TAR")];
    assert_eq!(table_rows(&found), vec![table_row(&found[0]), table_row(&found[1])]);
    let table = findings_table(&found);
    assert_eq!(table.lines().count(), 7);
    assert!(table.lines().nth(1).unwrap().starts_with("│ Offset start ┆ Offset end ┆ Size ┆ Format ┆"));
    assert!(table.lines().nth(5).unwrap().starts_with("│ 0x00000020   ┆ 0x0000002f ┆ 16   ┆ TAR    ┆"));
}

fn table() -> Vec<Signature> {
    vec![Signature {
        name: "WAV",
        extension: "wav",
        description: "sound",
        note: "Sound of Windows.",
        magic: b"WAVE",
        relative_offset: 8,
        validator: None,
        end_marker: None,
        name_extractor: None,
    }]
}

#[test]
fn formats_are_described_by_name_and_note() {
    assert_eq!(describe_formats(&table()), "Підтримується 1 форматів:\n\nWAV\n  Sound of Windows.\n\n");
}

#[test]
fn settings_begin_with_the_standard_theme() {
    assert_eq!(Config::default().theme, "standard");
    assert_eq!(ThemeKind::from_config_key(&Config::default().theme), Some(ThemeKind::default()));
}

#[test]
fn theme_keys_lead_back_to_their_themes() {
    for i in 0..THEME_COUNT {
        let kind = ThemeKind::nth(i);
        assert_eq!(kind.index(), i);
        assert_eq!(ThemeKind::from_config_key(kind.config_key()), Some(kind));
    }
    assert_eq!(ThemeKind::from_config_key("Standard"), None);
}

#[test]
fn themes_differ_in_their_palettes() {
    let standard = ThemeKind::Standard.palette();
    assert!(standard.background.is_none() && standard.selection.reversed);
    assert_eq!(standard.border_focused.fg, Some(Color::Cyan));
    assert_eq!(standard.high_entropy.fg, Some(Color::Red));
    let commander = ThemeKind::MidnightCommander.palette();
    assert_eq!(commander.background, Some(Color::Blue));
    assert!(commander.border_focused.bold && commander.border_focused.fg == Some(Color::Yellow));
    let dark = ThemeKind::Dark.palette();
    assert_eq!((dark.selection.fg, dark.selection.bg), (Some(Color::Black), Some(Color::Green)));
    let mono = ThemeKind::Monochrome.palette();
    assert!(mono.border_focused.bold && mono.high_entropy.underlined && mono.text.fg.is_none());
}

#[test]
fn normalized_keys_stay_as_they_are() {
    for c in ['й', 'q', 'Я', '5', 'ь', '?'] {
        let once = normalize_key_code(Key::Char(c));
        assert_eq!(normalize_key_code(once), once);
    }
    assert_eq!(normalize_key_code(Key::Char('ь')), Key::Char('m'));
    assert_eq!(normalize_key_code(Key::Char('Й')), Key::Char('Й'));
}

#[test]
fn keys_drive_the_browser() {
    let data = vec![0u8; 400];
    let mut app = App::new(&data, vec![finding(0, 99, "A"), finding(100, 399, "B")], 0);
    assert_eq!(app.handle_key(Key::Char('о')), Action::Nothing); // the key of `j`
    assert_eq!(app.selected().map(|f| f.format.as_str()), Some("B"));
    assert_eq!(app.handle_key(Key::Tab), Action::Nothing);
    assert!(app.focus == Focus::Hex);
    app.handle_key(Key::Down);
    assert_eq!(app.hex_scroll, 1);
    app.handle_key(Key::PageDown);
    assert_eq!(app.hex_scroll, 17);
    app.handle_key(Key::PageDown);
    assert_eq!(app.hex_scroll, 18);
    assert_eq!(app.handle_key(Key::Char('x')), Action::Extract);
    assert_eq!(app.handle_key(Key::Char('e')), Action::ToggleEntropy);
    app.handle_key(Key::Char('f'));
    assert!(app.menu.is_some());
    assert_eq!(app.handle_key(Key::Char('q')), Action::Nothing);
    app.handle_key(Key::Down);
    app.handle_key(Key::Enter);
    assert_eq!(app.format_filter.as_deref(), Some("A"));
    assert_eq!(app.status, "Фільтр формату: A");
    app.handle_key(Key::Char('r'));
    assert_eq!((app.filtered.len(), app.status.as_str()), (2, "Фільтри скинуто"));
    app.handle_key(Key::Char('t'));
    app.handle_key(Key::Char('j'));
    assert_eq!(app.handle_key(Key::Enter), Action::SaveTheme);
    assert_eq!(app.status, "Тема: Midnight Commander");
    app.report_unsaved_theme("disk full");
    assert_eq!(app.status, "Тема: Midnight Commander (не вдалося зберегти конфіг: disk full)");
    app.report_extraction(Ok("a/b"));
    assert_eq!(app.status, "Витягнуто: a/b");
    app.report_extraction(Err("no room"));
    assert_eq!(app.status, "Помилка екстракції: no room");
    assert_eq!(app.handle_key(Key::Esc), Action::Quit);
    assert_eq!(app.handle_key(Key::Char('й')), Action::Quit);
}

#[test]
fn typed_percentages_are_limited() {
    let data = vec![0u8; 10];
    let mut app = App::new(&data, vec![finding(0, 9, "A")], 0);
    app.open_confidence_menu();
    for _ in 0..3 {
        app.handle_menu_key(Key::Down);
    }
    app.handle_menu_key(Key::Enter);
    for c in ['9', 'x', '9', '9', '9'] {
        app.handle_menu_key(Key::Char(c));
    }
    match menu_popup(&app) {
        Some(Popup::Input { text, .. }) => assert_eq!(text, "999_"),
        _ => panic!("an input is open"),
    }
    app.handle_menu_key(Key::Backspace);
    app.handle_menu_key(Key::Char('5'));
    app.handle_menu_key(Key::Enter);
    assert_eq!((app.confidence_filter, app.filtered.len()), (100, 0));
    assert!(app.selected().is_none() && app.selected_row.is_none());
}

#[test]
fn popups_list_their_choices() {
    let data = vec![0u8; 10];
    let mut app = App::new(&data, vec![finding(0, 4, "PNG"), finding(5, 9, "GIF87a")], 41);
    assert!(menu_popup(&app).is_none());
    app.open_format_menu();
    match menu_popup(&app) {
        Some(Popup::Choices { title, options, cursor }) => {
            assert_eq!((title, cursor), (" Формат ", 0));
            assert_eq!(options, vec!["Усі формати", "GIF87a", "PNG"]);
        }
        _ => panic!("choices are open"),
    }
    app.open_confidence_menu();
    match menu_popup(&app) {
        Some(Popup::Choices { options, .. }) => assert_eq!(options[4], "Скинути (мін. зі скану: 41%)"),
        _ => panic!("choices are open"),
    }
    app.open_theme_menu();
    match menu_popup(&app) {
        Some(Popup::Choices { options, .. }) => assert_eq!(options[3], "Монохромна"),
        _ => panic!("choices are open"),
    }
    assert_eq!(filter_bar(&app), "Формат: усі   Мін.%: 41%\n[f] формат  [c] мін.%  [r] скинути");
    assert_eq!(list_title(&app), " Знахідки (2/2) ");
}

#[test]
fn popups_fit_on_the_screen() {
    assert_eq!(choice_label("PNG", true), "▶ PNG");
    assert_eq!(choice_label("PNG", false), "  PNG");
    assert_eq!(choices_height(4, 40), 6);
    assert_eq!(choices_height(100, 40), 38);
    assert_eq!(choices_height(usize::MAX, 0), 3);
    assert_eq!(choices_height(0, 40), 3);
    assert_eq!(help_height(50), 40);
    assert_eq!(help_height(5), 10);
    assert_eq!(help_height(u16::MAX), 52428);
}

#[test]
fn bytes_are_shown_in_rows() {
    let bytes: Vec<u8> = (0x20..0x34).collect();
    let lines = hex_lines(&bytes, 0x100, 0, 5);
    assert_eq!(lines.len(), 2);
    assert_eq!(lines[0], "00000100  20 21 22 23 24 25 26 27 28 29 2a 2b 2c 2d 2e 2f  !\"#$%&'()*+,-./");
    assert_eq!(lines[1], format!("00000110  {:<48}{}", "30 31 32 33 ", "0123"));
    assert_eq!(hex_lines(&[0, 0x7F, 0x41], 0, 0, 1)[0], format!("00000000  {:<48}{}", "00 7f 41 ", "..A"));
    assert!(hex_lines(&bytes, 0, 2, 5).is_empty());
    assert_eq!(hex_lines(&bytes, 0, 1, 5).len(), 1);
    assert!(hex_lines(&bytes, 0, usize::MAX, 5).is_empty());
}

#[test]
fn labels_are_aligned() {
    let f = finding(0x10, 0x1F, "ZIP");
    assert_eq!(finding_label(&f), format!("0x00000010  {:<14} {:>10}b  {:>3}%", "ZIP", 16, 90));
    assert_eq!(panel_heading("Hex", &f), " Hex: ZIP [0x00000010-0x0000001f] ");
    let entry = ArchiveEntry { name: "a.txt".to_string(), size: 5 };
    assert_eq!(entry_label(&entry), "         5b  a.txt");
}

#[test]
fn formats_are_shown_as_they_are_best_seen() {
    assert_eq!(panels_for("PNG"), Panels::ImageAndHex);
    assert_eq!(panels_for("ZIP"), Panels::ListAndHex);
    assert_eq!(panels_for("SVG"), Panels::Text);
    assert_eq!(panels_for("MP3"), Panels::Hex);
    assert_eq!(structure_panel_title("ISO9660"), Some(" Файли (корінь) "));
    assert_eq!(structure_panel_title("AIFC"), Some(" Чанки "));
    assert_eq!(structure_panel_title("MP3"), None);
}

#[test]
fn information_joins_note_and_facts() {
    let mut data = b"..RIFF".to_vec();
    data.extend_from_slice(&28u32.to_le_bytes());
    data.extend_from_slice(b"WAVEfmt \x10\0\0\0\x01\0\x02\0");
    data.extend_from_slice(&8000u32.to_le_bytes());
    data.extend_from_slice(&0u32.to_le_bytes());
    data.extend_from_slice(&[4, 0, 16, 0]);
    let f = finding(2, data.len() - 1, "WAV");
    assert_eq!(
        finding_info(&table(), &data, &f),
        "Sound of Windows.\n\nКанали: 2\nЧастота дискретизації: 8000 Гц\nРозрядність: 16 біт"
    );
    assert_eq!(format_info_height(&data, &f), 9);
    let beyond = finding(2, data.len(), "WAV");
    assert!(fragment(&data, &beyond).is_none());
    assert_eq!(finding_info(&table(), &data, &beyond), "Sound of Windows.");
    assert_eq!(format_info_height(&data, &beyond), 5);
    assert_eq!(count_lines("a\nb\n"), 2);
    assert_eq!(count_lines(""), 0);
}

#[test]
fn popups_stand_in_the_middle() {
    let area = Area { x: 10, y: 0, width: 100, height: 21 };
    assert_eq!(centered_rect(50, 5, area), Area { x: 35, y: 8, width: 50, height: 5 });
    assert_eq!(centered_rect(200, 50, area), area);
    let wide = Area { x: 0, y: 0, width: u16::MAX, height: 1 };
    assert_eq!(centered_rect(80, 1, wide).width, 52428);
}
