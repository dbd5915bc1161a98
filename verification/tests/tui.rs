//! The browser: its list, its filters, its menus and its views.
use great_extractor::entropy::EntropyBlock;
use great_extractor::keys::{normalize_key_code, Key};
use great_extractor::scanner::Finding;
use great_extractor::theme::ThemeKind;
use great_extractor::tui::{default_status, App, Focus, Menu};
use great_extractor::views::{decode_as_text, is_text_format};

fn finding(offset_start: usize, offset_end: usize, format: &str) -> Finding {
    finding_with_confidence(offset_start, offset_end, format, 90)
}

fn finding_with_confidence(offset_start: usize, offset_end: usize, format: &str, confidence: u8) -> Finding {
    Finding {
        format: format.to_string(),
        description: format.to_string(),
        offset_start,
        offset_end,
        size: offset_end - offset_start + 1,
        confidence,
        name: None,
    }
}

#[test]
fn new_selects_first_finding_when_nonempty() {
    let data = vec![0u8; 100];
    let app = App::new(&data, vec![finding(0, 9, "A"), finding(10, 19, "B")], 0);
    assert_eq!(app.selected_row, Some(0));
}

#[test]
fn new_selects_nothing_when_empty() {
    let data = vec![0u8; 10];
    let app = App::new(&data, vec![], 0);
    assert_eq!(app.selected_row, None);
}

#[test]
fn move_selection_clamps_at_both_ends() {
    let data = vec![0u8; 100];
    let mut app = App::new(&data, vec![finding(0, 9, "A"), finding(10, 19, "B")], 0);

    app.move_selection(-5);
    assert_eq!(app.selected_row, Some(0));

    app.move_selection(1);
    assert_eq!(app.selected_row, Some(1));

    app.move_selection(5);
    assert_eq!(app.selected_row, Some(1));
}

#[test]
fn move_selection_resets_hex_scroll() {
    let data = vec![0u8; 100];
    let mut app = App::new(&data, vec![finding(0, 63, "A"), finding(64, 99, "B")], 0);
    app.hex_scroll = 2;
    app.move_selection(1);
    assert_eq!(app.hex_scroll, 0);
}

#[test]
fn scroll_hex_clamps_to_available_rows() {
    let data = vec![0u8; 100];
    let mut app = App::new(&data, vec![finding(0, 63, "A")], 0);

    app.scroll_hex(-1);
    assert_eq!(app.hex_scroll, 0);

    app.scroll_hex(2);
    assert_eq!(app.hex_scroll, 2);

    app.scroll_hex(100);
    assert_eq!(app.hex_scroll, 3);
}

#[test]
fn toggle_focus_switches_between_list_and_hex() {
    let data = vec![0u8; 10];
    let mut app = App::new(&data, vec![finding(0, 9, "A")], 0);
    assert!(app.focus == Focus::List);
    app.toggle_focus();
    assert!(app.focus == Focus::Hex);
    app.toggle_focus();
    assert!(app.focus == Focus::List);
}

#[test]
fn toggle_entropy_computes_then_clears_blocks() {
    let data = vec![0u8; 4096];
    let mut app = App::new(&data, vec![finding(0, 100, "A")], 0);
    assert!(app.entropy_blocks.is_none());

    app.toggle_entropy(vec![EntropyBlock { offset: 0, size: 4096, high: false }]);
    assert!(app.entropy_blocks.is_some());

    app.toggle_entropy(Vec::new());
    assert!(app.entropy_blocks.is_none());
}

#[test]
fn clear_transient_status_restores_default_hint_text() {
    let data = vec![0u8; 10];
    let mut app = App::new(&data, vec![], 0);

    app.status = "Витягнуто: /tmp/some_file.bin".to_string();
    app.clear_transient_status();

    assert_eq!(app.status, default_status());
}

#[test]
fn normalize_key_code_maps_ukrainian_letters_to_same_physical_key() {
    let pairs = [
        ('й', 'q'),
        ('у', 'e'),
        ('к', 'r'),
        ('е', 't'),
        ('а', 'f'),
        ('р', 'h'),
        ('о', 'j'),
        ('л', 'k'),
        ('ч', 'x'),
        ('с', 'c'),
    ];
    for (ukrainian, english) in pairs {
        assert_eq!(
            normalize_key_code(Key::Char(ukrainian)),
            Key::Char(english),
            "'{ukrainian}' stands for '{english}'"
        );
    }
}

#[test]
fn normalize_key_code_leaves_digits_and_non_char_keys_untouched() {
    assert_eq!(normalize_key_code(Key::Char('5')), Key::Char('5'));
    assert_eq!(normalize_key_code(Key::Esc), Key::Esc);
    assert_eq!(normalize_key_code(Key::Enter), Key::Enter);
}

#[test]
fn is_high_entropy_detects_overlap_with_high_entropy_block() {
    let data = vec![0u8; 10];
    let mut app = App::new(&data, vec![finding(0, 9, "A")], 0);

    assert!(!app.is_high_entropy(&finding(0, 9, "A")));

    app.entropy_blocks = Some(vec![EntropyBlock {
        offset: 5,
        size: 10,
        high: true,
    }]);

    assert!(app.is_high_entropy(&finding(0, 9, "A")));
    assert!(!app.is_high_entropy(&finding(0, 3, "A")));
}

#[test]
fn available_formats_is_sorted_and_deduplicated() {
    let data = vec![0u8; 10];
    let findings = vec![finding(0, 1, "PNG"), finding(2, 3, "JPEG"), finding(4, 5, "PNG")];
    let app = App::new(&data, findings, 0);
    assert_eq!(app.available_formats, vec!["JPEG".to_string(), "PNG".to_string()]);
}

#[test]
fn format_filter_shows_only_matching_findings() {
    let data = vec![0u8; 10];
    let findings = vec![finding(0, 1, "PNG"), finding(2, 3, "JPEG"), finding(4, 5, "PNG")];
    let mut app = App::new(&data, findings, 0);

    app.format_filter = Some("PNG".to_string());
    app.recompute_filtered();

    assert_eq!(app.filtered.len(), 2);
    assert!(app.filtered.iter().all(|&i| app.findings[i].format == "PNG"));
}

#[test]
fn confidence_filter_hides_findings_below_threshold() {
    let data = vec![0u8; 10];
    let findings = vec![
        finding_with_confidence(0, 1, "A", 55),
        finding_with_confidence(2, 3, "B", 80),
        finding_with_confidence(4, 5, "C", 95),
    ];
    let mut app = App::new(&data, findings, 0);

    app.apply_confidence_filter(80);

    assert_eq!(app.filtered.len(), 2);
    assert!(app.filtered.iter().all(|&i| app.findings[i].confidence >= 80));
}

#[test]
fn reset_filters_restores_initial_min_confidence_and_clears_format() {
    let data = vec![0u8; 10];
    let findings = vec![finding_with_confidence(0, 1, "A", 41), finding_with_confidence(2, 3, "B", 95)];
    let mut app = App::new(&data, findings, 41);

    app.format_filter = Some("B".to_string());
    app.apply_confidence_filter(95);
    assert_eq!(app.filtered.len(), 1);

    app.reset_filters();

    assert_eq!(app.format_filter, None);
    assert_eq!(app.confidence_filter, 41);
    assert_eq!(app.filtered.len(), 2);
}

#[test]
fn format_menu_enter_applies_selected_format_and_closes_menu() {
    let data = vec![0u8; 10];
    let findings = vec![finding(0, 1, "JPEG"), finding(2, 3, "PNG")];
    let mut app = App::new(&data, findings, 0);

    app.open_format_menu();
    app.handle_menu_key(Key::Down);
    app.handle_menu_key(Key::Enter);

    assert!(app.menu.is_none());
    assert_eq!(app.format_filter, Some("JPEG".to_string()));
    assert_eq!(app.filtered.len(), 1);
    assert_eq!(app.findings[app.filtered[0]].format, "JPEG");
}

#[test]
fn new_defaults_to_standard_theme() {
    let data = vec![0u8; 10];
    let app = App::new(&data, vec![], 0);
    assert!(app.theme == ThemeKind::Standard);
}

#[test]
fn theme_menu_enter_switches_active_theme() {
    let data = vec![0u8; 10];
    let mut app = App::new(&data, vec![], 0);

    app.open_theme_menu();
    app.handle_menu_key(Key::Down); // Standard -> MidnightCommander
    app.handle_menu_key(Key::Enter);

    assert!(app.menu.is_none());
    assert!(app.theme == ThemeKind::MidnightCommander);
}

#[test]
fn theme_menu_esc_cancels_without_changing_theme() {
    let data = vec![0u8; 10];
    let mut app = App::new(&data, vec![], 0);

    app.open_theme_menu();
    app.handle_menu_key(Key::Down);
    app.handle_menu_key(Key::Esc);

    assert!(app.menu.is_none());
    assert!(app.theme == ThemeKind::Standard);
}

#[test]
fn confidence_menu_custom_input_applies_typed_value() {
    let data = vec![0u8; 10];
    let findings = vec![finding_with_confidence(0, 1, "A", 55), finding_with_confidence(2, 3, "B", 95)];
    let mut app = App::new(&data, findings, 0);

    app.open_confidence_menu();
    app.handle_menu_key(Key::Down); // 1 = "80%"
    app.handle_menu_key(Key::Down); // 2 = "95%"
    app.handle_menu_key(Key::Down);
    app.handle_menu_key(Key::Enter);
    app.handle_menu_key(Key::Char('9'));
    app.handle_menu_key(Key::Char('0'));
    app.handle_menu_key(Key::Enter);

    assert!(app.menu.is_none());
    assert_eq!(app.confidence_filter, 90);
    assert_eq!(app.filtered.len(), 1);
    assert_eq!(app.findings[app.filtered[0]].format, "B");
}

#[test]
fn confidence_menu_esc_cancels_without_changing_filter() {
    let data = vec![0u8; 10];
    let findings = vec![finding(0, 1, "A")];
    let mut app = App::new(&data, findings, 0);

    app.open_confidence_menu();
    app.handle_menu_key(Key::Esc);

    assert!(app.menu.is_none());
    assert_eq!(app.confidence_filter, 0);
}

#[test]
fn open_formats_help_shows_menu_with_zero_scroll() {
    let data = vec![0u8; 10];
    let mut app = App::new(&data, vec![], 0);
    app.open_formats_help();
    assert!(matches!(app.menu, Some(Menu::FormatsHelp { scroll: 0 })));
}

#[test]
fn formats_help_scroll_saturates_and_esc_closes() {
    let data = vec![0u8; 10];
    let mut app = App::new(&data, vec![], 0);
    app.open_formats_help();

    app.handle_menu_key(Key::Up);
    assert!(matches!(app.menu, Some(Menu::FormatsHelp { scroll: 0 })));

    app.handle_menu_key(Key::Down);
    assert!(matches!(app.menu, Some(Menu::FormatsHelp { scroll: 1 })));

    app.handle_menu_key(Key::PageDown);
    assert!(matches!(app.menu, Some(Menu::FormatsHelp { scroll: 11 })));

    app.handle_menu_key(Key::Esc);
    assert!(app.menu.is_none());
}

#[test]
fn open_app_help_shows_menu_with_zero_scroll() {
    let data = vec![0u8; 10];
    let mut app = App::new(&data, vec![], 0);
    app.open_app_help();
    assert!(matches!(app.menu, Some(Menu::AppHelp { scroll: 0 })));
}

#[test]
fn app_help_scroll_saturates_and_esc_closes() {
    let data = vec![0u8; 10];
    let mut app = App::new(&data, vec![], 0);
    app.open_app_help();

    app.handle_menu_key(Key::Up);
    assert!(matches!(app.menu, Some(Menu::AppHelp { scroll: 0 })));

    app.handle_menu_key(Key::Down);
    assert!(matches!(app.menu, Some(Menu::AppHelp { scroll: 1 })));

    app.handle_menu_key(Key::PageDown);
    assert!(matches!(app.menu, Some(Menu::AppHelp { scroll: 11 })));

    app.handle_menu_key(Key::Esc);
    assert!(app.menu.is_none());
}

#[test]
fn decode_as_text_reads_plain_utf8() {
    assert_eq!(decode_as_text(b"<svg>hello</svg>"), "<svg>hello</svg>");
}

#[test]
fn decode_as_text_strips_utf8_bom() {
    let mut bytes = vec![0xEF, 0xBB, 0xBF];
    bytes.extend_from_slice(b"text after bom");
    assert_eq!(decode_as_text(&bytes), "text after bom");
}

#[test]
fn decode_as_text_decodes_utf16le_bom() {
    let text = "Windows Registry Editor Version 5.00";
    let mut bytes = vec![0xFF, 0xFE];
    for unit in text.encode_utf16() {
        bytes.extend_from_slice(&unit.to_le_bytes());
    }
    assert_eq!(decode_as_text(&bytes), text);
}

#[test]
fn decode_as_text_replaces_invalid_utf8_bytes() {
    let bytes = [b'a', 0xFF, b'b'];
    assert_eq!(decode_as_text(&bytes), "a\u{FFFD}b");
}

#[test]
fn is_text_format_covers_known_text_formats_and_excludes_binary() {
    for format in ["SVG", "XPM", "EPS", "XFig", "PEM", "MBOX", "WebVTT", "ASS", "BDF", "FDF"] {
        assert!(is_text_format(format), "{format} is text");
    }
    for format in ["PNG", "ZIP", "ELF", "TTF"] {
        assert!(!is_text_format(format), "{format} is not text");
    }
}

#[test]
fn scroll_hex_uses_text_line_count_for_text_formats() {
    let data = b"line1\nline2\nline3\nline4\n".to_vec();
    let mut app = App::new(&data, vec![finding(0, data.len() - 1, "SVG")], 0);

    app.scroll_hex(100);
    assert_eq!(app.hex_scroll, 3);

    app.scroll_hex(-100);
    assert_eq!(app.hex_scroll, 0);
}

#[test]
fn decoding_gives_the_text_back() {
    for text in ["", "Windows", "Привіт, світе", "a\u{10FFFF}\u{10000}\u{FFFF}b", "\u{D7FF}\u{E000}\u{1F600}"] {
        let mut utf16 = vec![0xFF, 0xFE];
        for unit in text.encode_utf16() {
            utf16.extend_from_slice(&unit.to_le_bytes());
        }
        assert_eq!(decode_as_text(&utf16), text);
        assert_eq!(decode_as_text(&[b"\xEF\xBB\xBF", text.as_bytes()].concat()), text);
        assert_eq!(decode_as_text(text.as_bytes()), text);
    }
    assert_eq!(decode_as_text(&[0xFF, 0xFE, 0x00, 0xD8, 0x41, 0x00]), "\u{FFFD}A");
    assert_eq!(decode_as_text(&[0xFF, 0xFE, 0x41, 0x00, 0x00, 0xDC, 0x00, 0xD8]), "A\u{FFFD}\u{FFFD}");
    assert_eq!(decode_as_text(&[0xFF, 0xFE, 0x00, 0xD8, 0x00, 0xD8, 0x00, 0xDC]), "\u{FFFD}\u{10000}");
}
