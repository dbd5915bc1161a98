//! Pictures that are decoded for a preview.
use great_extractor::picture::{
    decode_image_for_preview, image_preview_limits, picture_or_message, picture_size, preview,
};
use great_extractor::scanner::Finding;

const UNDECODED: &str = "Не вдалося декодувати зображення: ";

/// A bitmap with 24 bits for a pixel, of which only the first row is there.
fn bitmap(width: u32, height: u32) -> Vec<u8> {
    let row = (width as usize * 3).div_ceil(4) * 4;
    let mut out = b"BM".to_vec();
    out.extend_from_slice(&(54 + row as u32).to_le_bytes());
    out.extend_from_slice(&[0; 4]);
    out.extend_from_slice(&54u32.to_le_bytes());
    out.extend_from_slice(&40u32.to_le_bytes());
    out.extend_from_slice(&width.to_le_bytes());
    out.extend_from_slice(&height.to_le_bytes());
    out.extend_from_slice(&1u16.to_le_bytes());
    out.extend_from_slice(&24u16.to_le_bytes());
    out.extend_from_slice(&[0; 24]);
    out.extend((0..row).map(|i| i as u8));
    out
}

fn finding(offset_start: usize, offset_end: usize) -> Finding {
    Finding {
        format: "BMP".to_string(),
        description: String::new(),
        offset_start,
        offset_end,
        size: offset_end - offset_start + 1,
        confidence: 90,
        name: None,
    }
}

#[test]
fn a_small_picture_is_decoded() {
    let picture = decode_image_for_preview(&bitmap(3, 1)).expect("the picture is whole");
    assert_eq!(picture_size(&picture), (3, 1));
    assert_eq!(picture.to_rgb8().into_raw(), vec![2, 1, 0, 5, 4, 3, 8, 7, 6]);
}

#[test]
fn the_limits_of_a_preview() {
    let limits = image_preview_limits();
    assert_eq!((limits.max_width, limits.max_height), (16384, 16384));
    assert_eq!(limits.max_alloc, 64 * 1024 * 1024);
}

#[test]
fn a_picture_beyond_the_limits_is_not_decoded() {
    assert_eq!(picture_size(&decode_image_for_preview(&bitmap(16384, 1)).expect("just as wide as allowed")), (16384, 1));
    assert!(decode_image_for_preview(&bitmap(16385, 1)).is_err());
    assert!(decode_image_for_preview(&bitmap(1, 16385)).is_err());
    // Each side is allowed, but the pixels take too many bytes.
    assert!(decode_image_for_preview(&bitmap(16384, 16384)).is_err());
}

#[test]
fn a_preview_is_that_of_the_bytes_of_the_finding() {
    let mut data = b"junk".to_vec();
    data.extend_from_slice(&bitmap(2, 1));
    let end = data.len() - 1;
    let shown = preview(&data, &finding(4, end)).expect("the bytes are there");
    assert_eq!(picture_size(&shown.expect("the picture is whole")), (2, 1));

    let message = preview(&data, &finding(3, end)).expect("the bytes are there").expect_err("no picture begins there");
    assert!(message.starts_with(UNDECODED), "{message}");
    assert!(message.len() > UNDECODED.len());
    assert!(preview(&data, &finding(4, end + 1)).is_none());
}

#[test]
fn a_failure_is_told_with_its_reason() {
    let message = picture_or_message(Err("why".to_string())).expect_err("there is no picture");
    assert_eq!(message, format!("{UNDECODED}why"));
    let picture = decode_image_for_preview(&bitmap(1, 1));
    assert!(picture_or_message(picture).is_ok());
}
