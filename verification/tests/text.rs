use res_bot::icon::{read_u16, read_u32, select_icon_image};
use res_bot::error::{AppError, IconProblem};
use res_bot::text::{classify_letters, classify_token_chars, is_ascii_digit, is_whitespace};
use res_bot::wide::{copy_wide_text, encode_utf16, wide_string};

#[test]
fn tooltip_is_null_terminated() {
    let mut destination = [55_u16; 8];

    copy_wide_text("abcdefghijk", &mut destination);

    assert_eq!(destination[7], 0);
}

#[test]
fn short_text_is_terminated_right_after_it() {
    let mut destination = [55_u16; 8];
    copy_wide_text("ab", &mut destination);
    assert_eq!(destination, [97, 98, 0, 55, 55, 55, 55, 55]);
    let mut single = [9_u16; 1];
    copy_wide_text("abc", &mut single);
    assert_eq!(single, [0]);
}

#[test]
fn wide_strings_match_the_standard_encoding() {
    for text in ["", "res-bot — помощник", "😀 ok", "\u{ffff}\u{10000}\u{10ffff}"] {
        let mut expected = text.encode_utf16().collect::<Vec<u16>>();
        assert_eq!(encode_utf16(text), expected);
        expected.push(0);
        assert_eq!(wide_string(text), expected);
    }
}

/// An icon file with one entry per `(width, image)` pair.
fn icon_file(entries: &[(u8, &[u8])]) -> Vec<u8> {
    let mut bytes = vec![0, 0, 1, 0, entries.len() as u8, 0];
    let mut offset = 6 + entries.len() * 16;
    for (width, image) in entries {
        bytes.extend_from_slice(&[*width, *width, 0, 0, 1, 0, 32, 0]);
        bytes.extend_from_slice(&(image.len() as u32).to_le_bytes());
        bytes.extend_from_slice(&(offset as u32).to_le_bytes());
        offset += image.len();
    }
    for (_, image) in entries {
        bytes.extend_from_slice(image);
    }
    bytes
}

#[test]
fn embedded_icon_contains_small_tray_image() {
    let icon = icon_file(&[(32, &[3; 40]), (16, &[1; 20]), (0, &[2; 60])]);
    let image = select_icon_image(&icon, 16).unwrap();

    assert!(!image.is_empty());
    assert_eq!(image, &[1; 20][..]);
}

#[test]
fn the_first_of_equally_close_images_is_taken() {
    let icon = icon_file(&[(20, &[7; 4]), (12, &[8; 4])]);
    assert_eq!(select_icon_image(&icon, 16).unwrap(), &[7; 4][..]);
    let icon = icon_file(&[(32, &[3; 4]), (0, &[2; 4])]);
    assert_eq!(select_icon_image(&icon, 255).unwrap(), &[2; 4][..]);
}

#[test]
fn broken_icon_files_are_refused() {
    assert_eq!(select_icon_image(&[0, 0, 1], 16), Err(AppError::InvalidIcon { reason: IconProblem::Header }));
    assert_eq!(
        select_icon_image(&[0, 0, 2, 0, 1, 0], 16),
        Err(AppError::InvalidIcon { reason: IconProblem::Header })
    );
    assert_eq!(
        select_icon_image(&[0, 0, 1, 0, 0, 0], 16),
        Err(AppError::InvalidIcon { reason: IconProblem::Directory { count: 0, bytes: 6 } })
    );
    assert_eq!(
        select_icon_image(&[0, 0, 1, 0, 1, 0, 16], 16),
        Err(AppError::InvalidIcon { reason: IconProblem::Directory { count: 1, bytes: 7 } })
    );
    let mut icon = icon_file(&[(16, &[1; 20]), (32, &[2; 20])]);
    let last = icon.len() - 1;
    icon.truncate(last);
    assert_eq!(
        select_icon_image(&icon, 16),
        Err(AppError::InvalidIcon { reason: IconProblem::EntryOutside { index: 1, offset: 58, length: 20 } })
    );
}

#[test]
fn little_endian_fields_are_read_or_refused() {
    let bytes = [0x34, 0x12, 0x78, 0x56];
    assert_eq!(read_u16(&bytes, 0), Ok(0x1234));
    assert_eq!(read_u32(&bytes, 0), Ok(0x5678_1234));
    assert_eq!(read_u16(&bytes, 3), Err(AppError::InvalidIcon { reason: IconProblem::UnexpectedEnd { offset: 3 } }));
    assert_eq!(read_u32(&bytes, 1), Err(AppError::InvalidIcon { reason: IconProblem::UnexpectedEnd { offset: 1 } }));
}

#[test]
fn white_space_is_the_unicode_white_space() {
    for c in (0..=0x10FFFF_u32).filter_map(char::from_u32) {
        assert_eq!(is_whitespace(c), c.is_whitespace(), "{c:?}");
        assert_eq!(is_ascii_digit(c), c.is_ascii_digit(), "{c:?}");
    }
}

#[test]
fn characters_are_classified_as_letters_and_token_characters() {
    let text: Vec<char> = "a1 Б_".chars().collect();
    assert_eq!(classify_letters(&text), vec![true, false, false, true, false]);
    assert_eq!(classify_token_chars(&text), vec![true, true, false, true, false]);
    assert_eq!(classify_letters(&Vec::new()), Vec::<bool>::new());
}
