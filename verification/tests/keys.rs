use btrbk_tui::keys::{key_char, ERR, KEY_UP};

#[test]
fn key_char_folds_case_and_ignores_special_keys() {
    assert_eq!(key_char('S' as i32), Some('s'));
    assert_eq!(key_char('q' as i32), Some('q'));
    assert_eq!(key_char(KEY_UP), None);
    assert_eq!(key_char(ERR), None);
    assert_eq!(key_char('1' as i32), None);
}

#[test]
fn every_letter_is_known_in_both_cases() {
    for key in -300..700 {
        let expected = match u8::try_from(key) {
            Ok(byte) if byte.is_ascii_alphabetic() => Some(byte.to_ascii_lowercase() as char),
            _ => None,
        };
        assert_eq!(key_char(key), expected);
    }
}
