use i18n::get_key;
use i18n::get_key_legacy;
use i18n::render_decimal;

#[test]
fn render_strips_trailing_zeros() {
    assert_eq!(render_decimal(b"3.00", None, false), b"3".to_vec());
    assert_eq!(render_decimal(b"1.10", None, false), b"1.1".to_vec());
    assert_eq!(render_decimal(b"2.07", None, false), b"2.07".to_vec());
}

#[test]
fn render_applies_comma_separator() {
    assert_eq!(render_decimal(b"2.07", None, true), b"2,07".to_vec());
    assert_eq!(render_decimal(b"3.00", None, true), b"3".to_vec());
}

#[test]
fn render_pads_minimum_fraction_digits() {
    assert_eq!(render_decimal(b"5.00", Some(3), false), b"5.000".to_vec());
    assert_eq!(render_decimal(b"5.10", Some(1), false), b"5.1".to_vec());
    assert_eq!(render_decimal(b"5.12", Some(1), false), b"5.12".to_vec());
}

#[test]
fn render_is_idempotent_on_minimal_text() {
    // a value already holding at most two fractional digits and no
    // trailing zeros keeps exactly its digits, modulo the separator
    assert_eq!(render_decimal(b"1.1".to_vec().as_slice(), None, false), b"1.1".to_vec());
    assert_eq!(render_decimal(b"12.34", None, false), b"12.34".to_vec());
    assert_eq!(render_decimal(b"10.00", None, false), b"10".to_vec());
}

#[test]
fn legacy_key_table_lookup() {
    let keys = vec![
        vec!["a".to_string(), "b".to_string()],
        vec!["c".to_string()],
    ];
    assert_eq!(get_key(0, 1, &keys), "b");
    assert_eq!(get_key(1, 0, &keys), "c");
    assert_eq!(get_key(2, 0, &keys), "invalid-module-or-translation-index");
    assert_eq!(get_key(0, 5, &keys), "invalid-module-or-translation-index");
    assert_eq!(get_key_legacy(1000, &keys), "c");
    assert_eq!(get_key_legacy(1, &keys), "b");
    assert_eq!(get_key_legacy(123456, &keys), "invalid-module-or-translation-index");
}
