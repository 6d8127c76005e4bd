use book_register::isbn::{
    is_valid_isbn10, is_valid_isbn13, isbn10_to_isbn13, isbn13_to_isbn10, normalize_isbn,
    strip_isbn_separators,
};

#[test]
fn normalize_isbn13_digits_only() {
    assert_eq!(
        normalize_isbn("9784478039670"),
        Some("9784478039670".into())
    );
}

#[test]
fn normalize_isbn10_converts_to_isbn13() {
    assert_eq!(normalize_isbn("4478039674"), Some("9784478039670".into()));
}

#[test]
fn normalize_isbn_rejects_invalid_check_digit() {
    assert_eq!(normalize_isbn("9784478039671"), None);
    assert_eq!(normalize_isbn("4478039675"), None);
}

#[test]
fn isbn10_to_isbn13_roundtrip() {
    let isbn10 = "4478039674";
    let isbn13 = isbn10_to_isbn13(isbn10);
    assert_eq!(isbn13, "9784478039670");
    assert_eq!(isbn13_to_isbn10(&isbn13).unwrap(), isbn10);
}

#[test]
fn normalize_isbn_accepts_hyphens_and_spaces() {
    assert_eq!(
        normalize_isbn("978-4-478-03967-0"),
        Some("9784478039670".into())
    );
    assert_eq!(normalize_isbn("4-478-03967-4"), Some("9784478039670".into()));
    assert_eq!(normalize_isbn("  978 4478 039670\t\n"), Some("9784478039670".into()));
}

#[test]
fn normalize_isbn_accepts_x_check_character() {
    assert_eq!(normalize_isbn("123456789X"), Some("9781234567897".into()));
    assert_eq!(normalize_isbn("123456789x"), Some("9781234567897".into()));
    assert_eq!(normalize_isbn("4-7980-6727-X"), Some("9784798067278".into()));
}

#[test]
fn normalize_isbn_rejects_other_inputs() {
    assert_eq!(normalize_isbn(""), None);
    assert_eq!(normalize_isbn("   "), None);
    assert_eq!(normalize_isbn("978447803967"), None);
    assert_eq!(normalize_isbn("97844780396700"), None);
    assert_eq!(normalize_isbn("X234567890"), None);
    assert_eq!(normalize_isbn("44780396a4"), None);
    assert_eq!(normalize_isbn("978447803967a"), None);
    assert_eq!(normalize_isbn("978_4478039670"), None);
}

#[test]
fn normalize_isbn_is_idempotent() {
    for raw in ["4478039674", "978-4-798-06727-8", " 123456789x "] {
        let once = normalize_isbn(raw).unwrap();
        assert_eq!(normalize_isbn(&once), Some(once.clone()));
    }
}

#[test]
fn normalize_isbn_output_is_valid_isbn13() {
    for raw in ["4478039674", "080442957X", "9784798067278"] {
        let out = normalize_isbn(raw).unwrap();
        assert!(is_valid_isbn13(&out));
    }
}

#[test]
fn strip_isbn_separators_trims_and_drops_hyphens_and_spaces() {
    assert_eq!(strip_isbn_separators("\t 978-4 478 \u{3000}"), "9784478");
    assert_eq!(strip_isbn_separators("a\tb-c d"), "a\tbcd");
}

#[test]
fn is_valid_isbn10_cases() {
    assert!(is_valid_isbn10("4478039674"));
    assert!(is_valid_isbn10("080442957X"));
    assert!(is_valid_isbn10("080442957x"));
    assert!(!is_valid_isbn10("4478039675"));
    assert!(!is_valid_isbn10("X478039674"));
    assert!(!is_valid_isbn10("447803967"));
    assert!(!is_valid_isbn10("44780396744"));
    assert!(!is_valid_isbn10("447803967é"));
    assert!(!is_valid_isbn10("44780396é"));
}

#[test]
fn is_valid_isbn13_cases() {
    assert!(is_valid_isbn13("9784478039670"));
    assert!(is_valid_isbn13("9784798067278"));
    assert!(!is_valid_isbn13("9784798067279"));
    assert!(!is_valid_isbn13("978479806727"));
    assert!(!is_valid_isbn13("978479806727X"));
    assert!(!is_valid_isbn13("97847980672é"));
}

#[test]
fn isbn10_to_isbn13_recomputes_check_digit() {
    assert_eq!(isbn10_to_isbn13("080442957X"), "9780804429573");
    assert_eq!(isbn10_to_isbn13("4000000004"), "9784000000000");
    assert_eq!(isbn10_to_isbn13("123456789"), "9781234567897");
}

#[test]
fn isbn13_to_isbn10_cases() {
    assert_eq!(isbn13_to_isbn10("9784798067278"), Some("479806727X".to_string()));
    assert_eq!(isbn13_to_isbn10("9781234567897"), Some("123456789X".to_string()));
    assert_eq!(isbn13_to_isbn10("9791234567896"), None);
    assert_eq!(isbn13_to_isbn10("978123456789"), None);
    assert_eq!(isbn13_to_isbn10(""), None);
    assert_eq!(isbn13_to_isbn10("978"), None);
}

#[test]
fn isbn13_round_trip_concrete() {
    for isbn13 in ["9784478039670", "9784798067278", "9780804429573"] {
        let isbn10 = isbn13_to_isbn10(isbn13).unwrap();
        assert!(is_valid_isbn10(&isbn10));
        assert_eq!(isbn10_to_isbn13(&isbn10), isbn13);
    }
}

#[test]
fn isbn10_round_trip_lower_case_x_comes_back_upper() {
    assert_eq!(isbn13_to_isbn10(&isbn10_to_isbn13("080442957x")).unwrap(), "080442957X");
}
