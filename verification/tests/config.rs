use book_register::config::{mask_secret, purchase_date_verdict, validate_purchase_date, Config};

#[test]
fn validate_purchase_date_accepts_real_date() {
    assert!(validate_purchase_date("2026-03-15").is_ok());
}

#[test]
fn validate_purchase_date_rejects_invalid_date() {
    assert!(validate_purchase_date("2026-02-30").is_err());
}

#[test]
fn validate_purchase_date_message() {
    assert_eq!(
        validate_purchase_date("15/03/2026"),
        Err("❌ --date は YYYY-MM-DD 形式の実在する日付を指定してください".to_string())
    );
    assert!(validate_purchase_date("2024-02-29").is_ok());
    assert!(validate_purchase_date("2023-02-29").is_err());
    assert_eq!(purchase_date_verdict(true), Ok(()));
    assert!(purchase_date_verdict(false).is_err());
}

#[test]
fn mask_secret_shows_last_four() {
    assert_eq!(mask_secret(""), "(未設定)");
    assert_eq!(mask_secret("ab"), "***ab");
    assert_eq!(mask_secret("abcd"), "***abcd");
    assert_eq!(mask_secret("secret_abcdef"), "***cdef");
    assert_eq!(mask_secret("あいうえお"), "***いうえお");
}

#[test]
fn config_for_dry_run_needs_nothing() {
    let c = Config::from_env_values(true, None, None).unwrap();
    assert_eq!(c.notion_api_key, "");
    assert_eq!(c.notion_database_id, "00000000-0000-0000-0000-000000000000");
    let c = Config::from_env_values(true, Some(" key ".into()), Some(" id\n".into())).unwrap();
    assert_eq!(c.notion_api_key, "key");
    assert_eq!(c.notion_database_id, "id");
}

#[test]
fn config_requires_both_values() {
    assert_eq!(
        Config::from_env_values(false, None, None).err(),
        Some("❌ .env に NOTION_API_KEY を設定してください".to_string())
    );
    assert_eq!(
        Config::from_env_values(false, Some("k".into()), None).err(),
        Some("❌ .env に NOTION_DATABASE_ID を設定してください".to_string())
    );
    let c = Config::from_env_values(false, Some(" k".into()), Some("d ".into())).unwrap();
    assert_eq!((c.notion_api_key.as_str(), c.notion_database_id.as_str()), ("k", "d"));
}
