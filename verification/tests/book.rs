use book_register::book::{
    extract_description, extract_price, finish_description, format_date, get_book_cover_url,
    parse_openbd, parse_u32, OnixList, OpenbdRecord,
};

#[test]
fn extract_description_strips_html_tags() {
    let onix = OnixList::Object(Some("<p>紹介<br/>文</p>".to_string()));
    assert_eq!(extract_description(&onix), "紹介文");
}

#[test]
fn extract_description_takes_first_non_empty_text() {
    let texts = OnixList::Array(vec![
        None,
        Some(String::new()),
        Some("  <b>first</b> text  ".to_string()),
        Some("second".to_string()),
    ]);
    assert_eq!(extract_description(&texts), "first text");
    assert_eq!(extract_description(&OnixList::Other), "");
    assert_eq!(extract_description(&OnixList::Array(vec![])), "");
    assert_eq!(extract_description(&OnixList::Object(None)), "");
}

#[test]
fn extract_description_keeps_lone_angle_brackets() {
    let texts = OnixList::Object(Some("a <> b < c".to_string()));
    assert_eq!(extract_description(&texts), "a <> b < c");
    let texts = OnixList::Object(Some("<a<b>x".to_string()));
    assert_eq!(extract_description(&texts), "x");
}

#[test]
fn extract_description_stops_at_first_text_even_if_it_cleans_to_nothing() {
    let texts = OnixList::Array(vec![Some("<br/>".to_string()), Some("later".to_string())]);
    assert_eq!(extract_description(&texts), "");
}

#[test]
fn extract_description_cuts_at_2000_characters() {
    let long = "あ".repeat(2500);
    let out = extract_description(&OnixList::Object(Some(long)));
    assert_eq!(out.chars().count(), 2000);
    assert_eq!(finish_description(&"x".repeat(1999)), "x".repeat(1999));
}

#[test]
fn parse_u32_matches_std() {
    for s in ["0", "42", "+7", "4294967295", "4294967296", "", "+", "-1", "1.5", "00012", " 1", "1 ", "１"] {
        assert_eq!(parse_u32(s), s.parse::<u32>().ok(), "input {:?}", s);
    }
}

#[test]
fn extract_price_takes_first_parsable_amount() {
    let prices = OnixList::Array(vec![None, Some("abc".to_string()), Some("1500".to_string()), Some("2000".to_string())]);
    assert_eq!(extract_price(&prices), Some(1500));
    assert_eq!(extract_price(&OnixList::Object(Some("980".to_string()))), Some(980));
    assert_eq!(extract_price(&OnixList::Object(Some("-980".to_string()))), None);
    assert_eq!(extract_price(&OnixList::Other), None);
}

#[test]
fn format_date_keeps_year_and_month() {
    assert_eq!(format_date("20200115"), "202001");
    assert_eq!(format_date("202001"), "202001");
    assert_eq!(format_date("2020-01"), "");
    assert_eq!(format_date("20201"), "");
    assert_eq!(format_date(""), "");
    assert_eq!(format_date("ééé"), "");
}

#[test]
fn get_book_cover_url_prefers_openbd_cover() {
    assert_eq!(
        get_book_cover_url("9784478039670", "https://cover.openbd.jp/9784478039670.jpg"),
        "https://cover.openbd.jp/9784478039670.jpg"
    );
    assert_eq!(
        get_book_cover_url("9784478039670", ""),
        "https://images-na.ssl-images-amazon.com/images/P/4478039674.01.L.jpg"
    );
    assert_eq!(get_book_cover_url("9794478039670", ""), "");
    assert_eq!(get_book_cover_url("", ""), "");
}

fn record(title: Option<&str>) -> OpenbdRecord {
    OpenbdRecord {
        title: title.map(|s| s.to_string()),
        author: Some("著者".to_string()),
        pubdate: Some("20170715".to_string()),
        isbn: Some("9784478039670".to_string()),
        cover: None,
        prices: OnixList::Array(vec![Some("1600".to_string())]),
        texts: OnixList::Object(Some("<p>本文</p>".to_string())),
    }
}

#[test]
fn parse_openbd_builds_book() {
    let book = parse_openbd(&record(Some("題名"))).unwrap();
    assert_eq!(book.title, "題名");
    assert_eq!(book.author, "著者");
    assert_eq!(book.pubdate, "201707");
    assert_eq!(book.isbn, "9784478039670");
    assert_eq!(book.cover, "https://images-na.ssl-images-amazon.com/images/P/4478039674.01.L.jpg");
    assert_eq!(book.price, Some(1600));
    assert_eq!(book.description, "本文");
}

#[test]
fn parse_openbd_needs_a_title() {
    assert!(parse_openbd(&record(None)).is_none());
    assert!(parse_openbd(&record(Some(""))).is_none());
}
