use book_register::book::Book;
use book_register::notion::{build_notion_payload, notion_error_message, page_json_text, PropertyValue};

fn book(author: &str, price: Option<u32>, isbn: &str, cover: &str) -> Book {
    Book {
        title: "題名".to_string(),
        author: author.to_string(),
        pubdate: "201707".to_string(),
        cover: cover.to_string(),
        price,
        description: String::new(),
        isbn: isbn.to_string(),
    }
}

fn names(page: &book_register::notion::NotionPage) -> Vec<String> {
    page.properties.iter().map(|p| p.name.clone()).collect()
}

#[test]
fn payload_with_all_fields() {
    let b = book("著者", Some(1600), "9784478039670", "https://cover.example/c.jpg");
    let page = build_notion_payload(&b, "db-id", "2026-03-15");
    assert_eq!(page.database_id, "db-id");
    assert_eq!(names(&page), vec!["名前", "購入年月", "代表著者", "出版月", "価格", "AmazonURL", "画像"]);
    assert!(matches!(&page.properties[0].value, PropertyValue::Title(t) if t == "題名"));
    assert!(matches!(&page.properties[1].value, PropertyValue::Date(d) if d == "2026-03-15"));
    assert!(matches!(&page.properties[2].value, PropertyValue::RichText(t) if t == "著者"));
    assert!(matches!(&page.properties[4].value, PropertyValue::Number(1600)));
    assert!(matches!(&page.properties[5].value, PropertyValue::Url(u) if u == "https://www.amazon.co.jp/dp/4478039674/"));
    assert!(matches!(&page.properties[6].value, PropertyValue::Url(u) if u == "https://cover.example/c.jpg"));
}

#[test]
fn payload_leaves_out_empty_fields() {
    let b = book("", None, "9794478039670", "");
    let page = build_notion_payload(&b, "db-id", "");
    assert_eq!(names(&page), vec!["名前", "購入年月", "出版月"]);
}

#[test]
fn notion_error_message_cases() {
    assert_eq!(notion_error_message(Some("error".into()), Some("bad".into())), Some("bad".to_string()));
    assert_eq!(notion_error_message(Some("error".into()), None), Some("Unknown error".to_string()));
    assert_eq!(notion_error_message(Some("page".into()), Some("bad".into())), None);
    assert_eq!(notion_error_message(None, Some("bad".into())), None);
}

#[test]
fn page_json_text_renders_every_property_kind() {
    let b = Book {
        title: "a\"b\\c\n".to_string(),
        author: "著者".to_string(),
        pubdate: String::new(),
        cover: "https://cover.example/c.jpg".to_string(),
        price: Some(1600),
        description: String::new(),
        isbn: "9784478039670".to_string(),
    };
    let text = page_json_text(&build_notion_payload(&b, "db\u{1}", "2026-03-15"));
    assert_eq!(
        text,
        [
            "{\"parent\":{\"database_id\":\"db\\u0001\"},\"properties\":{",
            "\"名前\":{\"title\":[{\"text\":{\"content\":\"a\\\"b\\\\c\\u000a\"}}]},",
            "\"購入年月\":{\"date\":{\"start\":\"2026-03-15\"}},",
            "\"代表著者\":{\"rich_text\":[{\"text\":{\"content\":\"著者\"}}]},",
            "\"価格\":{\"number\":1600},",
            "\"AmazonURL\":{\"url\":\"https://www.amazon.co.jp/dp/4478039674/\"},",
            "\"画像\":{\"url\":\"https://cover.example/c.jpg\"}}}",
        ]
        .concat()
    );
    let empty = book_register::notion::NotionPage { database_id: String::new(), properties: vec![] };
    assert_eq!(page_json_text(&empty), "{\"parent\":{\"database_id\":\"\"},\"properties\":{}}");
}

#[test]
fn page_json_text_is_valid_json() {
    let b = Book {
        title: "題名 \t \"quoted\"".to_string(),
        author: String::new(),
        pubdate: "201707".to_string(),
        cover: "https://cover.example/c.jpg".to_string(),
        price: Some(4294967295),
        description: "line1\nline2\u{7f}".to_string(),
        isbn: "9784478039670".to_string(),
    };
    let text = page_json_text(&build_notion_payload(&b, "db", "2026-03-15"));
    let v: serde_json::Value = serde_json::from_str(&text).unwrap();
    assert_eq!(v["parent"]["database_id"], "db");
    assert_eq!(v["properties"]["名前"]["title"][0]["text"]["content"], "題名 \t \"quoted\"");
    assert_eq!(v["properties"]["概要"]["rich_text"][0]["text"]["content"], "line1\nline2\u{7f}");
    assert_eq!(v["properties"]["価格"]["number"], 4294967295u64);
    assert_eq!(v["properties"]["画像"]["url"], "https://cover.example/c.jpg");
}
