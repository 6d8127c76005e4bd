//! The Notion page that registers a book, and the reading of Notion's reply.
use vstd::prelude::*;
use crate::book::Book;
use crate::isbn;
use crate::isbn::isbn13_to_isbn10;
use crate::text;
use crate::text::{chars_of, digit_to_char, push_char};

verus! {

/// The value of one database property of a page.
pub enum PropertyValue {
    /// A title: `{"title": [{"text": {"content": …}}]}`.
    Title(String),
    /// A date: `{"date": {"start": …}}`.
    Date(String),
    /// A text: `{"rich_text": [{"text": {"content": …}}]}`.
    RichText(String),
    /// A number: `{"number": …}`.
    Number(u32),
    /// A URL: `{"url": …}`.
    Url(String),
}

/// A property value as plain text and numbers.
pub enum PropertyContent {
    Title(Seq<char>),
    Date(Seq<char>),
    RichText(Seq<char>),
    Number(u32),
    Url(Seq<char>),
}

impl View for PropertyValue {
    type V = PropertyContent;

    open spec fn view(&self) -> PropertyContent {
        match self {
            PropertyValue::Title(s) => PropertyContent::Title(s@),
            PropertyValue::Date(s) => PropertyContent::Date(s@),
            PropertyValue::RichText(s) => PropertyContent::RichText(s@),
            PropertyValue::Number(n) => PropertyContent::Number(*n),
            PropertyValue::Url(s) => PropertyContent::Url(s@),
        }
    }
}

/// A named database property.
pub struct Property {
    pub name: String,
    pub value: PropertyValue,
}

impl View for Property {
    type V = (Seq<char>, PropertyContent);

    open spec fn view(&self) -> (Seq<char>, PropertyContent) {
        (self.name@, self.value@)
    }
}

/// A page to create in a database: `{"parent": {"database_id": …}, "properties": {…}}`.
pub struct NotionPage {
    pub database_id: String,
    /// The properties, in the order they are set.
    pub properties: Vec<Property>,
}

/// The properties of a page, as plain values.
pub open spec fn properties_view(props: Seq<Property>) -> Seq<(Seq<char>, PropertyContent)> {
    props.map_values(|p: Property| p@)
}

/// A text property, present only when the text is not empty.
pub open spec fn optional_text(name: Seq<char>, value: Seq<char>) -> Seq<(Seq<char>, PropertyContent)> {
    if value.len() > 0 {
        seq![(name, PropertyContent::RichText(value))]
    } else {
        Seq::empty()
    }
}

/// The Amazon product page of an ISBN-10.
pub open spec fn amazon_url(isbn10: Seq<char>) -> Seq<char> {
    "https://www.amazon.co.jp/dp/"@ + isbn10 + "/"@
}

/// The properties of the page for `book` bought on `purchase_date`: title and
/// purchase date always; author, publication month and description when not
/// empty; price when known; Amazon URL when the ISBN converts to an ISBN-10;
/// cover image URL when there is one.
pub open spec fn page_properties(book: Book, purchase_date: Seq<char>) -> Seq<(Seq<char>, PropertyContent)> {
    seq![
        ("名前"@, PropertyContent::Title(book.title@)),
        ("購入年月"@, PropertyContent::Date(purchase_date)),
    ]
        + optional_text("代表著者"@, book.author@)
        + optional_text("出版月"@, book.pubdate@)
        + optional_text("概要"@, book.description@)
        + match book.price {
            Some(p) => seq![("価格"@, PropertyContent::Number(p))],
            None => Seq::empty(),
        }
        + match isbn::isbn13_to_isbn10_result(book.isbn@) {
            Some(isbn10) => seq![("AmazonURL"@, PropertyContent::Url(amazon_url(isbn10)))],
            None => Seq::empty(),
        }
        + if book.cover@.len() > 0 {
            seq![("画像"@, PropertyContent::Url(book.cover@))]
        } else {
            Seq::empty()
        }
}

/// Whether a property named `name` is among `props`.
pub open spec fn has_property(props: Seq<(Seq<char>, PropertyContent)>, name: Seq<char>) -> bool {
    exists|i: int| 0 <= i < props.len() && (#[trigger] props[i]).0 == name
}

/// A property of the page for `book` bought on `purchase_date` carries what its
/// name says: the title, the purchase date, the author, the publication month,
/// the description, the price, the Amazon page of the ISBN-10, the cover URL.
pub open spec fn property_matches_book(p: (Seq<char>, PropertyContent), book: Book, purchase_date: Seq<char>) -> bool {
    &&& p.0 == "名前"@ ==> p.1 == PropertyContent::Title(book.title@)
    &&& p.0 == "購入年月"@ ==> p.1 == PropertyContent::Date(purchase_date)
    &&& p.0 == "代表著者"@ ==> p.1 == PropertyContent::RichText(book.author@)
    &&& p.0 == "出版月"@ ==> p.1 == PropertyContent::RichText(book.pubdate@)
    &&& p.0 == "概要"@ ==> p.1 == PropertyContent::RichText(book.description@)
    &&& p.0 == "価格"@ ==> (book.price matches Some(price) && p.1 == PropertyContent::Number(price))
    &&& p.0 == "AmazonURL"@ ==> (isbn::isbn13_to_isbn10_result(book.isbn@) matches Some(isbn10)
        && p.1 == PropertyContent::Url("https://www.amazon.co.jp/dp/"@ + isbn10 + "/"@))
    &&& p.0 == "画像"@ ==> p.1 == PropertyContent::Url(book.cover@)
    &&& p.0 == "名前"@ || p.0 == "購入年月"@ || p.0 == "代表著者"@ || p.0 == "出版月"@
        || p.0 == "概要"@ || p.0 == "価格"@ || p.0 == "AmazonURL"@ || p.0 == "画像"@
}

/// The page for a book: every property carries what its name says, title and
/// purchase date are always there, and each other property is there exactly
/// when the book has that information.
pub open spec fn properties_describe_book(props: Seq<(Seq<char>, PropertyContent)>, book: Book, purchase_date: Seq<char>) -> bool {
    &&& forall|i: int| 0 <= i < props.len() ==> property_matches_book(#[trigger] props[i], book, purchase_date)
    &&& has_property(props, "名前"@)
    &&& has_property(props, "購入年月"@)
    &&& has_property(props, "代表著者"@) <==> book.author@.len() > 0
    &&& has_property(props, "出版月"@) <==> book.pubdate@.len() > 0
    &&& has_property(props, "概要"@) <==> book.description@.len() > 0
    &&& has_property(props, "価格"@) <==> book.price is Some
    &&& has_property(props, "AmazonURL"@) <==> isbn::isbn13_to_isbn10_result(book.isbn@) is Some
    &&& has_property(props, "画像"@) <==> book.cover@.len() > 0
}

proof fn lemma_has_property_concat(a: Seq<(Seq<char>, PropertyContent)>, b: Seq<(Seq<char>, PropertyContent)>, name: Seq<char>)
    ensures
        has_property(a + b, name) <==> (has_property(a, name) || has_property(b, name)),
{
    if has_property(a + b, name) {
        let i = choose|i: int| 0 <= i < (a + b).len() && (#[trigger] (a + b)[i]).0 == name;
        if i < a.len() {
            assert(a[i] == (a + b)[i]);
        } else {
            assert(b[i - a.len()] == (a + b)[i]);
        }
    }
    if has_property(a, name) {
        let i = choose|i: int| 0 <= i < a.len() && (#[trigger] a[i]).0 == name;
        assert((a + b)[i] == a[i]);
    }
    if has_property(b, name) {
        let i = choose|i: int| 0 <= i < b.len() && (#[trigger] b[i]).0 == name;
        assert((a + b)[a.len() + i] == b[i]);
    }
}

proof fn lemma_matches_concat(a: Seq<(Seq<char>, PropertyContent)>, b: Seq<(Seq<char>, PropertyContent)>, book: Book, d: Seq<char>)
    requires
        forall|i: int| 0 <= i < a.len() ==> property_matches_book(#[trigger] a[i], book, d),
        forall|i: int| 0 <= i < b.len() ==> property_matches_book(#[trigger] b[i], book, d),
    ensures
        forall|i: int| 0 <= i < (a + b).len() ==> property_matches_book(#[trigger] (a + b)[i], book, d),
{
    assert forall|i: int| 0 <= i < (a + b).len() implies property_matches_book(#[trigger] (a + b)[i], book, d) by {
        if i < a.len() {
            assert((a + b)[i] == a[i]);
        } else {
            assert((a + b)[i] == b[i - a.len()]);
        }
    }
}

/// A part of a page: at most the one property `name`, carrying what its name says.
pub open spec fn part_ok(part: Seq<(Seq<char>, PropertyContent)>, name: Seq<char>, book: Book, d: Seq<char>) -> bool {
    &&& part.len() <= 1
    &&& forall|i: int| 0 <= i < part.len() ==> property_matches_book(#[trigger] part[i], book, d)
    &&& forall|other: Seq<char>| #[trigger] has_property(part, other) <==> (other == name && part.len() == 1)
}

proof fn lemma_part(part: Seq<(Seq<char>, PropertyContent)>, name: Seq<char>, book: Book, d: Seq<char>)
    requires
        part.len() <= 1,
        part.len() == 1 ==> part[0].0 == name && property_matches_book(part[0], book, d),
    ensures
        part_ok(part, name, book, d),
{
    assert forall|other: Seq<char>| #[trigger] has_property(part, other) <==> (other == name && part.len() == 1) by {
        if part.len() == 1 && other == name {
            assert(part[0].0 == name);
        }
    }
}

proof fn lemma_name_chars()
    ensures
        "名前"@.len() == 2 && "名前"@[0] == '名',
        "購入年月"@.len() == 4 && "購入年月"@[0] == '購',
        "代表著者"@.len() == 4 && "代表著者"@[0] == '代',
        "出版月"@.len() == 3 && "出版月"@[0] == '出',
        "概要"@.len() == 2 && "概要"@[0] == '概',
        "価格"@.len() == 2 && "価格"@[0] == '価',
        "AmazonURL"@.len() == 9 && "AmazonURL"@[0] == 'A',
        "画像"@.len() == 2 && "画像"@[0] == '画',
{
    reveal_strlit("名前");
    reveal_strlit("購入年月");
    reveal_strlit("代表著者");
    reveal_strlit("出版月");
    reveal_strlit("概要");
    reveal_strlit("価格");
    reveal_strlit("AmazonURL");
    reveal_strlit("画像");
}

/// The page built for a book describes that book (see `properties_describe_book`).
#[verifier::spinoff_prover]
#[verifier::rlimit(50)]
pub proof fn page_properties_describe_book(book: Book, purchase_date: Seq<char>)
    ensures
        properties_describe_book(page_properties(book, purchase_date), book, purchase_date),
{
    lemma_name_chars();
    let n1 = "名前"@;
    let n2 = "購入年月"@;
    let n3 = "代表著者"@;
    let n4 = "出版月"@;
    let n5 = "概要"@;
    let n6 = "価格"@;
    let n7 = "AmazonURL"@;
    let n8 = "画像"@;
    let d = purchase_date;
    let a1: Seq<(Seq<char>, PropertyContent)> = seq![(n1, PropertyContent::Title(book.title@))];
    let a2: Seq<(Seq<char>, PropertyContent)> = seq![(n2, PropertyContent::Date(d))];
    let p3 = optional_text(n3, book.author@);
    let p4 = optional_text(n4, book.pubdate@);
    let p5 = optional_text(n5, book.description@);
    let p6: Seq<(Seq<char>, PropertyContent)> = match book.price {
        Some(p) => seq![(n6, PropertyContent::Number(p))],
        None => Seq::empty(),
    };
    let p7: Seq<(Seq<char>, PropertyContent)> = match isbn::isbn13_to_isbn10_result(book.isbn@) {
        Some(isbn10) => seq![(n7, PropertyContent::Url(amazon_url(isbn10)))],
        None => Seq::empty(),
    };
    let p8: Seq<(Seq<char>, PropertyContent)> = if book.cover@.len() > 0 {
        seq![(n8, PropertyContent::Url(book.cover@))]
    } else {
        Seq::empty()
    };
    lemma_part(a1, n1, book, d);
    lemma_part(a2, n2, book, d);
    lemma_part(p3, n3, book, d);
    lemma_part(p4, n4, book, d);
    lemma_part(p5, n5, book, d);
    lemma_part(p6, n6, book, d);
    lemma_part(p7, n7, book, d);
    lemma_part(p8, n8, book, d);
    let parts = seq![a1, a2, p3, p4, p5, p6, p7, p8];
    let names = seq![n1, n2, n3, n4, n5, n6, n7, n8];
    assert forall|k: int| 0 <= k < 8 implies part_ok(#[trigger] parts[k], names[k], book, d) by {
        if k == 0 {} else if k == 1 {} else if k == 2 {} else if k == 3 {}
        else if k == 4 {} else if k == 5 {} else if k == 6 {} else {}
    }
    assert forall|k: int, m: int| 0 <= k < 8 && 0 <= m < 8 && k != m implies #[trigger] names[k][0] != #[trigger] names[m][0] by {
    }
    lemma_concat_parts(parts, names, book, d, 8);
    reveal_with_fuel(concat_parts, 9);
    assert(parts.take(8) == parts);
    assert(page_properties(book, d) == concat_parts(parts));
    assert(names[0] == n1 && names[1] == n2 && names[2] == n3 && names[3] == n4);
    assert(names[4] == n5 && names[5] == n6 && names[6] == n7 && names[7] == n8);
    assert(parts[0] == a1 && parts[1] == a2 && parts[2] == p3 && parts[3] == p4);
    assert(parts[4] == p5 && parts[5] == p6 && parts[6] == p7 && parts[7] == p8);
}

/// The parts of a page, one after the other.
pub open spec fn concat_parts(parts: Seq<Seq<(Seq<char>, PropertyContent)>>) -> Seq<(Seq<char>, PropertyContent)>
    decreases parts.len(),
{
    if parts.len() == 0 {
        Seq::empty()
    } else {
        concat_parts(parts.drop_last()) + parts.last()
    }
}

proof fn lemma_concat_parts(
    parts: Seq<Seq<(Seq<char>, PropertyContent)>>,
    names: Seq<Seq<char>>,
    book: Book,
    d: Seq<char>,
    n: int,
)
    requires
        parts.len() == names.len(),
        0 <= n <= parts.len(),
        forall|k: int| 0 <= k < parts.len() ==> part_ok(#[trigger] parts[k], names[k], book, d),
        forall|k: int, m: int| 0 <= k < parts.len() && 0 <= m < parts.len() && k != m
            ==> #[trigger] names[k][0] != #[trigger] names[m][0],
    ensures
        forall|i: int| 0 <= i < concat_parts(parts.take(n)).len()
            ==> property_matches_book(#[trigger] concat_parts(parts.take(n))[i], book, d),
        forall|m: int| 0 <= m < parts.len() ==>
            (has_property(concat_parts(parts.take(n)), #[trigger] names[m]) <==> (m < n && parts[m].len() == 1)),
    decreases n,
{
    if n > 0 {
        lemma_concat_parts(parts, names, book, d, n - 1);
        let prev = parts.take(n - 1);
        assert(parts.take(n).drop_last() == prev);
        assert(parts.take(n).last() == parts[n - 1]);
        let a = concat_parts(prev);
        let b = parts[n - 1];
        assert(concat_parts(parts.take(n)) == a + b);
        assert(part_ok(parts[n - 1], names[n - 1], book, d));
        lemma_matches_concat(a, b, book, d);
        assert forall|m: int| 0 <= m < parts.len() implies
            (has_property(concat_parts(parts.take(n)), #[trigger] names[m]) <==> (m < n && parts[m].len() == 1)) by {
            lemma_has_property_concat(a, b, names[m]);
            assert(has_property(b, names[m]) <==> (names[m] == names[n - 1] && b.len() == 1));
            if m != n - 1 {
                assert(names[m][0] != names[n - 1][0]);
            }
        }
    } else {
        assert(parts.take(0) == Seq::<Seq<(Seq<char>, PropertyContent)>>::empty());
    }
}

fn push_text_if_present(props: &mut Vec<Property>, name: &str, value: &String)
    ensures
        properties_view(final(props)@) == properties_view(old(props)@) + optional_text(name@, value@),
{
    let ghost before = properties_view(props@);
    if !value.as_str().is_empty() {
        props.push(Property { name: name.to_owned(), value: PropertyValue::RichText(value.clone()) });
        assert(properties_view(props@) == before + optional_text(name@, value@));
    } else {
        assert(properties_view(props@) == before + optional_text(name@, value@));
    }
}

/// Builds the page that registers `book` in the database `database_id`.
pub fn build_notion_payload(book: &Book, database_id: &str, purchase_date: &str) -> (page: NotionPage)
    requires
        isbn::isbn13_to_isbn10_defined(book.isbn@),
    ensures
        page.database_id@ == database_id@,
        properties_view(page.properties@) == page_properties(*book, purchase_date@),
        properties_describe_book(properties_view(page.properties@), *book, purchase_date@),
{
    proof {
        page_properties_describe_book(*book, purchase_date@);
    }
    let mut props: Vec<Property> = Vec::new();
    props.push(Property { name: "名前".to_owned(), value: PropertyValue::Title(book.title.clone()) });
    props.push(Property { name: "購入年月".to_owned(), value: PropertyValue::Date(purchase_date.to_owned()) });
    assert(properties_view(props@) == seq![
        ("名前"@, PropertyContent::Title(book.title@)),
        ("購入年月"@, PropertyContent::Date(purchase_date@)),
    ]);
    push_text_if_present(&mut props, "代表著者", &book.author);
    push_text_if_present(&mut props, "出版月", &book.pubdate);
    push_text_if_present(&mut props, "概要", &book.description);
    let ghost before_price = properties_view(props@);
    if let Some(price) = book.price {
        props.push(Property { name: "価格".to_owned(), value: PropertyValue::Number(price) });
    }
    assert(properties_view(props@) == before_price + match book.price {
        Some(p) => seq![("価格"@, PropertyContent::Number(p))],
        None => Seq::<(Seq<char>, PropertyContent)>::empty(),
    });
    let ghost before_url = properties_view(props@);
    match isbn13_to_isbn10(book.isbn.as_str()) {
        Some(isbn10) => {
            let mut url = String::new();
            url.append("https://www.amazon.co.jp/dp/");
            url.append(isbn10.as_str());
            url.append("/");
            props.push(Property { name: "AmazonURL".to_owned(), value: PropertyValue::Url(url) });
        },
        None => {},
    }
    assert(properties_view(props@) == before_url + match isbn::isbn13_to_isbn10_result(book.isbn@) {
        Some(isbn10) => seq![("AmazonURL"@, PropertyContent::Url(amazon_url(isbn10)))],
        None => Seq::<(Seq<char>, PropertyContent)>::empty(),
    });
    let ghost before_cover = properties_view(props@);
    if !book.cover.as_str().is_empty() {
        props.push(Property {
            name: "画像".to_owned(),
            value: PropertyValue::Url(book.cover.clone()),
        });
    }
    assert(properties_view(props@) == before_cover + if book.cover@.len() > 0 {
        seq![("画像"@, PropertyContent::Url(book.cover@))]
    } else {
        Seq::<(Seq<char>, PropertyContent)>::empty()
    });
    NotionPage { database_id: database_id.to_owned(), properties: props }
}

/// The names of properties, in order.
pub open spec fn names_of(props: Seq<(Seq<char>, PropertyContent)>) -> Seq<Seq<char>> {
    props.map_values(|p: (Seq<char>, PropertyContent)| p.0)
}

proof fn lemma_names_concat(a: Seq<(Seq<char>, PropertyContent)>, b: Seq<(Seq<char>, PropertyContent)>)
    ensures
        names_of(a + b) == names_of(a) + names_of(b),
{
    assert(names_of(a + b) =~= names_of(a) + names_of(b));
}

proof fn lemma_add_fresh_name(
    names: Seq<Seq<char>>,
    part: Seq<(Seq<char>, PropertyContent)>,
    name: Seq<char>,
)
    requires
        names.no_duplicates(),
        !names.contains(name),
        forall|k: int| 0 <= k < part.len() ==> (#[trigger] part[k]).0 == name,
        part.len() <= 1,
    ensures
        (names + names_of(part)).no_duplicates(),
        forall|k: int| 0 <= k < names_of(part).len() ==> #[trigger] names_of(part)[k] == name,
{
    let n = names_of(part);
    assert forall|i: int, j: int| 0 <= i < names.len() && 0 <= j < n.len() implies names[i] != n[j] by {
        assert(n[j] == part[j].0);
        if names[i] == n[j] {
            assert(names.contains(name));
        }
    }
    vstd::seq_lib::lemma_no_dup_in_concat(names, n);
}

/// The properties of a page have distinct names, so no property hides another
/// when they are collected into a JSON object.
pub proof fn page_property_names_distinct(book: Book, purchase_date: Seq<char>)
    ensures
        names_of(page_properties(book, purchase_date)).no_duplicates(),
{
    reveal_strlit("名前");
    reveal_strlit("購入年月");
    reveal_strlit("代表著者");
    reveal_strlit("出版月");
    reveal_strlit("概要");
    reveal_strlit("価格");
    reveal_strlit("AmazonURL");
    reveal_strlit("画像");
    let head: Seq<(Seq<char>, PropertyContent)> = seq![
        ("名前"@, PropertyContent::Title(book.title@)),
        ("購入年月"@, PropertyContent::Date(purchase_date)),
    ];
    let p3 = optional_text("代表著者"@, book.author@);
    let p4 = optional_text("出版月"@, book.pubdate@);
    let p5 = optional_text("概要"@, book.description@);
    let p6: Seq<(Seq<char>, PropertyContent)> = match book.price {
        Some(p) => seq![("価格"@, PropertyContent::Number(p))],
        None => Seq::empty(),
    };
    let p7: Seq<(Seq<char>, PropertyContent)> = match isbn::isbn13_to_isbn10_result(book.isbn@) {
        Some(isbn10) => seq![("AmazonURL"@, PropertyContent::Url(amazon_url(isbn10)))],
        None => Seq::empty(),
    };
    let p8: Seq<(Seq<char>, PropertyContent)> = if book.cover@.len() > 0 {
        seq![("画像"@, PropertyContent::Url(book.cover@))]
    } else {
        Seq::empty()
    };
    let n2 = names_of(head);
    assert(n2 =~= seq!["名前"@, "購入年月"@]);
    assert("名前"@ != "購入年月"@) by {
        assert("名前"@.len() != "購入年月"@.len());
    }
    assert(n2.no_duplicates());
    lemma_names_concat(head, p3);
    assert(!n2.contains("代表著者"@)) by {
        assert("名前"@.len() != "代表著者"@.len());
        assert("購入年月"@[0] != "代表著者"@[0]);
    }
    lemma_add_fresh_name(n2, p3, "代表著者"@);
    let n3 = names_of(head + p3);
    assert(forall|k: int| 0 <= k < n3.len() ==> n3[k] == "名前"@ || n3[k] == "購入年月"@ || n3[k] == "代表著者"@);
    lemma_names_concat(head + p3, p4);
    assert(!n3.contains("出版月"@)) by {
        if n3.contains("出版月"@) {
            let k = choose|k: int| 0 <= k < n3.len() && n3[k] == "出版月"@;
            assert(n3[k][0] != "出版月"@[0]);
        }
    }
    lemma_add_fresh_name(n3, p4, "出版月"@);
    let n4 = names_of(head + p3 + p4);
    assert(forall|k: int| 0 <= k < n4.len() ==> n4[k][0] == '名' || n4[k][0] == '購' || n4[k][0] == '代' || n4[k][0] == '出');
    lemma_names_concat(head + p3 + p4, p5);
    assert(!n4.contains("概要"@)) by {
        if n4.contains("概要"@) {
            let k = choose|k: int| 0 <= k < n4.len() && n4[k] == "概要"@;
            assert(n4[k][0] == '概');
        }
    }
    lemma_add_fresh_name(n4, p5, "概要"@);
    let n5 = names_of(head + p3 + p4 + p5);
    assert(forall|k: int| 0 <= k < n5.len() ==> n5[k][0] == '名' || n5[k][0] == '購' || n5[k][0] == '代' || n5[k][0] == '出' || n5[k][0] == '概');
    lemma_names_concat(head + p3 + p4 + p5, p6);
    assert(!n5.contains("価格"@)) by {
        if n5.contains("価格"@) {
            let k = choose|k: int| 0 <= k < n5.len() && n5[k] == "価格"@;
            assert(n5[k][0] == '価');
        }
    }
    lemma_add_fresh_name(n5, p6, "価格"@);
    let n6 = names_of(head + p3 + p4 + p5 + p6);
    assert(forall|k: int| 0 <= k < n6.len() ==> n6[k][0] == '名' || n6[k][0] == '購' || n6[k][0] == '代' || n6[k][0] == '出' || n6[k][0] == '概' || n6[k][0] == '価');
    lemma_names_concat(head + p3 + p4 + p5 + p6, p7);
    assert(!n6.contains("AmazonURL"@)) by {
        if n6.contains("AmazonURL"@) {
            let k = choose|k: int| 0 <= k < n6.len() && n6[k] == "AmazonURL"@;
            assert(n6[k][0] == 'A');
        }
    }
    lemma_add_fresh_name(n6, p7, "AmazonURL"@);
    let n7 = names_of(head + p3 + p4 + p5 + p6 + p7);
    assert(forall|k: int| 0 <= k < n7.len() ==> n7[k][0] == '名' || n7[k][0] == '購' || n7[k][0] == '代' || n7[k][0] == '出' || n7[k][0] == '概' || n7[k][0] == '価' || n7[k][0] == 'A');
    lemma_names_concat(head + p3 + p4 + p5 + p6 + p7, p8);
    assert(!n7.contains("画像"@)) by {
        if n7.contains("画像"@) {
            let k = choose|k: int| 0 <= k < n7.len() && n7[k] == "画像"@;
            assert(n7[k][0] == '画');
        }
    }
    lemma_add_fresh_name(n7, p8, "画像"@);
    assert(page_properties(book, purchase_date) == head + p3 + p4 + p5 + p6 + p7 + p8);
}

/// A hexadecimal digit character, for a value below 16.
pub open spec fn hex_char(d: int) -> char {
    if d < 10 { text::digit_char(d) } else { ((d - 10) + 'a' as int) as char }
}

/// One character as it stands inside a JSON string: quote and backslash
/// escaped with a backslash, control characters as `\u00XX`, others as is.
pub open spec fn json_escaped_char(c: char) -> Seq<char> {
    if c == '"' {
        seq!['\\', '"']
    } else if c == '\\' {
        seq!['\\', '\\']
    } else if ('\u{0}' <= c && c <= '\u{1f}') {
        seq!['\\', 'u', '0', '0', hex_char((c as u32 / 16) as int), hex_char((c as u32 % 16) as int)]
    } else {
        seq![c]
    }
}

/// The characters of `s` escaped for a JSON string.
pub open spec fn json_escaped(s: Seq<char>) -> Seq<char>
    decreases s.len(),
{
    if s.len() == 0 {
        Seq::empty()
    } else {
        json_escaped(s.drop_last()) + json_escaped_char(s.last())
    }
}

/// `s` as a JSON string literal.
pub open spec fn json_string(s: Seq<char>) -> Seq<char> {
    seq!['"'] + json_escaped(s) + seq!['"']
}

/// The decimal digits of `n`.
pub open spec fn decimal_text(n: nat) -> Seq<char>
    decreases n,
{
    if n < 10 {
        seq![text::digit_char(n as int)]
    } else {
        decimal_text(n / 10).push(text::digit_char((n % 10) as int))
    }
}

/// The JSON value of a property, in the shape Notion's API takes.
pub open spec fn property_json(v: PropertyContent) -> Seq<char> {
    match v {
        PropertyContent::Title(t) => "{\"title\":[{\"text\":{\"content\":"@ + json_string(t) + "}}]}"@,
        PropertyContent::Date(d) => "{\"date\":{\"start\":"@ + json_string(d) + "}}"@,
        PropertyContent::RichText(t) => "{\"rich_text\":[{\"text\":{\"content\":"@ + json_string(t) + "}}]}"@,
        PropertyContent::Number(n) => "{\"number\":"@ + decimal_text(n as nat) + "}"@,
        PropertyContent::Url(u) => "{\"url\":"@ + json_string(u) + "}"@,
    }
}

/// The members `"name":value` of the properties, separated by commas.
pub open spec fn properties_json(props: Seq<(Seq<char>, PropertyContent)>) -> Seq<char>
    decreases props.len(),
{
    if props.len() == 0 {
        Seq::empty()
    } else {
        let member = json_string(props.last().0) + ":"@ + property_json(props.last().1);
        if props.len() == 1 {
            member
        } else {
            properties_json(props.drop_last()) + ","@ + member
        }
    }
}

/// The JSON text of a page: `{"parent":{"database_id":…},"properties":{…}}`.
pub open spec fn page_json(database_id: Seq<char>, props: Seq<(Seq<char>, PropertyContent)>) -> Seq<char> {
    "{\"parent\":{\"database_id\":"@ + json_string(database_id) + "},\"properties\":{"@
        + properties_json(props) + "}}"@
}

fn push_json_string(out: &mut String, s: &str)
    ensures
        final(out)@ == old(out)@ + json_string(s@),
{
    let v = chars_of(s);
    push_char(out, '"');
    let ghost start = out@;
    let mut i: usize = 0;
    while i < v.len()
        invariant
            v@ == s@,
            i <= v.len(),
            out@ == start + json_escaped(v@.take(i as int)),
        decreases v.len() - i,
    {
        let c = v[i];
        let ghost before = out@;
        if c == '"' {
            push_char(out, '\\');
            push_char(out, '"');
        } else if c == '\\' {
            push_char(out, '\\');
            push_char(out, '\\');
        } else if ('\u{0}' <= c && c <= '\u{1f}') {
            let code = c as u32;
            push_char(out, '\\');
            push_char(out, 'u');
            push_char(out, '0');
            push_char(out, '0');
            push_char(out, hex_digit(code / 16));
            push_char(out, hex_digit(code % 16));
        } else {
            push_char(out, c);
        }
        assert(out@ == before + json_escaped_char(c));
        assert(v@.take(i + 1).drop_last() == v@.take(i as int));
        assert(v@.take(i + 1).last() == c);
        i += 1;
    }
    assert(v@.take(v.len() as int) == v@);
    push_char(out, '"');
}

fn hex_digit(d: u32) -> (c: char)
    requires
        d < 16,
    ensures
        c == hex_char(d as int),
{
    if d < 10 {
        digit_to_char(d)
    } else {
        ((d - 10) as u8 + 97u8) as char
    }
}

fn push_decimal(out: &mut String, n: u32)
    ensures
        final(out)@ == old(out)@ + decimal_text(n as nat),
    decreases n,
{
    if n >= 10 {
        push_decimal(out, n / 10);
    }
    push_char(out, digit_to_char(n % 10));
}

fn push_property_json(out: &mut String, v: &PropertyValue)
    ensures
        final(out)@ == old(out)@ + property_json(v@),
{
    match v {
        PropertyValue::Title(t) => {
            out.append("{\"title\":[{\"text\":{\"content\":");
            push_json_string(out, t.as_str());
            out.append("}}]}");
        },
        PropertyValue::Date(d) => {
            out.append("{\"date\":{\"start\":");
            push_json_string(out, d.as_str());
            out.append("}}");
        },
        PropertyValue::RichText(t) => {
            out.append("{\"rich_text\":[{\"text\":{\"content\":");
            push_json_string(out, t.as_str());
            out.append("}}]}");
        },
        PropertyValue::Number(n) => {
            out.append("{\"number\":");
            push_decimal(out, *n);
            out.append("}");
        },
        PropertyValue::Url(u) => {
            out.append("{\"url\":");
            push_json_string(out, u.as_str());
            out.append("}");
        },
    }
}

/// The JSON text of a page, to send to Notion's API (see `page_json`).
pub fn page_json_text(page: &NotionPage) -> (r: String)
    ensures
        r@ == page_json(page.database_id@, properties_view(page.properties@)),
{
    let mut out = String::new();
    out.append("{\"parent\":{\"database_id\":");
    push_json_string(&mut out, page.database_id.as_str());
    out.append("},\"properties\":{");
    let ghost head = out@;
    let mut i: usize = 0;
    while i < page.properties.len()
        invariant
            i <= page.properties.len(),
            out@ == head + properties_json(properties_view(page.properties@).take(i as int)),
        decreases page.properties.len() - i,
    {
        let ghost before = out@;
        let ghost pre = properties_view(page.properties@).take(i as int);
        let ghost now = properties_view(page.properties@).take(i + 1);
        assert(now.drop_last() == pre);
        assert(now.last() == page.properties@[i as int]@);
        let p = &page.properties[i];
        if i > 0 {
            out.append(",");
        }
        push_json_string(&mut out, p.name.as_str());
        out.append(":");
        push_property_json(&mut out, &p.value);
        proof {
            if i == 0 {
                assert(pre == Seq::<(Seq<char>, PropertyContent)>::empty());
            }
        }
        assert(out@ == head + properties_json(now));
        i += 1;
    }
    assert(properties_view(page.properties@).take(page.properties.len() as int) == properties_view(page.properties@));
    out.append("}}");
    out
}

/// What to report for Notion's reply: the reply's `message` (or "Unknown
/// error") when its `object` is "error", and nothing otherwise.
pub open spec fn notion_error(object: Option<Seq<char>>, message: Option<Seq<char>>) -> Option<Seq<char>> {
    if object == Some("error"@) {
        match message {
            Some(m) => Some(m),
            None => Some("Unknown error"@),
        }
    } else {
        None
    }
}

/// Reads Notion's reply from its `object` and `message` members (each present
/// only when it is a string).
pub fn notion_error_message(object: Option<String>, message: Option<String>) -> (r: Option<String>)
    ensures
        r is Some <==> notion_error(text::opt_view(object), text::opt_view(message)) is Some,
        r matches Some(m) ==> notion_error(text::opt_view(object), text::opt_view(message)) == Some(m@),
{
    let is_error = match &object {
        Some(o) => *o == "error".to_owned(),
        None => false,
    };
    if is_error {
        match message {
            Some(m) => Some(m),
            None => Some("Unknown error".to_owned()),
        }
    } else {
        None
    }
}

} // verus!
