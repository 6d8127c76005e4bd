//! Bibliographic records as OpenBD delivers them, and the book data the tool
//! takes from them.
use vstd::prelude::*;
use vstd::utf8::*;
use crate::isbn;
use crate::isbn::isbn13_to_isbn10;
use crate::text;
use crate::text::{chars_of, string_from_chars, trimmed};

verus! {

/// The characters of an optional text, empty when it is absent.
pub open spec fn text_or_empty(o: Option<String>) -> Seq<char> {
    match o {
        Some(s) => s@,
        None => Seq::empty(),
    }
}

/// An ONIX field that holds either a list of entries or a single entry; each
/// entry is reduced to the text of the one member the tool reads (absent when
/// that member is missing or not a string).
pub enum OnixList {
    /// The field is an array.
    Array(Vec<Option<String>>),
    /// The field is a single object.
    Object(Option<String>),
    /// The field is missing or neither an array nor an object.
    Other,
}

/// The entries of an ONIX field, in order.
pub open spec fn onix_entries(l: OnixList) -> Seq<Option<String>> {
    match l {
        OnixList::Array(v) => v@,
        OnixList::Object(o) => seq![o],
        OnixList::Other => Seq::empty(),
    }
}

/// The part of an OpenBD record that the tool reads.
pub struct OpenbdRecord {
    /// `summary.title`, when it is a string.
    pub title: Option<String>,
    /// `summary.author`, when it is a string.
    pub author: Option<String>,
    /// `summary.pubdate`, when it is a string.
    pub pubdate: Option<String>,
    /// `summary.isbn`, when it is a string.
    pub isbn: Option<String>,
    /// `summary.cover`, when it is a string.
    pub cover: Option<String>,
    /// `onix.ProductSupply.SupplyDetail.Price`, each entry reduced to its `PriceAmount`.
    pub prices: OnixList,
    /// `onix.CollateralDetail.TextContent`, each entry reduced to its `Text`.
    pub texts: OnixList,
}

/// A book as it is registered.
pub struct Book {
    pub title: String,
    pub author: String,
    pub pubdate: String,
    pub cover: String,
    pub price: Option<u32>,
    pub description: String,
    pub isbn: String,
}

/// The publication month (`YYYYMM`) of an OpenBD date: its first six
/// characters when they are digits, and nothing otherwise.
pub open spec fn formatted_date(raw: Seq<char>) -> Seq<char> {
    if text::utf8_len(raw) >= 6 && raw.len() >= 6 && isbn::all_digits(raw.take(6)) {
        raw.take(6)
    } else {
        Seq::empty()
    }
}

/// The inputs on which `format_date` does not panic: a text of six bytes or
/// more has a character boundary after its sixth byte.
pub open spec fn format_date_defined(raw: Seq<char>) -> bool {
    text::utf8_len(raw) >= 6 ==> is_char_boundary(encode_utf8(raw), 6)
}

/// Reduces an OpenBD date (`YYYYMMDD` or `YYYYMM`) to `YYYYMM`; anything else
/// gives an empty text.
pub fn format_date(raw: &str) -> (r: String)
    requires
        format_date_defined(raw@),
    ensures
        r@ == formatted_date(raw@),
        r@.len() == 0 || (r@.len() == 6 && isbn::all_digits(r@)),
        raw@.len() >= 6 && isbn::all_digits(raw@.take(6)) ==> r@ == raw@.take(6),
        !(raw@.len() >= 6 && isbn::all_digits(raw@.take(6))) ==> r@.len() == 0,
{
    proof {
        lemma_month_prefix_is_long_enough(raw@);
    }
    let v = chars_of(raw);
    if raw.as_bytes().len() >= 6 && v.len() >= 6 {
        let mut i: usize = 0;
        while i < 6
            invariant
                v@ == raw@,
                v.len() >= 6,
                i <= 6,
                forall|k: int| 0 <= k < i ==> #[trigger] isbn::is_digit(v@[k]),
            decreases 6 - i,
        {
            if !('0' <= v[i] && v[i] <= '9') {
                assert(!isbn::is_digit(raw@.take(6)[i as int]));
                return String::new();
            }
            i += 1;
        }
        assert(isbn::all_digits(raw@.take(6))) by {
            assert forall|k: int| 0 <= k < 6 implies #[trigger] isbn::is_digit(raw@.take(6)[k]) by {
                assert(isbn::is_digit(v@[k]));
            }
        }
        string_from_chars(&v, 0, 6)
    } else {
        String::new()
    }
}

/// Six leading digits take six bytes, so a text that starts with them is at
/// least six bytes long.
proof fn lemma_month_prefix_is_long_enough(raw: Seq<char>)
    ensures
        raw.len() >= 6 && isbn::all_digits(raw.take(6)) ==> text::utf8_len(raw) >= 6,
{
    if raw.len() >= 6 && isbn::all_digits(raw.take(6)) {
        let head = raw.take(6);
        assert(is_ascii_chars(head)) by {
            assert forall|k: int| 0 <= k < head.len() implies '\0' <= #[trigger] head[k] <= '\u{7f}' by {
                assert(isbn::is_digit(head[k]));
            }
        }
        text::lemma_utf8_len(head);
        text::lemma_utf8_len_concat(head, raw.skip(6));
        assert(head + raw.skip(6) == raw);
    }
}

/// The prefix of the Amazon cover image URL for an ISBN-10.
pub open spec fn amazon_image_prefix() -> Seq<char> {
    "https://images-na.ssl-images-amazon.com/images/P/"@
}

/// The suffix of the Amazon cover image URL.
pub open spec fn amazon_image_suffix() -> Seq<char> {
    ".01.L.jpg"@
}

/// The cover URL of a book: OpenBD's own when it has one, else the Amazon
/// image for the book's ISBN-10, else nothing.
pub open spec fn cover_url(isbn13: Seq<char>, openbd_cover: Seq<char>) -> Seq<char> {
    if openbd_cover.len() > 0 {
        openbd_cover
    } else {
        match isbn::isbn13_to_isbn10_result(isbn13) {
            Some(isbn10) => amazon_image_prefix() + isbn10 + amazon_image_suffix(),
            None => Seq::empty(),
        }
    }
}

/// The inputs on which `get_book_cover_url` does not panic.
pub open spec fn cover_url_defined(isbn13: Seq<char>, openbd_cover: Seq<char>) -> bool {
    openbd_cover.len() == 0 ==> isbn::isbn13_to_isbn10_defined(isbn13)
}

/// The cover image URL of a book (see `cover_url`).
pub fn get_book_cover_url(isbn13: &str, openbd_cover: &str) -> (r: String)
    requires
        cover_url_defined(isbn13@, openbd_cover@),
    ensures
        r@ == cover_url(isbn13@, openbd_cover@),
        openbd_cover@.len() > 0 ==> r@ == openbd_cover@,
        openbd_cover@.len() == 0 ==> match isbn::isbn13_to_isbn10_result(isbn13@) {
            Some(isbn10) => r@ == "https://images-na.ssl-images-amazon.com/images/P/"@ + isbn10 + ".01.L.jpg"@,
            None => r@.len() == 0,
        },
{
    if !openbd_cover.is_empty() {
        return openbd_cover.to_owned();
    }
    match isbn13_to_isbn10(isbn13) {
        Some(isbn10) => {
            let mut url = String::new();
            url.append("https://images-na.ssl-images-amazon.com/images/P/");
            url.append(isbn10.as_str());
            url.append(".01.L.jpg");
            url
        },
        None => String::new(),
    }
}


/// The value of a string of decimal digits.
pub open spec fn decimal_value(s: Seq<char>) -> int
    decreases s.len(),
{
    if s.len() == 0 {
        0
    } else {
        decimal_value(s.drop_last()) * 10 + isbn::digit_value(s.last())
    }
}

/// The digits of a `u32` literal: the text after an optional leading `+`.
pub open spec fn unsigned_digits(s: Seq<char>) -> Seq<char> {
    if s.len() > 0 && s[0] == '+' {
        s.drop_first()
    } else {
        s
    }
}

/// What `u32::from_str` gives: the value of an optional `+` followed by one or
/// more decimal digits, when it fits in a `u32`.
pub open spec fn u32_from_text(s: Seq<char>) -> Option<u32> {
    let d = unsigned_digits(s);
    if d.len() > 0 && isbn::all_digits(d) && decimal_value(d) <= u32::MAX {
        Some(decimal_value(d) as u32)
    } else {
        None
    }
}

proof fn lemma_decimal_value_nonneg(s: Seq<char>)
    requires
        isbn::all_digits(s),
    ensures
        decimal_value(s) >= 0,
    decreases s.len(),
{
    if s.len() > 0 {
        let t = s.drop_last();
        assert forall|k: int| 0 <= k < t.len() implies #[trigger] isbn::is_digit(t[k]) by {
            assert(isbn::is_digit(s[k]));
        }
        lemma_decimal_value_nonneg(t);
        assert(isbn::is_digit(s[s.len() - 1]));
    }
}

/// Parses a `u32` as `u32::from_str` does.
pub fn parse_u32(s: &str) -> (r: Option<u32>)
    ensures
        r == u32_from_text(s@),
{
    let v = chars_of(s);
    let start: usize = if v.len() > 0 && v[0] == '+' { 1 } else { 0 };
    let ghost d = unsigned_digits(s@);
    assert(d == v@.subrange(start as int, v.len() as int));
    if start == v.len() {
        return None;
    }
    let mut acc: u64 = 0;
    let mut over = false;
    let mut i = start;
    while i < v.len()
        invariant
            v@ == s@,
            d == v@.subrange(start as int, v.len() as int),
            d == unsigned_digits(s@),
            start <= i <= v.len(),
            isbn::all_digits(d.take(i - start)),
            !over ==> acc == decimal_value(d.take(i - start)) && acc <= u32::MAX,
            over ==> decimal_value(d.take(i - start)) > u32::MAX,
        decreases v.len() - i,
    {
        let c = v[i];
        if !('0' <= c && c <= '9') {
            assert(d[i - start] == v@[i as int]);
            assert(!isbn::is_digit(d[i - start]));
            assert(!isbn::all_digits(d));
            return None;
        }
        let ghost pre = d.take(i - start);
        let ghost next = d.take(i - start + 1);
        assert(next.drop_last() == pre);
        assert(next.last() == c);
        assert forall|k: int| 0 <= k < next.len() implies #[trigger] isbn::is_digit(next[k]) by {
            if k < pre.len() {
                assert(isbn::is_digit(pre[k]));
            }
        }
        proof {
            lemma_decimal_value_nonneg(pre);
        }
        if !over {
            let dv: u64 = (c as u64) - ('0' as u64);
            acc = acc * 10 + dv;
            if acc > 0xffff_ffff {
                over = true;
            }
        } else {
            assert(decimal_value(next) >= decimal_value(pre) * 10);
        }
        i += 1;
    }
    assert(d.take(v.len() - start) == d);
    if over {
        None
    } else {
        Some(acc as u32)
    }
}

/// The first entry that is text parsing as a `u32`, as that number.
pub open spec fn first_price(entries: Seq<Option<String>>) -> Option<u32>
    decreases entries.len(),
{
    if entries.len() == 0 {
        None
    } else {
        match entries[0] {
            Some(t) if u32_from_text(t@) is Some => u32_from_text(t@),
            _ => first_price(entries.drop_first()),
        }
    }
}

/// The list price: the first `PriceAmount` that parses as a `u32`.
pub fn extract_price(prices: &OnixList) -> (r: Option<u32>)
    ensures
        r == first_price(onix_entries(*prices)),
        forall|k: int| 0 <= k < onix_entries(*prices).len()
            && #[trigger] onix_entries(*prices)[k] is Some
            && u32_from_text(onix_entries(*prices)[k]->0@) is Some
            && (forall|j: int| 0 <= j < k ==> !(onix_entries(*prices)[j] is Some
                && u32_from_text(onix_entries(*prices)[j]->0@) is Some))
            ==> r == u32_from_text(onix_entries(*prices)[k]->0@),
        (forall|j: int| 0 <= j < onix_entries(*prices).len() ==> !(#[trigger] onix_entries(*prices)[j] is Some
            && u32_from_text(onix_entries(*prices)[j]->0@) is Some)) ==> r is None,
{
    proof {
        let e = onix_entries(*prices);
        assert forall|k: int| 0 <= k < e.len() && #[trigger] e[k] is Some && u32_from_text(e[k]->0@) is Some
            && (forall|j: int| 0 <= j < k ==> !(e[j] is Some && u32_from_text(e[j]->0@) is Some))
            implies first_price(e) == u32_from_text(e[k]->0@) by {
            lemma_first_price_at(e, k);
        }
        lemma_first_price_none(e);
    }
    match prices {
        OnixList::Array(v) => first_price_of(v.as_slice()),
        OnixList::Object(o) => {
            let one = [o.clone()];
            assert(one@ == onix_entries(*prices));
            first_price_of(&one)
        },
        OnixList::Other => None,
    }
}

proof fn lemma_first_price_at(entries: Seq<Option<String>>, k: int)
    requires
        0 <= k < entries.len(),
        entries[k] is Some && u32_from_text(entries[k]->0@) is Some,
        forall|j: int| 0 <= j < k ==> !(entries[j] is Some && u32_from_text(entries[j]->0@) is Some),
    ensures
        first_price(entries) == u32_from_text(entries[k]->0@),
    decreases k,
{
    if k > 0 {
        let rest = entries.drop_first();
        assert(!(entries[0] is Some && u32_from_text(entries[0]->0@) is Some));
        assert forall|j: int| 0 <= j < k - 1 implies !(rest[j] is Some && u32_from_text(rest[j]->0@) is Some) by {
            assert(rest[j] == entries[j + 1]);
        }
        lemma_first_price_at(rest, k - 1);
    }
}

proof fn lemma_first_price_none(entries: Seq<Option<String>>)
    ensures
        (forall|j: int| 0 <= j < entries.len() ==> !(#[trigger] entries[j] is Some
            && u32_from_text(entries[j]->0@) is Some)) ==> first_price(entries) is None,
    decreases entries.len(),
{
    if entries.len() > 0 {
        let rest = entries.drop_first();
        lemma_first_price_none(rest);
        if forall|j: int| 0 <= j < entries.len() ==> !(#[trigger] entries[j] is Some
            && u32_from_text(entries[j]->0@) is Some) {
            assert(!(entries[0] is Some && u32_from_text(entries[0]->0@) is Some));
            assert forall|j: int| 0 <= j < rest.len() implies !(#[trigger] rest[j] is Some
                && u32_from_text(rest[j]->0@) is Some) by {
                assert(rest[j] == entries[j + 1]);
            }
        }
    }
}

fn first_price_of(entries: &[Option<String>]) -> (r: Option<u32>)
    ensures
        r == first_price(entries@),
{
    let mut i: usize = 0;
    assert(entries@.skip(0) == entries@);
    while i < entries.len()
        invariant
            i <= entries.len(),
            first_price(entries@) == first_price(entries@.skip(i as int)),
        decreases entries.len() - i,
    {
        assert(entries@.skip(i as int).drop_first() == entries@.skip(i + 1));
        assert(entries@.skip(i as int)[0] == entries@[i as int]);
        if let Some(t) = &entries[i] {
            let p = parse_u32(t.as_str());
            if p.is_some() {
                return p;
            }
        }
        i += 1;
    }
    None
}


/// Whether `regex::Regex::new` accepts `pattern`.
pub uninterp spec fn regex_compiles(pattern: Seq<char>) -> bool;

/// What `regex::Regex::replace_all` gives for the compiled `pattern`: `haystack`
/// with every non-overlapping leftmost-first match replaced by `replacement`.
pub uninterp spec fn regex_replace_all(
    pattern: Seq<char>,
    haystack: Seq<char>,
    replacement: Seq<char>,
) -> Seq<char>;

/// Compiles `pattern` with `regex::Regex::new` and, when it compiles, applies
/// `Regex::replace_all` to `haystack`. The contract claims that the outcome
/// depends on the three texts alone; which patterns compile and what the
/// replacement gives are left to the regex crate and named, not stated.
#[verifier::external_body]
fn replace_all_matches(pattern: &str, haystack: &str, replacement: &str) -> (r: Option<String>)
    ensures
        r is Some <==> regex_compiles(pattern@),
        r matches Some(out) ==> out@ == regex_replace_all(pattern@, haystack@, replacement@),
{
    match regex::Regex::new(pattern) {
        Ok(re) => Some(re.replace_all(haystack, replacement).into_owned()),
        Err(_) => None,
    }
}

/// The pattern of an HTML tag: `<`, one or more characters other than `>`, `>`.
pub open spec fn html_tag_pattern() -> Seq<char> {
    "<[^>]+>"@
}

/// At most the first `n` characters of `s`.
pub open spec fn take_at_most(s: Seq<char>, n: nat) -> Seq<char> {
    if s.len() <= n { s } else { s.take(n as int) }
}

/// The longest description kept, in characters.
pub const MAX_DESCRIPTION_CHARS: usize = 2000;

/// A description from text whose HTML tags are already removed: trimmed, and
/// cut to its first 2000 characters.
pub fn finish_description(untagged: &str) -> (r: String)
    ensures
        r@ == take_at_most(text::trim(untagged@), MAX_DESCRIPTION_CHARS as nat),
        r@.len() == if text::trim(untagged@).len() <= 2000 { text::trim(untagged@).len() } else { 2000 },
        r@ == text::trim(untagged@).take(r@.len() as int),
{
    let t = trimmed(untagged);
    let v = chars_of(t.as_str());
    if v.len() <= MAX_DESCRIPTION_CHARS {
        assert(v@.subrange(0, v.len() as int) == v@);
        string_from_chars(&v, 0, v.len())
    } else {
        string_from_chars(&v, 0, MAX_DESCRIPTION_CHARS)
    }
}

/// The description taken from one non-empty `Text`: its HTML tags removed,
/// then trimmed and cut (empty when the tag pattern does not compile).
pub open spec fn description_from(text: Seq<char>) -> Seq<char> {
    if regex_compiles(html_tag_pattern()) {
        take_at_most(
            text::trim(regex_replace_all(html_tag_pattern(), text, Seq::empty())),
            MAX_DESCRIPTION_CHARS as nat,
        )
    } else {
        Seq::empty()
    }
}

/// The description from the first entry whose `Text` is a non-empty string.
pub open spec fn first_description(entries: Seq<Option<String>>) -> Seq<char>
    decreases entries.len(),
{
    if entries.len() == 0 {
        Seq::empty()
    } else {
        match entries[0] {
            Some(t) if t@.len() > 0 => description_from(t@),
            _ => first_description(entries.drop_first()),
        }
    }
}

/// Removes the HTML tags of `text` and finishes it as a description.
fn description_of_text(text: &str) -> (r: String)
    ensures
        r@ == description_from(text@),
{
    let pattern = "<[^>]+>";
    let empty = "";
    proof {
        reveal_strlit("");
        assert(pattern@ == html_tag_pattern());
        assert(empty@ == Seq::<char>::empty());
    }
    match replace_all_matches(pattern, text, empty) {
        Some(untagged) => finish_description(untagged.as_str()),
        None => String::new(),
    }
}

/// The book's description: from the first `TextContent` entry with a
/// non-empty `Text`, HTML tags removed, trimmed, at most 2000 characters.
pub fn extract_description(texts: &OnixList) -> (r: String)
    ensures
        r@ == first_description(onix_entries(*texts)),
        r@.len() <= MAX_DESCRIPTION_CHARS,
        forall|k: int| 0 <= k < onix_entries(*texts).len()
            && #[trigger] onix_entries(*texts)[k] is Some
            && onix_entries(*texts)[k]->0@.len() > 0
            && (forall|j: int| 0 <= j < k ==> !(onix_entries(*texts)[j] is Some
                && onix_entries(*texts)[j]->0@.len() > 0))
            ==> ({
                let t = text::trim(regex_replace_all(html_tag_pattern(), onix_entries(*texts)[k]->0@, Seq::empty()));
                &&& regex_compiles(html_tag_pattern()) ==> r@.len() == (if t.len() <= 2000 { t.len() } else { 2000 })
                    && r@ == t.take(r@.len() as int)
                &&& !regex_compiles(html_tag_pattern()) ==> r@.len() == 0
            }),
        (forall|j: int| 0 <= j < onix_entries(*texts).len() ==> !(#[trigger] onix_entries(*texts)[j] is Some
            && onix_entries(*texts)[j]->0@.len() > 0)) ==> r@.len() == 0,
{
    let r = match texts {
        OnixList::Array(v) => first_description_of(v.as_slice()),
        OnixList::Object(o) => {
            let one = [o.clone()];
            assert(one@ == onix_entries(*texts));
            first_description_of(&one)
        },
        OnixList::Other => String::new(),
    };
    proof {
        let e = onix_entries(*texts);
        lemma_description_length(e);
        assert forall|k: int| 0 <= k < e.len() && #[trigger] e[k] is Some && e[k]->0@.len() > 0
            && (forall|j: int| 0 <= j < k ==> !(e[j] is Some && e[j]->0@.len() > 0))
            implies first_description(e) == description_from(e[k]->0@) by {
            lemma_first_description_at(e, k);
        }
        lemma_first_description_none(e);
    }
    r
}

proof fn lemma_first_description_at(entries: Seq<Option<String>>, k: int)
    requires
        0 <= k < entries.len(),
        entries[k] is Some && entries[k]->0@.len() > 0,
        forall|j: int| 0 <= j < k ==> !(entries[j] is Some && entries[j]->0@.len() > 0),
    ensures
        first_description(entries) == description_from(entries[k]->0@),
    decreases k,
{
    if k > 0 {
        let rest = entries.drop_first();
        assert(!(entries[0] is Some && entries[0]->0@.len() > 0));
        assert forall|j: int| 0 <= j < k - 1 implies !(rest[j] is Some && rest[j]->0@.len() > 0) by {
            assert(rest[j] == entries[j + 1]);
        }
        lemma_first_description_at(rest, k - 1);
    }
}

proof fn lemma_first_description_none(entries: Seq<Option<String>>)
    ensures
        (forall|j: int| 0 <= j < entries.len() ==> !(#[trigger] entries[j] is Some
            && entries[j]->0@.len() > 0)) ==> first_description(entries).len() == 0,
    decreases entries.len(),
{
    if entries.len() > 0 {
        let rest = entries.drop_first();
        lemma_first_description_none(rest);
        if forall|j: int| 0 <= j < entries.len() ==> !(#[trigger] entries[j] is Some
            && entries[j]->0@.len() > 0) {
            assert(!(entries[0] is Some && entries[0]->0@.len() > 0));
            assert forall|j: int| 0 <= j < rest.len() implies !(#[trigger] rest[j] is Some
                && rest[j]->0@.len() > 0) by {
                assert(rest[j] == entries[j + 1]);
            }
        }
    }
}

proof fn lemma_description_length(entries: Seq<Option<String>>)
    ensures
        first_description(entries).len() <= MAX_DESCRIPTION_CHARS,
    decreases entries.len(),
{
    if entries.len() > 0 {
        lemma_description_length(entries.drop_first());
    }
}

fn first_description_of(entries: &[Option<String>]) -> (r: String)
    ensures
        r@ == first_description(entries@),
{
    let mut i: usize = 0;
    assert(entries@.skip(0) == entries@);
    while i < entries.len()
        invariant
            i <= entries.len(),
            first_description(entries@) == first_description(entries@.skip(i as int)),
        decreases entries.len() - i,
    {
        assert(entries@.skip(i as int).drop_first() == entries@.skip(i + 1));
        assert(entries@.skip(i as int)[0] == entries@[i as int]);
        if let Some(t) = &entries[i] {
            if !t.as_str().is_empty() {
                return description_of_text(t.as_str());
            }
        }
        i += 1;
    }
    String::new()
}


/// The inputs on which `parse_openbd` does not panic.
pub open spec fn parse_openbd_defined(data: OpenbdRecord) -> bool {
    text_or_empty(data.title).len() > 0 ==> {
        &&& format_date_defined(text_or_empty(data.pubdate))
        &&& cover_url_defined(text_or_empty(data.isbn), text_or_empty(data.cover))
    }
}

fn text_of(o: &Option<String>) -> (r: &str)
    ensures
        r@ == text_or_empty(*o),
{
    match o {
        Some(s) => s.as_str(),
        None => {
            proof {
                reveal_strlit("");
            }
            ""
        },
    }
}

/// The book described by an OpenBD record; none when the record has no title.
pub fn parse_openbd(data: &OpenbdRecord) -> (r: Option<Book>)
    requires
        parse_openbd_defined(*data),
    ensures
        r is Some <==> text_or_empty(data.title).len() > 0,
        r matches Some(book) ==> {
            &&& book.title@ == text_or_empty(data.title)
            &&& book.author@ == text_or_empty(data.author)
            &&& book.pubdate@ == formatted_date(text_or_empty(data.pubdate))
            &&& book.cover@ == cover_url(text_or_empty(data.isbn), text_or_empty(data.cover))
            &&& book.isbn@ == text_or_empty(data.isbn)
            &&& book.price == first_price(onix_entries(data.prices))
            &&& book.description@ == first_description(onix_entries(data.texts))
        },
{
    let title = text_of(&data.title);
    if title.is_empty() {
        return None;
    }
    let isbn = text_of(&data.isbn);
    Some(Book {
        title: title.to_owned(),
        author: text_of(&data.author).to_owned(),
        pubdate: format_date(text_of(&data.pubdate)),
        cover: get_book_cover_url(isbn, text_of(&data.cover)),
        isbn: isbn.to_owned(),
        price: extract_price(&data.prices),
        description: extract_description(&data.texts),
    })
}

} // verus!
