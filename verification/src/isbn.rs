//! ISBN-10 / ISBN-13 validation, conversion and normalisation.
use vstd::prelude::*;
use vstd::utf8::*;
use crate::text;
use crate::text::{chars_of, digit_to_char, push_char, string_from_chars, trimmed};

verus! {

/// An ASCII decimal digit.
pub open spec fn is_digit(c: char) -> bool {
    '0' <= c && c <= '9'
}

/// The numeric value of a digit character.
pub open spec fn digit_value(c: char) -> int {
    c as int - '0' as int
}

/// Every character of `s` is an ASCII decimal digit.
pub open spec fn all_digits(s: Seq<char>) -> bool {
    forall|i: int| 0 <= i < s.len() ==> #[trigger] is_digit(s[i])
}

/// The value of a character in an ISBN-10: a digit, or 10 for the check character `X`.
pub open spec fn isbn10_char_value(c: char) -> int {
    if is_digit(c) { digit_value(c) } else { 10 }
}

/// The ISBN-10 weighted sum of the first `n` characters: weight 10 for the
/// first, 9 for the second, and so on.
pub open spec fn isbn10_sum(s: Seq<char>, n: int) -> int
    decreases n,
{
    if n <= 0 {
        0
    } else {
        isbn10_sum(s, n - 1) + isbn10_char_value(s[n - 1]) * (10 - (n - 1))
    }
}

/// A character that may stand at position `i` of an ISBN-10.
pub open spec fn isbn10_char_ok(c: char, i: int) -> bool {
    is_digit(c) || (i == 9 && (c == 'X' || c == 'x'))
}

/// A valid ISBN-10: ten characters, digits with an optional `X`/`x` check
/// character, whose weighted sum is a multiple of 11.
pub open spec fn is_isbn10(s: Seq<char>) -> bool {
    &&& s.len() == 10
    &&& forall|i: int| 0 <= i < 10 ==> #[trigger] isbn10_char_ok(s[i], i)
    &&& isbn10_sum(s, 10) % 11 == 0
}

/// The ISBN-13 weight of position `i`: 1 at even positions, 3 at odd ones.
pub open spec fn isbn13_weight(i: int) -> int {
    if i % 2 == 0 { 1 } else { 3 }
}

/// The ISBN-13 weighted sum of the first `n` digits.
pub open spec fn isbn13_sum(s: Seq<char>, n: int) -> int
    decreases n,
{
    if n <= 0 {
        0
    } else {
        isbn13_sum(s, n - 1) + digit_value(s[n - 1]) * isbn13_weight(n - 1)
    }
}

/// The ISBN-13 check digit for the first twelve digits of `s`.
pub open spec fn isbn13_check(s: Seq<char>) -> int {
    (10 - isbn13_sum(s, 12) % 10) % 10
}

/// A valid ISBN-13: thirteen digits whose last one is the check digit of the others.
pub open spec fn is_isbn13(s: Seq<char>) -> bool {
    &&& s.len() == 13
    &&& all_digits(s)
    &&& digit_value(s[12]) == isbn13_check(s)
}

/// The "978" Bookland prefix shared by ISBN-10 and ISBN-13.
pub open spec fn bookland() -> Seq<char> {
    seq!['9', '7', '8']
}

/// The ISBN-13 for an ISBN-10: "978", its first nine digits, and a new check digit.
pub open spec fn isbn13_of(isbn10: Seq<char>) -> Seq<char> {
    let base = bookland() + isbn10.take(9);
    base.push(text::digit_char(isbn13_check(base)))
}

/// The ISBN-10 check value (0..=10) for nine digits.
pub open spec fn isbn10_check(base: Seq<char>) -> int {
    (11 - isbn10_sum(base, 9) % 11) % 11
}

/// The ISBN-10 check character: a digit, or `X` for 10.
pub open spec fn isbn10_check_char(v: int) -> char {
    if v == 10 { 'X' } else { text::digit_char(v) }
}

/// The ISBN-10 for an ISBN-13 that `isbn13_to_isbn10` accepts: digits 4 to 12
/// followed by a new check character.
pub open spec fn isbn10_of(isbn13: Seq<char>) -> Seq<char> {
    let base = isbn13.subrange(3, 12);
    base.push(isbn10_check_char(isbn10_check(base)))
}

/// Whether `isbn13_to_isbn10` converts `s`: 13 bytes long and starting with "978".
pub open spec fn converts_to_isbn10(s: Seq<char>) -> bool {
    text::utf8_len(s) == 13 && s.len() >= 3 && s.take(3) == bookland()
}

/// The inputs on which `isbn13_to_isbn10` does not panic.
pub open spec fn isbn13_to_isbn10_defined(s: Seq<char>) -> bool {
    converts_to_isbn10(s) ==> (s.len() >= 12 && all_digits(s.subrange(3, 12)))
}

/// What `isbn13_to_isbn10` returns.
pub open spec fn isbn13_to_isbn10_result(s: Seq<char>) -> Option<Seq<char>> {
    if converts_to_isbn10(s) { Some(isbn10_of(s)) } else { None }
}

proof fn lemma_digits_are_ascii(s: Seq<char>)
    requires
        all_digits(s),
    ensures
        is_ascii_chars(s),
        text::utf8_len(s) == s.len(),
{
    assert forall|i: int| 0 <= i < s.len() implies '\0' <= #[trigger] s[i] <= '\u{7f}' by {
        assert(is_digit(s[i]));
    }
    text::lemma_utf8_len(s);
}

proof fn lemma_isbn10_chars_are_ascii(s: Seq<char>)
    requires
        forall|i: int| 0 <= i < s.len() ==> #[trigger] isbn10_char_ok(s[i], i),
    ensures
        text::utf8_len(s) == s.len(),
{
    assert forall|i: int| 0 <= i < s.len() implies '\0' <= #[trigger] s[i] <= '\u{7f}' by {
        assert(isbn10_char_ok(s[i], i));
    }
    text::lemma_utf8_len(s);
}

proof fn lemma_isbn13_sum_nonneg(s: Seq<char>, n: int)
    requires
        0 <= n <= s.len(),
        all_digits(s),
    ensures
        isbn13_sum(s, n) >= 0,
    decreases n,
{
    if n > 0 {
        lemma_isbn13_sum_nonneg(s, n - 1);
        assert(is_digit(s[n - 1]));
        let d = digit_value(s[n - 1]);
        assert(d * isbn13_weight(n - 1) >= 0) by (nonlinear_arith)
            requires
                d >= 0,
                isbn13_weight(n - 1) >= 1,
        ;
    }
}

/// An ISBN-13 is valid exactly when the weighted sum of all thirteen digits
/// (weights 1, 3, 1, 3, …) is a multiple of 10.
pub proof fn isbn13_weighted_sum_law(s: Seq<char>)
    ensures
        is_isbn13(s) <==> (s.len() == 13 && all_digits(s) && isbn13_sum(s, 13) % 10 == 0),
{
    if s.len() == 13 && all_digits(s) {
        lemma_isbn13_sum_nonneg(s, 12);
        assert(is_digit(s[12]));
        let s12 = isbn13_sum(s, 12);
        let d = digit_value(s[12]);
        assert(isbn13_sum(s, 13) == s12 + d * 1);
        assert((d == (10 - s12 % 10) % 10) <==> ((s12 + d) % 10 == 0)) by (nonlinear_arith)
            requires
                0 <= d <= 9,
                s12 >= 0,
        ;
    }
}

/// Whether `isbn10` is a valid ISBN-10 (`X` or `x` as check character allowed).
pub fn is_valid_isbn10(isbn10: &str) -> (r: bool)
    ensures
        r == is_isbn10(isbn10@),
{
    if isbn10.as_bytes().len() != 10 {
        proof {
            if is_isbn10(isbn10@) {
                lemma_isbn10_chars_are_ascii(isbn10@);
            }
        }
        return false;
    }
    let v = chars_of(isbn10);
    proof {
        text::lemma_utf8_len(isbn10@);
    }
    let n = v.len();
    let mut total: u32 = 0;
    let mut i: usize = 0;
    while i < n
        invariant
            n == v.len() <= 10,
            v@ == isbn10@,
            i <= n,
            total == isbn10_sum(v@, i as int),
            total <= 100 * i,
            forall|k: int| 0 <= k < i ==> #[trigger] isbn10_char_ok(v@[k], k),
        decreases n - i,
    {
        let c = v[i];
        let d: u32 = if '0' <= c && c <= '9' {
            (c as u32) - ('0' as u32)
        } else if (c == 'X' || c == 'x') && i == 9 {
            10
        } else {
            assert(!isbn10_char_ok(v@[i as int], i as int));
            return false;
        };
        assert(isbn10_char_ok(v@[i as int], i as int));
        assert(d == isbn10_char_value(c));
        let w: u32 = 10 - i as u32;
        assert(d * w <= 100) by (nonlinear_arith)
            requires
                d <= 10,
                w <= 10,
        ;
        total = total + d * w;
        i += 1;
    }
    proof {
        lemma_isbn10_chars_are_ascii(isbn10@);
    }
    total % 11 == 0
}

/// Whether `isbn13` is a valid ISBN-13.
pub fn is_valid_isbn13(isbn13: &str) -> (r: bool)
    ensures
        r == is_isbn13(isbn13@),
        r == (isbn13@.len() == 13 && all_digits(isbn13@) && isbn13_sum(isbn13@, 13) % 10 == 0),
{
    proof {
        isbn13_weighted_sum_law(isbn13@);
    }
    let v = chars_of(isbn13);
    if isbn13.as_bytes().len() != 13 {
        proof {
            if is_isbn13(isbn13@) {
                lemma_digits_are_ascii(isbn13@);
            }
        }
        return false;
    }
    let n = v.len();
    let mut k: usize = 0;
    while k < n
        invariant
            n == v.len(),
            v@ == isbn13@,
            k <= n,
            forall|j: int| 0 <= j < k ==> #[trigger] is_digit(v@[j]),
        decreases n - k,
    {
        if !('0' <= v[k] && v[k] <= '9') {
            assert(!is_digit(isbn13@[k as int]));
            return false;
        }
        k += 1;
    }
    proof {
        lemma_digits_are_ascii(isbn13@);
    }
    let mut total: u32 = 0;
    let mut i: usize = 0;
    while i < 12
        invariant
            n == v.len() == 13,
            v@ == isbn13@,
            all_digits(v@),
            i <= 12,
            total == isbn13_sum(v@, i as int),
            total <= 27 * i,
        decreases 12 - i,
    {
        assert(is_digit(v@[i as int]));
        let d: u32 = (v[i] as u32) - ('0' as u32);
        let w: u32 = if i % 2 == 0 { 1 } else { 3 };
        total = total + d * w;
        i += 1;
    }
    let check = (10 - total % 10) % 10;
    assert(is_digit(v@[12]));
    (v[12] as u32) - ('0' as u32) == check
}


/// The weighted ISBN-13 sum of `base[0..12]`, for twelve digits.
fn isbn13_sum_of(base: &Vec<char>) -> (total: u32)
    requires
        base.len() >= 12,
        all_digits(base@.take(12)),
    ensures
        total == isbn13_sum(base@, 12),
        total <= 324,
{
    let mut total: u32 = 0;
    let mut i: usize = 0;
    while i < 12
        invariant
            base.len() >= 12,
            all_digits(base@.take(12)),
            i <= 12,
            total == isbn13_sum(base@, i as int),
            total <= 27 * i,
        decreases 12 - i,
    {
        assert(is_digit(base@.take(12)[i as int]));
        let d: u32 = (base[i] as u32) - ('0' as u32);
        let w: u32 = if i % 2 == 0 { 1 } else { 3 };
        total = total + d * w;
        i += 1;
    }
    total
}

/// Converts an ISBN-10 to the ISBN-13 with the same first nine digits: "978",
/// those digits, and a freshly computed check digit. The old check character is
/// ignored.
pub fn isbn10_to_isbn13(isbn10: &str) -> (r: String)
    requires
        isbn10@.len() >= 9,
        all_digits(isbn10@.take(9)),
    ensures
        r@ == isbn13_of(isbn10@),
        r@.len() == 13,
        all_digits(r@),
        r@.take(3) == seq!['9', '7', '8'],
        r@.subrange(3, 12) == isbn10@.take(9),
        isbn13_sum(r@, 13) % 10 == 0,
{
    proof {
        isbn13_of_is_valid(isbn10@);
        isbn13_weighted_sum_law(isbn13_of(isbn10@));
        assert(isbn13_of(isbn10@).subrange(3, 12) == isbn10@.take(9));
        assert(isbn13_of(isbn10@).take(3) == seq!['9', '7', '8']);
    }
    let v = chars_of(isbn10);
    let mut base: Vec<char> = Vec::new();
    base.push('9');
    base.push('7');
    base.push('8');
    let mut i: usize = 0;
    while i < 9
        invariant
            v@ == isbn10@,
            v.len() >= 9,
            i <= 9,
            base@ == bookland() + isbn10@.take(i as int),
        decreases 9 - i,
    {
        base.push(v[i]);
        assert(isbn10@.take(i + 1) == isbn10@.take(i as int).push(isbn10@[i as int]));
        i += 1;
    }
    assert(all_digits(base@.take(12))) by {
        assert forall|k: int| 0 <= k < 12 implies #[trigger] is_digit(base@.take(12)[k]) by {
            if k >= 3 {
                assert(is_digit(isbn10@.take(9)[k - 3]));
            }
        }
    }
    let total = isbn13_sum_of(&base);
    assert(base@.take(12) == base@);
    let check = (10 - total % 10) % 10;
    let mut r = string_from_chars(&base, 0, 12);
    push_char(&mut r, digit_to_char(check));
    r
}

/// Converts an ISBN-13 with the "978" prefix to the ISBN-10 with the same nine
/// middle digits and a freshly computed check character (`X` for 10).
/// Gives `None` for a text that is not 13 bytes long or lacks the prefix.
pub fn isbn13_to_isbn10(isbn13: &str) -> (r: Option<String>)
    requires
        isbn13_to_isbn10_defined(isbn13@),
    ensures
        r is Some <==> converts_to_isbn10(isbn13@),
        r matches Some(s) ==> s@ == isbn10_of(isbn13@),
        r matches Some(s) ==> s@.len() == 10 && s@.take(9) == isbn13@.subrange(3, 12)
            && (is_digit(s@[9]) || s@[9] == 'X') && isbn10_sum(s@, 10) % 11 == 0,
{
    proof {
        if converts_to_isbn10(isbn13@) {
            isbn10_of_is_valid(isbn13@);
            let t = isbn10_of(isbn13@);
            assert(t.take(9) == isbn13@.subrange(3, 12));
            assert(isbn10_char_ok(t[9], 9));
            let v = isbn10_check(isbn13@.subrange(3, 12));
            if v != 10 {
                lemma_digit_char_is_digit(v);
            }
        }
    }
    if isbn13.as_bytes().len() != 13 {
        return None;
    }
    let v = chars_of(isbn13);
    if v.len() < 3 || v[0] != '9' || v[1] != '7' || v[2] != '8' {
        proof {
            if v.len() >= 3 {
                assert(isbn13@.take(3)[0] == v@[0]);
                assert(isbn13@.take(3)[1] == v@[1]);
                assert(isbn13@.take(3)[2] == v@[2]);
            }
        }
        return None;
    }
    assert(isbn13@.take(3) == bookland());
    let ghost base = isbn13@.subrange(3, 12);
    let mut total: u32 = 0;
    let mut i: usize = 0;
    while i < 9
        invariant
            v@ == isbn13@,
            v.len() >= 12,
            base == isbn13@.subrange(3, 12),
            all_digits(base),
            i <= 9,
            total == isbn10_sum(base, i as int),
            total <= 90 * i,
        decreases 9 - i,
    {
        assert(is_digit(base[i as int]));
        assert(base[i as int] == v@[i + 3]);
        let d: u32 = (v[i + 3] as u32) - ('0' as u32);
        let w: u32 = 10 - i as u32;
        assert(d * w <= 90) by (nonlinear_arith)
            requires
                d <= 9,
                w <= 10,
        ;
        total = total + d * w;
        i += 1;
    }
    let check: u32 = (11 - total % 11) % 11;
    let c = if check == 10 { 'X' } else { digit_to_char(check) };
    let mut r = string_from_chars(&v, 3, 12);
    push_char(&mut r, c);
    Some(r)
}

/// A separator that ISBN input may contain: a hyphen or a space.
pub open spec fn is_isbn_separator(c: char) -> bool {
    c == '-' || c == ' '
}

/// `s` with every hyphen and space removed.
pub open spec fn remove_separators(s: Seq<char>) -> Seq<char>
    decreases s.len(),
{
    if s.len() == 0 {
        s
    } else if is_isbn_separator(s.last()) {
        remove_separators(s.drop_last())
    } else {
        remove_separators(s.drop_last()).push(s.last())
    }
}

proof fn lemma_no_separators_left(s: Seq<char>)
    ensures
        forall|i: int| 0 <= i < remove_separators(s).len() ==> !is_isbn_separator(#[trigger] remove_separators(s)[i]),
    decreases s.len(),
{
    if s.len() > 0 {
        lemma_no_separators_left(s.drop_last());
        let prev = remove_separators(s.drop_last());
        if !is_isbn_separator(s.last()) {
            assert forall|i: int| 0 <= i < remove_separators(s).len() implies !is_isbn_separator(#[trigger] remove_separators(s)[i]) by {
                if i < prev.len() {
                    assert(remove_separators(s)[i] == prev[i]);
                }
            }
        }
    }
}

/// ISBN input trimmed of surrounding white space and stripped of hyphens and spaces.
pub open spec fn cleaned_isbn(raw: Seq<char>) -> Seq<char> {
    remove_separators(text::trim(raw))
}

/// Trims `raw` and removes its hyphens and spaces.
pub fn strip_isbn_separators(raw: &str) -> (r: String)
    ensures
        r@ == cleaned_isbn(raw@),
        forall|i: int| 0 <= i < r@.len() ==> #[trigger] r@[i] != '-' && r@[i] != ' ',
{
    proof {
        lemma_no_separators_left(text::trim(raw@));
    }
    let t = trimmed(raw);
    let v = chars_of(t.as_str());
    let mut r = String::new();
    let mut i: usize = 0;
    while i < v.len()
        invariant
            v@ == text::trim(raw@),
            i <= v.len(),
            r@ == remove_separators(v@.take(i as int)),
        decreases v.len() - i,
    {
        assert(v@.take(i + 1).drop_last() == v@.take(i as int));
        if v[i] != '-' && v[i] != ' ' {
            push_char(&mut r, v[i]);
        }
        i += 1;
    }
    assert(v@.take(v.len() as int) == v@);
    r
}

/// What `normalize_isbn` returns: the cleaned input itself when it is a valid
/// ISBN-13, its ISBN-13 when it is a valid ISBN-10, and nothing otherwise.
pub open spec fn normalized_isbn(raw: Seq<char>) -> Option<Seq<char>> {
    let c = cleaned_isbn(raw);
    if is_isbn13(c) {
        Some(c)
    } else if is_isbn10(c) {
        Some(isbn13_of(c))
    } else {
        None
    }
}

/// The inputs on which `normalize_isbn` does not panic: a cleaned text of ten
/// bytes must have a character boundary after its ninth byte.
pub open spec fn normalize_isbn_defined(raw: Seq<char>) -> bool {
    let c = cleaned_isbn(raw);
    text::utf8_len(c) == 10 ==> is_char_boundary(encode_utf8(c), 9)
}

/// Normalises user input to an ISBN-13: surrounding white space, hyphens and
/// spaces are dropped; a valid ISBN-13 is kept, a valid ISBN-10 is converted.
pub fn normalize_isbn(raw: &str) -> (r: Option<String>)
    requires
        normalize_isbn_defined(raw@),
    ensures
        r is Some <==> normalized_isbn(raw@) is Some,
        r matches Some(s) ==> normalized_isbn(raw@) == Some(s@),
        r matches Some(s) ==> is_isbn13(s@),
        is_isbn13(cleaned_isbn(raw@)) ==> (r matches Some(s) && s@ == cleaned_isbn(raw@)),
        is_isbn10(cleaned_isbn(raw@)) ==> (r matches Some(s) && s@ == isbn13_of(cleaned_isbn(raw@))),
        !is_isbn13(cleaned_isbn(raw@)) && !is_isbn10(cleaned_isbn(raw@)) ==> r is None,
{
    proof {
        normalized_is_isbn13(raw@);
    }
    let cleaned = strip_isbn_separators(raw);
    if is_valid_isbn13(cleaned.as_str()) {
        Some(cleaned)
    } else if is_valid_isbn10(cleaned.as_str()) {
        assert(all_digits(cleaned@.take(9))) by {
            assert forall|k: int| 0 <= k < 9 implies #[trigger] is_digit(cleaned@.take(9)[k]) by {
                assert(isbn10_char_ok(cleaned@[k], k));
            }
        }
        Some(isbn10_to_isbn13(cleaned.as_str()))
    } else {
        None
    }
}


proof fn lemma_isbn10_sum_prefix(a: Seq<char>, b: Seq<char>, n: int)
    requires
        0 <= n <= a.len(),
        n <= b.len(),
        forall|k: int| 0 <= k < n ==> a[k] == b[k],
    ensures
        isbn10_sum(a, n) == isbn10_sum(b, n),
    decreases n,
{
    if n > 0 {
        lemma_isbn10_sum_prefix(a, b, n - 1);
    }
}

proof fn lemma_isbn13_sum_prefix(a: Seq<char>, b: Seq<char>, n: int)
    requires
        0 <= n <= a.len(),
        n <= b.len(),
        forall|k: int| 0 <= k < n ==> a[k] == b[k],
    ensures
        isbn13_sum(a, n) == isbn13_sum(b, n),
    decreases n,
{
    if n > 0 {
        lemma_isbn13_sum_prefix(a, b, n - 1);
    }
}

proof fn lemma_digit_char_roundtrip(c: char)
    requires
        is_digit(c),
    ensures
        text::digit_char(digit_value(c)) == c,
{
}

proof fn lemma_digit_char_is_digit(d: int)
    requires
        0 <= d < 10,
    ensures
        is_digit(text::digit_char(d)),
        digit_value(text::digit_char(d)) == d,
{
}

proof fn lemma_isbn10_sum_nonneg(s: Seq<char>, n: int)
    requires
        0 <= n <= 11,
    ensures
        isbn10_sum(s, n) >= 0,
    decreases n,
{
    if n > 0 {
        lemma_isbn10_sum_nonneg(s, n - 1);
        let v = isbn10_char_value(s[n - 1]);
        assert(v >= 0);
        assert(v * (10 - (n - 1)) >= 0) by (nonlinear_arith)
            requires
                v >= 0,
                n <= 11,
        ;
    }
}

/// Converting an ISBN-10 (any nine leading digits) gives a valid ISBN-13.
pub proof fn isbn13_of_is_valid(isbn10: Seq<char>)
    requires
        isbn10.len() >= 9,
        all_digits(isbn10.take(9)),
    ensures
        is_isbn13(isbn13_of(isbn10)),
{
    let base = bookland() + isbn10.take(9);
    let r = isbn13_of(isbn10);
    let check = isbn13_check(base);
    lemma_digit_char_is_digit(check);
    assert forall|k: int| 0 <= k < 13 implies #[trigger] is_digit(r[k]) by {
        if 3 <= k < 12 {
            assert(is_digit(isbn10.take(9)[k - 3]));
        }
    }
    lemma_isbn13_sum_prefix(r, base, 12);
}

/// Converting an ISBN-13 to an ISBN-10 gives a valid ISBN-10.
pub proof fn isbn10_of_is_valid(isbn13: Seq<char>)
    requires
        isbn13.len() >= 12,
        all_digits(isbn13.subrange(3, 12)),
    ensures
        is_isbn10(isbn10_of(isbn13)),
{
    let base = isbn13.subrange(3, 12);
    let r = isbn10_of(isbn13);
    let v = isbn10_check(base);
    assert forall|k: int| 0 <= k < 10 implies #[trigger] isbn10_char_ok(r[k], k) by {
        if k < 9 {
            assert(is_digit(base[k]));
        } else if v != 10 {
            lemma_digit_char_is_digit(v);
        }
    }
    lemma_isbn10_sum_prefix(r, base, 9);
    assert(isbn10_char_value(r[9]) == v) by {
        if v != 10 {
            lemma_digit_char_is_digit(v);
        }
    }
    let s9 = isbn10_sum(base, 9);
    assert(isbn10_sum(r, 10) == isbn10_sum(r, 9) + isbn10_char_value(r[9]) * 1);
    assert((s9 + (11 - s9 % 11) % 11) % 11 == 0) by (nonlinear_arith);
}

/// Round trip from ISBN-10: converting a valid ISBN-10 to ISBN-13 and back gives
/// the same ISBN-10, provided its check character is not a lower-case `x`
/// (which comes back as `X`).
pub proof fn isbn10_round_trip(isbn10: Seq<char>)
    requires
        is_isbn10(isbn10),
        isbn10[9] != 'x',
    ensures
        isbn13_to_isbn10_defined(isbn13_of(isbn10)),
        isbn13_to_isbn10_result(isbn13_of(isbn10)) == Some(isbn10),
{
    assert(all_digits(isbn10.take(9))) by {
        assert forall|k: int| 0 <= k < 9 implies #[trigger] is_digit(isbn10.take(9)[k]) by {
            assert(isbn10_char_ok(isbn10[k], k));
        }
    }
    let t = isbn13_of(isbn10);
    isbn13_of_is_valid(isbn10);
    lemma_digits_are_ascii(t);
    assert(t.take(3) == bookland());
    let base = t.subrange(3, 12);
    assert(base == isbn10.take(9));
    assert(all_digits(t.subrange(3, 12))) by {
        assert forall|k: int| 0 <= k < 9 implies #[trigger] is_digit(t.subrange(3, 12)[k]) by {
            assert(is_digit(t[k + 3]));
        }
    }
    lemma_isbn10_sum_prefix(base, isbn10, 9);
    let s9 = isbn10_sum(isbn10, 9);
    let c = isbn10[9];
    assert(isbn10_char_ok(c, 9));
    let v = isbn10_char_value(c);
    assert(0 <= v <= 10);
    assert(isbn10_sum(isbn10, 10) == s9 + isbn10_char_value(isbn10[9]) * 1);
    lemma_isbn10_sum_nonneg(isbn10, 9);
    assert(v == (11 - s9 % 11) % 11) by (nonlinear_arith)
        requires
            (s9 + v) % 11 == 0,
            0 <= v <= 10,
            s9 >= 0,
    {
    }
    if v != 10 {
        lemma_digit_char_roundtrip(c);
    }
    assert(isbn10_of(t) == isbn10);
}

/// Round trip from ISBN-13: converting a valid "978" ISBN-13 to ISBN-10 and back
/// gives the same ISBN-13.
pub proof fn isbn13_round_trip(isbn13: Seq<char>)
    requires
        is_isbn13(isbn13),
        isbn13.take(3) == bookland(),
    ensures
        isbn13_to_isbn10_defined(isbn13),
        isbn13_to_isbn10_result(isbn13) matches Some(t) && isbn13_of(t) == isbn13,
{
    lemma_digits_are_ascii(isbn13);
    assert(all_digits(isbn13.subrange(3, 12))) by {
        assert forall|k: int| 0 <= k < 9 implies #[trigger] is_digit(isbn13.subrange(3, 12)[k]) by {
            assert(is_digit(isbn13[k + 3]));
        }
    }
    let t = isbn10_of(isbn13);
    let back = isbn13_of(t);
    let base = bookland() + t.take(9);
    assert(base == isbn13.take(12)) by {
        assert(bookland() == isbn13.take(3));
    }
    lemma_isbn13_sum_prefix(base, isbn13, 12);
    assert(is_digit(isbn13[12]));
    lemma_digit_char_roundtrip(isbn13[12]);
    assert(back == isbn13);
}


proof fn lemma_remove_separators_concat(a: Seq<char>, b: Seq<char>)
    ensures
        remove_separators(a + b) == remove_separators(a) + remove_separators(b),
    decreases b.len(),
{
    if b.len() == 0 {
        assert(a + b == a);
    } else {
        lemma_remove_separators_concat(a, b.drop_last());
        assert((a + b).drop_last() == a + b.drop_last());
    }
}

/// Every white-space character of `s` is a plain space.
pub open spec fn only_space_white_space(s: Seq<char>) -> bool {
    forall|k: int| 0 <= k < s.len() && text::is_white_space(#[trigger] s[k]) ==> s[k] == ' '
}

proof fn lemma_trim_start_removable(s: Seq<char>)
    requires
        only_space_white_space(s),
    ensures
        only_space_white_space(text::trim_start(s)),
        remove_separators(text::trim_start(s)) == remove_separators(s),
    decreases s.len(),
{
    if s.len() > 0 && text::is_white_space(s[0]) {
        let t = s.drop_first();
        assert(only_space_white_space(t)) by {
            assert forall|k: int| 0 <= k < t.len() && text::is_white_space(#[trigger] t[k]) implies t[k] == ' ' by {
                assert(t[k] == s[k + 1]);
            }
        }
        lemma_trim_start_removable(t);
        assert(s == seq![s[0]] + t);
        lemma_remove_separators_concat(seq![s[0]], t);
        assert(s[0] == ' ');
        let one = seq![s[0]];
        assert(one.drop_last() == Seq::<char>::empty());
        assert(one.last() == ' ');
        assert(remove_separators(one) == remove_separators(one.drop_last()));
        assert(remove_separators(one) == Seq::<char>::empty());
    }
}

proof fn lemma_trim_end_removable(s: Seq<char>)
    requires
        only_space_white_space(s),
    ensures
        remove_separators(text::trim_end(s)) == remove_separators(s),
    decreases s.len(),
{
    if s.len() > 0 && text::is_white_space(s.last()) {
        let t = s.drop_last();
        assert(only_space_white_space(t)) by {
            assert forall|k: int| 0 <= k < t.len() && text::is_white_space(#[trigger] t[k]) implies t[k] == ' ' by {
                assert(t[k] == s[k]);
            }
        }
        lemma_trim_end_removable(t);
    }
}

/// A text with no white space and no separators is left unchanged by cleaning.
proof fn lemma_clean_plain(s: Seq<char>)
    requires
        forall|k: int| 0 <= k < s.len() ==> !text::is_white_space(#[trigger] s[k]) && !is_isbn_separator(s[k]),
    ensures
        cleaned_isbn(s) == s,
{
    assert(text::trim_start(s) == s);
    assert(text::trim_end(s) == s);
    lemma_remove_separators_plain(s);
}

proof fn lemma_remove_separators_plain(s: Seq<char>)
    requires
        forall|k: int| 0 <= k < s.len() ==> !is_isbn_separator(#[trigger] s[k]),
    ensures
        remove_separators(s) == s,
    decreases s.len(),
{
    if s.len() > 0 {
        let t = s.drop_last();
        assert forall|k: int| 0 <= k < t.len() implies !is_isbn_separator(#[trigger] t[k]) by {
            assert(t[k] == s[k]);
        }
        lemma_remove_separators_plain(t);
        assert(!is_isbn_separator(s[s.len() - 1]));
        assert(t.push(s.last()) == s);
    }
}

proof fn lemma_digits_are_plain(s: Seq<char>)
    requires
        all_digits(s),
    ensures
        cleaned_isbn(s) == s,
{
    assert forall|k: int| 0 <= k < s.len() implies !text::is_white_space(#[trigger] s[k]) && !is_isbn_separator(s[k]) by {
        assert(is_digit(s[k]));
    }
    lemma_clean_plain(s);
}

/// Whatever `normalize_isbn` returns is a valid ISBN-13.
pub proof fn normalized_is_isbn13(raw: Seq<char>)
    ensures
        normalized_isbn(raw) matches Some(s) ==> is_isbn13(s),
{
    let c = cleaned_isbn(raw);
    if !is_isbn13(c) && is_isbn10(c) {
        assert(all_digits(c.take(9))) by {
            assert forall|k: int| 0 <= k < 9 implies #[trigger] is_digit(c.take(9)[k]) by {
                assert(isbn10_char_ok(c[k], k));
            }
        }
        isbn13_of_is_valid(c);
    }
}

/// Normalisation is idempotent: a normalised ISBN normalises to itself.
pub proof fn normalize_isbn_idempotent(raw: Seq<char>)
    requires
        normalized_isbn(raw) is Some,
    ensures
        normalize_isbn_defined(normalized_isbn(raw)->0),
        normalized_isbn(normalized_isbn(raw)->0) == normalized_isbn(raw),
{
    let s = normalized_isbn(raw)->0;
    normalized_is_isbn13(raw);
    lemma_digits_are_plain(s);
    lemma_digits_are_ascii(s);
}

/// A valid ISBN-10 and the ISBN-13 it converts to normalise to the same ISBN-13.
pub proof fn normalize_isbn10_as_isbn13(isbn10: Seq<char>)
    requires
        is_isbn10(isbn10),
    ensures
        normalize_isbn_defined(isbn10),
        normalized_isbn(isbn10) == Some(isbn13_of(isbn10)),
        normalize_isbn_defined(isbn13_of(isbn10)),
        normalized_isbn(isbn13_of(isbn10)) == Some(isbn13_of(isbn10)),
{
    assert forall|k: int| 0 <= k < isbn10.len() implies !text::is_white_space(#[trigger] isbn10[k]) && !is_isbn_separator(isbn10[k]) by {
        assert(isbn10_char_ok(isbn10[k], k));
    }
    lemma_clean_plain(isbn10);
    lemma_isbn10_chars_are_ascii(isbn10);
    assert(text::utf8_len(isbn10) == 10);
    assert(is_ascii_chars(isbn10)) by {
        assert forall|k: int| 0 <= k < isbn10.len() implies '\0' <= #[trigger] isbn10[k] <= '\u{7f}' by {
            assert(isbn10_char_ok(isbn10[k], k));
        }
    }
    is_ascii_chars_encode_utf8(isbn10);
    encode_utf8_valid_utf8(isbn10);
    is_char_boundary_iff_is_leading_byte(encode_utf8(isbn10), 9);
    assert(all_digits(isbn10.take(9))) by {
        assert forall|k: int| 0 <= k < 9 implies #[trigger] is_digit(isbn10.take(9)[k]) by {
            assert(isbn10_char_ok(isbn10[k], k));
        }
    }
    isbn13_of_is_valid(isbn10);
    lemma_digits_are_plain(isbn13_of(isbn10));
    lemma_digits_are_ascii(isbn13_of(isbn10));
}

/// Hyphens and spaces do not matter: inserting one anywhere into an input whose
/// only white space is plain spaces leaves the normalised ISBN unchanged.
pub proof fn normalize_isbn_ignores_separator(raw: Seq<char>, i: int, sep: char)
    requires
        0 <= i <= raw.len(),
        is_isbn_separator(sep),
        only_space_white_space(raw),
    ensures
        cleaned_isbn(raw.take(i) + seq![sep] + raw.skip(i)) == cleaned_isbn(raw),
        normalize_isbn_defined(raw.take(i) + seq![sep] + raw.skip(i)) == normalize_isbn_defined(raw),
        normalized_isbn(raw.take(i) + seq![sep] + raw.skip(i)) == normalized_isbn(raw),
{
    let t = raw.take(i) + seq![sep] + raw.skip(i);
    assert(only_space_white_space(t)) by {
        assert forall|k: int| 0 <= k < t.len() && text::is_white_space(#[trigger] t[k]) implies t[k] == ' ' by {
            if k < i {
                assert(t[k] == raw[k]);
            } else if k > i {
                assert(t[k] == raw[k - 1]);
            }
        }
    }
    lemma_trim_start_removable(t);
    lemma_trim_end_removable(text::trim_start(t));
    lemma_trim_start_removable(raw);
    lemma_trim_end_removable(text::trim_start(raw));
    lemma_remove_separators_concat(raw.take(i) + seq![sep], raw.skip(i));
    lemma_remove_separators_concat(raw.take(i), seq![sep]);
    let one = seq![sep];
    assert(one.drop_last() == Seq::<char>::empty());
    assert(one.last() == sep);
    assert(remove_separators(one) == remove_separators(one.drop_last()));
    assert(remove_separators(one) == Seq::<char>::empty());
    lemma_remove_separators_concat(raw.take(i), raw.skip(i));
    assert(raw.take(i) + raw.skip(i) == raw);
}

} // verus!
