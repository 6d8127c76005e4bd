//! Settings of a run: the Notion credentials, the purchase date, and how
//! secrets are shown.
use vstd::prelude::*;
use crate::text;
use crate::text::{chars_of, string_from_chars, trimmed};

verus! {

/// The Notion credentials.
pub struct Config {
    pub notion_api_key: String,
    pub notion_database_id: String,
}

/// The message when `NOTION_API_KEY` is missing.
pub open spec fn missing_api_key_message() -> Seq<char> {
    "❌ .env に NOTION_API_KEY を設定してください"@
}

/// The message when `NOTION_DATABASE_ID` is missing.
pub open spec fn missing_database_id_message() -> Seq<char> {
    "❌ .env に NOTION_DATABASE_ID を設定してください"@
}

/// The database id used in a dry run when none is set.
pub open spec fn placeholder_database_id() -> Seq<char> {
    "00000000-0000-0000-0000-000000000000"@
}

/// The credentials taken from the values of `NOTION_API_KEY` and
/// `NOTION_DATABASE_ID` (absent when unset), both trimmed. A dry run needs
/// neither: a missing key is empty and a missing database id is a placeholder.
/// Otherwise a missing key is reported first, then a missing database id.
pub open spec fn config_from(dry_run: bool, api_key: Option<Seq<char>>, database_id: Option<Seq<char>>) -> Result<(Seq<char>, Seq<char>), Seq<char>> {
    if dry_run {
        Ok((
            text::trim(match api_key { Some(k) => k, None => Seq::empty() }),
            text::trim(match database_id { Some(d) => d, None => placeholder_database_id() }),
        ))
    } else {
        match api_key {
            None => Err(missing_api_key_message()),
            Some(k) => match database_id {
                None => Err(missing_database_id_message()),
                Some(d) => Ok((text::trim(k), text::trim(d))),
            },
        }
    }
}

impl Config {
    /// The credentials from the environment's values (see `config_from`).
    pub fn from_env_values(dry_run: bool, api_key: Option<String>, database_id: Option<String>) -> (r: Result<Config, String>)
        ensures
            dry_run ==> r is Ok,
            !dry_run ==> (r is Ok <==> (api_key is Some && database_id is Some)),
            api_key matches Some(k) ==> (r matches Ok(c) ==> c.notion_api_key@ == text::trim(k@)),
            database_id matches Some(d) ==> (r matches Ok(c) ==> c.notion_database_id@ == text::trim(d@)),
            r is Ok <==> config_from(dry_run, text::opt_view(api_key), text::opt_view(database_id)) is Ok,
            r matches Ok(c) ==> config_from(dry_run, text::opt_view(api_key), text::opt_view(database_id))
                == Ok::<(Seq<char>, Seq<char>), Seq<char>>((c.notion_api_key@, c.notion_database_id@)),
            r matches Err(m) ==> config_from(dry_run, text::opt_view(api_key), text::opt_view(database_id))
                == Err::<(Seq<char>, Seq<char>), Seq<char>>(m@),
    {
        if dry_run {
            let key = match &api_key {
                Some(k) => trimmed(k.as_str()),
                None => {
                    proof {
                        reveal_strlit("");
                        assert(""@ == Seq::<char>::empty());
                    }
                    trimmed("")
                },
            };
            let id = match &database_id {
                Some(d) => trimmed(d.as_str()),
                None => trimmed("00000000-0000-0000-0000-000000000000"),
            };
            return Ok(Config { notion_api_key: key, notion_database_id: id });
        }
        let key = match &api_key {
            Some(k) => trimmed(k.as_str()),
            None => return Err("❌ .env に NOTION_API_KEY を設定してください".to_owned()),
        };
        let id = match &database_id {
            Some(d) => trimmed(d.as_str()),
            None => return Err("❌ .env に NOTION_DATABASE_ID を設定してください".to_owned()),
        };
        Ok(Config { notion_api_key: key, notion_database_id: id })
    }
}

/// Whether `chrono::NaiveDate::parse_from_str` accepts `s` in the format `fmt`.
pub uninterp spec fn naive_date_parses(s: Seq<char>, fmt: Seq<char>) -> bool;

/// Calls `chrono::NaiveDate::parse_from_str` and tells whether it succeeded.
/// The contract claims only that the answer depends on the two texts alone;
/// which texts are dates is left to chrono.
#[verifier::external_body]
fn parses_as_date(s: &str, fmt: &str) -> (r: bool)
    ensures
        r == naive_date_parses(s@, fmt@),
{
    chrono::NaiveDate::parse_from_str(s, fmt).is_ok()
}

/// The message for a purchase date that is not a real `YYYY-MM-DD` date.
pub open spec fn invalid_date_message() -> Seq<char> {
    "❌ --date は YYYY-MM-DD 形式の実在する日付を指定してください"@
}

/// The verdict on a purchase date, given whether it parsed as a date.
pub fn purchase_date_verdict(parsed: bool) -> (r: Result<(), String>)
    ensures
        r is Ok <==> parsed,
        r matches Err(m) ==> m@ == invalid_date_message(),
{
    if parsed {
        Ok(())
    } else {
        Err("❌ --date は YYYY-MM-DD 形式の実在する日付を指定してください".to_owned())
    }
}

/// Accepts a purchase date that chrono reads as a real date in `%Y-%m-%d`.
pub fn validate_purchase_date(raw: &str) -> (r: Result<(), String>)
    ensures
        r is Ok <==> naive_date_parses(raw@, "%Y-%m-%d"@),
        r matches Err(m) ==> m@ == invalid_date_message(),
{
    purchase_date_verdict(parses_as_date(raw, "%Y-%m-%d"))
}

/// How a secret is shown: "(未設定)" when empty, else "***" followed by its
/// last four characters (all of them when it has fewer).
pub open spec fn masked(value: Seq<char>) -> Seq<char> {
    if value.len() == 0 {
        "(未設定)"@
    } else {
        let visible = if value.len() < 4 { value.len() } else { 4 };
        "***"@ + value.skip(value.len() - visible)
    }
}

/// Masks a secret for display (see `masked`).
pub fn mask_secret(value: &str) -> (r: String)
    ensures
        r@ == masked(value@),
        value@.len() > 0 ==> r@.len() <= 7,
        value@.len() > 0 ==> r@.take(3) == seq!['*', '*', '*'],
        value@.len() > 0 ==> r@.len() == 3 + (if value@.len() < 4 { value@.len() } else { 4 }),
        value@.len() > 0 ==> r@.skip(3) == value@.skip(value@.len() - (r@.len() - 3)),
{
    proof {
        reveal_strlit("***");
    }
    if value.is_empty() {
        return "(未設定)".to_owned();
    }
    let v = chars_of(value);
    let visible: usize = if v.len() < 4 { v.len() } else { 4 };
    let suffix = string_from_chars(&v, v.len() - visible, v.len());
    let mut r = "***".to_owned();
    r.append(suffix.as_str());
    assert(v@.subrange(v.len() - visible, v.len() as int) == value@.skip(value@.len() - visible));
    assert(r@.take(3) == "***"@);
    assert(r@.skip(3) == value@.skip(value@.len() - visible));
    r
}

} // verus!
