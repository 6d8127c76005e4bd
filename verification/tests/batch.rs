use book_register::batch::tally_outcomes;
use book_register::batch::{parse_isbn_list, preview_description, ItemOutcome, Progress};

#[test]
fn parse_isbn_list_skips_blanks_and_comments() {
    let content = "9784478039670\n\n# comment\n  4478039674  \r\n\t#x\n 978-4-7980-6727-8";
    assert_eq!(
        parse_isbn_list(content),
        vec!["9784478039670", "4478039674", "978-4-7980-6727-8"]
    );
    assert!(parse_isbn_list("").is_empty());
    assert!(parse_isbn_list("\n\n").is_empty());
    assert_eq!(parse_isbn_list("a\n"), vec!["a"]);
}

#[test]
fn progress_counts_add_up() {
    let mut p = Progress::new(5);
    p.record(ItemOutcome::InvalidIsbn);
    p.record(ItemOutcome::NotFound);
    p.record(ItemOutcome::Shown);
    p.record(ItemOutcome::Registered);
    p.record(ItemOutcome::RegisterFailed);
    assert_eq!(p.counts(), (2, 2, 1));
    assert_eq!(p.total(), 5);
}

#[test]
fn preview_description_cuts_at_400() {
    assert_eq!(preview_description("short"), "short");
    let long = "字".repeat(401);
    let p = preview_description(&long);
    assert_eq!(p.chars().count(), 401);
    assert!(p.ends_with('…'));
    assert_eq!(preview_description(&"a".repeat(400)), "a".repeat(400));
}

#[test]
fn tally_outcomes_counts_each_isbn_once() {
    let outcomes = vec![
        ItemOutcome::InvalidIsbn,
        ItemOutcome::Shown,
        ItemOutcome::NotFound,
        ItemOutcome::Registered,
        ItemOutcome::RegisterFailed,
        ItemOutcome::Registered,
    ];
    assert_eq!(tally_outcomes(&outcomes), (3, 2, 1));
    assert_eq!(tally_outcomes(&vec![]), (0, 0, 0));
    assert_eq!(tally_outcomes(&vec![ItemOutcome::Shown, ItemOutcome::NotFound]), (1, 1, 0));
}
