use book_register::book::Book;
use book_register::run::{Action, Event, Run};

fn book(isbn: &str) -> Book {
    Book {
        title: "題名".to_string(),
        author: String::new(),
        pubdate: String::new(),
        cover: String::new(),
        price: Some(1200),
        description: String::new(),
        isbn: isbn.to_string(),
    }
}

fn inputs() -> Vec<String> {
    vec!["bad".to_string(), "4478039674".to_string(), "9784798067278".to_string(), "9784478039670".to_string()]
}

#[test]
fn run_sends_one_page_per_book_and_counts_every_isbn() {
    let mut run = Run::new(inputs(), false, "db".to_string(), "2026-03-15".to_string());
    let mut lookups = Vec::new();
    let mut sends = 0;
    let mut event = Event::Proceed;
    let mut answers = vec![true, false].into_iter();
    let summary = loop {
        assert!(run.accepts(&event));
        match run.step(event) {
            Action::Skip { index } => {
                assert_eq!(index, 0);
                event = Event::Proceed;
            }
            Action::Lookup { isbn13, .. } => {
                let found = if isbn13 == "9784798067278" { None } else { Some(book(&isbn13)) };
                lookups.push(isbn13);
                event = Event::LookedUp(found);
            }
            Action::NotFound { index } => {
                assert_eq!(index, 2);
                event = Event::Proceed;
            }
            Action::Show { .. } => panic!("not a dry run"),
            Action::Send { page } => {
                assert_eq!(page.database_id, "db");
                sends += 1;
                event = Event::Sent(answers.next().unwrap());
            }
            Action::Pause | Action::Next => event = Event::Proceed,
            Action::Finish { success, skip, fail } => break (success, skip, fail),
        }
    };
    assert_eq!(lookups, vec!["9784478039670", "9784798067278", "9784478039670"]);
    assert_eq!(sends, 2);
    assert_eq!(summary, (1, 2, 1));
}

#[test]
fn dry_run_shows_pages_and_never_fails() {
    let mut run = Run::new(inputs(), true, "db".to_string(), "d".to_string());
    let mut shown = 0;
    let mut event = Event::Proceed;
    let summary = loop {
        match run.step(event) {
            Action::Lookup { isbn13, .. } => event = Event::LookedUp(Some(book(&isbn13))),
            Action::Show { .. } => {
                shown += 1;
                event = Event::Proceed;
            }
            Action::Send { .. } | Action::Pause => panic!("a dry run sends nothing"),
            Action::Finish { success, skip, fail } => break (success, skip, fail),
            _ => event = Event::Proceed,
        }
    };
    assert_eq!(shown, 3);
    assert_eq!(summary, (3, 1, 0));
}

#[test]
fn pending_input_names_the_next_isbn() {
    let mut run = Run::new(inputs(), true, "db".to_string(), "d".to_string());
    assert_eq!(run.pending_input().map(|(i, s)| (i, s.clone())), Some((0, "bad".to_string())));
    assert!(!run.accepts(&Event::Sent(true)));
    assert!(matches!(run.step(Event::Proceed), Action::Skip { index: 0 }));
    assert_eq!(run.pending_input().map(|(i, s)| (i, s.clone())), Some((1, "4478039674".to_string())));
    assert!(matches!(run.step(Event::Proceed), Action::Lookup { index: 1, .. }));
    assert!(run.pending_input().is_none());
}

#[test]
fn empty_run_finishes_at_once() {
    let mut run = Run::new(vec![], false, "db".to_string(), "d".to_string());
    assert!(matches!(run.step(Event::Proceed), Action::Finish { success: 0, skip: 0, fail: 0 }));
}
