# book_register

A command-line tool that takes ISBNs, looks the books up in OpenBD and
registers them as pages of a Notion database. The decisions it makes are
written in Verus and proved against their contracts.

- `src/text.rs` — characters of a string, Unicode white space, trimming, UTF-8 length.
- `src/isbn.rs` — ISBN-10/ISBN-13 validation and conversion, input normalisation,
  and the laws that tie them together (round trips, idempotence, separators).
- `src/book.rs` — the part of an OpenBD record that is read, and the book taken from it
  (publication month, cover URL, price, description).
- `src/notion.rs` — the Notion page for a book, its JSON text, and the reading of Notion's reply.
- `src/config.rs` — credentials from the environment, the purchase date, masked secrets.
- `src/batch.rs` — the ISBN list file, outcome counters, and the description preview.
- `src/run.rs` — a whole run as a state machine: which lookup, page, request or pause
  comes next, with the laws that hold at every step and at the end.
- `app/main.rs` — arguments, environment, files, HTTP and printing.
- `tests/` — scenarios on concrete values.
