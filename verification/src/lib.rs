//! Verified core of a command-line tool that normalises ISBNs, reads
//! bibliographic records and prepares pages for a Notion book database.
pub mod text;
pub mod isbn;
pub mod book;
pub mod notion;
pub mod config;
pub mod batch;
pub mod run;
