//! A note store over a vault of markdown files: frontmatter, titles, content
//! updates that keep the metadata, and backlinks through wiki-style links.
//!
//! The library never touches the disk. It is handed a picture of what was read
//! ([`disk::Disk`]) and what the search tool printed
//! ([`backlinks::SearchRun`]), and answers from these; where a note changes, it
//! says what is to be written ([`notes::NoteWrite`]). Every function is verified
//! against a contract over character sequences and trees of them.
//!
//! Two outside crates do what is not this library's to define. `serde_yaml`
//! reads the YAML of a metadata block ([`metadata`]); `regex` escapes the
//! spellings of a link and tries the patterns of the full scan ([`links`],
//! [`matcher`]). What is believed of them stands in the contracts of the few
//! functions that call them.

pub mod backlinks;
pub mod commands;
pub mod disk;
pub mod error;
pub mod frontmatter;
pub mod links;
pub mod matcher;
pub mod metadata;
pub mod notes;
pub mod order;
pub mod path;
pub mod scan;
pub mod text;
