//! A small time tracker core: time spans with tags and comments, kept in a
//! single human-editable text file. This crate holds the verified heart of
//! the tool: the data model, the canonical serializer, the lenient parser,
//! and the tag-filter command logic. File discovery and the atomic
//! replace-with-backup dance live in the thin unverified layer around it.
pub mod clock;
pub mod laws;
pub mod cmd;
pub mod model;
pub mod parser;
pub mod ser;
pub mod stats;

pub use model::Entry;
pub use model::EntryView;
pub use model::Span;
pub use model::Timestamp;
pub use model::TokError;
