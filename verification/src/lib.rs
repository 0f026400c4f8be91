//! A minimal personal book catalog over an embedded SQLite table.
//!
//! The catalog stores book records (ISBN, name, authors, tags, language,
//! fixed-point price) in a single table and offers three queries: exact
//! lookup by ISBN, keyword conjunction search, and parsed accessors for
//! the denormalized comma-joined text fields.

pub mod errors;
pub mod model;
pub mod store;
pub mod text;

pub use errors::StoreError;
pub use model::Book;
pub use model::Keyword;
pub use store::BookStore;
