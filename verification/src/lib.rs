//! Extraction of contacts, messages and photos from a mobile-device backup:
//! a directory of content-addressed blobs plus a manifest database that maps
//! logical device paths to blob names. The blobs of interest are themselves
//! SQLite databases (address book, message store, photo library).
//!
//! The logic — path resolution and sharding, phone-number normalization,
//! timestamp decoding, the contact/message join, chronological grouping,
//! transcript rendering and collision-safe output naming — is verified.
//! Database reads and local-timezone formatting go through small trusted
//! wrappers around `rusqlite` and `chrono`.
use vstd::prelude::*;

pub mod address_book;
pub mod constants;
pub mod contacts;
pub mod db;
pub mod filename;
pub mod manifest;
pub mod messages;
pub mod phone;
pub mod photos;
pub mod text;
pub mod timecode;

verus! {

/// A failure while reading or interpreting a backup.
#[derive(Debug)]
pub enum Error {
    /// An I/O failure outside the databases (reported by the caller's file handling).
    Io(String),
    /// An embedded-database failure: a malformed or unreadable database, or a failed query.
    Sql(String),
    /// A logical path absent from the manifest, or a lookup that matched no row:
    /// the requested artifact genuinely does not exist in this backup.
    NotFound(String),
    /// A stored timestamp outside the representable range: source data corruption.
    Decode(i64),
}

impl Error {
    /// A human-readable description of the failure.
    pub fn message(&self) -> (r: String)
        ensures
            match self {
                Error::Io(s) => r@ == "I/O failure: "@ + s@,
                Error::Sql(s) => r@ == "database failure: "@ + s@,
                Error::NotFound(s) => r@ == "not found in backup: "@ + s@,
                Error::Decode(_) => r@ == "timestamp out of range"@,
            },
    {
        match self {
            Error::Io(s) => String::from_str("I/O failure: ").concat(s.as_str()),
            Error::Sql(s) => String::from_str("database failure: ").concat(s.as_str()),
            Error::NotFound(s) => String::from_str("not found in backup: ").concat(s.as_str()),
            Error::Decode(_) => String::from_str("timestamp out of range"),
        }
    }
}

} // verus!
