//! Trusted access to the embedded SQLite databases, through `rusqlite`.
//!
//! Each wrapper runs one fixed query and hands the rows back as plain values;
//! everything done with those rows — filtering, joining, normalization,
//! ordering — is verified code in the other modules. What a query returns
//! depends on the database file on disk, so no wrapper states anything about
//! the rows themselves.
use vstd::prelude::*;

verus! {

#[verifier::external_type_specification]
#[verifier::external_body]
pub struct ExConnection(rusqlite::Connection);

/// One row of the manifest's file table: a logical device path and the
/// content hash naming its blob.
pub struct FileRow {
    pub relative_path: String,
    pub file_id: String,
}

/// One row of the address book's person table.
pub struct PersonRow {
    pub row_id: i64,
    pub first: Option<String>,
    pub middle: Option<String>,
    pub last: Option<String>,
    pub nickname: Option<String>,
    pub prefix: Option<String>,
    pub suffix: Option<String>,
    pub organization: Option<String>,
    pub department: Option<String>,
    pub job_title: Option<String>,
    pub birthday: Option<i64>,
    pub note: Option<String>,
}

/// One row of the address book's multi-valued attribute table. The property
/// code tells what the value is: 3 = phone number, 4 = email address,
/// 12 = anniversary.
pub struct MultiValueRow {
    pub record_id: i64,
    pub property: i64,
    pub value: Option<String>,
    pub int_value: Option<i64>,
}

/// One row of the message store's message table, raw.
pub struct MessageRow {
    pub text: Option<String>,
    pub is_from_me: Option<bool>,
    pub date: Option<i64>,
    pub handle_id: Option<i64>,
    pub msg_type: Option<i64>,
}

/// One row of the message store's handle table: a messaging endpoint, keyed
/// by the normalized address it represents.
pub struct HandleRow {
    pub row_id: i64,
    pub id: String,
    pub service: Option<String>,
}

/// One row of the photo library's asset table.
pub struct PhotoRow {
    pub file_name: Option<String>,
    pub directory: Option<String>,
}

/// Relies on rusqlite's `Connection::open_with_flags`: opens the SQLite
/// database at `path` read-only, failing if the file is absent, unreadable or
/// not a database. Backups are read-only inputs, so nothing is ever created.
#[verifier::external_body]
pub(crate) fn open_database(path: &str) -> (r: Result<rusqlite::Connection, String>) {
    rusqlite::Connection::open_with_flags(path, rusqlite::OpenFlags::SQLITE_OPEN_READ_ONLY)
        .map_err(|e| e.to_string())
}

/// Relies on rusqlite's `prepare` and `query_map`: returns the rows of the
/// manifest's file table that carry both a logical path and a blob name.
#[verifier::external_body]
pub(crate) fn fetch_file_rows(conn: &rusqlite::Connection) -> (r: Result<Vec<FileRow>, String>) {
    conn.prepare("SELECT relativePath, fileID FROM Files WHERE relativePath IS NOT NULL AND fileID IS NOT NULL")
        .and_then(|mut s| {
            s.query_map([], |row| Ok(FileRow { relative_path: row.get(0)?, file_id: row.get(1)? }))?
                .collect()
        })
        .map_err(|e| e.to_string())
}

/// Relies on rusqlite's `prepare` and `query_map`: returns the rows of the
/// address book's person table, the birthday column cast to an integer.
#[verifier::external_body]
pub(crate) fn fetch_person_rows(conn: &rusqlite::Connection) -> (r: Result<
    Vec<PersonRow>,
    String,
>) {
    conn.prepare("SELECT RowID, First, Middle, Last, Nickname, Prefix, Suffix, Organization, Department, JobTitle, CAST(Birthday AS INTEGER), Note FROM ABPerson")
        .and_then(|mut s| {
            s.query_map([], |r| Ok(PersonRow {
                row_id: r.get(0)?, first: r.get(1)?, middle: r.get(2)?, last: r.get(3)?,
                nickname: r.get(4)?, prefix: r.get(5)?, suffix: r.get(6)?,
                organization: r.get(7)?, department: r.get(8)?, job_title: r.get(9)?,
                birthday: r.get(10)?, note: r.get(11)?,
            }))?.collect()
        })
        .map_err(|e| e.to_string())
}

/// Relies on rusqlite's `prepare` and `query_map`: returns the rows of the
/// address book's multi-valued attribute table, the value cast to text.
#[verifier::external_body]
pub(crate) fn fetch_multi_value_rows(conn: &rusqlite::Connection) -> (r: Result<
    Vec<MultiValueRow>,
    String,
>) {
    conn.prepare("SELECT record_id, property, CAST(value AS TEXT), CAST(value AS INTEGER) FROM ABMultiValue WHERE record_id IS NOT NULL AND property IS NOT NULL")
        .and_then(|mut s| {
            s.query_map([], |r| Ok(MultiValueRow {
                record_id: r.get(0)?, property: r.get(1)?, value: r.get(2)?, int_value: r.get(3)?,
            }))?.collect()
        })
        .map_err(|e| e.to_string())
}

/// Relies on rusqlite's `prepare` and `query_map`: returns the rows of the
/// message store's message table in ascending stored-date order.
#[verifier::external_body]
pub(crate) fn fetch_message_rows(conn: &rusqlite::Connection) -> (r: Result<
    Vec<MessageRow>,
    String,
>) {
    conn.prepare("SELECT text, is_from_me, date, handle_id, type FROM Message ORDER BY date ASC")
        .and_then(|mut s| {
            s.query_map([], |r| Ok(MessageRow {
                text: r.get(0)?, is_from_me: r.get(1)?, date: r.get(2)?,
                handle_id: r.get(3)?, msg_type: r.get(4)?,
            }))?.collect()
        })
        .map_err(|e| e.to_string())
}

/// Relies on rusqlite's `prepare` and `query_map`: returns the rows of the
/// message store's handle table that carry an address.
#[verifier::external_body]
pub(crate) fn fetch_handle_rows(conn: &rusqlite::Connection) -> (r: Result<
    Vec<HandleRow>,
    String,
>) {
    conn.prepare("SELECT RowID, id, service FROM handle WHERE id IS NOT NULL")
        .and_then(|mut s| {
            s.query_map([], |r| Ok(HandleRow { row_id: r.get(0)?, id: r.get(1)?, service: r.get(2)? }))?
                .collect()
        })
        .map_err(|e| e.to_string())
}

/// Relies on rusqlite's `prepare` and `query_map`: returns the rows of the
/// photo library's asset table.
#[verifier::external_body]
pub(crate) fn fetch_photo_rows(conn: &rusqlite::Connection) -> (r: Result<Vec<PhotoRow>, String>) {
    conn.prepare("SELECT ZFilename, ZDirectory FROM ZAsset")
        .and_then(|mut s| {
            s.query_map([], |r| Ok(PhotoRow { file_name: r.get(0)?, directory: r.get(1)? }))?
                .collect()
        })
        .map_err(|e| e.to_string())
}

} // verus!
