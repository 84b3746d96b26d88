use backup_extract::db::FileRow;
use backup_extract::manifest::{find_file_id, shard_path, Manifest};
use backup_extract::Error;

fn file_row(rel: &str, id: &str) -> FileRow {
    FileRow { relative_path: String::from(rel), file_id: String::from(id) }
}

#[test]
fn shard_path_uses_two_character_prefix() {
    assert_eq!(
        shard_path("/backups/device", "ab12cd"),
        "/backups/device/ab/ab12cd"
    );
    assert_eq!(shard_path("root", "ab"), "root/ab/ab");
}

#[test]
fn find_file_id_exact_match() {
    let rows = vec![
        file_row("Library/AddressBook/AddressBook.sqlitedb", "31bb7ba8914766d4ba40d6dfb6113c8b614be442"),
        file_row("Library/SMS/sms.db", "3d0d7e5fb2ce288813306e4d4636395e047a3d28"),
    ];
    let id = find_file_id(&rows, "Library/SMS/sms.db");
    assert_eq!(id.as_deref(), Some("3d0d7e5fb2ce288813306e4d4636395e047a3d28"));
}

#[test]
fn find_file_id_takes_first_match() {
    let rows = vec![
        file_row("Library/SMS/sms.db", "first"),
        file_row("Library/SMS/sms.db", "second"),
    ];
    assert_eq!(find_file_id(&rows, "Library/SMS/sms.db").as_deref(), Some("first"));
}

#[test]
fn find_file_id_none_when_absent() {
    let rows = vec![file_row("Library/SMS/sms.db", "ab")];
    assert!(find_file_id(&rows, "Media/PhotoData/Photos.sqlite").is_none());
}

#[test]
fn resolver_round_trip_on_fixture_manifest() {
    // A constructed manifest table maps the message store to the blob "ab";
    // resolution must answer <root>/ab/ab.
    let rows = vec![file_row("Library/SMS/sms.db", "ab")];
    let id = find_file_id(&rows, "Library/SMS/sms.db").expect("mapped path resolves");
    let path = shard_path("/backups/device", &id);
    assert_eq!(path, "/backups/device/ab/ab");
    assert!(find_file_id(&rows, "Media/PhotoData/Photos.sqlite").is_none());
}

#[test]
fn open_missing_manifest_is_not_found() {
    match Manifest::open("no_such_backup_root_anywhere") {
        Err(Error::NotFound(_)) => {},
        _ => panic!("opening a missing manifest must fail with NotFound"),
    }
}
