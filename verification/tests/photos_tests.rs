use backup_extract::db::PhotoRow;
use backup_extract::photos::{eligible_photos, photo_logical_path};

fn photo_row(name: Option<&str>, dir: Option<&str>) -> PhotoRow {
    PhotoRow { file_name: name.map(String::from), directory: dir.map(String::from) }
}

#[test]
fn logical_path_joins_media_tree() {
    assert_eq!(
        photo_logical_path("DCIM/100APPLE", "IMG_0001.JPG"),
        "Media/DCIM/100APPLE/IMG_0001.JPG"
    );
}

#[test]
fn eligible_photos_keeps_camera_roll_rows_in_order() {
    let rows = vec![
        photo_row(Some("IMG_0001.JPG"), Some("DCIM/100APPLE")),
        photo_row(Some("thumb.JPG"), Some("PhotoData/Thumbnails")),  // not camera roll
        photo_row(None, Some("DCIM/100APPLE")),                      // no file name
        photo_row(Some("IMG_0002.JPG"), None),                       // no directory
        photo_row(Some("IMG_0003.JPG"), Some("DCIM/101APPLE")),
    ];
    let entries = eligible_photos(&rows);
    assert_eq!(entries.len(), 2);
    assert_eq!(entries[0].0, "IMG_0001.JPG");
    assert_eq!(entries[0].1, "Media/DCIM/100APPLE/IMG_0001.JPG");
    assert_eq!(entries[1].0, "IMG_0003.JPG");
    assert_eq!(entries[1].1, "Media/DCIM/101APPLE/IMG_0003.JPG");
}

#[test]
fn short_directories_are_not_camera_roll() {
    let rows = vec![photo_row(Some("IMG_0001.JPG"), Some("DCIM")), photo_row(
        Some("IMG_0002.JPG"),
        Some("DCIMX/100"),
    )];
    let entries = eligible_photos(&rows);
    assert_eq!(entries.len(), 0);
}
