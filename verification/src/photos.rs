//! The photo library: camera-roll assets resolved to their blob locations.
//!
//! An asset row counts when it stores a file name and lies in a camera-roll
//! directory. Its logical device path is rebuilt from the directory and file
//! name, then resolved through the manifest like any other blob; copying the
//! resolved blobs is the caller's trivial byte-for-byte work.
use vstd::prelude::*;

use crate::db::{fetch_photo_rows, open_database, PhotoRow};
use crate::manifest::{shard_path_spec, Manifest};
use crate::Error;

verus! {

/// One camera-roll asset: its file name and the physical path of its blob.
pub struct Photo {
    pub file_name: String,
    pub path: String,
}

/// The resolved camera roll.
pub struct Photos {
    pub photos: Vec<Photo>,
}

/// Whether an asset row is a camera-roll photo: it stores a file name and
/// its directory lies under the camera-roll tree.
pub open spec fn photo_eligible(row: PhotoRow) -> bool {
    &&& row.file_name is Some
    &&& row.directory matches Some(d) && d@.len() >= 5 && d@.subrange(0, 5) == "DCIM/"@
}

/// The logical device path of an asset: the media tree, the stored
/// directory, and the stored file name.
pub open spec fn photo_logical_spec(dir: Seq<char>, name: Seq<char>) -> Seq<char> {
    "Media/"@ + dir + seq!['/'] + name
}

/// Builds the logical device path of an asset.
pub fn photo_logical_path(dir: &str, name: &str) -> (r: String)
    ensures
        r@ == photo_logical_spec(dir@, name@),
{
    let mut r = String::from_str("Media/");
    r.append(dir);
    r.push('/');
    r.append(name);
    proof {
        assert(r@ =~= photo_logical_spec(dir@, name@));
    }
    r
}

/// What an asset row contributes to extraction, as specifications see it.
#[verifier::ext_equal]
pub ghost struct PhotoEntry {
    pub name: Seq<char>,
    pub logical: Seq<char>,
}

/// The entry a single asset row contributes: its file name paired with its
/// logical device path, or nothing when the row is not a camera-roll photo.
pub open spec fn photo_entry(row: PhotoRow) -> Seq<PhotoEntry> {
    if photo_eligible(row) {
        seq![
            PhotoEntry {
                name: row.file_name.unwrap()@,
                logical: photo_logical_spec(row.directory.unwrap()@, row.file_name.unwrap()@),
            },
        ]
    } else {
        Seq::empty()
    }
}

/// The entries of all camera-roll rows, in table order.
pub open spec fn photo_entries(rows: Seq<PhotoRow>) -> Seq<PhotoEntry>
    decreases rows.len(),
{
    if rows.len() == 0 {
        Seq::empty()
    } else {
        photo_entries(rows.drop_last()) + photo_entry(rows.last())
    }
}

/// The abstract values of built (file name, logical path) pairs.
pub open spec fn entry_views(es: Seq<(String, String)>) -> Seq<PhotoEntry> {
    es.map_values(|p: (String, String)| PhotoEntry { name: p.0@, logical: p.1@ })
}

/// Selects the camera-roll rows and builds each one's file name and logical
/// device path, in table order.
pub fn eligible_photos(rows: &Vec<PhotoRow>) -> (r: Vec<(String, String)>)
    ensures
        entry_views(r@) == photo_entries(rows@),
{
    let mut out: Vec<(String, String)> = Vec::new();
    let n = rows.len();
    let mut i: usize = 0;
    while i < n
        invariant
            0 <= i <= n,
            n == rows@.len(),
            entry_views(out@) == photo_entries(rows@.take(i as int)),
        decreases n - i,
    {
        let row = &rows[i];
        proof {
            assert(rows@.take(i as int + 1).drop_last() =~= rows@.take(i as int));
            assert(rows@.take(i as int + 1).last() == rows@[i as int]);
        }
        match (&row.file_name, &row.directory) {
            (Some(name), Some(dir)) => {
                let in_camera_roll = dir.as_str().unicode_len() >= 5 && crate::text::eq_str(
                    dir.as_str().substring_char(0, 5),
                    "DCIM/",
                );
                proof {
                    assert(in_camera_roll == photo_eligible(rows@[i as int]));
                }
                if in_camera_roll {
                    let logical = photo_logical_path(dir.as_str(), name.as_str());
                    out.push((name.clone(), logical));
                    proof {
                        assert(entry_views(out@) =~~= photo_entries(rows@.take(i as int + 1)));
                    }
                } else {
                    proof {
                        assert(entry_views(out@) =~~= photo_entries(rows@.take(i as int + 1)));
                    }
                }
            },
            _ => {
                proof {
                    assert(!photo_eligible(rows@[i as int]));
                    assert(entry_views(out@) =~~= photo_entries(rows@.take(i as int + 1)));
                }
            },
        }
        i += 1;
    }
    proof {
        assert(rows@.take(n as int) =~= rows@);
    }
    out
}

impl Photos {
    /// Resolves every camera-roll asset of the backup to its blob location:
    /// the asset table's rows become (file name, logical path) entries
    /// through `eligible_photos`, and each logical path resolves through the
    /// manifest. Fails as the resolver fails: an asset named by the library
    /// but absent from the manifest is `NotFound`.
    #[verifier::loop_isolation(false)]
    pub fn fetch(manifest: &Manifest) -> (r: Result<Photos, Error>)
        ensures
            r matches Ok(p) ==> forall|k: int|
                0 <= k < p.photos@.len() ==> exists|id: Seq<char>|
                    id.len() >= 2 && (#[trigger] p.photos@[k]).path@ == shard_path_spec(
                        manifest.root_spec(),
                        id,
                    ),
            r matches Err(e) ==> e matches Error::Sql(_) || e matches Error::NotFound(_),
    {
        let db_path = match manifest.get_path("Media/PhotoData/Photos.sqlite") {
            Ok(p) => p,
            Err(e) => return Err(e),
        };
        let conn = match open_database(db_path.as_str()) {
            Ok(c) => c,
            Err(e) => return Err(Error::Sql(e)),
        };
        let rows = match fetch_photo_rows(&conn) {
            Ok(v) => v,
            Err(e) => return Err(Error::Sql(e)),
        };
        let entries = eligible_photos(&rows);
        let mut photos: Vec<Photo> = Vec::new();
        let ghost mut ids: Seq<Seq<char>> = Seq::empty();
        let n = entries.len();
        let mut i: usize = 0;
        while i < n
            invariant
                0 <= i <= n,
                n == entries@.len(),
                ids.len() == photos@.len(),
                forall|k: int| 0 <= k < photos@.len() ==> (#[trigger] ids[k]).len() >= 2,
                forall|k: int|
                    0 <= k < photos@.len() ==> (#[trigger] photos@[k]).path@ == shard_path_spec(
                        manifest.root_spec(),
                        ids[k],
                    ),
            decreases n - i,
        {
            let entry = &entries[i];
            let phys = match manifest.get_path(entry.1.as_str()) {
                Ok(p) => p,
                Err(e) => return Err(e),
            };
            proof {
                assert(exists|id: Seq<char>|
                    id.len() >= 2 && phys@ == shard_path_spec(manifest.root_spec(), id));
            }
            let ghost ph0 = photos@;
            let ghost ids0 = ids;
            photos.push(Photo { file_name: entry.0.clone(), path: phys });
            proof {
                let id = choose|id: Seq<char>|
                    id.len() >= 2 && phys@ == shard_path_spec(manifest.root_spec(), id);
                ids = ids.push(id);
                assert(id.len() >= 2 && phys@ == shard_path_spec(manifest.root_spec(), id));
                assert(photos@[ph0.len() as int].path@ == phys@);
                assert(ids[ph0.len() as int] == id);
                assert(forall|k: int| 0 <= k < ph0.len() ==> #[trigger] photos@[k] == ph0[k]);
                assert(forall|k: int| 0 <= k < ids0.len() ==> #[trigger] ids[k] == ids0[k]);
            }
            i += 1;
        }
        proof {
            assert forall|k: int| 0 <= k < photos@.len() implies exists|id: Seq<char>|
                id.len() >= 2 && (#[trigger] photos@[k]).path@ == shard_path_spec(
                    manifest.root_spec(),
                    id,
                ) by {
                assert(ids[k].len() >= 2);
                assert(photos@[k].path@ == shard_path_spec(manifest.root_spec(), ids[k]));
            }
        }
        Ok(Photos { photos })
    }
}

} // verus!
