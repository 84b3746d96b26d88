//! The backup store resolver.
//!
//! A backup is a directory of content-addressed blobs beside a manifest
//! database whose file table maps each logical device path to the hash string
//! naming its blob. A blob lives at `<root>/<hash[0..2]>/<hash>`: the backup
//! tool shards blobs into prefix directories to bound directory size.
//!
//! Lookup policy: the first row whose logical path equals the requested one
//! wins; zero matching rows fail with `NotFound`. Paths are resolved fresh on
//! every call, never cached.
use vstd::prelude::*;

use crate::db::{fetch_file_rows, open_database, FileRow};
use crate::Error;

verus! {

/// The blob name recorded for `rel`: the file identifier of the first row of
/// the manifest's file table whose logical path equals `rel`.
pub open spec fn first_file_id(rows: Seq<FileRow>, rel: Seq<char>) -> Option<Seq<char>>
    decreases rows.len(),
{
    if rows.len() == 0 {
        None
    } else if rows[0].relative_path@ == rel {
        Some(rows[0].file_id@)
    } else {
        first_file_id(rows.drop_first(), rel)
    }
}

proof fn lemma_first_file_id_skip(rows: Seq<FileRow>, rel: Seq<char>, i: int)
    requires
        0 <= i <= rows.len(),
        forall|j: int| 0 <= j < i ==> (#[trigger] rows[j].relative_path)@ != rel,
    ensures
        first_file_id(rows, rel) == first_file_id(rows.skip(i), rel),
    decreases i,
{
    if i == 0 {
        assert(rows.skip(0) =~= rows);
    } else {
        lemma_first_file_id_skip(rows, rel, i - 1);
        assert(rows.skip(i - 1).len() > 0);
        assert(rows.skip(i - 1)[0] == rows[i - 1]);
        assert(rows[i - 1].relative_path@ != rel);
        assert(rows.skip(i - 1).drop_first() =~= rows.skip(i));
        assert(first_file_id(rows.skip(i - 1), rel) == first_file_id(
            rows.skip(i - 1).drop_first(),
            rel,
        ));
    }
}

/// The first-match manifest lookup over the file table's rows.
pub fn find_file_id(rows: &Vec<FileRow>, rel: &str) -> (r: Option<String>)
    ensures
        match r {
            Some(id) => first_file_id(rows@, rel@) matches Some(v) && v == id@,
            None => first_file_id(rows@, rel@) is None,
        },
{
    let rel_owned: String = rel.to_owned();
    let n = rows.len();
    let mut i: usize = 0;
    while i < n
        invariant
            0 <= i <= n,
            n == rows@.len(),
            rel_owned@ == rel@,
            forall|j: int| 0 <= j < i ==> (#[trigger] rows@[j].relative_path)@ != rel@,
        decreases n - i,
    {
        if rows[i].relative_path == rel_owned {
            proof {
                lemma_first_file_id_skip(rows@, rel@, i as int);
                assert(rows@.skip(i as int)[0] == rows@[i as int]);
            }
            return Some(rows[i].file_id.clone());
        }
        i += 1;
    }
    proof {
        lemma_first_file_id_skip(rows@, rel@, n as int);
        assert(rows@.skip(n as int).len() == 0);
    }
    None
}

/// The physical location of the blob named `id` under `root`: the backup's
/// two-character hash-prefix sharding scheme.
pub open spec fn shard_path_spec(root: Seq<char>, id: Seq<char>) -> Seq<char> {
    root + seq!['/'] + id.subrange(0, 2) + seq!['/'] + id
}

/// Joins a backup root and a blob name into the blob's physical path.
pub fn shard_path(root: &str, id: &str) -> (r: String)
    requires
        id@.len() >= 2,
    ensures
        r@ == shard_path_spec(root@, id@),
{
    let mut r = String::from_str(root);
    r.push('/');
    let prefix = id.substring_char(0, 2);
    r.append(prefix);
    r.push('/');
    r.append(id);
    proof {
        assert(r@ =~= shard_path_spec(root@, id@));
    }
    r
}

/// An open backup: the root directory and a live handle on the manifest
/// database, held for the resolver's lifetime.
pub struct Manifest {
    backup_path: String,
    connection: rusqlite::Connection,
}

impl Manifest {
    /// The backup root this resolver was opened on.
    pub closed spec fn root_spec(&self) -> Seq<char> {
        self.backup_path@
    }

    /// Opens the manifest database under `backup_path`. Fails with `NotFound`
    /// when the manifest is absent or unreadable: without it no category of
    /// the backup can be reached.
    pub fn open(backup_path: &str) -> (r: Result<Manifest, Error>)
        ensures
            r matches Ok(m) ==> m.root_spec() == backup_path@,
            r matches Err(e) ==> e matches Error::NotFound(_),
    {
        let mut p = String::from_str(backup_path);
        p.push('/');
        p.append("Manifest.db");
        match open_database(p.as_str()) {
            Ok(c) => Ok(
                Manifest { backup_path: String::from_str(backup_path), connection: c },
            ),
            Err(e) => {
                let mut msg = p;
                msg.append(": ");
                msg.append(e.as_str());
                Err(Error::NotFound(msg))
            },
        }
    }

    /// Resolves a logical device path to the physical path of its blob,
    /// taking the first matching manifest row; no row fails with `NotFound`,
    /// a query failure with `Sql`.
    pub fn get_path(&self, device_relative_path: &str) -> (r: Result<String, Error>)
        ensures
            r matches Ok(p) ==> exists|id: Seq<char>|
                id.len() >= 2 && p@ == shard_path_spec(self.root_spec(), id),
            r matches Err(e) ==> e matches Error::Sql(_) || e matches Error::NotFound(_),
    {
        let rows = match fetch_file_rows(&self.connection) {
            Ok(v) => v,
            Err(e) => return Err(Error::Sql(e)),
        };
        match find_file_id(&rows, device_relative_path) {
            None => Err(Error::NotFound(device_relative_path.to_owned())),
            Some(id) => {
                if id.as_str().unicode_len() < 2 {
                    let mut msg = String::from_str("manifest names a malformed blob for ");
                    msg.append(device_relative_path);
                    Err(Error::Sql(msg))
                } else {
                    let p = shard_path(self.backup_path.as_str(), id.as_str());
                    proof {
                        assert(p@ == shard_path_spec(self.root_spec(), id@));
                    }
                    Ok(p)
                }
            },
        }
    }

    pub(crate) fn connection(&self) -> &rusqlite::Connection {
        &self.connection
    }
}

} // verus!
