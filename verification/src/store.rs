//! Trusted boundary to the persistent key/value store.  Each registry
//! owns one `sled` tree; what that tree holds is modeled as a map from
//! key bytes to value bytes, and every call the registries make goes
//! through one wrapper below whose contract states what the store does.

use vstd::prelude::*;

verus! {

#[verifier::external_type_specification]
#[verifier::external_body]
pub struct ExDb(sled::Db);

#[verifier::external_type_specification]
#[verifier::external_body]
pub struct ExSledError(sled::Error);

/// What a store holds: its map from key bytes to value bytes.
pub uninterp spec fn db_view(db: sled::Db) -> Map<Seq<u8>, Seq<u8>>;

/// Relies on `sled::open`: opens or creates the tree rooted at `path`.
/// Nothing is promised of the contents: they are whatever the disk holds.
#[verifier::external_body]
pub fn db_open(path: &str) -> (r: Result<sled::Db, sled::Error>) {
    sled::open(path)
}

/// Relies on `sled::Tree::insert` on the default tree: on success the
/// pair is stored; a failed insert either did not apply the change or
/// had applied it before the failure was noticed (the log write behind
/// it can fail after the in-memory link).
#[verifier::external_body]
pub fn db_insert(db: &mut sled::Db, key: &Vec<u8>, value: &Vec<u8>) -> (r: Result<
    (),
    sled::Error,
>)
    ensures
        r is Ok ==> db_view(*final(db)) == db_view(*old(db)).insert(key@, value@),
        r is Err ==> db_view(*final(db)) == db_view(*old(db)) || db_view(*final(db)) == db_view(
            *old(db),
        ).insert(key@, value@),
{
    match db.insert(key.as_slice(), value.as_slice()) {
        Ok(_) => Ok(()),
        Err(e) => Err(e),
    }
}

/// Relies on `sled::Tree::get`: returns the value stored under the key,
/// or nothing when the key is absent.
#[verifier::external_body]
pub fn db_get(db: &sled::Db, key: &Vec<u8>) -> (r: Result<Option<Vec<u8>>, sled::Error>)
    ensures
        r matches Ok(Some(v)) ==> db_view(*db).contains_pair(key@, v@),
        r matches Ok(None) ==> !db_view(*db).dom().contains(key@),
{
    match db.get(key.as_slice()) {
        Ok(Some(v)) => Ok(Some(v.to_vec())),
        Ok(None) => Ok(None),
        Err(e) => Err(e),
    }
}

/// Relies on `sled::Tree::remove`: on success the key is gone; a failed
/// remove either did not apply the change or had applied it before the
/// failure was noticed.
#[verifier::external_body]
pub fn db_remove(db: &mut sled::Db, key: &Vec<u8>) -> (r: Result<(), sled::Error>)
    ensures
        r is Ok ==> db_view(*final(db)) == db_view(*old(db)).remove(key@),
        r is Err ==> db_view(*final(db)) == db_view(*old(db)) || db_view(*final(db)) == db_view(
            *old(db),
        ).remove(key@),
{
    match db.remove(key.as_slice()) {
        Ok(_) => Ok(()),
        Err(e) => Err(e),
    }
}

/// Relies on `sled::Tree::iter`: yields every key/value pair of the
/// tree, each key exactly once.
#[verifier::external_body]
pub fn db_entries(db: &sled::Db) -> (r: Result<Vec<(Vec<u8>, Vec<u8>)>, sled::Error>)
    ensures
        r matches Ok(es) ==> {
            &&& forall|i: int|
                0 <= i < es@.len() ==> db_view(*db).contains_pair(
                    #[trigger] es@[i].0@,
                    es@[i].1@,
                )
            &&& forall|k: Seq<u8>|
                db_view(*db).dom().contains(k) ==> exists|i: int|
                    0 <= i < es@.len() && #[trigger] es@[i].0@ == k
            &&& forall|i: int, j: int| 0 <= i < j < es@.len() ==> es@[i].0@ != es@[j].0@
        },
{
    let mut out = Vec::new();
    for kv in db.iter() {
        let (k, v) = kv?;
        out.push((k.to_vec(), v.to_vec()));
    }
    Ok(out)
}

} // verus!
