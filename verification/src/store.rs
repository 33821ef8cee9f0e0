//! The catalog's backing key-value store: a thin trusted boundary around
//! an embedded sled database.
//!
//! The verifier sees the store through one name, `store_entries`: the map
//! of the store's textual entries — those whose key and value bytes decode
//! as text. The catalog writes only textual entries; an entry written by
//! anything else is outside the model and is read as absent or corrupt,
//! which the catalog tolerates by skipping. Two assumptions bound that
//! model: a `Store` is the exclusive handle to its tree, so nothing else
//! may write through another handle while it lives; and a tree the catalog
//! manages holds textual entries only, so `is_empty` below may equate the
//! tree's emptiness with the model's — on a foreign tree holding only
//! non-textual entries the two would diverge.

use vstd::prelude::*;

verus! {

/// The database type of sled, declared so the store may hold and receive
/// one; values of it are opaque to the verifier.
#[verifier::external_type_specification]
#[verifier::external_body]
pub struct ExSledDb(sled::Db);

/// The backing store of the endpoint catalog.
#[verifier::external_body]
pub struct Store {
    db: sled::Db,
}

/// The textual entries a store holds.
pub uninterp spec fn store_entries(s: Store) -> Map<Seq<char>, Seq<char>>;

impl Store {
    /// Relies on sled::Db being an open database handle: wraps it as the
    /// catalog's backing store. Nothing is known of the entries it already
    /// holds.
    #[verifier::external_body]
    pub fn from_db(db: sled::Db) -> Store {
        Store { db }
    }

    /// Relies on sled::Tree::is_empty: whether the store holds no entries
    /// at all.
    #[verifier::external_body]
    pub fn is_empty(&self) -> (r: bool)
        ensures
            r == (store_entries(*self) == Map::<Seq<char>, Seq<char>>::empty()),
    {
        self.db.is_empty()
    }

    /// Relies on sled::Tree::insert: on success the key is bound to the
    /// value, and no other entry changes. After a failure nothing is known
    /// of the entries.
    #[verifier::external_body]
    pub fn put(&mut self, key: &str, value: &str) -> (r: Result<(), ()>)
        ensures
            r is Ok ==> store_entries(*final(self)) == store_entries(*old(self)).insert(
                key@,
                value@,
            ),
    {
        match self.db.insert(key.as_bytes(), value.as_bytes()) {
            Ok(_) => Ok(()),
            Err(_) => Err(()),
        }
    }

    /// Relies on sled::Tree::get: a value is returned exactly from the
    /// entry the key is bound to. Absence, a non-textual entry, and a
    /// storage fault all read as `None`.
    #[verifier::external_body]
    pub fn get(&self, key: &str) -> (r: Option<String>)
        ensures
            r matches Some(v) ==> store_entries(*self).contains_key(key@) && store_entries(
                *self,
            )[key@] == v@,
    {
        match self.db.get(key.as_bytes()) {
            Ok(Some(ivec)) => String::from_utf8(ivec.to_vec()).ok(),
            _ => None,
        }
    }

    /// Relies on sled::Tree::iter: every yielded pair is one of the store's
    /// entries, each key at most once, in the store's iteration order. An
    /// entry that cannot be read or is not textual is skipped.
    #[verifier::external_body]
    pub fn iter_all(&self) -> (r: Vec<(String, String)>)
        ensures
            forall|i: int|
                0 <= i < r@.len() ==> store_entries(*self).contains_key(#[trigger] r@[i].0@)
                    && store_entries(*self)[r@[i].0@] == r@[i].1@,
            forall|i: int, j: int| 0 <= i < j < r@.len() ==> #[trigger] r@[i].0@ != #[trigger] r@[j].0@,
    {
        self.db
            .iter()
            .filter_map(|e| e.ok())
            .filter_map(
                |kv: (sled::IVec, sled::IVec)| {
                    let k = String::from_utf8(kv.0.to_vec()).ok()?;
                    let v = String::from_utf8(kv.1.to_vec()).ok()?;
                    Some((k, v))
                },
            )
            .collect()
    }

    /// Relies on sled::Tree::clear: on success every entry is removed.
    /// After a failure nothing is known of the entries.
    #[verifier::external_body]
    pub fn clear(&mut self) -> (r: Result<(), ()>)
        ensures
            r is Ok ==> store_entries(*final(self)) == store_entries(*old(self)).remove_keys(
                store_entries(*old(self)).dom(),
            ),
    {
        match self.db.clear() {
            Ok(()) => Ok(()),
            Err(_) => Err(()),
        }
    }

    /// Relies on sled::Tree::flush: it persists the store and changes no
    /// entry, whether it succeeds or fails.
    #[verifier::external_body]
    pub fn flush(&mut self) -> (r: Result<(), ()>)
        ensures
            store_entries(*final(self)) == store_entries(*old(self)),
    {
        match self.db.flush() {
            Ok(_) => Ok(()),
            Err(_) => Err(()),
        }
    }
}

} // verus!
