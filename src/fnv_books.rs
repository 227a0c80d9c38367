//! The registry of the fast driver: a `fnv::FnvHashMap` from security id to
//! book, seen by the proofs as the map it holds.
use vstd::prelude::*;
use fnv::FnvHashMap;
use crate::SecurityId;
use crate::book::Lob;
use crate::improved::ImprovedSide;

verus! {

/// Books keyed by security id, hashed with FNV.
#[verifier::external_body]
pub struct FnvBooks {
    map: FnvHashMap<SecurityId, Lob<ImprovedSide>>,
}

/// The entries of the registry.
pub uninterp spec fn fnv_books_contents(m: FnvBooks) -> Map<SecurityId, Lob<ImprovedSide>>;

impl View for FnvBooks {
    type V = Map<SecurityId, Lob<ImprovedSide>>;

    open spec fn view(&self) -> Self::V {
        fnv_books_contents(*self)
    }
}

impl FnvBooks {
    /// Relies on `HashMap::with_capacity_and_hasher` with fnv's
    /// `FnvBuildHasher`: the map starts empty.
    #[verifier::external_body]
    pub(crate) fn with_capacity(capacity: usize) -> (r: FnvBooks)
        ensures
            r@.dom() == Set::<SecurityId>::empty(),
    {
        FnvBooks { map: FnvHashMap::with_capacity_and_hasher(capacity, Default::default()) }
    }

    /// Relies on `HashMap::insert` over fnv's `FnvBuildHasher`: the key now
    /// maps to `book`, the other entries stay.
    #[verifier::external_body]
    pub(crate) fn insert(&mut self, id: SecurityId, book: Lob<ImprovedSide>)
        ensures
            fnv_books_contents(*final(self)) == fnv_books_contents(*old(self)).insert(id, book),
    {
        self.map.insert(id, book);
    }

    /// Relies on `HashMap::remove` over fnv's `FnvBuildHasher`: the entry of
    /// the key, if any, is handed out and leaves the map.
    #[verifier::external_body]
    pub(crate) fn remove(&mut self, id: SecurityId) -> (r: Option<Lob<ImprovedSide>>)
        ensures
            fnv_books_contents(*final(self)) == fnv_books_contents(*old(self)).remove(id),
            r == (if fnv_books_contents(*old(self)).contains_key(id) {
                Some(fnv_books_contents(*old(self))[id])
            } else {
                None
            }),
    {
        self.map.remove(&id)
    }

    /// Relies on `HashMap::get` over fnv's `FnvBuildHasher`: the entry of the
    /// key, if any.
    #[verifier::external_body]
    pub(crate) fn get(&self, id: SecurityId) -> (r: Option<&Lob<ImprovedSide>>)
        ensures
            r == (if fnv_books_contents(*self).contains_key(id) {
                Some(&fnv_books_contents(*self)[id])
            } else {
                None
            }),
    {
        self.map.get(&id)
    }

    /// Relies on `HashMap::keys` over fnv's `FnvBuildHasher`: every key once,
    /// in an order that the map chooses.
    #[verifier::external_body]
    pub(crate) fn keys(&self) -> (r: Vec<SecurityId>)
        ensures
            r@.no_duplicates(),
            r@.to_set() == fnv_books_contents(*self).dom(),
    {
        self.map.keys().copied().collect()
    }

    /// The book of `id`, if there is one.
    pub fn book(&self, id: SecurityId) -> (r: Option<&Lob<ImprovedSide>>)
        ensures
            r == (if self@.contains_key(id) {
                Some(&self@[id])
            } else {
                None
            }),
    {
        self.get(id)
    }

    /// The security ids that have a book, each once, in no particular order.
    pub fn security_ids(&self) -> (r: Vec<SecurityId>)
        ensures
            r@.no_duplicates(),
            r@.to_set() == self@.dom(),
    {
        self.keys()
    }
}

} // verus!
