//! The sled databases that hold metadata and authentication data; their
//! reads and writes are done around the library.

use vstd::prelude::*;

verus! {

/// A sled database, carried through opaquely.
#[verifier::external_type_specification]
#[verifier::external_body]
pub struct ExSledDb(sled::Db);

/// Metadata storage in a sled database.
pub struct SledStorage {
    pub db: sled::Db,
}

impl SledStorage {
    /// Storage over an open database.
    pub fn from_db(db: sled::Db) -> (r: Self)
        ensures
            r.db == db,
    {
        SledStorage { db }
    }
}

/// User, account and session storage in a sled database.
pub struct SledAuthStorage {
    pub db: sled::Db,
}

impl SledAuthStorage {
    /// Storage over an open database.
    pub fn new(db: sled::Db) -> (r: Self)
        ensures
            r.db == db,
    {
        SledAuthStorage { db }
    }
}

} // verus!
