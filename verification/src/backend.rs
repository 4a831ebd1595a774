//! The bridge between the library and a database.

use vstd::prelude::*;

use crate::database::Database;

verus! {

/// What every back end states about itself.
pub trait BackendGeneric {
    /// The database the back end talks to.
    spec fn spec_database() -> Database;

    /// The database the back end talks to.
    fn database() -> (r: Database)
        ensures
            r == Self::spec_database(),
    ;
}

/// A back end is the bridge between Rust and a database.
pub trait Backend: BackendGeneric {

}

/// The unit back end talks to no database; it is used in tests.
impl BackendGeneric for () {
    open spec fn spec_database() -> Database {
        Database::Unit
    }

    fn database() -> (r: Database) {
        Database::Unit
    }
}

impl Backend for () {

}

} // verus!
