use vstd::prelude::*;

use crate::persistent_storage_provider::PersistentStorageProvider;
use crate::temporary_storage_provider::TemporaryStorageProvider;

verus! {

/// The pair of storage capabilities a deployment runs on: one persistent
/// backend for accounts, one ephemeral backend for sessions.
pub struct Database<P, T> {
    pub persistent: P,
    pub temporary: T,
}

impl<P: PersistentStorageProvider, T: TemporaryStorageProvider> Database<P, T> {
    /// Bundles the two backends.
    pub fn new(persistent: P, temporary: T) -> (r: Database<P, T>)
        ensures
            r.persistent == persistent,
            r.temporary == temporary,
    {
        Database { persistent, temporary }
    }
}

} // verus!
