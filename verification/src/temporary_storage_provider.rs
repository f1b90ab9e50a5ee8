use vstd::prelude::*;

use crate::assoc::drop_value;

verus! {

/// The ephemeral storage capability backing live sessions: a map from
/// opaque token strings to owning account identifiers.
///
/// The mutating operations report success with their boolean result; a
/// backend may fail them, and then leaves the map as it was. Lookups are
/// exact.
pub trait TemporaryStorageProvider: Sized {
    /// The live session entries.
    spec fn sessions(&self) -> Map<Seq<char>, u128>;

    /// The backend's internal well-formedness.
    spec fn inv(&self) -> bool;

    /// Looks the owner of a token up.
    fn get(&mut self, key: String) -> (r: Option<u128>)
        requires
            old(self).inv(),
        ensures
            final(self).inv(),
            final(self).sessions() == old(self).sessions(),
            r == if old(self).sessions().contains_key(key@) {
                Some(old(self).sessions()[key@])
            } else {
                None::<u128>
            },
    ;

    /// Binds a token to its owner.
    fn set(&mut self, key: String, value: u128) -> (r: bool)
        requires
            old(self).inv(),
        ensures
            final(self).inv(),
            r ==> final(self).sessions() == old(self).sessions().insert(key@, value),
            !r ==> final(self).sessions() == old(self).sessions(),
    ;

    /// Deletes one session entry; deleting an absent token succeeds.
    fn delete(&mut self, key: String) -> (r: bool)
        requires
            old(self).inv(),
        ensures
            final(self).inv(),
            r ==> final(self).sessions() == old(self).sessions().remove(key@),
            !r ==> final(self).sessions() == old(self).sessions(),
    ;

    /// Deletes every session entry owned by `value` and no other.
    fn drop_all(&mut self, value: u128) -> (r: bool)
        requires
            old(self).inv(),
        ensures
            final(self).inv(),
            r ==> final(self).sessions() == drop_value(old(self).sessions(), value),
            !r ==> final(self).sessions() == old(self).sessions(),
    ;
}

} // verus!
