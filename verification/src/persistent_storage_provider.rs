use vstd::prelude::*;

use crate::user::{FullUser, FullUserView};

verus! {

/// Why a storage operation failed.
#[derive(Clone, Copy, Debug, PartialEq, Eq, Structural)]
pub enum StoreError {
    /// The username is already taken by another account.
    DuplicateUsername,
    /// The email is already taken by another account.
    DuplicateEmail,
    /// An account with this identifier already exists.
    DuplicateId,
    /// No account has this identifier.
    NotFound,
    /// The backend itself failed; the stored data is unchanged.
    Backend,
}

/// The persistent storage capability backing account records: a map from
/// account identifiers to records, with usernames and emails unique across
/// all accounts.
///
/// Lookups are exact. Mutating operations either succeed with the stated
/// effect or fail with an error naming why, leaving the records unchanged;
/// `StoreError::Backend` is the opaque failure a durable backend may raise
/// at any time.
pub trait PersistentStorageProvider: Sized {
    /// The stored account records.
    spec fn accounts(&self) -> Map<u128, FullUserView>;

    /// The backend's internal well-formedness.
    spec fn inv(&self) -> bool;

    /// Looks an account up by username.
    fn get_user_by_username(&self, username: String) -> (r: Option<FullUser>)
        requires
            self.inv(),
        ensures
            match r {
                Some(u) => u.wf() && self.accounts().contains_key(u.id) && self.accounts()[u.id]
                    == u@ && u@.username == username@,
                None => forall|id: u128|
                    self.accounts().contains_key(id) ==> (#[trigger] self.accounts()[id]).username
                        != username@,
            },
    ;

    /// Looks an account up by email.
    fn get_user_by_email(&self, email: String) -> (r: Option<FullUser>)
        requires
            self.inv(),
        ensures
            match r {
                Some(u) => u.wf() && self.accounts().contains_key(u.id) && self.accounts()[u.id]
                    == u@ && u@.email == email@,
                None => forall|id: u128|
                    self.accounts().contains_key(id) ==> (#[trigger] self.accounts()[id]).email
                        != email@,
            },
    ;

    /// Looks an account up by identifier.
    fn get_user_by_id(&self, id: u128) -> (r: Option<FullUser>)
        requires
            self.inv(),
        ensures
            match r {
                Some(u) => u.wf() && u.id == id && self.accounts().contains_key(id)
                    && self.accounts()[id] == u@,
                None => !self.accounts().contains_key(id),
            },
    ;

    /// Is some account holding this username?
    fn does_username_exist(&self, username: String) -> (r: bool)
        requires
            self.inv(),
        ensures
            r <==> exists|id: u128| #[trigger]
                self.accounts().contains_key(id) && self.accounts()[id].username == username@,
    ;

    /// Is some account holding this email?
    fn does_email_exist(&self, email: String) -> (r: bool)
        requires
            self.inv(),
        ensures
            r <==> exists|id: u128| #[trigger]
                self.accounts().contains_key(id) && self.accounts()[id].email == email@,
    ;

    /// Registers a new account after checking that its username, email and
    /// identifier are all unused.
    fn register_user(&mut self, user: FullUser) -> (r: Result<(), StoreError>)
        requires
            old(self).inv(),
            user.wf(),
            user.authentication@.len() >= 1,
        ensures
            final(self).inv(),
            match r {
                Ok(()) => {
                    &&& !old(self).accounts().contains_key(user.id)
                    &&& forall|id: u128|
                        old(self).accounts().contains_key(id) ==> (#[trigger] old(
                            self,
                        ).accounts()[id]).username != user@.username && old(
                            self,
                        ).accounts()[id].email != user@.email
                    &&& final(self).accounts() == old(self).accounts().insert(user.id, user@)
                },
                Err(e) => {
                    &&& final(self).accounts() == old(self).accounts()
                    &&& (e == StoreError::DuplicateUsername ==> exists|id: u128| #[trigger]
                        old(self).accounts().contains_key(id) && old(self).accounts()[id].username
                            == user@.username)
                    &&& (e == StoreError::DuplicateEmail ==> exists|id: u128| #[trigger]
                        old(self).accounts().contains_key(id) && old(self).accounts()[id].email
                            == user@.email)
                    &&& (e == StoreError::DuplicateId ==> old(self).accounts().contains_key(
                        user.id,
                    ))
                    &&& (e == StoreError::DuplicateUsername || e == StoreError::DuplicateEmail
                        || e == StoreError::DuplicateId || e == StoreError::Backend)
                },
            },
    ;

    /// Deletes the account with this identifier.
    fn delete_user(&mut self, id: u128) -> (r: Result<(), StoreError>)
        requires
            old(self).inv(),
        ensures
            final(self).inv(),
            match r {
                Ok(()) => old(self).accounts().contains_key(id) && final(self).accounts() == old(
                    self,
                ).accounts().remove(id),
                Err(e) => {
                    &&& final(self).accounts() == old(self).accounts()
                    &&& (e == StoreError::NotFound ==> !old(self).accounts().contains_key(id))
                    &&& (e == StoreError::NotFound || e == StoreError::Backend)
                },
            },
    ;

    /// Clears the verification token of this account.
    fn verify_user(&mut self, id: u128) -> (r: Result<(), StoreError>)
        requires
            old(self).inv(),
        ensures
            final(self).inv(),
            match r {
                Ok(()) => old(self).accounts().contains_key(id) && final(self).accounts() == old(
                    self,
                ).accounts().insert(
                    id,
                    (FullUserView { verification_token: None, ..old(self).accounts()[id] }),
                ),
                Err(e) => {
                    &&& final(self).accounts() == old(self).accounts()
                    &&& (e == StoreError::NotFound ==> !old(self).accounts().contains_key(id))
                    &&& (e == StoreError::NotFound || e == StoreError::Backend)
                },
            },
    ;

    /// The tags of the account's authentication methods.
    fn get_authentication_methods(&self, id: u128) -> (r: Result<Vec<i16>, StoreError>)
        requires
            self.inv(),
        ensures
            match r {
                Ok(tags) => {
                    &&& self.accounts().contains_key(id)
                    &&& tags@.no_duplicates()
                    &&& forall|t: i16|
                        tags@.contains(t) <==> #[trigger] self.accounts()[id].authentication.contains_key(t)
                    &&& tags@.len() == self.accounts()[id].authentication.dom().len()
                },
                Err(e) => {
                    &&& (e == StoreError::NotFound ==> !self.accounts().contains_key(id))
                    &&& (e == StoreError::NotFound || e == StoreError::Backend)
                },
            },
    ;

    /// Sets the credential stored for one authentication method, adding the
    /// method when the account does not hold it yet.
    fn update_authentication_method_value(
        &mut self,
        id: u128,
        method: i16,
        new_value: String,
    ) -> (r: Result<(), StoreError>)
        requires
            old(self).inv(),
        ensures
            final(self).inv(),
            match r {
                Ok(()) => old(self).accounts().contains_key(id) && final(self).accounts() == old(
                    self,
                ).accounts().insert(
                    id,
                    (FullUserView {
                        authentication: old(self).accounts()[id].authentication.insert(
                            method,
                            new_value@,
                        ),
                        ..old(self).accounts()[id]
                    }),
                ),
                Err(e) => {
                    &&& final(self).accounts() == old(self).accounts()
                    &&& (e == StoreError::NotFound ==> !old(self).accounts().contains_key(id))
                    &&& (e == StoreError::NotFound || e == StoreError::Backend)
                },
            },
    ;

    /// Removes one authentication method. Callers must have checked that it
    /// is not the account's only method: an account never loses its last
    /// credential.
    fn remove_authentication_method(&mut self, id: u128, method: i16) -> (r: Result<
        (),
        StoreError,
    >)
        requires
            old(self).inv(),
            old(self).accounts().contains_key(id) && old(self).accounts()[id].authentication.contains_key(method) ==> old(self).accounts()[id].authentication.dom().len() >= 2,
        ensures
            final(self).inv(),
            match r {
                Ok(()) => old(self).accounts().contains_key(id) && final(self).accounts() == old(
                    self,
                ).accounts().insert(
                    id,
                    (FullUserView {
                        authentication: old(self).accounts()[id].authentication.remove(method),
                        ..old(self).accounts()[id]
                    }),
                ),
                Err(e) => {
                    &&& final(self).accounts() == old(self).accounts()
                    &&& (e == StoreError::NotFound ==> !old(self).accounts().contains_key(id))
                    &&& (e == StoreError::NotFound || e == StoreError::Backend)
                },
            },
    ;
}

} // verus!
