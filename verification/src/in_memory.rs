use vstd::prelude::*;

use crate::assoc::{
    assoc_map, drop_value, keep_not_value, keys_unique, lemma_assoc_map_keep_not_value,
    lemma_assoc_map_key, lemma_assoc_map_len, lemma_assoc_map_push, lemma_assoc_map_remove,
    lemma_assoc_map_value,
};
use crate::persistent_storage_provider::{PersistentStorageProvider, StoreError};
use crate::temporary_storage_provider::TemporaryStorageProvider;
use crate::user::{auth_remove, auth_tags, auth_upsert, FullUser, FullUserView};

verus! {

/// The account records as key/value entries.
pub open spec fn user_pairs_of(users: Seq<FullUser>) -> Seq<(u128, FullUserView)> {
    Seq::new(users.len(), |i: int| (users[i].id, users[i]@))
}

/// The session entries as key/value pairs over character sequences.
pub open spec fn session_pairs_of(sessions: Seq<(String, u128)>) -> Seq<(Seq<char>, u128)> {
    Seq::new(sessions.len(), |i: int| (sessions[i].0@, sessions[i].1))
}

/// The tokens of the entries owned by `v`, in order.
pub open spec fn keys_with_value(s: Seq<(Seq<char>, u128)>, v: u128) -> Seq<Seq<char>>
    decreases s.len(),
{
    if s.len() == 0 {
        Seq::empty()
    } else if s[0].1 == v {
        seq![s[0].0] + keys_with_value(s.drop_first(), v)
    } else {
        keys_with_value(s.drop_first(), v)
    }
}

/// The reference storage backend: both capabilities over plain vectors.
/// Meant for tests and simulations, not for durable data.
pub struct InMemoryDataProvider {
    users: Vec<FullUser>,
    sessions: Vec<(String, u128)>,
}

proof fn lemma_user_pairs_unique(users: Seq<FullUser>)
    requires
        forall|i: int, j: int|
            0 <= i < j < users.len() ==> (#[trigger] users[i]).id != (#[trigger] users[j]).id,
    ensures
        keys_unique(user_pairs_of(users)),
{
    assert forall|i: int, j: int|
        0 <= i < j < user_pairs_of(users).len() implies (#[trigger] user_pairs_of(users)[i]).0
        != (#[trigger] user_pairs_of(users)[j]).0 by {
        assert(users[i].id != users[j].id);
    }
}

proof fn lemma_accounts_lookup(users: Seq<FullUser>, id: u128)
    requires
        forall|i: int, j: int|
            0 <= i < j < users.len() ==> (#[trigger] users[i]).id != (#[trigger] users[j]).id,
        assoc_map(user_pairs_of(users)).contains_key(id),
    ensures
        exists|i: int|
            0 <= i < users.len() && (#[trigger] users[i]).id == id && assoc_map(
                user_pairs_of(users),
            )[id] == users[i]@,
{
    let pairs = user_pairs_of(users);
    lemma_user_pairs_unique(users);
    lemma_assoc_map_key(pairs, id);
    let i = choose|i: int| 0 <= i < pairs.len() && (#[trigger] pairs[i]).0 == id;
    lemma_assoc_map_value(pairs, i);
    assert(0 <= i < users.len() && users[i].id == id && assoc_map(pairs)[id] == users[i]@);
}

impl InMemoryDataProvider {
    /// The account entries this provider holds.
    pub closed spec fn upairs(&self) -> Seq<(u128, FullUserView)> {
        user_pairs_of(self.users@)
    }

    /// The session entries this provider holds.
    pub closed spec fn spairs(&self) -> Seq<(Seq<char>, u128)> {
        session_pairs_of(self.sessions@)
    }

    /// Records are well formed, identifiers, usernames and emails pairwise
    /// distinct, every account keeps at least one authentication method,
    /// and session tokens are pairwise distinct.
    pub closed spec fn wf_state(&self) -> bool {
        &&& forall|i: int| 0 <= i < self.users@.len() ==> (#[trigger] self.users@[i]).wf()
        &&& forall|i: int|
            0 <= i < self.users@.len() ==> (#[trigger] self.users@[i]).authentication@.len() >= 1
        &&& forall|i: int, j: int|
            0 <= i < j < self.users@.len() ==> (#[trigger] self.users@[i]).id != (
            #[trigger] self.users@[j]).id
        &&& forall|i: int, j: int|
            0 <= i < j < self.users@.len() ==> (#[trigger] self.users@[i]).username@ != (
            #[trigger] self.users@[j]).username@
        &&& forall|i: int, j: int|
            0 <= i < j < self.users@.len() ==> (#[trigger] self.users@[i]).email@ != (
            #[trigger] self.users@[j]).email@
        &&& keys_unique(self.spairs())
    }

    /// A fresh, empty provider.
    pub fn new() -> (r: Self)
        ensures
            r.wf_state(),
            PersistentStorageProvider::accounts(&r) == Map::<u128, FullUserView>::empty(),
            TemporaryStorageProvider::sessions(&r) == Map::<Seq<char>, u128>::empty(),
    {
        let r = InMemoryDataProvider { users: Vec::new(), sessions: Vec::new() };
        proof {
            assert(r.upairs() =~= Seq::<(u128, FullUserView)>::empty());
            assert(r.spairs() =~= Seq::<(Seq<char>, u128)>::empty());
        }
        r
    }

    fn find_user_by_id(&self, id: u128) -> (r: Option<usize>)
        ensures
            match r {
                Some(i) => i < self.users@.len() && self.users@[i as int].id == id,
                None => forall|k: int|
                    0 <= k < self.users@.len() ==> (#[trigger] self.users@[k]).id != id,
            },
    {
        let mut i: usize = 0;
        while i < self.users.len()
            invariant
                i <= self.users@.len(),
                forall|k: int| 0 <= k < i ==> (#[trigger] self.users@[k]).id != id,
            decreases self.users@.len() - i,
        {
            if self.users[i].id == id {
                return Some(i);
            }
            i = i + 1;
        }
        None
    }

    fn find_user_by_username(&self, username: &String) -> (r: Option<usize>)
        ensures
            match r {
                Some(i) => i < self.users@.len() && self.users@[i as int].username@ == username@,
                None => forall|k: int|
                    0 <= k < self.users@.len() ==> (#[trigger] self.users@[k]).username@
                        != username@,
            },
    {
        let mut i: usize = 0;
        while i < self.users.len()
            invariant
                i <= self.users@.len(),
                forall|k: int| 0 <= k < i ==> (#[trigger] self.users@[k]).username@ != username@,
            decreases self.users@.len() - i,
        {
            if self.users[i].username.eq(username) {
                return Some(i);
            }
            i = i + 1;
        }
        None
    }

    fn find_user_by_email(&self, email: &String) -> (r: Option<usize>)
        ensures
            match r {
                Some(i) => i < self.users@.len() && self.users@[i as int].email@ == email@,
                None => forall|k: int|
                    0 <= k < self.users@.len() ==> (#[trigger] self.users@[k]).email@ != email@,
            },
    {
        let mut i: usize = 0;
        while i < self.users.len()
            invariant
                i <= self.users@.len(),
                forall|k: int| 0 <= k < i ==> (#[trigger] self.users@[k]).email@ != email@,
            decreases self.users@.len() - i,
        {
            if self.users[i].email.eq(email) {
                return Some(i);
            }
            i = i + 1;
        }
        None
    }

    fn find_session(&self, key: &String) -> (r: Option<usize>)
        ensures
            match r {
                Some(i) => i < self.sessions@.len() && self.sessions@[i as int].0@ == key@,
                None => forall|k: int|
                    0 <= k < self.sessions@.len() ==> (#[trigger] self.sessions@[k]).0@ != key@,
            },
    {
        let mut i: usize = 0;
        while i < self.sessions.len()
            invariant
                i <= self.sessions@.len(),
                forall|k: int| 0 <= k < i ==> (#[trigger] self.sessions@[k]).0@ != key@,
            decreases self.sessions@.len() - i,
        {
            if self.sessions[i].0.eq(key) {
                return Some(i);
            }
            i = i + 1;
        }
        None
    }

    /// The tokens of every session entry owned by `value`, in stored order.
    pub fn get_by_value(&self, value: u128) -> (r: Vec<String>)
        ensures
            r.deep_view() == keys_with_value(self.spairs(), value),
    {
        let ghost sp = self.spairs();
        let mut r: Vec<String> = Vec::new();
        assert(r.deep_view() =~~= Seq::<Seq<char>>::empty());
        assert(sp.skip(0) =~~= sp);
        assert(r.deep_view() + keys_with_value(sp.skip(0), value) =~~= keys_with_value(
            sp,
            value,
        ));
        let mut i: usize = 0;
        while i < self.sessions.len()
            invariant
                i <= self.sessions@.len(),
                sp == self.spairs(),
                sp.len() == self.sessions@.len(),
                keys_with_value(sp, value) == r.deep_view() + keys_with_value(
                    sp.skip(i as int),
                    value,
                ),
            decreases self.sessions@.len() - i,
        {
            let ghost prev = r.deep_view();
            proof {
                assert(sp.skip(i as int)[0] == sp[i as int]);
                assert(sp.skip(i as int).drop_first() =~~= sp.skip(i + 1));
                assert(sp[i as int] == (self.sessions@[i as int].0@, self.sessions@[i as int].1));
            }
            if self.sessions[i].1 == value {
                r.push(self.sessions[i].0.clone());
                assert(r.deep_view() =~~= prev.push(sp[i as int].0));
                assert(keys_with_value(sp.skip(i as int), value) =~~= seq![sp[i as int].0]
                    + keys_with_value(sp.skip(i + 1), value));
                assert(keys_with_value(sp, value) =~~= r.deep_view() + keys_with_value(
                    sp.skip(i + 1),
                    value,
                ));
            } else {
                assert(keys_with_value(sp, value) =~~= r.deep_view() + keys_with_value(
                    sp.skip(i + 1),
                    value,
                ));
            }
            i = i + 1;
        }
        assert(sp.skip(sp.len() as int) =~~= Seq::<(Seq<char>, u128)>::empty());
        assert(r.deep_view() =~~= keys_with_value(sp, value));
        r
    }

    /// Revocation of all of one owner's sessions: removes every session
    /// entry owned by `value` and none belonging to any other owner. The
    /// reference backend never fails this operation.
    pub fn drop_sessions_for(&mut self, value: u128)
        requires
            old(self).wf_state(),
        ensures
            final(self).wf_state(),
            final(self).sessions() == drop_value(old(self).sessions(), value),
    {
        let ghost sp = self.spairs();
        proof {
            lemma_assoc_map_keep_not_value(sp, value);
        }
        let mut kept: Vec<(String, u128)> = Vec::new();
        assert(session_pairs_of(kept@) =~~= Seq::<(Seq<char>, u128)>::empty());
        assert(sp.skip(0) =~~= sp);
        assert(session_pairs_of(kept@) + keep_not_value(sp.skip(0), value) =~~= keep_not_value(
            sp,
            value,
        ));
        let mut i: usize = 0;
        while i < self.sessions.len()
            invariant
                i <= self.sessions@.len(),
                sp == self.spairs(),
                sp.len() == self.sessions@.len(),
                keep_not_value(sp, value) == session_pairs_of(kept@) + keep_not_value(
                    sp.skip(i as int),
                    value,
                ),
            decreases self.sessions@.len() - i,
        {
            let ghost prev = session_pairs_of(kept@);
            proof {
                assert(sp.skip(i as int)[0] == sp[i as int]);
                assert(sp.skip(i as int).drop_first() =~~= sp.skip(i + 1));
                assert(sp[i as int] == (self.sessions@[i as int].0@, self.sessions@[i as int].1));
            }
            if self.sessions[i].1 != value {
                kept.push((self.sessions[i].0.clone(), self.sessions[i].1));
                assert(session_pairs_of(kept@) =~~= prev.push(sp[i as int]));
                assert(keep_not_value(sp.skip(i as int), value) =~~= seq![sp[i as int]]
                    + keep_not_value(sp.skip(i + 1), value));
                assert(keep_not_value(sp, value) =~~= session_pairs_of(kept@) + keep_not_value(
                    sp.skip(i + 1),
                    value,
                ));
            } else {
                assert(keep_not_value(sp, value) =~~= session_pairs_of(kept@) + keep_not_value(
                    sp.skip(i + 1),
                    value,
                ));
            }
            i = i + 1;
        }
        assert(sp.skip(sp.len() as int) =~~= Seq::<(Seq<char>, u128)>::empty());
        assert(session_pairs_of(kept@) =~~= keep_not_value(sp, value));
        self.sessions = kept;
        assert(assoc_map(self.spairs()) =~= drop_value(assoc_map(sp), value));
    }

    /// Uniqueness of accounts: registration succeeds exactly when the
    /// identifier, the username and the email are all unused; a clash
    /// fails with the matching duplicate error and stores nothing. The
    /// reference backend never fails for any other reason.
    pub fn register_account(&mut self, user: FullUser) -> (r: Result<(), StoreError>)
        requires
            old(self).wf_state(),
            user.wf(),
            user.authentication@.len() >= 1,
        ensures
            final(self).wf_state(),
            final(self).sessions() == old(self).sessions(),
            r is Ok <==> {
                &&& !old(self).accounts().contains_key(user.id)
                &&& forall|id: u128|
                    old(self).accounts().contains_key(id) ==> (#[trigger] old(
                        self,
                    ).accounts()[id]).username != user@.username && old(self).accounts()[id].email
                        != user@.email
            },
            r matches Ok(ok) ==> final(self).accounts() == old(self).accounts().insert(
                user.id,
                user@,
            ),
            r == Err::<(), StoreError>(StoreError::DuplicateUsername) <==> exists|id: u128|
                #[trigger] old(self).accounts().contains_key(id) && old(self).accounts()[
                    id].username == user@.username,
            r == Err::<(), StoreError>(StoreError::DuplicateEmail) <==> ((forall|id: u128|
                old(self).accounts().contains_key(id) ==> (#[trigger] old(
                    self,
                ).accounts()[id]).username != user@.username) && exists|id: u128|
                #[trigger] old(self).accounts().contains_key(id) && old(self).accounts()[id].email
                    == user@.email),
            r == Err::<(), StoreError>(StoreError::DuplicateId) <==> ((forall|id: u128|
                old(self).accounts().contains_key(id) ==> (#[trigger] old(
                    self,
                ).accounts()[id]).username != user@.username && old(self).accounts()[id].email
                    != user@.email) && old(self).accounts().contains_key(user.id)),
            r is Err ==> final(self).accounts() == old(self).accounts(),
            r is Ok || r == Err::<(), StoreError>(StoreError::DuplicateUsername) || r == Err::<
                (),
                StoreError,
            >(StoreError::DuplicateEmail) || r == Err::<(), StoreError>(StoreError::DuplicateId),
    {
        proof {
            lemma_user_pairs_unique(self.users@);
        }
        if let Some(i) = self.find_user_by_username(&user.username) {
            proof {
                lemma_assoc_map_value(self.upairs(), i as int);
                let id = self.users@[i as int].id;
                assert(self.accounts().contains_key(id) && self.accounts()[id].username
                    == user@.username);
            }
            return Err(StoreError::DuplicateUsername);
        }
        if let Some(i) = self.find_user_by_email(&user.email) {
            proof {
                lemma_assoc_map_value(self.upairs(), i as int);
                let id = self.users@[i as int].id;
                assert(self.accounts().contains_key(id) && self.accounts()[id].email
                    == user@.email);
            }
            assert forall|id: u128|
                self.accounts().contains_key(id) implies (#[trigger] self.accounts()[id]).username
                != user@.username by {
                lemma_accounts_lookup(self.users@, id);
            }
            return Err(StoreError::DuplicateEmail);
        }
        if let Some(i) = self.find_user_by_id(user.id) {
            proof {
                lemma_assoc_map_value(self.upairs(), i as int);
            }
            assert forall|id: u128|
                self.accounts().contains_key(id) implies (#[trigger] self.accounts()[id]).username
                != user@.username && self.accounts()[id].email != user@.email by {
                lemma_accounts_lookup(self.users@, id);
            }
            assert(self.accounts().contains_key(user.id));
            return Err(StoreError::DuplicateId);
        }
        let ghost up = self.upairs();
        let ghost prev_users = self.users@;
        proof {
            lemma_assoc_map_push(up, (user.id, user@));
            lemma_assoc_map_key(up, user.id);
            if assoc_map(up).contains_key(user.id) {
                let k = choose|k: int| 0 <= k < up.len() && (#[trigger] up[k]).0 == user.id;
                assert(prev_users[k].id == user.id);
                assert(false);
            }
            assert forall|id: u128|
                self.accounts().contains_key(id) implies (#[trigger] self.accounts()[id]).username
                != user@.username && self.accounts()[id].email != user@.email by {
                lemma_accounts_lookup(prev_users, id);
            }
        }
        self.users.push(user);
        assert(self.upairs() =~= up.push((user.id, user@))) by {
            assert(self.users@ =~= prev_users.push(user));
        }
        assert(self.wf_state()) by {
            assert(forall|k: int|
                0 <= k < prev_users.len() ==> self.users@[k] == #[trigger] prev_users[k]);
            assert(self.users@[prev_users.len() as int] == user);
        }
        Ok(())
    }
}

impl TemporaryStorageProvider for InMemoryDataProvider {
    open spec fn sessions(&self) -> Map<Seq<char>, u128> {
        assoc_map(self.spairs())
    }

    open spec fn inv(&self) -> bool {
        self.wf_state()
    }

    fn get(&mut self, key: String) -> (r: Option<u128>) {
        match self.find_session(&key) {
            Some(i) => {
                proof {
                    lemma_assoc_map_value(self.spairs(), i as int);
                    assert(self.spairs()[i as int] == (
                        self.sessions@[i as int].0@,
                        self.sessions@[i as int].1,
                    ));
                }
                Some(self.sessions[i].1)
            },
            None => {
                proof {
                    lemma_assoc_map_key(self.spairs(), key@);
                    if assoc_map(self.spairs()).contains_key(key@) {
                        let k = choose|k: int|
                            0 <= k < self.spairs().len() && (#[trigger] self.spairs()[k]).0
                                == key@;
                        assert(self.sessions@[k].0@ == key@);
                        assert(false);
                    }
                }
                None
            },
        }
    }

    fn set(&mut self, key: String, value: u128) -> (r: bool)
        ensures
            r,
    {
        let ghost sp = self.spairs();
        match self.find_session(&key) {
            Some(i) => {
                proof {
                    lemma_assoc_map_value(sp, i as int);
                    lemma_assoc_map_remove(sp, i as int);
                }
                self.sessions.remove(i);
                assert(self.spairs() =~= sp.remove(i as int));
            },
            None => {
                proof {
                    lemma_assoc_map_key(sp, key@);
                    if assoc_map(sp).contains_key(key@) {
                        let k = choose|k: int|
                            0 <= k < sp.len() && (#[trigger] sp[k]).0 == key@;
                        assert(self.sessions@[k].0@ == key@);
                        assert(false);
                    }
                    assert(assoc_map(sp).remove(key@) =~= assoc_map(sp));
                }
            },
        }
        let ghost mid = self.spairs();
        proof {
            lemma_assoc_map_push(mid, (key@, value));
            assert forall|k: int| 0 <= k < mid.len() implies (#[trigger] mid[k]).0 != key@ by {
                lemma_assoc_map_key(mid, key@);
                if mid[k].0 == key@ {
                    assert(assoc_map(mid).contains_key(key@));
                    assert(false);
                }
            }
            assert(keys_unique(mid.push((key@, value))));
        }
        self.sessions.push((key, value));
        assert(self.spairs() =~= mid.push((key@, value)));
        assert(assoc_map(self.spairs()) =~= assoc_map(sp).insert(key@, value));
        true
    }

    fn delete(&mut self, key: String) -> (r: bool)
        ensures
            r,
    {
        let ghost sp = self.spairs();
        match self.find_session(&key) {
            Some(i) => {
                proof {
                    lemma_assoc_map_remove(sp, i as int);
                }
                self.sessions.remove(i);
                assert(self.spairs() =~= sp.remove(i as int));
            },
            None => {
                proof {
                    lemma_assoc_map_key(sp, key@);
                    if assoc_map(sp).contains_key(key@) {
                        let k = choose|k: int|
                            0 <= k < sp.len() && (#[trigger] sp[k]).0 == key@;
                        assert(self.sessions@[k].0@ == key@);
                        assert(false);
                    }
                    assert(assoc_map(sp).remove(key@) =~= assoc_map(sp));
                }
            },
        }
        true
    }

    fn drop_all(&mut self, value: u128) -> (r: bool)
        ensures
            r,
    {
        self.drop_sessions_for(value);
        true
    }
}

impl PersistentStorageProvider for InMemoryDataProvider {
    open spec fn accounts(&self) -> Map<u128, FullUserView> {
        assoc_map(self.upairs())
    }

    open spec fn inv(&self) -> bool {
        self.wf_state()
    }

    fn get_user_by_username(&self, username: String) -> (r: Option<FullUser>) {
        proof {
            lemma_user_pairs_unique(self.users@);
        }
        match self.find_user_by_username(&username) {
            Some(i) => {
                proof {
                    lemma_assoc_map_value(self.upairs(), i as int);
                    assert(self.upairs()[i as int] == (
                        self.users@[i as int].id,
                        self.users@[i as int]@,
                    ));
                }
                let u = self.users[i].duplicate();
                Some(u)
            },
            None => {
                proof {
                    assert forall|id: u128|
                        self.accounts().contains_key(id) implies (
                    #[trigger] self.accounts()[id]).username != username@ by {
                        lemma_accounts_lookup(self.users@, id);
                    }
                }
                None
            },
        }
    }

    fn get_user_by_email(&self, email: String) -> (r: Option<FullUser>) {
        proof {
            lemma_user_pairs_unique(self.users@);
        }
        match self.find_user_by_email(&email) {
            Some(i) => {
                proof {
                    lemma_assoc_map_value(self.upairs(), i as int);
                    assert(self.upairs()[i as int] == (
                        self.users@[i as int].id,
                        self.users@[i as int]@,
                    ));
                }
                let u = self.users[i].duplicate();
                Some(u)
            },
            None => {
                proof {
                    assert forall|id: u128|
                        self.accounts().contains_key(id) implies (
                    #[trigger] self.accounts()[id]).email != email@ by {
                        lemma_accounts_lookup(self.users@, id);
                    }
                }
                None
            },
        }
    }

    fn get_user_by_id(&self, id: u128) -> (r: Option<FullUser>) {
        proof {
            lemma_user_pairs_unique(self.users@);
        }
        match self.find_user_by_id(id) {
            Some(i) => {
                proof {
                    lemma_assoc_map_value(self.upairs(), i as int);
                    assert(self.upairs()[i as int] == (
                        self.users@[i as int].id,
                        self.users@[i as int]@,
                    ));
                }
                let u = self.users[i].duplicate();
                Some(u)
            },
            None => {
                proof {
                    lemma_assoc_map_key(self.upairs(), id);
                    if self.accounts().contains_key(id) {
                        let k = choose|k: int|
                            0 <= k < self.upairs().len() && (#[trigger] self.upairs()[k]).0 == id;
                        assert(self.users@[k].id == id);
                        assert(false);
                    }
                }
                None
            },
        }
    }

    fn does_username_exist(&self, username: String) -> (r: bool) {
        proof {
            lemma_user_pairs_unique(self.users@);
        }
        match self.find_user_by_username(&username) {
            Some(i) => {
                proof {
                    lemma_assoc_map_value(self.upairs(), i as int);
                    let id = self.users@[i as int].id;
                    assert(self.accounts().contains_key(id) && self.accounts()[id].username
                        == username@);
                }
                true
            },
            None => {
                proof {
                    assert forall|id: u128|
                        self.accounts().contains_key(id) implies (
                    #[trigger] self.accounts()[id]).username != username@ by {
                        lemma_accounts_lookup(self.users@, id);
                    }
                }
                false
            },
        }
    }

    fn does_email_exist(&self, email: String) -> (r: bool) {
        proof {
            lemma_user_pairs_unique(self.users@);
        }
        match self.find_user_by_email(&email) {
            Some(i) => {
                proof {
                    lemma_assoc_map_value(self.upairs(), i as int);
                    let id = self.users@[i as int].id;
                    assert(self.accounts().contains_key(id) && self.accounts()[id].email
                        == email@);
                }
                true
            },
            None => {
                proof {
                    assert forall|id: u128|
                        self.accounts().contains_key(id) implies (
                    #[trigger] self.accounts()[id]).email != email@ by {
                        lemma_accounts_lookup(self.users@, id);
                    }
                }
                false
            },
        }
    }

    fn register_user(&mut self, user: FullUser) -> (r: Result<(), StoreError>)
        ensures
            r is Ok <==> {
                &&& !old(self).accounts().contains_key(user.id)
                &&& forall|id: u128|
                    old(self).accounts().contains_key(id) ==> (#[trigger] old(
                        self,
                    ).accounts()[id]).username != user@.username && old(self).accounts()[id].email
                        != user@.email
            },
            r matches Err(e) ==> (e == StoreError::DuplicateUsername
                || e == StoreError::DuplicateEmail || e == StoreError::DuplicateId),
    {
        self.register_account(user)
    }

    fn delete_user(&mut self, id: u128) -> (r: Result<(), StoreError>)
        ensures
            r is Ok <==> old(self).accounts().contains_key(id),
            r matches Err(e) ==> e == StoreError::NotFound,
    {
        proof {
            lemma_user_pairs_unique(self.users@);
        }
        match self.find_user_by_id(id) {
            Some(i) => {
                let ghost up = self.upairs();
                let ghost prev_users = self.users@;
                proof {
                    lemma_assoc_map_value(up, i as int);
                    lemma_assoc_map_remove(up, i as int);
                }
                self.users.remove(i);
                assert(self.upairs() =~= up.remove(i as int)) by {
                    assert(self.users@ =~= prev_users.remove(i as int));
                }
                assert(self.wf_state()) by {
                    assert forall|k: int|
                        0 <= k < self.users@.len() implies #[trigger] self.users@[k] == if k
                        < i {
                        prev_users[k]
                    } else {
                        prev_users[k + 1]
                    } by {
                        assert(self.users@ =~= prev_users.remove(i as int));
                    }
                }
                Ok(())
            },
            None => {
                proof {
                    lemma_assoc_map_key(self.upairs(), id);
                    if self.accounts().contains_key(id) {
                        let k = choose|k: int|
                            0 <= k < self.upairs().len() && (#[trigger] self.upairs()[k]).0 == id;
                        assert(self.users@[k].id == id);
                        assert(false);
                    }
                }
                Err(StoreError::NotFound)
            },
        }
    }

    fn verify_user(&mut self, id: u128) -> (r: Result<(), StoreError>)
        ensures
            r is Ok <==> old(self).accounts().contains_key(id),
            r matches Err(e) ==> e == StoreError::NotFound,
    {
        proof {
            lemma_user_pairs_unique(self.users@);
        }
        match self.find_user_by_id(id) {
            Some(i) => {
                let ghost up = self.upairs();
                let ghost prev_users = self.users@;
                proof {
                    lemma_assoc_map_value(up, i as int);
                    lemma_assoc_map_remove(up, i as int);
                }
                let mut u = self.users.remove(i);
                assert(self.upairs() =~= up.remove(i as int)) by {
                    assert(self.users@ =~= prev_users.remove(i as int));
                }
                u.verification_token = None;
                assert(u@ =~~= (FullUserView { verification_token: None, ..prev_users[i as int]@ }));
                let ghost mid = self.upairs();
                let ghost mid_users = self.users@;
                proof {
                    lemma_assoc_map_push(mid, (id, u@));
                    assert forall|k: int| 0 <= k < mid.len() implies (#[trigger] mid[k]).0
                        != id by {
                        assert(mid_users[k] == if k < i {
                            prev_users[k]
                        } else {
                            prev_users[k + 1]
                        });
                    }
                    assert(keys_unique(mid.push((id, u@))));
                }
                self.users.push(u);
                assert(self.upairs() =~= mid.push((id, u@))) by {
                    assert(self.users@ =~= mid_users.push(u));
                }
                assert(self.accounts() =~= assoc_map(up).insert(
                    id,
                    (FullUserView { verification_token: None, ..assoc_map(up)[id] }),
                ));
                assert(self.wf_state()) by {
                    assert(forall|k: int|
                        0 <= k < mid_users.len() ==> self.users@[k] == #[trigger] mid_users[k]);
                    assert(forall|k: int|
                        0 <= k < mid_users.len() ==> mid_users[k] == if k < i {
                            #[trigger] prev_users[k]
                        } else {
                            prev_users[k + 1]
                        });
                    assert(self.users@[mid_users.len() as int] == u);
                    assert(u.wf() && u.authentication@.len() >= 1) by {
                        assert(prev_users[i as int].wf());
                    }
                }
                Ok(())
            },
            None => {
                proof {
                    lemma_assoc_map_key(self.upairs(), id);
                    if self.accounts().contains_key(id) {
                        let k = choose|k: int|
                            0 <= k < self.upairs().len() && (#[trigger] self.upairs()[k]).0 == id;
                        assert(self.users@[k].id == id);
                        assert(false);
                    }
                }
                Err(StoreError::NotFound)
            },
        }
    }

    fn get_authentication_methods(&self, id: u128) -> (r: Result<Vec<i16>, StoreError>)
        ensures
            r is Ok <==> self.accounts().contains_key(id),
            r matches Err(e) ==> e == StoreError::NotFound,
    {
        proof {
            lemma_user_pairs_unique(self.users@);
        }
        match self.find_user_by_id(id) {
            Some(i) => {
                proof {
                    lemma_assoc_map_value(self.upairs(), i as int);
                    assert(self.upairs()[i as int] == (
                        self.users@[i as int].id,
                        self.users@[i as int]@,
                    ));
                }
                let tags = auth_tags(&self.users[i].authentication);
                let ghost pairs = self.users@[i as int].authentication.deep_view();
                proof {
                    assert(self.users@[i as int].wf());
                    lemma_assoc_map_len(pairs);
                    assert(tags@.no_duplicates()) by {
                        assert forall|a: int, b: int|
                            0 <= a < tags@.len() && 0 <= b < tags@.len() && a != b implies tags@[a]
                            != tags@[b] by {
                            if a < b {
                                assert(pairs[a].0 != pairs[b].0);
                            } else {
                                assert(pairs[b].0 != pairs[a].0);
                            }
                        }
                    }
                    assert forall|t: i16|
                        tags@.contains(t) <==> #[trigger] self.accounts()[
                        id].authentication.contains_key(t) by {
                        lemma_assoc_map_key(pairs, t);
                        if tags@.contains(t) {
                            let a = choose|a: int| 0 <= a < tags@.len() && tags@[a] == t;
                            assert(pairs[a].0 == t);
                        }
                        if self.accounts()[id].authentication.contains_key(t) {
                            let a = choose|a: int|
                                0 <= a < pairs.len() && (#[trigger] pairs[a]).0 == t;
                            assert(tags@[a] == t);
                        }
                    }
                }
                Ok(tags)
            },
            None => {
                proof {
                    lemma_assoc_map_key(self.upairs(), id);
                    if self.accounts().contains_key(id) {
                        let k = choose|k: int|
                            0 <= k < self.upairs().len() && (#[trigger] self.upairs()[k]).0 == id;
                        assert(self.users@[k].id == id);
                        assert(false);
                    }
                }
                Err(StoreError::NotFound)
            },
        }
    }

    fn update_authentication_method_value(
        &mut self,
        id: u128,
        method: i16,
        new_value: String,
    ) -> (r: Result<(), StoreError>)
        ensures
            r is Ok <==> old(self).accounts().contains_key(id),
            r matches Err(e) ==> e == StoreError::NotFound,
    {
        proof {
            lemma_user_pairs_unique(self.users@);
        }
        match self.find_user_by_id(id) {
            Some(i) => {
                let ghost up = self.upairs();
                let ghost prev_users = self.users@;
                proof {
                    lemma_assoc_map_value(up, i as int);
                    lemma_assoc_map_remove(up, i as int);
                }
                let mut u = self.users.remove(i);
                assert(self.upairs() =~= up.remove(i as int)) by {
                    assert(self.users@ =~= prev_users.remove(i as int));
                }
                assert(u.wf()) by {
                    assert(prev_users[i as int].wf());
                }
                auth_upsert(&mut u.authentication, method, new_value);
                assert(u@ =~~= (FullUserView {
                    authentication: prev_users[i as int]@.authentication.insert(
                        method,
                        new_value@,
                    ),
                    ..prev_users[i as int]@
                }));
                let ghost mid = self.upairs();
                let ghost mid_users = self.users@;
                proof {
                    lemma_assoc_map_push(mid, (id, u@));
                    assert forall|k: int| 0 <= k < mid.len() implies (#[trigger] mid[k]).0
                        != id by {
                        assert(mid_users[k] == if k < i {
                            prev_users[k]
                        } else {
                            prev_users[k + 1]
                        });
                    }
                    assert(keys_unique(mid.push((id, u@))));
                }
                self.users.push(u);
                assert(self.upairs() =~= mid.push((id, u@))) by {
                    assert(self.users@ =~= mid_users.push(u));
                }
                assert(self.accounts() =~= assoc_map(up).insert(
                    id,
                    (FullUserView {
                        authentication: assoc_map(up)[id].authentication.insert(
                            method,
                            new_value@,
                        ),
                        ..assoc_map(up)[id]
                    }),
                ));
                assert(self.wf_state()) by {
                    assert(forall|k: int|
                        0 <= k < mid_users.len() ==> self.users@[k] == #[trigger] mid_users[k]);
                    assert(forall|k: int|
                        0 <= k < mid_users.len() ==> mid_users[k] == if k < i {
                            #[trigger] prev_users[k]
                        } else {
                            prev_users[k + 1]
                        });
                    assert(self.users@[mid_users.len() as int] == u);
                }
                Ok(())
            },
            None => {
                proof {
                    lemma_assoc_map_key(self.upairs(), id);
                    if self.accounts().contains_key(id) {
                        let k = choose|k: int|
                            0 <= k < self.upairs().len() && (#[trigger] self.upairs()[k]).0 == id;
                        assert(self.users@[k].id == id);
                        assert(false);
                    }
                }
                Err(StoreError::NotFound)
            },
        }
    }

    fn remove_authentication_method(&mut self, id: u128, method: i16) -> (r: Result<
        (),
        StoreError,
    >)
        ensures
            r is Ok <==> old(self).accounts().contains_key(id),
            r matches Err(e) ==> e == StoreError::NotFound,
    {
        proof {
            lemma_user_pairs_unique(self.users@);
        }
        match self.find_user_by_id(id) {
            Some(i) => {
                let ghost up = self.upairs();
                let ghost prev_users = self.users@;
                proof {
                    lemma_assoc_map_value(up, i as int);
                    lemma_assoc_map_remove(up, i as int);
                }
                let mut u = self.users.remove(i);
                assert(self.upairs() =~= up.remove(i as int)) by {
                    assert(self.users@ =~= prev_users.remove(i as int));
                }
                assert(u.wf()) by {
                    assert(prev_users[i as int].wf());
                }
                let ghost auth_before = u.authentication.deep_view();
                let had = auth_remove(&mut u.authentication, method);
                assert(u@ =~~= (FullUserView {
                    authentication: prev_users[i as int]@.authentication.remove(method),
                    ..prev_users[i as int]@
                }));
                proof {
                    lemma_assoc_map_len(auth_before);
                    lemma_assoc_map_len(u.authentication.deep_view());
                    if had {
                        assert(assoc_map(auth_before).dom().len() >= 2);
                        assert(assoc_map(u.authentication.deep_view()).dom() =~= assoc_map(
                            auth_before,
                        ).dom().remove(method));
                    }
                    assert(u.authentication@.len() >= 1) by {
                        assert(u.authentication.deep_view().len()
                            == u.authentication@.len());
                    }
                }
                let ghost mid = self.upairs();
                let ghost mid_users = self.users@;
                proof {
                    lemma_assoc_map_push(mid, (id, u@));
                    assert forall|k: int| 0 <= k < mid.len() implies (#[trigger] mid[k]).0
                        != id by {
                        assert(mid_users[k] == if k < i {
                            prev_users[k]
                        } else {
                            prev_users[k + 1]
                        });
                    }
                    assert(keys_unique(mid.push((id, u@))));
                }
                self.users.push(u);
                assert(self.upairs() =~= mid.push((id, u@))) by {
                    assert(self.users@ =~= mid_users.push(u));
                }
                assert(self.accounts() =~= assoc_map(up).insert(
                    id,
                    (FullUserView {
                        authentication: assoc_map(up)[id].authentication.remove(method),
                        ..assoc_map(up)[id]
                    }),
                ));
                assert(self.wf_state()) by {
                    assert(forall|k: int|
                        0 <= k < mid_users.len() ==> self.users@[k] == #[trigger] mid_users[k]);
                    assert(forall|k: int|
                        0 <= k < mid_users.len() ==> mid_users[k] == if k < i {
                            #[trigger] prev_users[k]
                        } else {
                            prev_users[k + 1]
                        });
                    assert(self.users@[mid_users.len() as int] == u);
                }
                Ok(())
            },
            None => {
                proof {
                    lemma_assoc_map_key(self.upairs(), id);
                    if self.accounts().contains_key(id) {
                        let k = choose|k: int|
                            0 <= k < self.upairs().len() && (#[trigger] self.upairs()[k]).0 == id;
                        assert(self.users@[k].id == id);
                        assert(false);
                    }
                }
                Err(StoreError::NotFound)
            },
        }
    }
}

} // verus!
