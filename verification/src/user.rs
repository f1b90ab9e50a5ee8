use vstd::prelude::*;

use crate::assoc::{
    assoc_map, keys_unique, lemma_assoc_map_key, lemma_assoc_map_push, lemma_assoc_map_remove,
    lemma_assoc_map_value,
};
use crate::text::push_char;

verus! {

// ---------------------------------------------------------------------------
// Decimal rendering of account identifiers.
// ---------------------------------------------------------------------------

/// The digit character for `d` in `0..10`.
pub open spec fn digit_char(d: int) -> char {
    if d == 0 {
        '0'
    } else if d == 1 {
        '1'
    } else if d == 2 {
        '2'
    } else if d == 3 {
        '3'
    } else if d == 4 {
        '4'
    } else if d == 5 {
        '5'
    } else if d == 6 {
        '6'
    } else if d == 7 {
        '7'
    } else if d == 8 {
        '8'
    } else {
        '9'
    }
}

/// The decimal rendering of a natural number, most significant digit first.
pub open spec fn decimal_of(n: nat) -> Seq<char>
    decreases n,
{
    if n < 10 {
        seq![digit_char(n as int)]
    } else {
        decimal_of(n / 10) + seq![digit_char((n % 10) as int)]
    }
}

fn digit_char_exec(d: u128) -> (c: char)
    requires
        d < 10,
    ensures
        c == digit_char(d as int),
{
    if d == 0 {
        '0'
    } else if d == 1 {
        '1'
    } else if d == 2 {
        '2'
    } else if d == 3 {
        '3'
    } else if d == 4 {
        '4'
    } else if d == 5 {
        '5'
    } else if d == 6 {
        '6'
    } else if d == 7 {
        '7'
    } else if d == 8 {
        '8'
    } else {
        '9'
    }
}

/// Renders an account identifier in decimal.
pub fn u128_to_string(n: u128) -> (r: String)
    ensures
        r@ == decimal_of(n as nat),
    decreases n,
{
    if n < 10 {
        let mut s = String::new();
        push_char(&mut s, digit_char_exec(n));
        assert(s@ =~= decimal_of(n as nat));
        s
    } else {
        let mut s = u128_to_string(n / 10);
        push_char(&mut s, digit_char_exec(n % 10));
        assert(s@ =~= decimal_of(n as nat));
        s
    }
}

// ---------------------------------------------------------------------------
// Account records.
// ---------------------------------------------------------------------------

/// The authentication-method map of an account: each power-of-two tag maps
/// to the credential held for that method.
pub type UserAuthenticationMap = Vec<(i16, String)>;

/// The public shape of an account: what `to_user` exposes to clients.
#[derive(Debug)]
pub struct User {
    pub id: String,
    pub username: String,
    pub email: String,
    pub created_at: usize,
    /// The user's roles, read with bitwise operations.
    pub roles: usize,
    /// The linked authentication methods, the bitwise OR of their tags.
    pub authentication: i16,
    pub verified: bool,
}

/// The payload needed to register an account.
pub struct UserRegistration {
    pub username: String,
    pub email: String,
    pub password: String,
}

/// The payload needed to log in.
pub struct UserLogin {
    pub username: String,
    pub password: String,
}

/// A full account record as the stores hold it.
#[derive(Debug)]
pub struct FullUser {
    pub id: u128,
    pub username: String,
    pub email: String,
    /// Seconds since the Unix epoch at creation.
    pub created_at: i64,
    /// The user's roles, read with bitwise operations.
    pub roles: usize,
    /// Tag-to-credential entries; a persisted account always has at least
    /// one, and its tags are pairwise distinct.
    pub authentication: UserAuthenticationMap,
    /// Present exactly while the account is unverified.
    pub verification_token: Option<String>,
}

/// The mathematical shape of an account record.
#[verifier::ext_equal]
pub ghost struct FullUserView {
    pub id: u128,
    pub username: Seq<char>,
    pub email: Seq<char>,
    pub created_at: i64,
    pub roles: usize,
    pub authentication: Map<i16, Seq<char>>,
    pub verification_token: Option<Seq<char>>,
}

impl View for FullUser {
    type V = FullUserView;

    open spec fn view(&self) -> FullUserView {
        FullUserView {
            id: self.id,
            username: self.username@,
            email: self.email@,
            created_at: self.created_at,
            roles: self.roles,
            authentication: assoc_map(self.authentication.deep_view()),
            verification_token: self.verification_token.deep_view(),
        }
    }
}

impl DeepView for FullUser {
    type V = FullUserView;

    open spec fn deep_view(&self) -> FullUserView {
        self.view()
    }
}

/// The bitwise OR of all authentication tags.
pub open spec fn tags_mask(pairs: Seq<(i16, Seq<char>)>) -> i16
    decreases pairs.len(),
{
    if pairs.len() == 0 {
        0
    } else {
        pairs[0].0 | tags_mask(pairs.drop_first())
    }
}

impl FullUser {
    /// The record is well formed: its authentication tags are distinct.
    pub open spec fn wf(&self) -> bool {
        keys_unique(self.authentication.deep_view())
    }

    /// A field-by-field copy.
    pub fn duplicate(&self) -> (r: FullUser)
        ensures
            r@ == self@,
            r.authentication.deep_view() == self.authentication.deep_view(),
    {
        let mut authentication: UserAuthenticationMap = Vec::new();
        let ghost pairs = self.authentication.deep_view();
        let mut i: usize = 0;
        while i < self.authentication.len()
            invariant
                i <= self.authentication@.len(),
                pairs == self.authentication.deep_view(),
                pairs.len() == self.authentication@.len(),
                authentication.deep_view() == pairs.take(i as int),
            decreases self.authentication@.len() - i,
        {
            let ghost prev = authentication.deep_view();
            let entry = &self.authentication[i];
            authentication.push((entry.0, entry.1.clone()));
            assert(authentication.deep_view() =~~= prev.push(pairs[i as int]));
            assert(pairs.take(i + 1) =~~= pairs.take(i as int).push(pairs[i as int]));
            i = i + 1;
        }
        assert(authentication.deep_view() =~~= pairs);
        let verification_token = match &self.verification_token {
            Some(t) => Some(t.clone()),
            None => None,
        };
        let r = FullUser {
            id: self.id,
            username: self.username.clone(),
            email: self.email.clone(),
            created_at: self.created_at,
            roles: self.roles,
            authentication,
            verification_token,
        };
        assert(r@ =~~= self@);
        r
    }

    /// Reduces the record to its public shape: the identifier in decimal,
    /// the authentication map folded to its tag bitmask, verification
    /// reduced to a flag.
    pub fn to_user(&self) -> (r: User)
        ensures
            r.id@ == decimal_of(self.id as nat),
            r.username@ == self@.username,
            r.email@ == self@.email,
            r.created_at == self.created_at as usize,
            r.roles == self.roles,
            r.authentication == tags_mask(self.authentication.deep_view()),
            r.verified == self@.verification_token is None,
    {
        let ghost pairs = self.authentication.deep_view();
        let mut mask: i16 = 0;
        assert(pairs.skip(0) =~~= pairs);
        proof {
            let tm = tags_mask(pairs);
            assert((0i16 | tm) == tm) by (bit_vector);
        }
        let mut i: usize = 0;
        while i < self.authentication.len()
            invariant
                i <= self.authentication@.len(),
                pairs == self.authentication.deep_view(),
                pairs.len() == self.authentication@.len(),
                (mask | tags_mask(pairs.skip(i as int))) == tags_mask(pairs),
            decreases self.authentication@.len() - i,
        {
            proof {
                assert(pairs.skip(i as int)[0] == pairs[i as int]);
                assert(pairs.skip(i as int).drop_first() =~~= pairs.skip(i + 1));
                assert(pairs[i as int].0 == self.authentication@[i as int].0);
            }
            let tag = self.authentication[i].0;
            let ghost old_mask = mask;
            let ghost rest = tags_mask(pairs.skip(i + 1));
            mask = mask | tag;
            proof {
                let t = tag;
                assert((old_mask | (t | rest)) == ((old_mask | t) | rest)) by (bit_vector);
            }
            i = i + 1;
        }
        proof {
            assert(pairs.skip(pairs.len() as int) =~~= Seq::<(i16, Seq<char>)>::empty());
            let m = mask;
            assert((m | 0i16) == m) by (bit_vector);
        }
        User {
            id: u128_to_string(self.id),
            username: self.username.clone(),
            email: self.email.clone(),
            created_at: #[verifier::truncate] (self.created_at as usize),
            roles: self.roles,
            authentication: mask,
            verified: match &self.verification_token {
                Some(_) => false,
                None => true,
            },
        }
    }
}

// ---------------------------------------------------------------------------
// Operations on authentication-method maps.
// ---------------------------------------------------------------------------

/// Looks an authentication method up by its tag.
pub fn auth_get(auth: &UserAuthenticationMap, tag: i16) -> (r: Option<String>)
    requires
        keys_unique(auth.deep_view()),
    ensures
        match r {
            Some(value) => assoc_map(auth.deep_view()).contains_key(tag) && value@ == assoc_map(
                auth.deep_view(),
            )[tag],
            None => !assoc_map(auth.deep_view()).contains_key(tag),
        },
{
    let ghost pairs = auth.deep_view();
    let mut i: usize = 0;
    while i < auth.len()
        invariant
            i <= auth@.len(),
            pairs == auth.deep_view(),
            pairs.len() == auth@.len(),
            keys_unique(pairs),
            forall|k: int| 0 <= k < i ==> (#[trigger] pairs[k]).0 != tag,
        decreases auth@.len() - i,
    {
        proof {
            assert(pairs[i as int].0 == auth@[i as int].0);
            assert(pairs[i as int].1 == auth@[i as int].1@);
        }
        if auth[i].0 == tag {
            proof {
                lemma_assoc_map_value(pairs, i as int);
            }
            return Some(auth[i].1.clone());
        }
        i = i + 1;
    }
    proof {
        lemma_assoc_map_key(pairs, tag);
    }
    None
}

/// The position of a tag in the map, if it is there.
fn auth_find(auth: &UserAuthenticationMap, tag: i16) -> (r: Option<usize>)
    ensures
        match r {
            Some(i) => i < auth@.len() && auth.deep_view()[i as int].0 == tag,
            None => forall|k: int| 0 <= k < auth@.len() ==> (#[trigger] auth.deep_view()[k]).0
                != tag,
        },
{
    let ghost pairs = auth.deep_view();
    let mut i: usize = 0;
    while i < auth.len()
        invariant
            i <= auth@.len(),
            pairs == auth.deep_view(),
            pairs.len() == auth@.len(),
            forall|k: int| 0 <= k < i ==> (#[trigger] pairs[k]).0 != tag,
        decreases auth@.len() - i,
    {
        proof {
            assert(pairs[i as int].0 == auth@[i as int].0);
        }
        if auth[i].0 == tag {
            return Some(i);
        }
        i = i + 1;
    }
    None
}

/// Sets the credential for a tag, adding the method when it is new.
pub fn auth_upsert(auth: &mut UserAuthenticationMap, tag: i16, value: String)
    requires
        keys_unique(old(auth).deep_view()),
    ensures
        keys_unique(final(auth).deep_view()),
        final(auth)@.len() >= 1,
        assoc_map(final(auth).deep_view()) == assoc_map(old(auth).deep_view()).insert(
            tag,
            value@,
        ),
{
    let ghost pairs = auth.deep_view();
    match auth_find(auth, tag) {
        Some(i) => {
            proof {
                lemma_assoc_map_remove(pairs, i as int);
            }
            auth.remove(i);
            assert(auth.deep_view() =~~= pairs.remove(i as int));
            let ghost removed = auth.deep_view();
            proof {
                lemma_assoc_map_push(removed, (tag, value@));
                assert forall|k: int| 0 <= k < removed.len() implies (#[trigger] removed[k]).0
                    != tag by {
                    if k < i {
                        assert(removed[k] == pairs[k]);
                    } else {
                        assert(removed[k] == pairs[k + 1]);
                    }
                }
                assert(keys_unique(removed.push((tag, value@))));
            }
            auth.push((tag, value));
            assert(auth.deep_view() =~~= removed.push((tag, value@)));
            assert(assoc_map(auth.deep_view()) =~= assoc_map(pairs).insert(tag, value@));
        },
        None => {
            proof {
                lemma_assoc_map_push(pairs, (tag, value@));
                assert(keys_unique(pairs.push((tag, value@))));
            }
            auth.push((tag, value));
            assert(auth.deep_view() =~~= pairs.push((tag, value@)));
        },
    }
}

/// Removes the method with the given tag; reports whether it was there.
pub fn auth_remove(auth: &mut UserAuthenticationMap, tag: i16) -> (r: bool)
    requires
        keys_unique(old(auth).deep_view()),
    ensures
        keys_unique(final(auth).deep_view()),
        r == assoc_map(old(auth).deep_view()).contains_key(tag),
        assoc_map(final(auth).deep_view()) == assoc_map(old(auth).deep_view()).remove(tag),
        r ==> final(auth)@.len() == old(auth)@.len() - 1,
        !r ==> final(auth)@ == old(auth)@,
{
    let ghost pairs = auth.deep_view();
    match auth_find(auth, tag) {
        Some(i) => {
            proof {
                lemma_assoc_map_value(pairs, i as int);
                lemma_assoc_map_remove(pairs, i as int);
            }
            auth.remove(i);
            assert(auth.deep_view() =~~= pairs.remove(i as int));
            true
        },
        None => {
            proof {
                lemma_assoc_map_key(pairs, tag);
                assert(assoc_map(pairs).remove(tag) =~= assoc_map(pairs));
            }
            false
        },
    }
}

/// The tags of all methods, in stored order.
pub fn auth_tags(auth: &UserAuthenticationMap) -> (r: Vec<i16>)
    ensures
        r@.len() == auth@.len(),
        forall|k: int| 0 <= k < r@.len() ==> r@[k] == (#[trigger] auth.deep_view()[k]).0,
{
    let ghost pairs = auth.deep_view();
    let mut r: Vec<i16> = Vec::new();
    let mut i: usize = 0;
    while i < auth.len()
        invariant
            i <= auth@.len(),
            pairs == auth.deep_view(),
            pairs.len() == auth@.len(),
            r@.len() == i,
            forall|k: int| 0 <= k < i ==> r@[k] == (#[trigger] pairs[k]).0,
        decreases auth@.len() - i,
    {
        proof {
            assert(pairs[i as int].0 == auth@[i as int].0);
        }
        r.push(auth[i].0);
        i = i + 1;
    }
    r
}

} // verus!
