use vstd::prelude::*;

use crate::assoc::drop_value;
use crate::clock::now_seconds;
use crate::errors::HttpError;
use crate::hashing::{argon2_digest_of, argon2_hash};
use crate::math::{is_power_of_two, spec_is_power_of_two};
use crate::path::Path;
use crate::persistent_storage_provider::{PersistentStorageProvider, StoreError};
use crate::random::{fresh_account_id, random_string};
use crate::session::Session;
use crate::sessions::{create_browser_session, fresh_token_facts};
use crate::parse::parse_user_agent_spec;
use crate::status::Status;
use crate::temporary_storage_provider::TemporaryStorageProvider;
use crate::user::{auth_get, FullUser, FullUserView, User, UserLogin, UserRegistration};

verus! {

/// How long an issued session is advertised to live, in seconds.
pub const TTL: usize = 60 * 60 * 24 * 30;

/// The tag of the password authentication method.
pub const PASSWORD_AUTHENTICATION: i16 = 0;

/// A new credential value for an authentication method.
pub struct AuthenticationMethodValue {
    pub value: String,
}

/// The verification code presented by a user.
pub struct VerifyUser {
    pub code: String,
}

/// A fresh account together with its first session.
pub struct UserRegistrationResponse {
    pub user: User,
    pub session: Session,
}

/// A registration payload missing a required part: empty username or
/// email, or a password shorter than eight characters.
pub open spec fn registration_missing(u: Seq<char>, e: Seq<char>, p: Seq<char>) -> bool {
    u.len() == 0 || e.len() == 0 || p.len() < 8
}

/// A registration payload over the field size bounds.
pub open spec fn registration_too_long(u: Seq<char>, e: Seq<char>, p: Seq<char>) -> bool {
    u.len() > 64 || e.len() > 64 || p.len() > 128
}

/// The record a successful registration stores: role-less, unverified,
/// with the hashed password as its only authentication method.
pub open spec fn registered_view(
    id: u128,
    username: Seq<char>,
    email: Seq<char>,
    password: Seq<char>,
    created_at: i64,
    verification_token: Seq<char>,
) -> FullUserView {
    FullUserView {
        id,
        username,
        email,
        created_at,
        roles: 0,
        authentication: Map::<i16, Seq<char>>::empty().insert(
            PASSWORD_AUTHENTICATION,
            argon2_digest_of(password),
        ),
        verification_token: Some(verification_token),
    }
}

/// Registers a new account: validates the payload, stores the record with
/// a hashed password and a fresh verification token, and issues a first
/// session token bound to the request's IP and user-agent.
pub fn register<P: PersistentStorageProvider, T: TemporaryStorageProvider>(
    persistent: &mut P,
    temporary: &mut T,
    body: UserRegistration,
    ip: String,
    user_agent: Option<String>,
) -> (r: Result<UserRegistrationResponse, HttpError>)
    requires
        old(persistent).inv(),
        old(temporary).inv(),
    ensures
        final(persistent).inv(),
        final(temporary).inv(),
        registration_missing(body.username@, body.email@, body.password@) ==> (r matches Err(e)
            && e is BadRequest && final(persistent).accounts() == old(persistent).accounts()
            && final(temporary).sessions() == old(temporary).sessions()),
        !registration_missing(body.username@, body.email@, body.password@)
            && registration_too_long(body.username@, body.email@, body.password@) ==> (r matches
        Err(e) && e is BadRequest && final(persistent).accounts() == old(persistent).accounts()
            && final(temporary).sessions() == old(temporary).sessions()),
        r matches Ok(resp) ==> {
            &&& !registration_missing(body.username@, body.email@, body.password@)
            &&& !registration_too_long(body.username@, body.email@, body.password@)
            &&& user_agent is Some
            &&& forall|k: u128|
                old(persistent).accounts().contains_key(k) ==> (#[trigger] old(persistent).accounts()[k]).username != body.username@ && old(persistent).accounts()[k].email
                    != body.email@
            &&& exists|id: u128, created_at: i64, vtok: Seq<char>|
                {
                    &&& !old(persistent).accounts().contains_key(id)
                    &&& final(persistent).accounts() == old(persistent).accounts().insert(
                        id,
                        registered_view(
                            id,
                            body.username@,
                            body.email@,
                            body.password@,
                            created_at,
                            vtok,
                        ),
                    )
                    &&& (final(temporary).sessions() == old(temporary).sessions().insert(
                        resp.session.token@,
                        id,
                    ) || final(temporary).sessions() == old(temporary).sessions())
                }
            &&& fresh_token_facts(
                ip@,
                parse_user_agent_spec(user_agent.unwrap()@),
                resp.session.token@,
            )
            &&& resp.session.ttl == TTL
            &&& resp.user.username@ == body.username@
            &&& resp.user.email@ == body.email@
        },
        r matches Err(e) ==> final(temporary).sessions() == old(temporary).sessions(),
        (r matches Err(e) && user_agent is Some) ==> final(persistent).accounts() == old(persistent).accounts(),
        (!registration_missing(body.username@, body.email@, body.password@)
            && !registration_too_long(body.username@, body.email@, body.password@)
            && user_agent is Some && (r matches Err(e) && e is BadRequest)) ==> exists|k: u128|
            #[trigger] old(persistent).accounts().contains_key(k) && (old(
            persistent,
        ).accounts()[k].username == body.username@ || old(persistent).accounts()[k].email
            == body.email@),
{
    if body.username.as_str().is_empty() || body.email.as_str().is_empty()
        || body.password.as_str().unicode_len() < 8 {
        return Err(
            HttpError::BadRequest(
                Status::from_message(
                    "Username and email are required, and the password must be at least 8 characters.",
                ),
            ),
        );
    }
    if body.username.as_str().unicode_len() > 64 || body.email.as_str().unicode_len() > 64
        || body.password.as_str().unicode_len() > 128 {
        return Err(
            HttpError::BadRequest(
                Status::from_message(
                    "Username, email and password must be at most 64, 64 and 128 characters.",
                ),
            ),
        );
    }

    let created_at = now_seconds();
    let id = fresh_account_id();
    let password = argon2_hash(body.password.as_str());
    let mut authentication: Vec<(i16, String)> = Vec::new();
    authentication.push((PASSWORD_AUTHENTICATION, password));
    let verification_token = random_string(64);
    let ghost vtok = verification_token@;
    let full_user = FullUser {
        id,
        username: body.username.clone(),
        email: body.email.clone(),
        created_at,
        roles: 0,
        authentication,
        verification_token: Some(verification_token),
    };
    assert(full_user.wf());
    assert(full_user.authentication.deep_view() =~~= seq![
        (PASSWORD_AUTHENTICATION, argon2_digest_of(body.password@)),
    ]);
    assert(full_user.authentication.deep_view().drop_last() =~~= Seq::<(i16, Seq<char>)>::empty());
    assert(crate::assoc::assoc_map(Seq::<(i16, Seq<char>)>::empty()) =~~= Map::<
        i16,
        Seq<char>,
    >::empty());
    assert(full_user@ =~~= registered_view(
        id,
        body.username@,
        body.email@,
        body.password@,
        created_at,
        vtok,
    ));
    let response_user = full_user.to_user();
    match persistent.register_user(full_user) {
        Ok(()) => {},
        Err(StoreError::DuplicateUsername) => {
            proof {
                let k = choose|k: u128| #[trigger]
                    old(persistent).accounts().contains_key(k) && old(
                        persistent,
                    ).accounts()[k].username == body.username@;
                assert(old(persistent).accounts().contains_key(k) && (old(
                    persistent,
                ).accounts()[k].username == body.username@ || old(persistent).accounts()[k].email
                    == body.email@));
            }
            return Err(HttpError::BadRequest(Status::from_message("User already exists")));
        },
        Err(StoreError::DuplicateEmail) => {
            proof {
                let k = choose|k: u128| #[trigger]
                    old(persistent).accounts().contains_key(k) && old(
                        persistent,
                    ).accounts()[k].email == body.email@;
                assert(old(persistent).accounts().contains_key(k) && (old(
                    persistent,
                ).accounts()[k].username == body.username@ || old(persistent).accounts()[k].email
                    == body.email@));
            }
            return Err(HttpError::BadRequest(Status::from_message("Email already exists")));
        },
        Err(_) => {
            return Err(
                HttpError::InternalServerError(Status::from_message("Failed to create user.")),
            );
        },
    }

    let token = match create_browser_session(ip, user_agent) {
        Ok(token) => token,
        Err(e) => {
            return Err(e);
        },
    };
    let _stored = temporary.set(token.clone(), id);
    Ok(UserRegistrationResponse { user: response_user, session: Session { token, ttl: TTL } })
}

/// Logs a user in: finds the account by username (then by email), checks
/// the stored password credential against the presented one, and issues a
/// session token.
///
/// The comparison is plain equality against the stored one-way hash: the
/// client is expected to present the already-hashed credential, and this
/// core never sees a clear-text password at login time.
pub fn add_login<P: PersistentStorageProvider, T: TemporaryStorageProvider>(
    persistent: &P,
    temporary: &mut T,
    body: UserLogin,
    ip: String,
    user_agent: Option<String>,
) -> (r: Result<Session, HttpError>)
    requires
        persistent.inv(),
        old(temporary).inv(),
    ensures
        final(temporary).inv(),
        r matches Ok(session) ==> {
            &&& exists|id: u128|
                {
                    &&& #[trigger] persistent.accounts().contains_key(id)
                    &&& (persistent.accounts()[id].username == body.username@
                        || persistent.accounts()[id].email == body.username@)
                    &&& (persistent.accounts()[id].username == body.username@ || (forall|
                        k: u128,
                    |
                        persistent.accounts().contains_key(k) ==> (#[trigger] persistent.accounts()[k]).username != body.username@))
                    &&& persistent.accounts()[id].authentication.contains_key(
                        PASSWORD_AUTHENTICATION,
                    )
                    &&& persistent.accounts()[id].authentication[PASSWORD_AUTHENTICATION]
                        == body.password@
                    &&& (final(temporary).sessions() == old(temporary).sessions().insert(
                        session.token@,
                        id,
                    ) || final(temporary).sessions() == old(temporary).sessions())
                }
            &&& user_agent is Some
            &&& fresh_token_facts(
                ip@,
                parse_user_agent_spec(user_agent.unwrap()@),
                session.token@,
            )
            &&& session.ttl == TTL
        },
        r matches Err(e) ==> final(temporary).sessions() == old(temporary).sessions(),
        (r matches Err(e) && e is Unauthorized) ==> ((forall|id: u128|
            persistent.accounts().contains_key(id) ==> (#[trigger] persistent.accounts()[id]).username != body.username@ && persistent.accounts()[id].email != body.username@)
            || exists|id: u128|
            {
                &&& #[trigger] persistent.accounts().contains_key(id)
                &&& (persistent.accounts()[id].username == body.username@
                    || persistent.accounts()[id].email == body.username@)
                &&& persistent.accounts()[id].authentication.contains_key(
                    PASSWORD_AUTHENTICATION,
                )
                &&& persistent.accounts()[id].authentication[PASSWORD_AUTHENTICATION]
                    != body.password@
            }),
        r matches Err(e) ==> !(e is InternalServerError),
        (r matches Err(e) && e is BadRequest) ==> (user_agent is None || exists|id: u128|
            #[trigger] persistent.accounts().contains_key(id) && (persistent.accounts()[id].username
                == body.username@ || persistent.accounts()[id].email == body.username@)
                && !persistent.accounts()[id].authentication.contains_key(
                PASSWORD_AUTHENTICATION,
            )),
{
    let user = match persistent.get_user_by_username(body.username.clone()) {
        Some(user) => user,
        None => {
            match persistent.get_user_by_email(body.username.clone()) {
                Some(user) => user,
                None => {
                    return Err(
                        HttpError::Unauthorized(Status::from_message("Could not find match.")),
                    );
                },
            }
        },
    };
    let password = match auth_get(&user.authentication, PASSWORD_AUTHENTICATION) {
        Some(password) => password,
        None => {
            proof {
                assert(persistent.accounts().contains_key(user.id)
                    && !persistent.accounts()[user.id].authentication.contains_key(
                    PASSWORD_AUTHENTICATION,
                ));
            }
            return Err(
                HttpError::BadRequest(
                    Status::from_message(
                        "Password authentication is not a viable authentication for this user.",
                    ),
                ),
            );
        },
    };
    if !password.eq(&body.password) {
        return Err(HttpError::Unauthorized(Status::from_message("Could not find match.")));
    }
    let token = match create_browser_session(ip, user_agent) {
        Ok(token) => token,
        Err(e) => {
            return Err(e);
        },
    };
    let _stored = temporary.set(token.clone(), user.id);
    Ok(Session { token, ttl: TTL })
}

/// Logs the user out everywhere: drops every session entry they own.
pub fn logout<T: TemporaryStorageProvider>(temporary: &mut T, full_user: &FullUser) -> (r: Result<
    Status,
    HttpError,
>)
    requires
        old(temporary).inv(),
    ensures
        final(temporary).inv(),
        r matches Ok(status) ==> final(temporary).sessions() == drop_value(
            old(temporary).sessions(),
            full_user.id,
        ),
        r matches Err(e) ==> e is InternalServerError && final(temporary).sessions() == old(temporary).sessions(),
{
    let success = temporary.drop_all(full_user.id);
    if success {
        Ok(Status::from_message("Successfully logged out"))
    } else {
        Err(HttpError::InternalServerError(Status::from_message("Failed to log out")))
    }
}

/// Deletes the caller's account and drops every session they own.
pub fn delete_account<P: PersistentStorageProvider, T: TemporaryStorageProvider>(
    persistent: &mut P,
    temporary: &mut T,
    user: &FullUser,
) -> (r: Result<Status, HttpError>)
    requires
        old(persistent).inv(),
        old(temporary).inv(),
    ensures
        final(persistent).inv(),
        final(temporary).inv(),
        final(temporary).sessions() == drop_value(old(temporary).sessions(), user.id) || final(temporary).sessions() == old(temporary).sessions(),
        r matches Ok(status) ==> old(persistent).accounts().contains_key(user.id) && final(persistent).accounts() == old(persistent).accounts().remove(user.id),
        r matches Err(e) ==> final(persistent).accounts() == old(persistent).accounts(),
        (r matches Err(e) && e is BadRequest) ==> !old(persistent).accounts().contains_key(
            user.id,
        ),
{
    let res = persistent.delete_user(user.id);
    let _dropped = temporary.drop_all(user.id);
    match res {
        Ok(()) => Ok(Status::from_message("success")),
        Err(StoreError::NotFound) => Err(
            HttpError::BadRequest(Status::from_message("User does not exist")),
        ),
        Err(_) => Err(HttpError::InternalServerError(Status::from_message("Failed to delete user"))),
    }
}

/// The caller's own account, in its public shape.
pub fn get_account(full_user: &FullUser) -> (r: Result<User, HttpError>)
    ensures
        r is Ok,
        r matches Ok(u) ==> {
            &&& u.id@ == crate::user::decimal_of(full_user.id as nat)
            &&& u.username@ == full_user@.username
            &&& u.email@ == full_user@.email
            &&& u.created_at == full_user.created_at as usize
            &&& u.roles == full_user.roles
            &&& u.authentication == crate::user::tags_mask(full_user.authentication.deep_view())
            &&& u.verified == (full_user@.verification_token is None)
        },
{
    Ok(full_user.to_user())
}

/// Verifies the account: the presented code must match the stored
/// verification token, which is then cleared.
pub fn verify_user<P: PersistentStorageProvider>(
    persistent: &mut P,
    full_user: &FullUser,
    query: VerifyUser,
) -> (r: Result<Status, HttpError>)
    requires
        old(persistent).inv(),
    ensures
        final(persistent).inv(),
        full_user.verification_token is None ==> (r matches Err(e) && e is BadRequest && final(persistent).accounts() == old(persistent).accounts()),
        (full_user.verification_token matches Some(t) && query.code@ != t@) ==> (r matches Err(e)
            && e is Unauthorized && final(persistent).accounts() == old(persistent).accounts()),
        r matches Ok(status) ==> {
            &&& full_user.verification_token matches Some(t) && query.code@ == t@
            &&& old(persistent).accounts().contains_key(full_user.id)
            &&& final(persistent).accounts() == old(persistent).accounts().insert(
                full_user.id,
                (FullUserView {
                    verification_token: None,
                    ..old(persistent).accounts()[full_user.id]
                }),
            )
        },
        (r matches Err(e) && e is InternalServerError) ==> final(persistent).accounts() == old(persistent).accounts(),
        (r matches Err(e) && e is Unauthorized) ==> (full_user.verification_token matches Some(t)
            && query.code@ != t@),
        (r matches Err(e) && e is BadRequest) ==> full_user.verification_token is None,
{
    let token = match &full_user.verification_token {
        Some(token) => token,
        None => {
            return Err(HttpError::BadRequest(Status::from_message("User is already verified.")));
        },
    };
    if !query.code.eq(token) {
        return Err(HttpError::Unauthorized(Status::from_message("Invalid verification code.")));
    }
    match persistent.verify_user(full_user.id) {
        Ok(()) => Ok(Status::from_message("User verified")),
        Err(_) => Err(
            HttpError::InternalServerError(Status::from_message("Could not verify user!")),
        ),
    }
}

/// Removes one of the caller's authentication methods. The tag must be a
/// power of two; an account never loses its last remaining method.
pub fn remove_authentication_method<P: PersistentStorageProvider>(
    persistent: &mut P,
    full_user: &FullUser,
    method: Path<i16>,
) -> (r: Result<Status, HttpError>)
    requires
        old(persistent).inv(),
    ensures
        final(persistent).inv(),
        !spec_is_power_of_two(method.0 as int) ==> (r matches Err(e) && e is BadRequest && final(persistent).accounts() == old(persistent).accounts()),
        (spec_is_power_of_two(method.0 as int) && old(persistent).accounts().contains_key(
            full_user.id,
        ) && old(persistent).accounts()[full_user.id].authentication.dom().len() == 1) ==> (r
            matches Err(e) && (e is BadRequest || e is InternalServerError) && final(persistent).accounts() == old(persistent).accounts()),
        r matches Ok(status) ==> {
            &&& spec_is_power_of_two(method.0 as int)
            &&& old(persistent).accounts().contains_key(full_user.id)
            &&& old(persistent).accounts()[full_user.id].authentication.contains_key(method.0)
            &&& old(persistent).accounts()[full_user.id].authentication.dom().len() >= 2
            &&& final(persistent).accounts() == old(persistent).accounts().insert(
                full_user.id,
                (FullUserView {
                    authentication: old(persistent).accounts()[
                        full_user.id].authentication.remove(method.0),
                    ..old(persistent).accounts()[full_user.id]
                }),
            )
        },
        r matches Err(e) ==> final(persistent).accounts() == old(persistent).accounts(),
        r matches Err(e) ==> ((spec_is_power_of_two(method.0 as int) && old(
            persistent,
        ).accounts().contains_key(full_user.id) && old(persistent).accounts()[
            full_user.id].authentication.contains_key(method.0) && old(persistent).accounts()[
            full_user.id].authentication.dom().len() >= 2) ==> e is InternalServerError),
{
    let tag = method.into_inner();
    if !is_power_of_two(tag) {
        return Err(
            HttpError::BadRequest(
                Status::from_message("All authentication methods must be a power of two."),
            ),
        );
    }
    let methods = match persistent.get_authentication_methods(full_user.id) {
        Ok(methods) => methods,
        Err(_) => {
            return Err(
                HttpError::InternalServerError(
                    Status::from_message("Could not get authentication methods!"),
                ),
            );
        },
    };
    if methods.len() == 1 {
        return Err(
            HttpError::BadRequest(
                Status::from_message("Cannot remove last authentication method"),
            ),
        );
    }
    let mut found = false;
    let mut i: usize = 0;
    while i < methods.len()
        invariant
            i <= methods@.len(),
            found <==> exists|k: int| 0 <= k < i && methods@[k] == tag,
        decreases methods@.len() - i,
    {
        if methods[i] == tag {
            found = true;
        }
        i = i + 1;
    }
    assert(found <==> methods@.contains(tag));
    if found {
        assert(methods@.len() >= 2) by {
            if methods@.len() == 0 {
                assert(!methods@.contains(tag));
            }
        }
        match persistent.remove_authentication_method(full_user.id, tag) {
            Ok(()) => Ok(Status::from_message("Successfully removed authentication method")),
            Err(_) => Err(
                HttpError::InternalServerError(
                    Status::from_message("Could not remove authentication method!"),
                ),
            ),
        }
    } else {
        Err(HttpError::BadRequest(Status::from_message("Authentication method not found.")))
    }
}

/// Sets the credential stored for one of the caller's authentication
/// methods; the tag must be a power of two.
pub fn update_authentication_method<P: PersistentStorageProvider>(
    persistent: &mut P,
    full_user: &FullUser,
    method: Path<i16>,
    value: AuthenticationMethodValue,
) -> (r: Result<Status, HttpError>)
    requires
        old(persistent).inv(),
    ensures
        final(persistent).inv(),
        !spec_is_power_of_two(method.0 as int) ==> (r matches Err(e) && e is BadRequest && final(persistent).accounts() == old(persistent).accounts()),
        r matches Ok(status) ==> {
            &&& spec_is_power_of_two(method.0 as int)
            &&& old(persistent).accounts().contains_key(full_user.id)
            &&& final(persistent).accounts() == old(persistent).accounts().insert(
                full_user.id,
                (FullUserView {
                    authentication: old(persistent).accounts()[
                        full_user.id].authentication.insert(method.0, value.value@),
                    ..old(persistent).accounts()[full_user.id]
                }),
            )
        },
        r matches Err(e) ==> final(persistent).accounts() == old(persistent).accounts(),
        r matches Err(e) ==> (spec_is_power_of_two(method.0 as int) ==> e
            is InternalServerError),
{
    let tag = method.into_inner();
    if !is_power_of_two(tag) {
        return Err(
            HttpError::BadRequest(
                Status::from_message("All authentication methods must be a power of two."),
            ),
        );
    }
    match persistent.update_authentication_method_value(full_user.id, tag, value.value) {
        Ok(()) => Ok(Status::from_message("Successfully updated authentication method")),
        Err(_) => Err(
            HttpError::InternalServerError(
                Status::from_message("Could not update authentication method value!"),
            ),
        ),
    }
}

} // verus!
