use session_auth::authenticated::{authenticate, AuthRejection};
use session_auth::endpoints::{
    add_login, delete_account, get_account, logout, register, remove_authentication_method,
    update_authentication_method, verify_user, AuthenticationMethodValue, VerifyUser,
};
use session_auth::errors::HttpError;
use session_auth::hashing::argon2_hash;
use session_auth::in_memory::InMemoryDataProvider;
use session_auth::path::Path;
use session_auth::persistent_storage_provider::{PersistentStorageProvider, StoreError};
use session_auth::temporary_storage_provider::TemporaryStorageProvider;
use session_auth::status::Status;
use session_auth::user::{FullUser, UserRegistration};

const UA: &str = "Mozilla/5.0 (Windows NT 10.0; Win64; x64) AppleWebKit/537.36 (KHTML, like Gecko) Chrome/100.0 Safari/537.36";
const IP: &str = "203.0.113.7";

fn registration(username: &str, email: &str) -> UserRegistration {
    UserRegistration {
        username: username.to_string(),
        email: email.to_string(),
        password: "hunter2hunter2".to_string(),
    }
}

fn account(id: u128, username: &str, email: &str, methods: &[(i16, &str)]) -> FullUser {
    FullUser {
        id,
        username: username.to_string(),
        email: email.to_string(),
        created_at: 1_700_000_000,
        roles: 0,
        authentication: methods.iter().map(|(t, v)| (*t, v.to_string())).collect(),
        verification_token: None,
    }
}

#[test]
fn duplicate_username_and_email_are_rejected() {
    let mut persistent = InMemoryDataProvider::new();
    let mut temporary = InMemoryDataProvider::new();
    let first = register(
        &mut persistent,
        &mut temporary,
        registration("ann", "ann@example.org"),
        IP.to_string(),
        Some(UA.to_string()),
    );
    assert!(first.is_ok());

    let same_username = register(
        &mut persistent,
        &mut temporary,
        registration("ann", "other@example.org"),
        IP.to_string(),
        Some(UA.to_string()),
    );
    match same_username {
        Err(HttpError::BadRequest(status)) => assert_eq!(status.message, "User already exists"),
        _ => panic!("expected a duplicate-username rejection"),
    }

    let same_email = register(
        &mut persistent,
        &mut temporary,
        registration("bea", "ann@example.org"),
        IP.to_string(),
        Some(UA.to_string()),
    );
    match same_email {
        Err(HttpError::BadRequest(status)) => assert_eq!(status.message, "Email already exists"),
        _ => panic!("expected a duplicate-email rejection"),
    }

    let distinct = register(
        &mut persistent,
        &mut temporary,
        registration("bea", "bea@example.org"),
        IP.to_string(),
        Some(UA.to_string()),
    );
    assert!(distinct.is_ok());
}

#[test]
fn registration_validates_field_lengths() {
    let mut persistent = InMemoryDataProvider::new();
    let mut temporary = InMemoryDataProvider::new();
    let mut short_password = registration("ann", "ann@example.org");
    short_password.password = "short".to_string();
    assert!(matches!(
        register(&mut persistent, &mut temporary, short_password, IP.to_string(), Some(UA.to_string())),
        Err(HttpError::BadRequest(_))
    ));
    let mut long_username = registration(&"x".repeat(65), "ann@example.org");
    long_username.password = "hunter2hunter2".to_string();
    assert!(matches!(
        register(&mut persistent, &mut temporary, long_username, IP.to_string(), Some(UA.to_string())),
        Err(HttpError::BadRequest(_))
    ));
}

#[test]
fn duplicate_id_is_a_store_error() {
    let mut persistent = InMemoryDataProvider::new();
    assert!(persistent.register_user(account(7, "ann", "ann@example.org", &[(0, "pw")])).is_ok());
    let res = persistent.register_user(account(7, "bea", "bea@example.org", &[(0, "pw")]));
    assert_eq!(res.unwrap_err(), StoreError::DuplicateId);
}

#[test]
fn delete_missing_account_is_not_found() {
    let mut persistent = InMemoryDataProvider::new();
    assert_eq!(persistent.delete_user(42).unwrap_err(), StoreError::NotFound);
}

#[test]
fn last_method_guard() {
    let mut persistent = InMemoryDataProvider::new();
    let user = account(9, "ann", "ann@example.org", &[(2, "credential")]);
    assert!(persistent.register_user(user.duplicate()).is_ok());

    // Exactly one method: removal is rejected.
    let res = remove_authentication_method(&mut persistent, &user, Path(2));
    match res {
        Err(HttpError::BadRequest(status)) => {
            assert_eq!(status.message, "Cannot remove last authentication method")
        },
        _ => panic!("expected the last-method guard to reject"),
    }

    // A second method makes removal possible; one method remains.
    let added = update_authentication_method(
        &mut persistent,
        &user,
        Path(4),
        AuthenticationMethodValue { value: "other".to_string() },
    );
    assert!(added.is_ok());
    assert!(remove_authentication_method(&mut persistent, &user, Path(4)).is_ok());
    let methods = persistent.get_authentication_methods(9).unwrap();
    assert_eq!(methods, vec![2]);

    // A tag that is not a power of two never reaches the store.
    assert!(matches!(
        remove_authentication_method(&mut persistent, &user, Path(3)),
        Err(HttpError::BadRequest(_))
    ));
}

#[test]
fn drop_all_removes_only_the_owners_sessions() {
    let mut temporary = InMemoryDataProvider::new();
    assert!(temporary.set("t1".to_string(), 1));
    assert!(temporary.set("t2".to_string(), 1));
    assert!(temporary.set("t3".to_string(), 2));
    assert!(temporary.set("t4".to_string(), 2));
    assert!(temporary.drop_all(1));
    assert_eq!(temporary.get("t1".to_string()), None);
    assert_eq!(temporary.get("t2".to_string()), None);
    assert_eq!(temporary.get("t3".to_string()), Some(2));
    assert_eq!(temporary.get("t4".to_string()), Some(2));
    assert_eq!(temporary.get_by_value(2), vec!["t3".to_string(), "t4".to_string()]);
}

#[test]
fn session_set_overwrites_and_delete_is_idempotent() {
    let mut temporary = InMemoryDataProvider::new();
    assert!(temporary.set("tok".to_string(), 1));
    assert!(temporary.set("tok".to_string(), 2));
    assert_eq!(temporary.get("tok".to_string()), Some(2));
    assert!(temporary.delete("tok".to_string()));
    assert!(temporary.delete("tok".to_string()));
    assert_eq!(temporary.get("tok".to_string()), None);
}

#[test]
fn end_to_end_theft_detection() {
    // A lean fingerprint (no platforms, one extension) has 1 + 0 + 1 = 2
    // signals, so a single IP mismatch already crosses the threshold.
    let lean_agent = "curl/7.64.1";
    let mut persistent = InMemoryDataProvider::new();
    let mut temporary = InMemoryDataProvider::new();
    let response = register(
        &mut persistent,
        &mut temporary,
        registration("ann", "ann@example.org"),
        IP.to_string(),
        Some(lean_agent.to_string()),
    )
    .unwrap();
    let token = response.session.token.clone();
    assert!(token.starts_with("s1"));

    // Presented from the issuing IP and user-agent, the token resolves the account.
    let ok = authenticate(
        &persistent,
        &mut temporary,
        Some(token.clone()),
        IP,
        Some(lean_agent.to_string()),
    );
    let user = ok.unwrap();
    assert_eq!(user.username, "ann");
    assert_eq!(user.email, "ann@example.org");

    // Same token from a different IP: rejected, and the session is burned.
    let theft = authenticate(
        &persistent,
        &mut temporary,
        Some(token.clone()),
        "198.51.100.99",
        Some(lean_agent.to_string()),
    );
    let rejection = theft.unwrap_err();
    assert_eq!(rejection, AuthRejection::TheftDetected);
    assert_eq!(rejection.status_code(), 410);
    assert_eq!(temporary.get(token.clone()), None);

    // The burned token no longer authenticates, even from the issuing IP.
    let gone = authenticate(&persistent, &mut temporary, Some(token), IP, Some(lean_agent.to_string()));
    assert_eq!(gone.unwrap_err(), AuthRejection::NotAuthenticated);
}

#[test]
fn gate_rejections_and_status_codes() {
    let mut persistent = InMemoryDataProvider::new();
    let mut temporary = InMemoryDataProvider::new();

    let missing = authenticate(&persistent, &mut temporary, None, IP, Some(UA.to_string()));
    assert_eq!(missing.unwrap_err(), AuthRejection::MissingCookie);
    assert_eq!(AuthRejection::MissingCookie.status_code(), 400);

    let unknown = authenticate(
        &persistent,
        &mut temporary,
        Some("s1.not.a.live.session".to_string()),
        IP,
        Some(UA.to_string()),
    );
    assert_eq!(unknown.unwrap_err(), AuthRejection::NotAuthenticated);
    assert_eq!(AuthRejection::NotAuthenticated.status_code(), 401);

    // A live versioned session without a user agent is a bad request.
    assert!(temporary.set("s1.a.b.c.d".to_string(), 1));
    let no_agent = authenticate(
        &persistent,
        &mut temporary,
        Some("s1.a.b.c.d".to_string()),
        IP,
        None,
    );
    assert_eq!(no_agent.unwrap_err(), AuthRejection::MissingUserAgent);

    // A live but malformed versioned token is a bad request.
    assert!(temporary.set("s1-malformed".to_string(), 1));
    let malformed = authenticate(
        &persistent,
        &mut temporary,
        Some("s1-malformed".to_string()),
        IP,
        Some(UA.to_string()),
    );
    assert_eq!(malformed.unwrap_err(), AuthRejection::MalformedCookie);

    // A live opaque (non-s1) token skips the matcher; its account is gone.
    assert!(temporary.set("legacy-token".to_string(), 77));
    let dangling = authenticate(
        &persistent,
        &mut temporary,
        Some("legacy-token".to_string()),
        IP,
        Some(UA.to_string()),
    );
    assert_eq!(dangling.unwrap_err(), AuthRejection::AccountGone);
    assert_eq!(AuthRejection::AccountGone.status_code(), 410);
}

#[test]
fn login_checks_the_stored_credential() {
    let mut persistent = InMemoryDataProvider::new();
    let mut temporary = InMemoryDataProvider::new();
    register(
        &mut persistent,
        &mut temporary,
        registration("ann", "ann@example.org"),
        IP.to_string(),
        Some(UA.to_string()),
    )
    .unwrap();

    // The stored credential is the slow hash, not the raw password.
    let raw = add_login(
        &persistent,
        &mut temporary,
        session_auth::user::UserLogin {
            username: "ann".to_string(),
            password: "hunter2hunter2".to_string(),
        },
        IP.to_string(),
        Some(UA.to_string()),
    );
    assert!(matches!(raw, Err(HttpError::Unauthorized(_))));

    let hashed = add_login(
        &persistent,
        &mut temporary,
        session_auth::user::UserLogin {
            username: "ann".to_string(),
            password: argon2_hash("hunter2hunter2"),
        },
        IP.to_string(),
        Some(UA.to_string()),
    );
    let session = hashed.unwrap();
    assert!(session.token.starts_with("s1"));
    assert_eq!(session.ttl, 60 * 60 * 24 * 30);

    // Unknown name and unknown email both fail closed.
    let nobody = add_login(
        &persistent,
        &mut temporary,
        session_auth::user::UserLogin {
            username: "nobody".to_string(),
            password: "whatever123".to_string(),
        },
        IP.to_string(),
        Some(UA.to_string()),
    );
    assert!(matches!(nobody, Err(HttpError::Unauthorized(_))));
}

#[test]
fn verification_clears_the_token() {
    let mut persistent = InMemoryDataProvider::new();
    let mut temporary = InMemoryDataProvider::new();
    register(
        &mut persistent,
        &mut temporary,
        registration("ann", "ann@example.org"),
        IP.to_string(),
        Some(UA.to_string()),
    )
    .unwrap();
    let stored = persistent.get_user_by_username("ann".to_string()).unwrap();
    let code = stored.verification_token.clone().unwrap();
    assert_eq!(code.len(), 64);

    let wrong = verify_user(&mut persistent, &stored, VerifyUser { code: "wrong".to_string() });
    assert!(matches!(wrong, Err(HttpError::Unauthorized(_))));

    let right = verify_user(&mut persistent, &stored, VerifyUser { code });
    assert!(right.is_ok());

    let after = persistent.get_user_by_id(stored.id).unwrap();
    assert!(after.verification_token.is_none());
    assert!(after.to_user().verified);

    let again = verify_user(&mut persistent, &after, VerifyUser { code: "x".to_string() });
    assert!(matches!(again, Err(HttpError::BadRequest(_))));
}

#[test]
fn logout_and_delete_account() {
    let mut persistent = InMemoryDataProvider::new();
    let mut temporary = InMemoryDataProvider::new();
    let response = register(
        &mut persistent,
        &mut temporary,
        registration("ann", "ann@example.org"),
        IP.to_string(),
        Some(UA.to_string()),
    )
    .unwrap();
    let user = persistent.get_user_by_username("ann".to_string()).unwrap();

    assert!(logout(&mut temporary, &user).is_ok());
    assert_eq!(temporary.get(response.session.token.clone()), None);

    assert!(temporary.set("another".to_string(), user.id));
    assert!(delete_account(&mut persistent, &mut temporary, &user).is_ok());
    assert!(persistent.get_user_by_id(user.id).is_none());
    assert_eq!(temporary.get("another".to_string()), None);

    // Deleting again reports the missing account.
    assert!(matches!(
        delete_account(&mut persistent, &mut temporary, &user),
        Err(HttpError::BadRequest(_))
    ));
}

#[test]
fn public_account_shape() {
    let user = account(
        340282366920938463463374607431768211455,
        "ann",
        "ann@example.org",
        &[(1, "a"), (2, "b"), (8, "c")],
    );
    let shape = get_account(&user).unwrap();
    assert_eq!(shape.id, "340282366920938463463374607431768211455");
    assert_eq!(shape.username, "ann");
    assert_eq!(shape.email, "ann@example.org");
    assert_eq!(shape.created_at, 1_700_000_000);
    assert_eq!(shape.authentication, 11);
    assert!(shape.verified);

    let small = account(5, "b", "b@example.org", &[(0, "pw")]);
    assert_eq!(small.to_user().id, "5");
    assert_eq!(small.to_user().authentication, 0);
}

#[test]
fn http_error_status_codes() {
    let bad = HttpError::BadRequest(Status::from_message("m"));
    let unauthorized = HttpError::Unauthorized(Status::from_message("m"));
    let internal = HttpError::InternalServerError(Status::from_message("m"));
    assert_eq!(bad.status_code(), 400);
    assert_eq!(unauthorized.status_code(), 401);
    assert_eq!(internal.status_code(), 500);
    assert_eq!(bad.message().as_str(), "m");
}

#[test]
fn random_strings_are_alphanumeric_and_sized() {
    let s = session_auth::random::random_string(32);
    assert_eq!(s.len(), 32);
    assert!(s.chars().all(|c| c.is_ascii_alphanumeric()));
    let s = session_auth::random::random_string(50);
    assert_eq!(s.len(), 50);
    let s = session_auth::random::random_string(0);
    assert!(s.is_empty());
    assert_ne!(
        session_auth::random::random_string(32),
        session_auth::random::random_string(32)
    );
}
