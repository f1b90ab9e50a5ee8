use session_auth::cookie::ParsedCookie;
use session_auth::hashing::xx_hash;
use session_auth::parse::{parse_browser_cookie, parse_platform, parse_user_agent};
use session_auth::data::Database;
use session_auth::errors::HttpError;
use session_auth::in_memory::InMemoryDataProvider;
use session_auth::sessions::{create_browser_session, generate_browser_session};

const UA: &str = "Mozilla/5.0 (Windows NT 10.0; Win64; x64) AppleWebKit/537.36 (KHTML, like Gecko) Chrome/100.0 Safari/537.36";

#[test]
fn platform_splits_on_first_slash_and_space() {
    let p = parse_platform("Mozilla/5.0 (Windows NT 10.0)");
    assert_eq!(p.name, "Mozilla");
    assert_eq!(p.version, "5.0");
    assert_eq!(p.details, "(Windows NT 10.0)");
}

#[test]
fn platform_without_slash_is_all_name() {
    let p = parse_platform("NoSlashHere");
    assert_eq!(p.name, "NoSlashHere");
    assert_eq!(p.version, "");
    assert_eq!(p.details, "");
}

#[test]
fn platform_without_space_after_slash_has_no_details() {
    let p = parse_platform("AppleWebKit/537.36");
    assert_eq!(p.name, "AppleWebKit");
    assert_eq!(p.version, "537.36");
    assert_eq!(p.details, "");
}

#[test]
fn user_agent_full_header() {
    let ua = parse_user_agent(UA.to_string());
    assert_eq!(ua.platforms.len(), 2);
    assert_eq!(ua.platforms[0].name, "Mozilla");
    assert_eq!(ua.platforms[0].version, "5.0");
    assert_eq!(ua.platforms[0].details, "(Windows NT 10.0; Win64; x64)");
    assert_eq!(ua.platforms[1].name, " AppleWebKit");
    assert_eq!(ua.platforms[1].version, "537.36");
    assert_eq!(ua.platforms[1].details, "(KHTML, like Gecko)");
    assert_eq!(ua.extensions, vec!["Chrome/100.0".to_string(), "Safari/537.36".to_string()]);
}

#[test]
fn empty_user_agent_is_empty_fingerprint() {
    let ua = parse_user_agent(String::new());
    assert!(ua.platforms.is_empty());
    assert!(ua.extensions.is_empty());
}

#[test]
fn user_agent_without_parenthesis_is_all_extensions() {
    let ua = parse_user_agent("curl/7.64.1".to_string());
    assert!(ua.platforms.is_empty());
    assert_eq!(ua.extensions, vec!["curl/7.64.1".to_string()]);
}

#[test]
fn cookie_with_five_fields_decodes() {
    let cookie = "s1.2426094911.1768803836-3566326825-3912814204||3967086928-2746952293-707505781.3788223220_59786466.Jmtl9LJ3bAYkoymfnCdHCjYjE00hJhdJ";
    let parsed = parse_browser_cookie(cookie).unwrap();
    assert_eq!(parsed.prefix, "s1");
    assert_eq!(parsed.ip, "2426094911");
    assert_eq!(parsed.platforms.len(), 2);
    assert_eq!(parsed.platforms[0].name, "1768803836");
    assert_eq!(parsed.platforms[0].version, "3566326825");
    assert_eq!(parsed.platforms[0].details, "3912814204");
    assert_eq!(parsed.platforms[1].name, "3967086928");
    assert_eq!(parsed.extensions, vec!["3788223220".to_string(), "59786466".to_string()]);
    assert_eq!(parsed.random, "Jmtl9LJ3bAYkoymfnCdHCjYjE00hJhdJ");
}

#[test]
fn cookie_with_wrong_field_count_is_rejected() {
    assert_eq!(parse_browser_cookie("a.b.c").unwrap_err(), "Invalid cookie");
    assert_eq!(parse_browser_cookie("").unwrap_err(), "Invalid cookie");
    assert_eq!(parse_browser_cookie("a.b.c.d.e.f").unwrap_err(), "Invalid cookie");
}

#[test]
fn malformed_platform_triples_are_dropped_not_fatal() {
    let parsed = parse_browser_cookie("s1.1.abc||1-2-3.x.r").unwrap();
    assert_eq!(parsed.platforms.len(), 1);
    assert_eq!(parsed.platforms[0].name, "1");
    assert_eq!(parsed.platforms[0].version, "2");
    assert_eq!(parsed.platforms[0].details, "3");
}

fn round_trip(ip: &str, header: &str) -> ParsedCookie {
    let ua = parse_user_agent(header.to_string());
    let token = generate_browser_session(ip.to_string(), ua);
    parse_browser_cookie(&token).unwrap()
}

#[test]
fn generated_token_round_trips() {
    let ip = "203.0.113.7";
    let ua = parse_user_agent(UA.to_string());
    let parsed = round_trip(ip, UA);
    assert_eq!(parsed.prefix, "s1");
    assert_eq!(parsed.ip, xx_hash(ip));
    assert_eq!(parsed.platforms.len(), ua.platforms.len());
    for (expected, original) in parsed.platforms.iter().zip(ua.platforms.iter()) {
        assert_eq!(expected.name, xx_hash(&original.name));
        assert_eq!(expected.version, xx_hash(&original.version));
        assert_eq!(expected.details, xx_hash(&original.details));
    }
    assert_eq!(parsed.extensions.len(), ua.extensions.len());
    for (expected, original) in parsed.extensions.iter().zip(ua.extensions.iter()) {
        assert_eq!(expected, &xx_hash(original));
    }
    assert_eq!(parsed.random.len(), 32);
    assert!(parsed.random.chars().all(|c| c.is_ascii_alphanumeric()));
}

#[test]
fn round_trip_without_extensions_yields_one_empty_entry() {
    let parsed = round_trip("198.51.100.2", "OnlyPlatform/1.0 (X11; Linux)");
    assert_eq!(parsed.platforms.len(), 1);
    assert_eq!(parsed.extensions, vec![String::new()]);
}

#[test]
fn token_nonce_makes_tokens_unique() {
    let ua1 = parse_user_agent(UA.to_string());
    let ua2 = parse_user_agent(UA.to_string());
    let t1 = generate_browser_session("203.0.113.7".to_string(), ua1);
    let t2 = generate_browser_session("203.0.113.7".to_string(), ua2);
    assert_ne!(t1, t2);
    let p1 = parse_browser_cookie(&t1).unwrap();
    let p2 = parse_browser_cookie(&t2).unwrap();
    assert_eq!(p1.ip, p2.ip);
    assert_ne!(p1.random, p2.random);
}

#[test]
fn browser_session_requires_a_user_agent() {
    let missing = create_browser_session("203.0.113.7".to_string(), None);
    match missing {
        Err(HttpError::BadRequest(status)) => {
            assert_eq!(status.message, "No user agent present")
        },
        _ => panic!("expected a bad request"),
    }

    let token = create_browser_session("203.0.113.7".to_string(), Some(UA.to_string())).unwrap();
    let parsed = parse_browser_cookie(&token).unwrap();
    assert_eq!(parsed.prefix, "s1");
    assert_eq!(parsed.ip, xx_hash("203.0.113.7"));
}

#[test]
fn database_bundles_the_two_backends() {
    let db = Database::new(InMemoryDataProvider::new(), InMemoryDataProvider::new());
    let _persistent: &InMemoryDataProvider = &db.persistent;
    let _temporary: &InMemoryDataProvider = &db.temporary;
}
