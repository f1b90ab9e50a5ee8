use session_auth::hashing::{argon2_hash, xx_hash};
use session_auth::math::is_power_of_two;
use session_auth::matcher::{count_mismatches, is_same_client};
use session_auth::parse::{parse_browser_cookie, parse_user_agent};
use session_auth::sessions::generate_browser_session;

const UA: &str = "Mozilla/5.0 (Windows NT 10.0; Win64; x64) AppleWebKit/537.36 (KHTML, like Gecko) Chrome/100.0 Safari/537.36";

#[test]
fn digest_is_deterministic() {
    assert_eq!(xx_hash("hello"), xx_hash("hello"));
    assert_eq!(xx_hash(""), xx_hash(""));
    assert_eq!(argon2_hash("secret-pw"), argon2_hash("secret-pw"));
}

#[test]
fn digest_separates_test_corpus() {
    let corpus = [
        "", "a", "b", "ab", "ba", "hello", "Hello", "203.0.113.7", "203.0.113.8", "Mozilla",
        "Mozilla/5.0",
    ];
    for (i, x) in corpus.iter().enumerate() {
        for (j, y) in corpus.iter().enumerate() {
            if i != j {
                assert_ne!(xx_hash(x), xx_hash(y), "collision between {:?} and {:?}", x, y);
            }
        }
    }
}

#[test]
fn digest_matches_the_reference_value() {
    // xxHash32 of the empty input with seed 0 is 0x02CC5D05.
    assert_eq!(xx_hash(""), "46947589");
}

#[test]
fn digest_is_nonempty_decimal() {
    for input in ["", "a", "something longer with spaces"] {
        let digest = xx_hash(input);
        assert!(!digest.is_empty());
        assert!(digest.len() <= 10);
        assert!(digest.chars().all(|c| c.is_ascii_digit()));
        if digest.len() > 1 {
            assert!(!digest.starts_with('0'));
        }
        assert_ne!(digest, input);
    }
}

#[test]
fn matcher_accepts_original_presenter() {
    let ip = "203.0.113.7";
    let ua = parse_user_agent(UA.to_string());
    let token = generate_browser_session(ip.to_string(), parse_user_agent(UA.to_string()));
    let cookie = parse_browser_cookie(&token).unwrap();
    assert_eq!(count_mismatches(&cookie, ip, &ua), 0);
    assert!(is_same_client(&cookie, ip, &ua));
}

#[test]
fn matcher_tolerates_one_corruption_with_enough_signals() {
    // One platform and a parsed empty extension entry: 1 + 3 + 1 = 5
    // signals, so one mismatch keeps the probability at 0.8.
    let ip = "203.0.113.7";
    let header = "A/1 x)";
    let token = generate_browser_session(ip.to_string(), parse_user_agent(header.to_string()));
    let cookie = parse_browser_cookie(&token).unwrap();

    let mut corrupted = parse_user_agent(header.to_string());
    corrupted.platforms[0].name = "B".to_string();
    assert_eq!(count_mismatches(&cookie, ip, &corrupted), 1);
    assert!(is_same_client(&cookie, ip, &corrupted));
}

#[test]
fn matcher_rejects_when_threshold_is_crossed() {
    // Two corruptions out of five signals: probability exactly 0.6, which
    // is not above the threshold.
    let ip = "203.0.113.7";
    let header = "A/1 x)";
    let token = generate_browser_session(ip.to_string(), parse_user_agent(header.to_string()));
    let cookie = parse_browser_cookie(&token).unwrap();

    let mut corrupted = parse_user_agent(header.to_string());
    corrupted.platforms[0].name = "B".to_string();
    corrupted.platforms[0].version = "2".to_string();
    assert_eq!(count_mismatches(&cookie, ip, &corrupted), 2);
    assert!(!is_same_client(&cookie, ip, &corrupted));
}

#[test]
fn matcher_counts_ip_change_as_one_mismatch() {
    let ip = "203.0.113.7";
    let ua = parse_user_agent(UA.to_string());
    let token = generate_browser_session(ip.to_string(), parse_user_agent(UA.to_string()));
    let cookie = parse_browser_cookie(&token).unwrap();
    assert_eq!(count_mismatches(&cookie, "198.51.100.9", &ua), 1);
    // Rich fingerprint: 1 + 3 * 2 + 2 = 9 signals, one mismatch passes.
    assert!(is_same_client(&cookie, "198.51.100.9", &ua));
}

#[test]
fn matcher_rejects_wholesale_device_change() {
    let ip = "203.0.113.7";
    let token = generate_browser_session(ip.to_string(), parse_user_agent(UA.to_string()));
    let cookie = parse_browser_cookie(&token).unwrap();
    let other = parse_user_agent("Wget/1.21.2 (linux-gnu)".to_string());
    assert!(!is_same_client(&cookie, "198.51.100.9", &other));
}

#[test]
fn matcher_ignores_extra_entries_on_either_side() {
    let ip = "203.0.113.7";
    let token = generate_browser_session(ip.to_string(), parse_user_agent(UA.to_string()));
    let cookie = parse_browser_cookie(&token).unwrap();
    let mut longer = parse_user_agent(UA.to_string());
    longer.extensions.push("ExtraPlugin/9.9".to_string());
    assert_eq!(count_mismatches(&cookie, ip, &longer), 0);
    assert!(is_same_client(&cookie, ip, &longer));
}

#[test]
fn power_of_two_tags() {
    assert!(is_power_of_two(1));
    assert!(is_power_of_two(2));
    assert!(is_power_of_two(4));
    assert!(is_power_of_two(16384));
    assert!(!is_power_of_two(0));
    assert!(!is_power_of_two(3));
    assert!(!is_power_of_two(12));
    assert!(!is_power_of_two(-2));
    assert!(!is_power_of_two(i16::MIN));
    assert!(!is_power_of_two(i16::MAX));
}
