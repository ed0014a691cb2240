use wispmq::auth::{
    check_path, entry_given, format_entry, from_hex, hash_given, hash_password, hash_with_salt,
    parse_entry, to_hex, Credentials,
};

fn credentials() -> Credentials {
    let entry = format_entry("alice", b"s3cr3t").unwrap();
    Credentials::parse("users", &entry).unwrap()
}

#[test]
fn roundtrip_hash_and_verify() {
    let creds = credentials();
    assert_eq!(creds.user_count(), 1);
    assert!(creds.verify("alice", b"s3cr3t"));
    assert!(!creds.verify("alice", b"wrong"));
    assert!(!creds.verify("bob", b"s3cr3t"));
}

#[test]
fn rejects_malformed_entries() {
    assert!(parse_entry("nouserline").is_err());
    assert!(parse_entry("u:md5$1$aa$bb").is_err());
    assert!(parse_entry("u:pbkdf2_sha256$0$aa$bb").is_err());
    assert!(parse_entry("u:pbkdf2_sha256$1$zz$bb").is_err());
    assert!(parse_entry("u:pbkdf2_sha256$1$aa$bb").is_ok());
}

#[test]
fn unknown_user_costs_the_same_as_a_wrong_password() {
    let creds = credentials();

    let t0 = std::time::Instant::now();
    assert!(!creds.verify("alice", b"wrong-password"));
    let known = t0.elapsed();

    let t1 = std::time::Instant::now();
    assert!(!creds.verify("nonexistent-user", b"wrong-password"));
    let unknown = t1.elapsed();

    assert!(
        unknown * 10 > known,
        "unknown-user verify ({unknown:?}) was far faster than known-user verify ({known:?})"
    );
}

#[test]
fn distinct_salts_per_hash() {
    assert_ne!(hash_password(b"same"), hash_password(b"same"));
}

#[test]
fn from_hex_rejects_non_ascii_without_panicking() {
    assert_eq!(from_hex("a€"), None);
    assert_eq!(from_hex("zz"), None);
    assert_eq!(from_hex("2a"), Some(vec![0x2a]));
}

#[test]
fn bytes_read_back_from_their_digits() {
    let bytes = vec![0u8, 1, 0x2a, 0x80, 0xff];
    assert_eq!(to_hex(&bytes), "00012a80ff");
    assert_eq!(from_hex("00012a80ff"), Some(bytes));
    assert_eq!(from_hex("2"), None);
}

#[test]
fn a_hash_is_that_of_its_password_and_salt() {
    // PBKDF2-HMAC-SHA256 of "password" with the salt "salt" and 4096 rounds
    // starts with c5e478d5; the stored form names its own rounds.
    let line = "u:pbkdf2_sha256$4096$73616c74$c5e478d59288c841aa530db6845c4c8d962893a001ce4e11a4963873aa98134a";
    let creds = Credentials::parse("users", line).unwrap();
    assert!(creds.verify("u", b"password"));
    assert!(!creds.verify("u", b"passwore"));

    let shown = hash_with_salt(b"password", b"salt");
    assert!(shown.starts_with("pbkdf2_sha256$200000$73616c74$"), "{shown}");
}

#[test]
fn password_files_skip_comments_and_name_the_wrong_line() {
    let good = format!("# users\n\n{}\n", format_entry("a", b"1").unwrap());
    assert_eq!(Credentials::parse("users", &good).unwrap().user_count(), 1);
    assert!(Credentials::parse("users", "nonsense").is_err());
}

#[test]
fn paths_that_go_up_are_refused() {
    assert!(check_path("../secret").is_err());
    assert!(check_path("certs/../secret").is_err());
    assert!(check_path("certs/server.pem").is_ok());
    assert!(check_path("certs/..pem").is_ok());
}

#[test]
fn an_entry_is_made_of_its_salt() {
    let salt = || Some(b"salt".to_vec());
    let hash = hash_given(b"password", salt()).unwrap();
    assert_eq!(hash, hash_with_salt(b"password", b"salt"));
    assert_eq!(entry_given("u", b"password", salt()).unwrap(), format!("u:{hash}"));
    assert!(hash_given(b"password", None).is_none());
    assert!(entry_given("u", b"password", None).is_none());
}

#[test]
fn what_is_wrong_with_a_password_file_is_said_in_words() {
    for (line, words) in [
        ("nothing", "expected 'username:hash'"),
        (":x", "empty username"),
        ("u:x", "unsupported password hash (expected pbkdf2_sha256$\u{2026})"),
        ("u:md5$1$aa$bb", "unsupported password hash (expected pbkdf2_sha256$\u{2026})"),
        ("u:pbkdf2_sha256$0$aa$bb", "iterations must be a positive integer"),
        ("u:pbkdf2_sha256$x$aa$bb", "iterations must be a positive integer"),
        ("u:pbkdf2_sha256$1$a$bb", "invalid salt hex"),
        ("u:pbkdf2_sha256$1$aa$bx", "invalid hash hex"),
    ] {
        assert_eq!(parse_entry(line).unwrap_err(), words);
        let e = Credentials::parse("passwd", &format!("# users\n\n{line}\n")).unwrap_err();
        assert_eq!(e.message(), format!("config error: passwd:3: {words}"));
    }
    let e = check_path("a/../b").unwrap_err();
    assert_eq!(e.message(), "config error: Invalid input: a/../b");
}
