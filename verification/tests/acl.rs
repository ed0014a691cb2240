use wispmq::acl::Acl;
use wispmq::json::parse_json;

fn acl() -> Acl {
    let value = parse_json(
        r#"{
            "default": "deny",
            "rules": [
                { "identity": "sensor-01", "publish": ["sensors/01/#"], "subscribe": ["cmd/01/#"] },
                { "identity": "*", "subscribe": ["public/#"] }
            ]
        }"#,
    )
    .unwrap();
    Acl::from_value(&value).unwrap()
}

#[test]
fn publish_authorization() {
    let a = acl();
    assert!(a.can_publish("sensor-01", "sensors/01/temp"));
    assert!(!a.can_publish("sensor-01", "sensors/02/temp"));
    assert!(!a.can_publish("other", "sensors/01/temp"));
}

#[test]
fn subscribe_authorization_and_wildcard_identity() {
    let a = acl();
    assert!(a.can_subscribe("sensor-01", "cmd/01/reboot"));
    assert!(a.can_subscribe("sensor-01", "public/news")); // via "*"
    assert!(a.can_subscribe("anyone", "public/news")); // via "*"
    assert!(!a.can_subscribe("anyone", "cmd/01/reboot"));
}

#[test]
fn permit_all_allows_everything() {
    let a = Acl::permit_all();
    assert!(a.can_publish("x", "anything/at/all"));
    assert!(a.can_subscribe("x", "#"));
    assert!(!a.is_enforced());
}

#[test]
fn default_allow() {
    let value = parse_json(r#"{ "default": "allow", "rules": [] }"#).unwrap();
    let a = Acl::from_value(&value).unwrap();
    assert!(a.can_publish("x", "y"));
}

#[test]
fn policy_files_that_are_wrong_are_refused() {
    assert!(Acl::parse("acl.json", "{not json").is_err());
    assert!(Acl::parse("acl.json", r#"{"default": "maybe"}"#).is_err());
    assert!(Acl::parse("acl.json", r#"{"rules": [{"publish": ["a"]}]}"#).is_err());
    let a = Acl::parse("acl.json", r#"{"rules": [{"identity": "i", "publish": ["a"]}]}"#).unwrap();
    assert!(a.is_enforced());
    assert!(a.can_publish("i", "a"));
    assert!(!a.can_publish("i", "b"));
}

#[test]
fn a_granted_filter_covers_what_it_lets_through() {
    let doc = parse_json(
        r#"{"rules": [{"identity": "a", "subscribe": ["x/#", "y/+/z"]}]}"#,
    )
    .unwrap();
    let a = Acl::from_value(&doc).unwrap();
    for narrower in ["x/#", "x/+", "x/a/#", "x", "y/+/z", "y/b/z"] {
        assert!(a.can_subscribe("a", narrower), "{narrower}");
    }
    for broader in ["#", "+/#", "y/#", "y/+/+", "y/b/#"] {
        assert!(!a.can_subscribe("a", broader), "{broader}");
    }
}

#[test]
fn a_request_broader_than_every_grant_is_denied() {
    let doc = parse_json(
        r#"{"default": "deny", "rules": [{"identity": "u", "subscribe": ["a/+"]}]}"#,
    )
    .unwrap();
    let a = Acl::from_value(&doc).unwrap();
    assert!(a.can_subscribe("u", "a/b"));
    assert!(a.can_subscribe("u", "a/+"));
    assert!(!a.can_subscribe("u", "a/#"));
    assert!(!a.can_subscribe("u", "#"));

    for (grant, request, granted) in [
        ("#", "#", true),
        ("+/#", "#", true),
        ("+", "#", false),
        ("+", "+", true),
        ("a/+/#", "a/#", false),
        ("a/#", "a/#", true),
        ("$SYS/#", "$SYS/#", true),
        ("#", "$SYS/#", false),
    ] {
        let doc = format!(r#"{{"rules": [{{"identity": "*", "subscribe": ["{grant}"]}}]}}"#);
        let a = Acl::from_value(&parse_json(&doc).unwrap()).unwrap();
        assert_eq!(a.can_subscribe("u", request), granted, "{grant} {request}");
    }
}

#[test]
fn what_is_wrong_with_a_policy_is_said_in_words() {
    for (doc, words) in [
        (r#"{"default": "may\"be"}"#, r#"invalid "default": "may\"be" (use allow|deny)"#),
        (r#"{"rules": {}}"#, r#""rules" must be an array"#),
        (r#"{"rules": [{"identity": "a"}, {}]}"#, r#"rule 1: missing string "identity""#),
        (
            r#"{"rules": [{"identity": "a", "publish": "b"}]}"#,
            r#"rule 0: "publish" must be an array of strings"#,
        ),
        (
            r#"{"rules": [{"identity": "a", "subscribe": [1]}]}"#,
            r#"rule 0: "subscribe" entries must be strings"#,
        ),
        (
            r##"{"rules": [{"identity": "a", "subscribe": ["b", "a#"]}]}"##,
            r##"rule 0: invalid topic filter "a#" in "subscribe""##,
        ),
    ] {
        let value = parse_json(doc).unwrap();
        assert_eq!(Acl::from_value(&value).unwrap_err(), words);
        let e = Acl::parse("p.json", doc).unwrap_err().message();
        assert_eq!(e, format!("config error: ACL file p.json: {words}"));
    }
    let e = Acl::parse("p.json", "{").unwrap_err().message();
    assert!(e.starts_with("config error: parse ACL file p.json: EOF"), "{e}");
}
