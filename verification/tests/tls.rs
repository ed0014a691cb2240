use wispmq::tls::{
    client_files, first_name, listener_files, load_certs, load_key, peer_cn, port_files,
    server_files, KeyKind,
};

/// A certificate whose subject has an organization and two common names.
const NAMED: [u8; 239] = [
    48, 129, 236, 48, 129, 210, 160, 3, 2, 1, 2, 2, 1, 1, 48, 10, 6, 8, 42, 134, 72, 206,
    61, 4, 3, 2, 48, 13, 49, 11, 48, 9, 6, 3, 85, 4, 3, 12, 2, 99, 97, 48, 30, 23, 13, 50,
    53, 48, 49, 48, 49, 48, 48, 48, 48, 48, 48, 90, 23, 13, 51, 53, 48, 49, 48, 49, 48,
    48, 48, 48, 48, 48, 90, 48, 50, 49, 12, 48, 10, 6, 3, 85, 4, 10, 12, 3, 79, 114, 103,
    49, 18, 48, 16, 6, 3, 85, 4, 3, 12, 9, 115, 101, 110, 115, 111, 114, 45, 48, 49, 49,
    14, 48, 12, 6, 3, 85, 4, 3, 12, 5, 111, 116, 104, 101, 114, 48, 89, 48, 19, 6, 7, 42,
    134, 72, 206, 61, 2, 1, 6, 8, 42, 134, 72, 206, 61, 3, 1, 7, 3, 66, 0, 4, 17, 17, 17,
    17, 17, 17, 17, 17, 17, 17, 17, 17, 17, 17, 17, 17, 17, 17, 17, 17, 17, 17, 17, 17,
    17, 17, 17, 17, 17, 17, 17, 17, 17, 17, 17, 17, 17, 17, 17, 17, 17, 17, 17, 17, 17,
    17, 17, 17, 17, 17, 17, 17, 17, 17, 17, 17, 17, 17, 17, 17, 17, 17, 17, 17, 48, 10, 6,
    8, 42, 134, 72, 206, 61, 4, 3, 2, 3, 9, 0, 34, 34, 34, 34, 34, 34, 34, 34,
];

/// A certificate whose subject has no common name.
const NAMELESS: [u8; 203] = [
    48, 129, 200, 48, 129, 174, 160, 3, 2, 1, 2, 2, 1, 1, 48, 10, 6, 8, 42, 134, 72, 206,
    61, 4, 3, 2, 48, 13, 49, 11, 48, 9, 6, 3, 85, 4, 3, 12, 2, 99, 97, 48, 30, 23, 13, 50,
    53, 48, 49, 48, 49, 48, 48, 48, 48, 48, 48, 90, 23, 13, 51, 53, 48, 49, 48, 49, 48,
    48, 48, 48, 48, 48, 90, 48, 14, 49, 12, 48, 10, 6, 3, 85, 4, 10, 12, 3, 79, 114, 103,
    48, 89, 48, 19, 6, 7, 42, 134, 72, 206, 61, 2, 1, 6, 8, 42, 134, 72, 206, 61, 3, 1, 7,
    3, 66, 0, 4, 17, 17, 17, 17, 17, 17, 17, 17, 17, 17, 17, 17, 17, 17, 17, 17, 17, 17,
    17, 17, 17, 17, 17, 17, 17, 17, 17, 17, 17, 17, 17, 17, 17, 17, 17, 17, 17, 17, 17,
    17, 17, 17, 17, 17, 17, 17, 17, 17, 17, 17, 17, 17, 17, 17, 17, 17, 17, 17, 17, 17,
    17, 17, 17, 17, 48, 10, 6, 8, 42, 134, 72, 206, 61, 4, 3, 2, 3, 9, 0, 34, 34, 34, 34,
    34, 34, 34, 34,
];

/// The first certificate in base 64.
const NAMED_TEXT: &str = "MIHsMIHSoAMCAQICAQEwCgYIKoZIzj0EAwIwDTELMAkGA1UEAwwCY2EwHhcNMjUwMTAxMDAwMDAwWhcNMzUwMTAxMDAwMDAwWjAyMQwwCgYDVQQKDANPcmcxEjAQBgNVBAMMCXNlbnNvci0wMTEOMAwGA1UEAwwFb3RoZXIwWTATBgcqhkjOPQIBBggqhkjOPQMBBwNCAAQRERERERERERERERERERERERERERERERERERERERERERERERERERERERERERERERERERERERERERERERERERERMAoGCCqGSM49BAMCAwkAIiIiIiIiIiI=";

/// A key of 32 equal bytes in base 64.
const KEY_TEXT: &str = "MC4CAQAwBQYDK2VwBCIEIDMzMzMzMzMzMzMzMzMzMzMzMzMzMzMzMzMzMzMzMzMz";

fn some(s: &str) -> Option<String> {
    Some(s.to_string())
}

fn pem(kind: &str, text: &str) -> Vec<u8> {
    format!("-----BEGIN {kind}-----\n{text}\n-----END {kind}-----\n").into_bytes()
}

#[test]
fn a_certificate_and_a_key_go_together() {
    let none = None;
    assert!(server_files(&none, &none, &none, "mqtt").unwrap().is_none());
    let f = server_files(&some("c"), &some("k"), &some("ca"), "mqtt")
        .unwrap()
        .unwrap();
    assert_eq!((f.cert.as_str(), f.key.as_str()), ("c", "k"));
    assert_eq!(f.client_ca.as_deref(), Some("ca"));
    for (cert, key, ca) in [
        (some("c"), None, None),
        (None, some("k"), None),
        (None, None, some("ca")),
    ] {
        let e = server_files(&cert, &key, &ca, "mqtt").unwrap_err().message();
        assert!(e.contains("mqtt: "), "{e}");
    }
}

#[test]
fn a_bridge_says_whom_it_trusts() {
    let none = None;
    assert!(client_files(&none, &none, &none, false).is_err());
    let f = client_files(&none, &none, &none, true).unwrap();
    assert!(f.ca.is_none() && f.identity.is_none());
    let f = client_files(&some("ca"), &some("c"), &some("k"), false).unwrap();
    assert_eq!(f.ca.as_deref(), Some("ca"));
    assert_eq!(f.identity, Some(("c".to_string(), "k".to_string())));
    assert!(client_files(&some("ca"), &some("c"), &none, false).is_err());
}

#[test]
fn the_first_common_name_is_who_a_client_is() {
    assert_eq!(peer_cn(&vec![NAMED.to_vec()]).as_deref(), Some("sensor-01"));
    assert_eq!(
        peer_cn(&vec![NAMED.to_vec(), NAMELESS.to_vec()]).as_deref(),
        Some("sensor-01")
    );
    assert_eq!(peer_cn(&vec![NAMELESS.to_vec(), NAMED.to_vec()]), None);
    assert_eq!(peer_cn(&vec![b"no certificate".to_vec()]), None);
    assert_eq!(peer_cn(&Vec::new()), None);
    assert_eq!(first_name(Some(vec![None, some("x")])), None);
    assert_eq!(first_name(Some(vec![some("x"), None])).as_deref(), Some("x"));
    assert_eq!(first_name(None), None);
}

#[test]
fn certificates_are_read_from_pem() {
    let file = [
        pem("CERTIFICATE", NAMED_TEXT),
        pem("CERTIFICATE", NAMED_TEXT),
    ]
    .concat();
    let certs = load_certs("c.pem", &file).unwrap();
    assert_eq!(certs, vec![NAMED.to_vec(), NAMED.to_vec()]);
    let e = load_certs("c.pem", b"nothing here").unwrap_err().message();
    assert!(e.contains("no certificates found in c.pem"), "{e}");
    let e = load_certs("c.pem", &pem("CERTIFICATE", "***")).unwrap_err().message();
    assert!(e.contains("parse cert c.pem: "), "{e}");
}

#[test]
fn keys_are_read_from_pem() {
    let kind = ["PRIVATE", "KEY"].join(" ");
    let (k, der) = load_key("k.pem", &pem(&kind, KEY_TEXT)).unwrap();
    assert_eq!(k, KeyKind::Pkcs8);
    assert_eq!(der.len(), 48);
    assert_eq!(&der[der.len() - 32..], &[0x33; 32]);
    let e = load_key("k.pem", &pem("CERTIFICATE", NAMED_TEXT)).unwrap_err().message();
    assert!(e.contains("no private key found in k.pem"), "{e}");
    assert!(load_key("k.pem", &pem(&kind, "***")).is_err());
}

#[test]
fn a_tls_listener_needs_a_certificate_and_a_key() {
    let none = None;
    assert!(listener_files(false, &some("c"), &none, &none, "x", "ws_").unwrap().is_none());
    let f = listener_files(true, &some("c"), &some("k"), &none, "x", "ws_").unwrap().unwrap();
    assert_eq!((f.cert.as_str(), f.key.as_str(), f.client_ca), ("c", "k", None));
    assert!(listener_files(true, &none, &none, &none, "x", "ws_").is_err());
    assert!(listener_files(true, &some("c"), &none, &none, "x", "ws_").is_err());
}

#[test]
fn a_port_speaks_tls_unless_another_listener_does() {
    let none = None;
    let f = port_files(false, &some("c"), &some("k"), &none, "x").unwrap().unwrap();
    assert_eq!((f.cert.as_str(), f.key.as_str()), ("c", "k"));
    assert!(port_files(true, &some("c"), &some("k"), &none, "x").unwrap().is_none());
    assert!(port_files(false, &none, &none, &none, "x").unwrap().is_none());
    assert!(port_files(false, &some("c"), &none, &none, "x").is_err());
}

#[test]
fn what_is_wrong_with_files_is_said_in_words() {
    let none = None;
    let e = listener_files(true, &none, &none, &none, "x", "ws_").unwrap_err().message();
    assert_eq!(
        e,
        "config error: ws_tls_listen_addr is set but ws_tls_cert/ws_tls_key are not \
         \u{2014} this should have been rejected at startup"
    );
    let e = listener_files(true, &some("c"), &none, &none, "x", "").unwrap_err().message();
    assert_eq!(
        e,
        "config error: x: both a certificate and a private key are required to enable TLS"
    );
    let e = port_files(false, &none, &none, &some("ca"), "mqtt").unwrap_err().message();
    assert_eq!(
        e,
        "config error: mqtt: a client CA was set but TLS is not enabled \
         (needs a certificate and key)"
    );
    let e = client_files(&none, &none, &none, false).unwrap_err().message();
    assert_eq!(e, "config error: a TLS bridge requires tls_ca (or tls_insecure)");
    let e = client_files(&none, &some("c"), &none, true).unwrap_err().message();
    assert_eq!(e, "config error: bridge tls_cert and tls_key must be set together");
    let e = load_certs("c.pem", b"").unwrap_err().message();
    assert_eq!(e, "config error: no certificates found in c.pem");
    let e = load_key("k.pem", b"").unwrap_err().message();
    assert_eq!(e, "config error: no private key found in k.pem");
}
