use wispmq::cli::{bool_flag, qos_flag, Cli, Startup};
use wispmq::config::{header_flag, Config, OtlpHeaders};
use wispmq::types::QoS;

fn owned(v: &[(&str, &str)]) -> Vec<(String, String)> {
    v.iter().map(|(a, b)| (a.to_string(), b.to_string())).collect()
}

fn config_from(cli: Cli) -> Config {
    let mut cfg = Config::default();
    cli.apply(&mut cfg);
    cfg
}

#[test]
fn cli_overrides_and_parses() {
    let cfg = config_from(Cli {
        listen_addr: Some("127.0.0.1:1".to_string()),
        receive_maximum: Some(10),
        tls_cert: Some("c.pem".to_string()),
        tls_key: Some("k.pem".to_string()),
        tls_client_ca: Some("ca.pem".to_string()),
        ..Cli::new()
    });
    assert_eq!(cfg.listen_addr, "127.0.0.1:1");
    assert_eq!(cfg.receive_maximum, 10);
    assert_eq!(cfg.tls_cert.as_deref(), Some("c.pem"));
    assert_eq!(cfg.tls_key.as_deref(), Some("k.pem"));
    assert_eq!(cfg.tls_client_ca.as_deref(), Some("ca.pem"));
}

#[test]
fn unset_flags_leave_lower_layers_alone() {
    let mut cfg = Config {
        db_path: "from-file.db".to_string(),
        retain_available: false,
        server_keep_alive: Some(30),
        ..Config::default()
    };
    Cli {
        listen_addr: Some("127.0.0.1:1".to_string()),
        ..Cli::new()
    }
    .apply(&mut cfg);
    assert_eq!(cfg.db_path, "from-file.db");
    assert!(!cfg.retain_available);
    assert_eq!(cfg.server_keep_alive, Some(30));
}

#[test]
fn cli_flags_override_config_file() {
    let mut cfg = Config::default();
    cfg.apply_json_str(
        r#"{"listen_addr": "127.0.0.1:1", "receive_maximum": 5,
                "max_queued_messages": 5}"#,
        "t.json",
    )
    .unwrap();
    Cli {
        receive_maximum: Some(42),
        max_queued_messages: Some(7),
        max_connections_per_ip: Some(20),
        ..Cli::new()
    }
    .apply(&mut cfg);
    assert_eq!(cfg.listen_addr, "127.0.0.1:1"); // from file
    assert_eq!(cfg.receive_maximum, 42); // CLI override
    assert_eq!(cfg.max_queued_messages, 7); // CLI override
    assert_eq!(cfg.max_connections_per_ip, 20); // CLI override
}

#[test]
fn cli_beats_env_beats_file() {
    let vars = owned(&[
        ("MQTT_RECEIVE_MAXIMUM", "20"),
        ("MQTT_DB_PATH", "from-env.db"),
    ]);
    let mut cfg = Config::default();
    cfg.apply_json_str(
        r#"{"receive_maximum": 5, "db_path": "from-file.db", "sys_interval": 5}"#,
        "t.json",
    )
    .unwrap();
    assert!(cfg.apply_env(&vars).is_none());
    Cli {
        receive_maximum: Some(42),
        ..Cli::new()
    }
    .apply(&mut cfg);

    assert_eq!(cfg.receive_maximum, 42); // CLI > env > file
    assert_eq!(cfg.db_path, "from-env.db"); // env > file
    assert_eq!(cfg.sys_interval, 5); // file > default
}

#[test]
fn protocol_capabilities() {
    let cfg = config_from(Cli {
        maximum_qos: Some(qos_flag("0").unwrap()),
        retain_available: Some(bool_flag("false").unwrap()),
        topic_alias_maximum: Some(5),
        server_keep_alive: Some(45),
        ..Cli::new()
    });
    assert_eq!(cfg.maximum_qos, QoS::AtMostOnce);
    assert!(!cfg.retain_available);
    assert_eq!(cfg.topic_alias_maximum, 5);
    assert_eq!(cfg.server_keep_alive, Some(45));

    assert!(qos_flag("9").is_err());
    assert!(qos_flag("high").is_err());
}

#[test]
fn bool_flags_accept_spellings_and_a_bare_form() {
    let with = |v: &str| {
        config_from(Cli {
            allow_anonymous: Some(bool_flag(v).unwrap()),
            ..Cli::new()
        })
    };
    assert!(with("yes").allow_anonymous);
    assert!(!with("off").allow_anonymous);
    assert!(with("true").allow_anonymous);
    assert!(!bool_flag("0").unwrap());
    assert!(bool_flag("maybe").is_err());
}

#[test]
fn otlp_flags_apply() {
    let cfg = config_from(Cli {
        otlp_endpoint: Some("http://127.0.0.1:4318".to_string()),
        otlp_interval: Some(5),
        otlp_logs: Some(bool_flag("false").unwrap()),
        service_name: Some("edge-1".to_string()),
        otlp_header: vec![
            header_flag("DD-API-KEY=abc").unwrap(),
            header_flag("X-Extra=1").unwrap(),
        ],
        ..Cli::new()
    });
    assert_eq!(cfg.otlp_endpoint.as_deref(), Some("http://127.0.0.1:4318"));
    assert_eq!(cfg.otlp_interval, 5);
    assert!(!cfg.otlp_logs);
    assert!(cfg.otlp_metrics);
    assert_eq!(cfg.service_name, "edge-1");
    assert_eq!(
        cfg.otlp_headers.iter(),
        owned(&[("DD-API-KEY", "abc"), ("X-Extra", "1")])
    );
}

#[test]
fn ha_discovery_flags_apply() {
    let cfg = config_from(Cli {
        ha_discovery: Some(true),
        ha_discovery_prefix: Some("hass".to_string()),
        ..Cli::new()
    });
    assert!(cfg.ha_discovery);
    assert_eq!(cfg.ha_discovery_prefix, "hass");

    let cfg = config_from(Cli::new());
    assert!(!cfg.ha_discovery);
    assert_eq!(cfg.ha_discovery_prefix, "homeassistant");
}

#[test]
fn malformed_otlp_header_is_a_usage_error() {
    assert!(header_flag("no-equals").is_err());
    assert!(header_flag("=novalue").is_err());
}

#[test]
fn otlp_headers_do_not_stomp_lower_layers_when_unset() {
    let mut cfg = Config {
        otlp_headers: OtlpHeaders::from_pairs(owned(&[("DD-API-KEY", "from-file")])),
        ..Config::default()
    };
    Cli {
        otlp_endpoint: Some("http://127.0.0.1:4318".to_string()),
        ..Cli::new()
    }
    .apply(&mut cfg);
    assert_eq!(
        cfg.otlp_headers.iter(),
        owned(&[("DD-API-KEY", "from-file")])
    );
}

#[test]
fn startup_carries_the_hash_password_request() {
    let cli = Cli {
        hash_password: Some(Some("bob".to_string())),
        ..Cli::new()
    };
    // A broken file does not get in the way.
    let file = Some(("t.json".to_string(), "{not json".to_string()));
    match Config::from_cli(cli, file, &Vec::new()) {
        Ok((Startup::HashPassword(user), None)) => assert_eq!(user.as_deref(), Some("bob")),
        _ => panic!("expected the hash-password path"),
    }
}

#[test]
fn all_layers_come_together() {
    let cli = Cli {
        receive_maximum: Some(42),
        ..Cli::new()
    };
    let file = Some((
        "t.json".to_string(),
        r#"{"receive_maximum": 5, "sys_interval": 9}"#.to_string(),
    ));
    let vars = owned(&[("MQTT_SYS_INTERVAL", "8"), ("MQTT_SERVICE_NAME", "env")]);
    match Config::from_cli(cli, file, &vars) {
        Ok((Startup::Run(cfg), None)) => {
            assert_eq!(cfg.receive_maximum, 42);
            assert_eq!(cfg.sys_interval, 8);
            assert_eq!(cfg.service_name, "env");
            assert_eq!(cfg.config_file.as_deref(), Some("t.json"));
        }
        _ => panic!("expected a configuration"),
    }
    let broken = Some(("t.json".to_string(), "[]".to_string()));
    assert!(Config::from_cli(Cli::new(), broken, &Vec::new()).is_err());
}

#[test]
fn the_file_is_named_by_flag_or_environment() {
    let vars = owned(&[("MQTT_CONFIG_FILE", "env.json")]);
    assert_eq!(Cli::new().config_path(&vars).as_deref(), Some("env.json"));
    assert_eq!(Cli::new().config_path(&Vec::new()), None);
    let cli = Cli {
        config: Some("flag.json".to_string()),
        ..Cli::new()
    };
    assert_eq!(cli.config_path(&vars).as_deref(), Some("flag.json"));
}

#[test]
fn wrong_headers_of_the_environment_are_told_of() {
    let vars = owned(&[("MQTT_OTLP_HEADERS", "a=b,nonsense"), ("MQTT_SYS_INTERVAL", "8")]);
    match Config::from_cli(Cli::new(), None, &vars) {
        Ok((Startup::Run(cfg), Some(e))) => {
            assert_eq!(e.message(), "config error: otlp header: expected NAME=VALUE");
            assert!(cfg.otlp_headers.is_empty());
            assert_eq!(cfg.sys_interval, 8);
        }
        _ => panic!("expected a configuration and a warning"),
    }
    let vars = owned(&[("MQTT_OTLP_HEADERS", "a=b, =c")]);
    match Config::from_cli(Cli::new(), None, &vars) {
        Ok((_, Some(e))) => {
            assert_eq!(e.message(), "config error: otlp header: the header name is empty");
        }
        _ => panic!("expected a warning"),
    }
}
