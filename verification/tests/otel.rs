use wispmq::acl::Acl;
use wispmq::broker::Broker;
use wispmq::config::{Config, OtlpHeaders};
use wispmq::metrics::Metrics;
use wispmq::otel::{export_plan, is_exporter_target, signal_url, SnapshotCache};
use wispmq::storage::{LoadedState, Storage};

fn broker() -> Broker {
    Broker::new(
        Config::default(),
        Storage::null(),
        LoadedState { retained: Vec::new(), sessions: Vec::new() },
        Acl::permit_all(),
        None,
    )
}

#[test]
fn exporter_targets_are_excluded_from_export() {
    assert!(is_exporter_target("opentelemetry_sdk"));
    assert!(is_exporter_target("opentelemetry_sdk::logs::internal"));
    assert!(is_exporter_target("hyper_util::client::pool"));
    assert!(!is_exporter_target("wispmq::broker"));
    assert!(!is_exporter_target("h2o"));
    assert!(!is_exporter_target("rustls_pemfile"));
}

#[test]
fn signal_paths_are_appended_to_the_base_url() {
    assert_eq!(
        signal_url("http://127.0.0.1:4318", "v1/metrics"),
        "http://127.0.0.1:4318/v1/metrics"
    );
    assert_eq!(
        signal_url("http://collector:4318/", "v1/logs"),
        "http://collector:4318/v1/logs"
    );
    assert_eq!(
        signal_url("https://otlp.example.com/ingest", "v1/metrics"),
        "https://otlp.example.com/ingest/v1/metrics"
    );
}

#[test]
fn grpc_is_rejected_with_a_message_naming_the_reason() {
    let config = Config {
        otlp_endpoint: Some("http://127.0.0.1:4317".to_string()),
        otlp_protocol: "grpc".to_string(),
        ..Config::default()
    };
    let err = match export_plan(&config) {
        Err(e) => e.message(),
        Ok(_) => panic!("grpc should have been rejected"),
    };
    assert!(err.contains("HTTP/protobuf only"), "{err}");
}

#[test]
fn export_is_off_unless_an_endpoint_is_configured() {
    assert!(export_plan(&Config::default()).unwrap().is_none());
    let config = Config {
        otlp_endpoint: Some("http://127.0.0.1:4318".to_string()),
        otlp_interval: 0,
        otlp_logs: false,
        otlp_headers: OtlpHeaders::from_pairs(vec![("k".to_string(), "v".to_string())]),
        ..Config::default()
    };
    let plan = export_plan(&config).unwrap().unwrap();
    assert_eq!(plan.endpoint, "http://127.0.0.1:4318");
    assert_eq!(plan.interval, 1);
    assert!(plan.metrics && !plan.logs);
    assert_eq!(plan.headers, vec![("k".to_string(), "v".to_string())]);
}

#[test]
fn one_cycle_reads_one_snapshot() {
    let mut b = broker();
    let mut cache = SnapshotCache::new(&mut b, 10, 1_000, 0, 0);
    let first = cache.value(&mut b, 0, 1_000, 0, 0);
    Metrics::add(&mut b.metrics_mut().connections_total, 3);
    // Still the same cycle.
    assert_eq!(cache.value(&mut b, 0, 5_999, 0, 0), first);
    // The next one sees the change.
    assert_eq!(cache.value(&mut b, 0, 6_000, 0, 0), first + 3);
    assert_eq!(cache.value(&mut b, 100_000, 6_001, 0, 0), 0);
}
