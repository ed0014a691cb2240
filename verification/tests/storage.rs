use wispmq::message::Message;
use wispmq::storage::{
    decode_user_props, encode_user_props, load_all, message_of_row, record_of_row, row_of_message,
    row_of_record, Command, Storage, SubRecord,
};
use wispmq::packet::RetainHandling;
use wispmq::types::QoS;

#[test]
fn send_after_writer_thread_is_gone_does_not_panic() {
    let mut storage = Storage::new();
    assert!(storage.record_writer_loss());

    storage.delete_retained("a/b".into());
    assert!(
        storage.writer_lost(),
        "writer loss should be recorded on the first failed send"
    );

    storage.delete_session("client".into());
    storage.delete_retained("c/d".into());
    assert!(!storage.record_writer_loss(), "the loss is told only once");
    assert!(storage.take_commands().is_empty());
}

#[test]
fn null_storage_accepts_writes() {
    let mut storage = Storage::null();
    storage.delete_retained("x".into());
    assert!(!storage.writer_lost());
    assert!(storage.take_commands().is_empty());
}

#[test]
fn commands_reach_the_writer_in_order() {
    let mut storage = Storage::new();
    storage.delete_retained("a".into());
    storage.delete_session("b".into());
    let commands = storage.take_commands();
    assert_eq!(commands.len(), 2);
    assert!(matches!(&commands[0], Command::DeleteRetained { topic } if topic == "a"));
    assert!(matches!(&commands[1], Command::DeleteSession { client_id } if client_id == "b"));
    assert!(storage.take_commands().is_empty());
}

fn message(expires_at: Option<u64>) -> Message {
    Message {
        topic: "sensors/kitchen".to_string(),
        payload: vec![0x00, 0xff, b'h', b'i', 0x00, 0x80, 0x7f],
        qos: QoS::ExactlyOnce,
        retain: true,
        payload_format_indicator: Some(0),
        content_type: Some("application/octet-stream".to_string()),
        response_topic: Some("reply/here".to_string()),
        correlation_data: Some(vec![1, 2, 3]),
        user_properties: vec![("k".to_string(), "v".to_string())],
        expires_at,
    }
}

#[test]
fn retained_rows_read_back() {
    let m = message(None);
    let restored = message_of_row(row_of_message(&m.topic, &m));
    assert_eq!(restored.payload, m.payload);
    assert_eq!(restored.qos, QoS::ExactlyOnce);
    assert_eq!(
        restored.content_type.as_deref(),
        Some("application/octet-stream")
    );
    assert_eq!(restored.response_topic.as_deref(), Some("reply/here"));
    assert_eq!(restored.correlation_data.as_deref(), Some(&[1u8, 2, 3][..]));
    assert_eq!(
        restored.user_properties,
        vec![("k".to_string(), "v".to_string())]
    );
}

#[test]
fn loading_leaves_out_what_has_expired() {
    let live = message(Some(200));
    let dead = message(Some(50));
    let rows = vec![
        row_of_message(&live.topic, &live),
        row_of_message(&dead.topic, &dead),
    ];
    let loaded = load_all(rows, Vec::new(), 100);
    assert_eq!(loaded.retained.len(), 1);
    assert_eq!(loaded.retained[0].1.expires_at, Some(200));
}

#[test]
fn subscription_rows_read_back() {
    let sub = SubRecord {
        filter: "$share/g/a/#".to_string(),
        qos: QoS::AtLeastOnce,
        no_local: true,
        retain_as_published: true,
        retain_handling: RetainHandling::DoNotSend,
        subscription_identifier: Some(7),
    };
    let back = record_of_row(row_of_record(&sub));
    assert_eq!(back.filter, "$share/g/a/#");
    assert_eq!(back.qos, QoS::AtLeastOnce);
    assert!(back.no_local && back.retain_as_published);
    assert_eq!(back.retain_handling, RetainHandling::DoNotSend);
    assert_eq!(back.subscription_identifier, Some(7));
}

#[test]
fn user_properties_read_back() {
    let props = vec![
        ("k".to_string(), "v".to_string()),
        ("".to_string(), "über".to_string()),
    ];
    let bytes = encode_user_props(&props);
    assert_eq!(decode_user_props(&bytes), props);
    assert!(decode_user_props(&[]).is_empty());
}

#[test]
fn a_stored_subscription_is_a_filter() {
    let record = SubRecord {
        filter: "$share/g/a/#".to_string(),
        qos: QoS::AtLeastOnce,
        no_local: true,
        retain_as_published: false,
        retain_handling: RetainHandling::DoNotSend,
        subscription_identifier: Some(5),
    };
    let f = record.to_topic_filter();
    assert_eq!((f.filter.as_str(), f.qos), ("$share/g/a/#", QoS::AtLeastOnce));
    assert!(f.no_local && !f.retain_as_published);
    assert_eq!(f.retain_handling, RetainHandling::DoNotSend);
}

#[test]
fn commands_are_taken_in_order() {
    let mut storage = Storage::new();
    storage.clear_subscriptions("a".to_string());
    storage.delete_session("a".to_string());
    let taken = storage.take_commands();
    assert!(matches!(&taken[0], Command::ClearSubscriptions { client_id } if client_id == "a"));
    assert!(matches!(&taken[1], Command::DeleteSession { client_id } if client_id == "a"));
    assert!(storage.take_commands().is_empty());
}
