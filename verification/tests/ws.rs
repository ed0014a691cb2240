use wispmq::ws::{offers_mqtt, on_frame, FrameKind, FrameStep};

fn lists(v: &[&str]) -> Vec<String> {
    v.iter().map(|s| s.to_string()).collect()
}

#[test]
fn the_subprotocol_is_chosen_where_it_is_offered() {
    assert!(offers_mqtt(&lists(&["mqtt"])));
    assert!(offers_mqtt(&lists(&["chat, MQTT "])));
    assert!(offers_mqtt(&lists(&["chat", "x,mqtt"])));
    assert!(!offers_mqtt(&lists(&[])));
    assert!(!offers_mqtt(&lists(&["mqttv3.1", "chat"])));
    assert!(!offers_mqtt(&lists(&["mq tt"])));
}

#[test]
fn packets_travel_in_binary_frames() {
    assert_eq!(on_frame(FrameKind::Binary), FrameStep::Append);
    assert_eq!(on_frame(FrameKind::Text), FrameStep::Refuse);
    assert_eq!(on_frame(FrameKind::Close), FrameStep::End);
    assert_eq!(on_frame(FrameKind::Control), FrameStep::Skip);
}
