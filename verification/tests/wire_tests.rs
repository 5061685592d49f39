use pulse_agent::queue::PushMessage;
use pulse_agent::wire::{FrameEffect, InboundFrame, classify_frame, escape_json, handle_frame,
    pulse_to_frame, push_frame, subscribe_frame};
use pulse_agent::wsurl::http_to_ws_url;
use pulse_agent::queue::{PulseQueue, PulseQueueConfig};

#[test]
fn test_http_to_ws_url() {
    assert_eq!(
        http_to_ws_url("https://pulse.rabbitmonitor.com"),
        "wss://pulse.rabbitmonitor.com/ws"
    );
    assert_eq!(
        http_to_ws_url("https://pulse.rabbitmonitor.com/"),
        "wss://pulse.rabbitmonitor.com/ws"
    );
    assert_eq!(
        http_to_ws_url("http://localhost:3000"),
        "ws://localhost:3000/ws"
    );
}

#[test]
fn ws_url_scheme_mapping_is_stable_on_mapped_urls() {
    // an already-mapped URL keeps its scheme; only the path suffix is added
    assert_eq!(http_to_ws_url("wss://server"), "wss://server/ws");
    assert_eq!(http_to_ws_url("ws://server"), "ws://server/ws");
}

#[test]
fn subscribe_frame_is_exact() {
    assert_eq!(subscribe_frame("T"), "{\"action\":\"subscribe\",\"token\":\"T\"}");
}

#[test]
fn escape_json_escapes_quotes_and_controls() {
    assert_eq!(escape_json("a\"b\\c"), "a\\\"b\\\\c");
    assert_eq!(escape_json("line\nbreak\ttab"), "line\\nbreak\\ttab");
    assert_eq!(escape_json("\u{01}"), "\\u0001");
}

fn message(token: &str) -> PushMessage {
    PushMessage {
        token: token.to_string(),
        pulse_id: None,
        latency: None,
        start_time: None,
        end_time: None,
        custom1: None,
        custom2: None,
        custom3: None,
    }
}

#[test]
fn push_frame_with_all_fields() {
    let msg = PushMessage {
        token: "T".to_string(),
        pulse_id: Some("id-1".to_string()),
        latency: Some("12.345".to_string()),
        start_time: Some("2024-01-01T00:00:00.000Z".to_string()),
        end_time: Some("2024-01-01T00:00:01.000Z".to_string()),
        custom1: Some("1".to_string()),
        custom2: None,
        custom3: None,
    };
    assert_eq!(
        push_frame(&msg),
        "{\"action\":\"push\",\"token\":\"T\",\"pulseId\":\"id-1\",\"latency\":12.345,\
         \"startTime\":\"2024-01-01T00:00:00.000Z\",\"endTime\":\"2024-01-01T00:00:01.000Z\",\
         \"custom1\":1}"
    );
}

#[test]
fn push_frame_minimal() {
    assert_eq!(push_frame(&message("T")), "{\"action\":\"push\",\"token\":\"T\"}");
}

#[test]
fn classify_inbound_frames() {
    assert!(matches!(
        classify_frame("{\"action\":\"connected\"}"),
        Some(InboundFrame::Connected)
    ));
    assert!(matches!(
        classify_frame("{\"action\":\"subscribed\",\"data\":{\"monitors\":[]}}"),
        Some(InboundFrame::Subscribed)
    ));
    assert!(matches!(
        classify_frame("{\"action\":\"config-update\",\"data\":{\"monitors\":[]}}"),
        Some(InboundFrame::ConfigUpdate)
    ));
    match classify_frame("{\"action\":\"pushed\",\"pulseId\":\"p-9\"}") {
        Some(InboundFrame::Pushed { pulse_id: Some(pid) }) => assert_eq!(pid, "p-9"),
        other => panic!("wrong classification: {:?}", other.is_some()),
    }
    assert!(matches!(
        classify_frame("{\"action\":\"subscribe\",\"token\":\"T\"}"),
        Some(InboundFrame::SubscribeEcho)
    ));
    assert!(matches!(
        classify_frame("{\"action\":\"wat\"}"),
        Some(InboundFrame::Unknown)
    ));
    assert!(classify_frame("not json at all").is_none());
    assert!(classify_frame("{\"noaction\":1}").is_none());
}

#[test]
fn error_frames_are_fatal_only_when_invalid() {
    let mut q = PulseQueue::new(PulseQueueConfig::cached());
    let fatal = InboundFrame::ServerError { message: Some("Invalid token".to_string()) };
    assert!(matches!(handle_frame(&mut q, &fatal), FrameEffect::FatalAuth));
    let transient = InboundFrame::ServerError { message: Some("overloaded".to_string()) };
    assert!(matches!(handle_frame(&mut q, &transient), FrameEffect::Nothing));
    let silent = InboundFrame::ServerError { message: None };
    assert!(matches!(handle_frame(&mut q, &silent), FrameEffect::Nothing));
}

#[test]
fn pulse_to_frame_drains_one_pulse() {
    let mut q = PulseQueue::new(PulseQueueConfig::cached());
    let frame = pulse_to_frame(&mut q, message("T")).expect("a frame comes out");
    assert!(frame.starts_with("{\"action\":\"push\",\"token\":\"T\""));
    assert_eq!(q.pending_count(), 1);
}

#[test]
fn one_pulse_travels_the_channel_and_its_ack_empties_the_queue() {
    // a produced pulse is enqueued, sent as a frame carrying its fresh id,
    // and the server's `pushed` reply settles it
    let mut q = PulseQueue::new(PulseQueueConfig::cached());
    q.enqueue(message("T"));
    let sent = q.next_to_send().expect("the pulse is due");
    let pid = sent.pulse_id.clone().expect("an id was assigned");
    assert_eq!(pid.chars().count(), 36);
    let frame = push_frame(&sent);
    assert!(frame.contains("\"action\":\"push\""));
    assert!(frame.contains("\"token\":\"T\""));
    assert!(frame.contains(&format!("\"pulseId\":\"{}\"", pid)));
    let reply = format!("{{\"action\":\"pushed\",\"pulseId\":\"{}\"}}", pid);
    let classified = classify_frame(&reply).expect("the reply parses");
    match handle_frame(&mut q, &classified) {
        FrameEffect::Acknowledged(found) => assert!(found),
        _ => panic!("expected an acknowledgment"),
    }
    assert_eq!(q.pending_count(), 0);
}

#[test]
fn pushed_with_unknown_pulse_id_is_a_quiet_no_op() {
    let mut q = PulseQueue::new(PulseQueueConfig::cached());
    let id = q.enqueue(message("T"));
    let frame = InboundFrame::Pushed { pulse_id: Some("never-issued".to_string()) };
    match handle_frame(&mut q, &frame) {
        FrameEffect::Acknowledged(found) => assert!(!found),
        _ => panic!("expected an acknowledgment effect"),
    }
    assert_eq!(q.pending_count(), 1);
    // the real pulse is still acknowledgeable
    let frame2 = InboundFrame::Pushed { pulse_id: Some(id) };
    match handle_frame(&mut q, &frame2) {
        FrameEffect::Acknowledged(found) => assert!(found),
        _ => panic!("expected an acknowledgment effect"),
    }
    assert_eq!(q.pending_count(), 0);
}
