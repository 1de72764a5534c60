use gelf_ingest::forward::{
    reply_outcome, reply_status, sink_level, to_forward_event, ForwardAction, ForwardEvent, SendOutcome,
    SendState, SinkLevel, BACKOFF_BASE_MS, MAX_ATTEMPTS,
};
use gelf_ingest::json::JsonValue;
use gelf_ingest::record::LogRecord;

#[test]
fn syslog_severities_map_onto_the_sink() {
    assert_eq!(sink_level(0), SinkLevel::Fatal);
    assert_eq!(sink_level(1), SinkLevel::Fatal);
    assert_eq!(sink_level(2), SinkLevel::Fatal);
    assert_eq!(sink_level(3), SinkLevel::Error);
    assert_eq!(sink_level(4), SinkLevel::Warning);
    assert_eq!(sink_level(5), SinkLevel::Info);
    assert_eq!(sink_level(6), SinkLevel::Info);
    assert_eq!(sink_level(7), SinkLevel::Debug);
    assert_eq!(sink_level(8), SinkLevel::Debug);
    assert_eq!(sink_level(255), SinkLevel::Debug);
}

#[test]
fn record_maps_onto_the_event_field_by_field() {
    let record = LogRecord {
        version: "1.1".to_string(),
        host: "web-1".to_string(),
        short_message: "disk full".to_string(),
        full_message: Some("no space left on /var".to_string()),
        timestamp: "1385053862.3072".to_string(),
        level: 3,
        extra: vec![("_mount".to_string(), JsonValue::Text("/var".to_string()))],
    };
    assert_eq!(
        to_forward_event(record),
        ForwardEvent {
            message: "disk full".to_string(),
            body: Some("no space left on /var".to_string()),
            level: SinkLevel::Error,
            server_name: "web-1".to_string(),
            timestamp: "1385053862.3072".to_string(),
            extra: vec![("_mount".to_string(), JsonValue::Text("/var".to_string()))],
        }
    );
}

#[test]
fn record_without_full_message_gives_an_event_without_body() {
    let record = LogRecord {
        version: "1.1".to_string(),
        host: "h".to_string(),
        short_message: "m".to_string(),
        full_message: None,
        timestamp: "1".to_string(),
        level: 6,
        extra: vec![],
    };
    let event = to_forward_event(record);
    assert_eq!(event.body, None);
    assert_eq!(event.level, SinkLevel::Info);
    assert_eq!(event.extra, vec![]);
}

#[test]
fn three_failed_attempts_exhaust_the_budget() {
    assert_eq!(MAX_ATTEMPTS, 3);
    let mut state = SendState::new();
    assert_eq!(state.failures(), 0);
    assert_eq!(
        state.after_attempt(SendOutcome::TransientFailure),
        ForwardAction::RetryAfter(BACKOFF_BASE_MS)
    );
    assert_eq!(state.failures(), 1);
    assert_eq!(
        state.after_attempt(SendOutcome::TransientFailure),
        ForwardAction::RetryAfter(2 * BACKOFF_BASE_MS)
    );
    assert_eq!(state.failures(), 2);
    assert_eq!(state.after_attempt(SendOutcome::TransientFailure), ForwardAction::DropExhausted);
    assert_eq!(state.failures(), 3);
    assert_eq!(state.after_attempt(SendOutcome::TransientFailure), ForwardAction::DropExhausted);
    assert_eq!(state.failures(), 3);
}

#[test]
fn pauses_double() {
    let mut state = SendState::new();
    assert_eq!(state.after_attempt(SendOutcome::TransientFailure), ForwardAction::RetryAfter(100));
    assert_eq!(state.after_attempt(SendOutcome::TransientFailure), ForwardAction::RetryAfter(200));
}

#[test]
fn delivery_ends_the_sending() {
    let mut state = SendState::new();
    assert_eq!(state.after_attempt(SendOutcome::Delivered), ForwardAction::Done);
    assert_eq!(state.failures(), 0);
    let mut state = SendState::new();
    let _ = state.after_attempt(SendOutcome::TransientFailure);
    assert_eq!(state.after_attempt(SendOutcome::Delivered), ForwardAction::Done);
    assert_eq!(state.failures(), 1);
}

#[test]
fn permanent_failure_is_not_tried_again() {
    let mut state = SendState::new();
    assert_eq!(state.after_attempt(SendOutcome::PermanentFailure), ForwardAction::DropRejected);
    assert_eq!(state.failures(), 0);
}

#[test]
fn severities_have_their_names() {
    assert_eq!(SinkLevel::Fatal.name(), "fatal");
    assert_eq!(SinkLevel::Error.name(), "error");
    assert_eq!(SinkLevel::Warning.name(), "warning");
    assert_eq!(SinkLevel::Info.name(), "info");
    assert_eq!(SinkLevel::Debug.name(), "debug");
}

#[test]
fn replies_tell_how_an_attempt_ended() {
    assert_eq!(reply_outcome(None), SendOutcome::TransientFailure);
    assert_eq!(reply_outcome(Some(200)), SendOutcome::Delivered);
    assert_eq!(reply_outcome(Some(299)), SendOutcome::Delivered);
    assert_eq!(reply_outcome(Some(199)), SendOutcome::TransientFailure);
    assert_eq!(reply_outcome(Some(300)), SendOutcome::TransientFailure);
    assert_eq!(reply_outcome(Some(400)), SendOutcome::PermanentFailure);
    assert_eq!(reply_outcome(Some(401)), SendOutcome::PermanentFailure);
    assert_eq!(reply_outcome(Some(403)), SendOutcome::PermanentFailure);
    assert_eq!(reply_outcome(Some(408)), SendOutcome::TransientFailure);
    assert_eq!(reply_outcome(Some(429)), SendOutcome::TransientFailure);
    assert_eq!(reply_outcome(Some(499)), SendOutcome::PermanentFailure);
    assert_eq!(reply_outcome(Some(500)), SendOutcome::TransientFailure);
    assert_eq!(reply_outcome(Some(503)), SendOutcome::TransientFailure);
}

#[test]
fn status_is_read_from_the_reply() {
    assert_eq!(reply_status(b"HTTP/1.1 200 OK\r\nContent-Length: 0\r\n\r\n"), Some(200));
    assert_eq!(reply_status(b"HTTP/1.1 403 Forbidden\r\n\r\n"), Some(403));
    assert_eq!(reply_status(b"HTTP/1.0 503"), Some(503));
    assert_eq!(reply_status(b"HTTP/1.1 007 x"), Some(7));
    assert_eq!(reply_status(b"X 999\r\n"), Some(999));
    assert_eq!(reply_status(b" 200"), Some(200));
    assert_eq!(reply_status(b""), None);
    assert_eq!(reply_status(b"HTTP/1.1"), None);
    assert_eq!(reply_status(b"HTTP/1.1 "), None);
    assert_eq!(reply_status(b"HTTP/1.1 20"), None);
    assert_eq!(reply_status(b"HTTP/1.1 2000 OK"), None);
    assert_eq!(reply_status(b"HTTP/1.1 2x0 OK"), None);
    assert_eq!(reply_status(b"HTTP/1.1  200 OK"), None);
    assert_eq!(reply_status(b"200 OK"), None);
}
