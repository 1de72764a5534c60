use gelf_ingest::forward::{ForwardAction, SendOutcome, SendState};
use gelf_ingest::listener::{Admission, Source};
use gelf_ingest::pipeline::{
    conclude_attempt, evict_expired, offer, receive_datagram, unpack_payload,
};
use gelf_ingest::reassembly::model::PARTIAL_TTL_MS;
use gelf_ingest::reassembly::store::ReassemblyStore;
use gelf_ingest::stats::{Counters, ErrorKind};

fn chunk_datagram(id: u8, index: u8, count: u8, payload: &[u8]) -> Vec<u8> {
    let mut datagram = vec![0x1e, 0x0f, 0, 0, 0, 0, 0, 0, 0, id, index, count];
    datagram.extend_from_slice(payload);
    datagram
}

#[test]
fn received_datagrams_are_handed_on_or_counted() {
    let mut store = ReassemblyStore::new(1);
    let mut counters = Counters::new();
    assert_eq!(
        receive_datagram(&mut store, &mut counters, b"{}", 0),
        Some(b"{}".to_vec())
    );
    assert_eq!(receive_datagram(&mut store, &mut counters, &chunk_datagram(1, 0, 2, b"a"), 0), None);
    assert_eq!(counters, Counters::new());
    assert_eq!(receive_datagram(&mut store, &mut counters, &chunk_datagram(2, 0, 2, b"a"), 0), None);
    assert_eq!(counters.get(ErrorKind::CapacityExceeded), 1);
    assert_eq!(receive_datagram(&mut store, &mut counters, &[0x1e, 0x0f, 7], 0), None);
    assert_eq!(receive_datagram(&mut store, &mut counters, &chunk_datagram(1, 5, 2, b"a"), 0), None);
    assert_eq!(counters.get(ErrorKind::MalformedInput), 2);
    assert_eq!(
        receive_datagram(&mut store, &mut counters, &chunk_datagram(1, 1, 2, b"b"), 0),
        Some(b"ab".to_vec())
    );
    assert_eq!(counters.get(ErrorKind::MalformedInput), 2);
    assert_eq!(counters.get(ErrorKind::CapacityExceeded), 1);
}

#[test]
fn evicted_messages_are_counted_as_timeouts() {
    let mut store = ReassemblyStore::new(3);
    let mut counters = Counters::new();
    for id in 1..=3 {
        assert_eq!(
            receive_datagram(&mut store, &mut counters, &chunk_datagram(id, 0, 2, b"a"), 1_000),
            None
        );
    }
    evict_expired(&mut store, &mut counters, 1_000 + PARTIAL_TTL_MS);
    assert_eq!(counters.get(ErrorKind::ReassemblyTimeout), 0);
    assert_eq!(store.len(), 3);
    evict_expired(&mut store, &mut counters, 1_001 + PARTIAL_TTL_MS);
    assert_eq!(counters.get(ErrorKind::ReassemblyTimeout), 3);
    assert_eq!(store.len(), 0);
}

#[test]
fn payloads_without_a_record_are_counted() {
    let mut counters = Counters::new();
    let record = unpack_payload(
        &mut counters,
        br#"{"version":"1.1","host":"h","short_message":"m"}"#,
        5,
    );
    assert_eq!(record.unwrap().timestamp, "0.005");
    assert_eq!(counters, Counters::new());
    assert_eq!(unpack_payload(&mut counters, b"nonsense", 5), None);
    assert_eq!(unpack_payload(&mut counters, b"[]", 5), None);
    assert_eq!(counters.get(ErrorKind::MalformedInput), 2);
    assert_eq!(unpack_payload(&mut counters, &[0x1f, 0x8b, 0, 0], 5), None);
    assert_eq!(counters.get(ErrorKind::DecompressionFailure), 1);
    assert_eq!(counters.get(ErrorKind::MalformedInput), 2);
}

#[test]
fn sink_unreachable_three_times_drops_the_record_and_counts_it() {
    let mut counters = Counters::new();
    let mut state = SendState::new();
    assert_eq!(
        conclude_attempt(&mut state, &mut counters, SendOutcome::TransientFailure),
        ForwardAction::RetryAfter(100)
    );
    assert_eq!(
        conclude_attempt(&mut state, &mut counters, SendOutcome::TransientFailure),
        ForwardAction::RetryAfter(200)
    );
    assert_eq!(counters.get(ErrorKind::ForwardTransientFailure), 0);
    assert_eq!(
        conclude_attempt(&mut state, &mut counters, SendOutcome::TransientFailure),
        ForwardAction::DropExhausted
    );
    assert_eq!(counters.get(ErrorKind::ForwardTransientFailure), 1);
    assert_eq!(counters.get(ErrorKind::ForwardPermanentFailure), 0);
}

#[test]
fn rejected_event_is_dropped_at_once_and_counted() {
    let mut counters = Counters::new();
    let mut state = SendState::new();
    assert_eq!(
        conclude_attempt(&mut state, &mut counters, SendOutcome::PermanentFailure),
        ForwardAction::DropRejected
    );
    assert_eq!(counters.get(ErrorKind::ForwardPermanentFailure), 1);
    let mut state = SendState::new();
    assert_eq!(
        conclude_attempt(&mut state, &mut counters, SendOutcome::Delivered),
        ForwardAction::Done
    );
    assert_eq!(counters.get(ErrorKind::ForwardPermanentFailure), 1);
    assert_eq!(counters.get(ErrorKind::ForwardTransientFailure), 0);
}

#[test]
fn units_dropped_for_want_of_room_are_counted() {
    let mut counters = Counters::new();
    assert_eq!(offer(&mut counters, Source::Udp, 1, 2), Admission::Enqueue);
    assert_eq!(offer(&mut counters, Source::Tcp, 2, 2), Admission::Wait);
    assert_eq!(counters.backpressure_drops, 0);
    assert_eq!(offer(&mut counters, Source::Udp, 2, 2), Admission::Drop);
    assert_eq!(offer(&mut counters, Source::Udp, 2, 2), Admission::Drop);
    assert_eq!(counters.backpressure_drops, 2);
    assert_eq!(counters.get(ErrorKind::MalformedInput), 0);
}
