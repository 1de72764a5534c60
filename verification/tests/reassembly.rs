use gelf_ingest::chunk::RawChunk;
use gelf_ingest::reassembly::model::PARTIAL_TTL_MS;
use gelf_ingest::reassembly::store::{ChunkOutcome, ReassemblyStore};

fn chunk(id: u64, index: u8, count: u8, payload: &[u8]) -> RawChunk {
    RawChunk {
        message_id: id,
        sequence_index: index,
        sequence_count: count,
        payload: payload.to_vec(),
    }
}

#[test]
fn three_chunks_out_of_order_reassemble_to_the_original() {
    let original = b"{\"version\":\"1.1\",\"host\":\"h\",\"short_message\":\"m\"}".to_vec();
    let (first, rest) = original.split_at(10);
    let (second, third) = rest.split_at(20);
    let mut store = ReassemblyStore::new(4);
    assert_eq!(store.handle_chunk(chunk(7, 2, 3, third), 100), ChunkOutcome::Stored);
    assert_eq!(store.handle_chunk(chunk(7, 0, 3, first), 101), ChunkOutcome::Stored);
    assert_eq!(store.len(), 1);
    assert_eq!(
        store.handle_chunk(chunk(7, 1, 3, second), 102),
        ChunkOutcome::Completed(original)
    );
    assert_eq!(store.len(), 0);
    assert!(!store.contains(7));
}

#[test]
fn every_order_of_three_chunks_gives_the_same_payload() {
    let parts: [&[u8]; 3] = [b"alpha-", b"beta-", b"gamma"];
    let orders = [[0, 1, 2], [0, 2, 1], [1, 0, 2], [1, 2, 0], [2, 0, 1], [2, 1, 0]];
    for order in orders {
        let mut store = ReassemblyStore::new(1);
        let mut outcomes = Vec::new();
        for index in order {
            outcomes.push(store.handle_chunk(chunk(42, index as u8, 3, parts[index]), 5));
        }
        assert_eq!(
            outcomes,
            vec![
                ChunkOutcome::Stored,
                ChunkOutcome::Stored,
                ChunkOutcome::Completed(b"alpha-beta-gamma".to_vec()),
            ]
        );
        assert!(store.is_empty());
    }
}

#[test]
fn single_chunk_message_completes_at_once() {
    let mut store = ReassemblyStore::new(1);
    assert_eq!(
        store.handle_chunk(chunk(1, 0, 1, b"whole"), 0),
        ChunkOutcome::Completed(b"whole".to_vec())
    );
    assert!(store.is_empty());
}

#[test]
fn duplicate_chunk_changes_nothing() {
    let mut store = ReassemblyStore::new(2);
    assert_eq!(store.handle_chunk(chunk(1, 0, 2, b"first"), 0), ChunkOutcome::Stored);
    assert_eq!(store.handle_chunk(chunk(1, 0, 2, b"first"), 1), ChunkOutcome::Duplicate);
    assert_eq!(store.handle_chunk(chunk(1, 0, 2, b"other"), 2), ChunkOutcome::Duplicate);
    assert_eq!(store.len(), 1);
    assert_eq!(
        store.handle_chunk(chunk(1, 1, 2, b"-second"), 3),
        ChunkOutcome::Completed(b"first-second".to_vec())
    );
}

#[test]
fn chunk_after_completion_starts_a_new_message() {
    let mut store = ReassemblyStore::new(2);
    assert_eq!(store.handle_chunk(chunk(1, 0, 2, b"a"), 0), ChunkOutcome::Stored);
    assert_eq!(
        store.handle_chunk(chunk(1, 1, 2, b"b"), 0),
        ChunkOutcome::Completed(b"ab".to_vec())
    );
    assert_eq!(store.handle_chunk(chunk(1, 1, 2, b"b"), 0), ChunkOutcome::Stored);
    assert!(store.contains(1));
}

#[test]
fn inconsistent_chunk_is_malformed() {
    let mut store = ReassemblyStore::new(2);
    assert_eq!(store.handle_chunk(chunk(1, 2, 2, b"x"), 0), ChunkOutcome::Malformed);
    assert_eq!(store.handle_chunk(chunk(1, 0, 0, b"x"), 0), ChunkOutcome::Malformed);
    assert!(store.is_empty());
}

#[test]
fn chunk_with_another_count_is_malformed() {
    let mut store = ReassemblyStore::new(2);
    assert_eq!(store.handle_chunk(chunk(1, 0, 3, b"a"), 0), ChunkOutcome::Stored);
    assert_eq!(store.handle_chunk(chunk(1, 1, 2, b"b"), 0), ChunkOutcome::Malformed);
    assert_eq!(store.handle_chunk(chunk(1, 1, 3, b"b"), 0), ChunkOutcome::Stored);
    assert_eq!(
        store.handle_chunk(chunk(1, 2, 3, b"c"), 0),
        ChunkOutcome::Completed(b"abc".to_vec())
    );
}

#[test]
fn full_store_rejects_new_messages_and_keeps_the_old() {
    let mut store = ReassemblyStore::new(2);
    assert_eq!(store.handle_chunk(chunk(1, 0, 2, b"one-"), 0), ChunkOutcome::Stored);
    assert_eq!(store.handle_chunk(chunk(2, 1, 2, b"-two"), 0), ChunkOutcome::Stored);
    assert_eq!(store.len(), store.capacity());
    assert_eq!(store.handle_chunk(chunk(3, 0, 2, b"three"), 0), ChunkOutcome::CapacityExceeded);
    assert_eq!(store.handle_chunk(chunk(3, 0, 1, b"three"), 0), ChunkOutcome::CapacityExceeded);
    assert_eq!(store.len(), 2);
    assert!(store.contains(1));
    assert!(store.contains(2));
    assert!(!store.contains(3));
    assert_eq!(
        store.handle_chunk(chunk(1, 1, 2, b"done"), 0),
        ChunkOutcome::Completed(b"one-done".to_vec())
    );
    assert_eq!(
        store.handle_chunk(chunk(2, 0, 2, b"zero"), 0),
        ChunkOutcome::Completed(b"zero-two".to_vec())
    );
}

#[test]
fn store_never_grows_beyond_its_capacity() {
    let mut store = ReassemblyStore::new(3);
    for id in 0..20u64 {
        let _ = store.handle_chunk(chunk(id, 0, 2, b"x"), id);
        assert!(store.len() <= store.capacity());
    }
    assert_eq!(store.len(), 3);
    assert_eq!(store.capacity(), 3);
}

#[test]
fn store_without_capacity_takes_no_message() {
    let mut store = ReassemblyStore::new(0);
    assert_eq!(store.handle_chunk(chunk(1, 0, 2, b"x"), 0), ChunkOutcome::CapacityExceeded);
    assert!(store.is_empty());
}

#[test]
fn completion_makes_room_again() {
    let mut store = ReassemblyStore::new(1);
    assert_eq!(store.handle_chunk(chunk(1, 0, 2, b"a"), 0), ChunkOutcome::Stored);
    assert_eq!(store.handle_chunk(chunk(2, 0, 2, b"a"), 0), ChunkOutcome::CapacityExceeded);
    assert_eq!(
        store.handle_chunk(chunk(1, 1, 2, b"b"), 0),
        ChunkOutcome::Completed(b"ab".to_vec())
    );
    assert_eq!(store.handle_chunk(chunk(2, 0, 2, b"a"), 0), ChunkOutcome::Stored);
}

#[test]
fn sweep_evicts_only_what_is_older_than_the_ttl() {
    let mut store = ReassemblyStore::new(4);
    assert_eq!(store.handle_chunk(chunk(1, 0, 2, b"old"), 1_000), ChunkOutcome::Stored);
    assert_eq!(store.handle_chunk(chunk(2, 0, 2, b"new"), 3_000), ChunkOutcome::Stored);
    assert_eq!(store.sweep_expired(1_000 + PARTIAL_TTL_MS), 0);
    assert_eq!(store.len(), 2);
    assert_eq!(store.sweep_expired(1_000 + PARTIAL_TTL_MS + 1), 1);
    assert!(!store.contains(1));
    assert!(store.contains(2));
    assert_eq!(store.sweep_expired(3_000 + PARTIAL_TTL_MS + 1), 1);
    assert!(store.is_empty());
    assert_eq!(store.sweep_expired(u64::MAX), 0);
}

#[test]
fn age_counts_from_the_first_chunk() {
    let mut store = ReassemblyStore::new(4);
    assert_eq!(store.handle_chunk(chunk(1, 0, 3, b"a"), 1_000), ChunkOutcome::Stored);
    assert_eq!(store.handle_chunk(chunk(1, 1, 3, b"b"), 5_000), ChunkOutcome::Stored);
    assert_eq!(store.sweep_expired(6_001), 1);
    assert!(store.is_empty());
}

#[test]
fn sweep_with_a_clock_behind_evicts_nothing() {
    let mut store = ReassemblyStore::new(4);
    assert_eq!(store.handle_chunk(chunk(1, 0, 2, b"a"), 10_000), ChunkOutcome::Stored);
    assert_eq!(store.sweep_expired(0), 0);
    assert!(store.contains(1));
}

#[test]
fn late_chunk_after_eviction_starts_a_new_message() {
    let mut store = ReassemblyStore::new(1);
    assert_eq!(store.handle_chunk(chunk(1, 0, 2, b"early"), 0), ChunkOutcome::Stored);
    assert_eq!(store.sweep_expired(PARTIAL_TTL_MS + 1), 1);
    assert_eq!(store.handle_chunk(chunk(1, 1, 2, b"late"), PARTIAL_TTL_MS + 2), ChunkOutcome::Stored);
    assert!(store.contains(1));
    assert_eq!(
        store.handle_chunk(chunk(1, 0, 2, b"again-"), PARTIAL_TTL_MS + 3),
        ChunkOutcome::Completed(b"again-late".to_vec())
    );
}

#[test]
fn sweep_makes_room_for_new_messages() {
    let mut store = ReassemblyStore::new(2);
    assert_eq!(store.handle_chunk(chunk(1, 0, 2, b"a"), 0), ChunkOutcome::Stored);
    assert_eq!(store.handle_chunk(chunk(2, 0, 2, b"b"), 0), ChunkOutcome::Stored);
    assert_eq!(store.handle_chunk(chunk(3, 0, 2, b"c"), 10), ChunkOutcome::CapacityExceeded);
    assert_eq!(store.sweep_expired(PARTIAL_TTL_MS + 1), 2);
    assert_eq!(store.handle_chunk(chunk(3, 0, 2, b"c"), PARTIAL_TTL_MS + 2), ChunkOutcome::Stored);
}

#[test]
fn largest_message_reassembles() {
    let mut store = ReassemblyStore::new(1);
    let mut expected = Vec::new();
    for index in (0..255u8).rev() {
        let outcome = store.handle_chunk(chunk(9, index, 255, &[index, index]), 0);
        if index == 0 {
            for i in 0..255u8 {
                expected.extend_from_slice(&[i, i]);
            }
            assert_eq!(outcome, ChunkOutcome::Completed(expected.clone()));
        } else {
            assert_eq!(outcome, ChunkOutcome::Stored);
        }
    }
}
