use gelf_ingest::chunk::{classify_datagram, Datagram, RawChunk, CHUNK_HEADER_LEN};

fn chunk_datagram(id: [u8; 8], index: u8, count: u8, payload: &[u8]) -> Vec<u8> {
    let mut datagram = vec![0x1e, 0x0f];
    datagram.extend_from_slice(&id);
    datagram.push(index);
    datagram.push(count);
    datagram.extend_from_slice(payload);
    datagram
}

#[test]
fn datagram_without_marker_is_a_single_message() {
    let datagram = br#"{"version":"1.1"}"#;
    assert_eq!(classify_datagram(datagram), Datagram::Single(datagram.to_vec()));
}

#[test]
fn empty_datagram_is_a_single_message() {
    assert_eq!(classify_datagram(&[]), Datagram::Single(vec![]));
}

#[test]
fn one_byte_datagram_is_a_single_message() {
    assert_eq!(classify_datagram(&[0x1e]), Datagram::Single(vec![0x1e]));
}

#[test]
fn datagram_with_half_the_marker_is_a_single_message() {
    assert_eq!(classify_datagram(&[0x1e, 0x10, 1, 2]), Datagram::Single(vec![0x1e, 0x10, 1, 2]));
    assert_eq!(classify_datagram(&[0x1f, 0x0f, 1, 2]), Datagram::Single(vec![0x1f, 0x0f, 1, 2]));
}

#[test]
fn chunk_header_is_read_field_by_field() {
    let datagram = chunk_datagram([1, 2, 3, 4, 5, 6, 7, 8], 2, 5, b"payload");
    assert_eq!(
        classify_datagram(&datagram),
        Datagram::Chunk(RawChunk {
            message_id: 0x0102_0304_0506_0708,
            sequence_index: 2,
            sequence_count: 5,
            payload: b"payload".to_vec(),
        })
    );
}

#[test]
fn message_id_uses_all_eight_bytes() {
    let datagram = chunk_datagram([0xff; 8], 0, 1, b"");
    match classify_datagram(&datagram) {
        Datagram::Chunk(chunk) => assert_eq!(chunk.message_id, u64::MAX),
        other => panic!("unexpected {:?}", other),
    }
    let datagram = chunk_datagram([0, 0, 0, 0, 0, 0, 0, 1], 0, 1, b"");
    match classify_datagram(&datagram) {
        Datagram::Chunk(chunk) => assert_eq!(chunk.message_id, 1),
        other => panic!("unexpected {:?}", other),
    }
}

#[test]
fn chunk_with_empty_payload_is_a_chunk() {
    let datagram = chunk_datagram([9; 8], 0, 2, b"");
    assert_eq!(datagram.len(), CHUNK_HEADER_LEN);
    match classify_datagram(&datagram) {
        Datagram::Chunk(chunk) => {
            assert_eq!(chunk.payload, Vec::<u8>::new());
            assert_eq!(chunk.sequence_count, 2);
        }
        other => panic!("unexpected {:?}", other),
    }
}

#[test]
fn short_chunk_header_is_malformed() {
    for len in 2..CHUNK_HEADER_LEN {
        let mut datagram = vec![0x1e, 0x0f];
        datagram.resize(len, 1);
        assert_eq!(classify_datagram(&datagram), Datagram::Malformed);
    }
}

#[test]
fn chunk_index_beyond_count_is_malformed() {
    assert_eq!(classify_datagram(&chunk_datagram([1; 8], 3, 3, b"x")), Datagram::Malformed);
    assert_eq!(classify_datagram(&chunk_datagram([1; 8], 4, 3, b"x")), Datagram::Malformed);
    assert_eq!(classify_datagram(&chunk_datagram([1; 8], 0, 0, b"x")), Datagram::Malformed);
}

#[test]
fn last_index_of_largest_message_is_a_chunk() {
    match classify_datagram(&chunk_datagram([1; 8], 254, 255, b"x")) {
        Datagram::Chunk(chunk) => {
            assert_eq!(chunk.sequence_index, 254);
            assert_eq!(chunk.sequence_count, 255);
        }
        other => panic!("unexpected {:?}", other),
    }
}
