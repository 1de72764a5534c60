//! Classification of UDP datagrams.
//!
//! A chunked datagram starts with a two-byte marker, followed by an
//! eight-byte message identifier, the chunk's sequence index, the number of
//! chunks in the message, and the chunk's share of the payload. Any datagram
//! without the marker is a complete message of its own.

use vstd::prelude::*;
use crate::bytes::copy_range;

verus! {

/// First byte of the chunk marker.
pub const CHUNK_MAGIC_0: u8 = 0x1e;

/// Second byte of the chunk marker.
pub const CHUNK_MAGIC_1: u8 = 0x0f;

/// Length of the marker.
pub const CHUNK_MAGIC_LEN: usize = 2;

/// Length of a chunk header: marker, identifier, sequence index, sequence count.
pub const CHUNK_HEADER_LEN: usize = 12;

/// One fragment of a chunked message, as read from a datagram's header.
#[derive(Debug, PartialEq, Eq)]
pub struct RawChunk {
    pub message_id: u64,
    pub sequence_index: u8,
    pub sequence_count: u8,
    pub payload: Vec<u8>,
}

/// The mathematical content of a [`RawChunk`].
pub ghost struct ChunkView {
    pub message_id: u64,
    pub sequence_index: u8,
    pub sequence_count: u8,
    pub payload: Seq<u8>,
}

impl View for RawChunk {
    type V = ChunkView;

    open spec fn view(&self) -> ChunkView {
        ChunkView {
            message_id: self.message_id,
            sequence_index: self.sequence_index,
            sequence_count: self.sequence_count,
            payload: self.payload@,
        }
    }
}

impl ChunkView {
    /// A chunk is consistent when its message has at least one chunk and its
    /// index lies among them.
    pub open spec fn consistent(self) -> bool {
        self.sequence_index < self.sequence_count
    }
}

/// What a datagram turned out to be.
#[derive(Debug, PartialEq, Eq)]
pub enum Datagram {
    /// A complete message carried by one datagram.
    Single(Vec<u8>),
    /// One chunk of a larger message.
    Chunk(RawChunk),
    /// The datagram carries the chunk marker, but its header is cut short or
    /// names an index outside the message.
    Malformed,
}

/// The mathematical content of a [`Datagram`].
pub ghost enum DatagramView {
    Single(Seq<u8>),
    Chunk(ChunkView),
    Malformed,
}

impl View for Datagram {
    type V = DatagramView;

    open spec fn view(&self) -> DatagramView {
        match self {
            Datagram::Single(payload) => DatagramView::Single(payload@),
            Datagram::Chunk(chunk) => DatagramView::Chunk(chunk@),
            Datagram::Malformed => DatagramView::Malformed,
        }
    }
}

/// Whether the datagram starts with the chunk marker.
pub open spec fn has_chunk_magic(datagram: Seq<u8>) -> bool {
    datagram.len() >= CHUNK_MAGIC_LEN && datagram[0] == CHUNK_MAGIC_0 && datagram[1]
        == CHUNK_MAGIC_1
}

/// The identifier spelled by eight bytes, most significant byte first.
pub open spec fn message_id_of(b: Seq<u8>) -> u64
    recommends
        b.len() == 8,
{
    (b[0] * 0x0100_0000_0000_0000 + b[1] * 0x0001_0000_0000_0000 + b[2] * 0x0000_0100_0000_0000
        + b[3] * 0x0000_0001_0000_0000 + b[4] * 0x0000_0000_0100_0000 + b[5]
        * 0x0000_0000_0001_0000 + b[6] * 0x0000_0000_0000_0100 + b[7]) as u64
}

/// Identifiers that differ in any of their eight bytes differ as numbers.
pub proof fn lemma_message_id_is_injective(a: Seq<u8>, b: Seq<u8>)
    requires
        a.len() == 8,
        b.len() == 8,
        message_id_of(a) == message_id_of(b),
    ensures
        a == b,
{
    assert(a[0] == b[0] && a[1] == b[1] && a[2] == b[2] && a[3] == b[3] && a[4] == b[4] && a[5]
        == b[5] && a[6] == b[6] && a[7] == b[7]);
    assert(a =~= b);
}

/// The chunk that a datagram with a full header spells.
pub open spec fn chunk_of(datagram: Seq<u8>) -> ChunkView
    recommends
        datagram.len() >= CHUNK_HEADER_LEN,
{
    ChunkView {
        message_id: message_id_of(datagram.subrange(2, 10)),
        sequence_index: datagram[10],
        sequence_count: datagram[11],
        payload: datagram.subrange(CHUNK_HEADER_LEN as int, datagram.len() as int),
    }
}

/// How a datagram is classified.
pub open spec fn classify(datagram: Seq<u8>) -> DatagramView {
    if !has_chunk_magic(datagram) {
        DatagramView::Single(datagram)
    } else if datagram.len() < CHUNK_HEADER_LEN {
        DatagramView::Malformed
    } else if !chunk_of(datagram).consistent() {
        DatagramView::Malformed
    } else {
        DatagramView::Chunk(chunk_of(datagram))
    }
}

/// Reads the message identifier out of a chunk header.
fn read_message_id(datagram: &[u8]) -> (id: u64)
    requires
        datagram@.len() >= CHUNK_HEADER_LEN,
    ensures
        id == message_id_of(datagram@.subrange(2, 10)),
{
    let b0: u64 = datagram[2] as u64;
    let b1: u64 = datagram[3] as u64;
    let b2: u64 = datagram[4] as u64;
    let b3: u64 = datagram[5] as u64;
    let b4: u64 = datagram[6] as u64;
    let b5: u64 = datagram[7] as u64;
    let b6: u64 = datagram[8] as u64;
    let b7: u64 = datagram[9] as u64;
    b0 * 0x0100_0000_0000_0000 + b1 * 0x0001_0000_0000_0000 + b2 * 0x0000_0100_0000_0000 + b3
        * 0x0000_0001_0000_0000 + b4 * 0x0000_0000_0100_0000 + b5 * 0x0000_0000_0001_0000 + b6
        * 0x0000_0000_0000_0100 + b7
}

/// Classifies one received datagram.
///
/// A datagram without the chunk marker is a message of its own and is handed
/// back whole. One with the marker must hold a full header whose sequence
/// index lies below its sequence count; otherwise it is malformed.
pub fn classify_datagram(datagram: &[u8]) -> (out: Datagram)
    ensures
        out@ == classify(datagram@),
{
    let len: usize = datagram.len();
    if len < CHUNK_MAGIC_LEN || datagram[0] != CHUNK_MAGIC_0 || datagram[1] != CHUNK_MAGIC_1 {
        let whole = copy_range(datagram, 0, len);
        assert(datagram@.subrange(0, len as int) == datagram@);
        return Datagram::Single(whole);
    }
    if len < CHUNK_HEADER_LEN {
        return Datagram::Malformed;
    }
    let sequence_index: u8 = datagram[10];
    let sequence_count: u8 = datagram[11];
    if sequence_index >= sequence_count {
        return Datagram::Malformed;
    }
    let message_id: u64 = read_message_id(datagram);
    let payload = copy_range(datagram, CHUNK_HEADER_LEN, len);
    Datagram::Chunk(RawChunk { message_id, sequence_index, sequence_count, payload })
}

} // verus!
