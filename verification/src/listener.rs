//! What a listener does with each unit that it receives.
//!
//! The UDP listener classifies each datagram and hands chunks to the
//! reassembly table; what comes out is a payload for the unpacker, nothing
//! yet, or a drop. Both listeners hand payloads on through a bounded queue:
//! when the queue is full, a payload from UDP is dropped and a connection of
//! TCP is made to wait.

use vstd::prelude::*;
use crate::chunk::{
    classify, classify_datagram, has_chunk_magic, Datagram, DatagramView, CHUNK_HEADER_LEN,
};
use crate::reassembly::model::{OutcomeView, StoreView};
use crate::reassembly::store::{ChunkOutcome, ReassemblyStore};
use crate::stats::ErrorKind;

verus! {

/// What became of a datagram.
#[derive(Debug, PartialEq, Eq)]
pub enum Ingested {
    /// A whole payload, ready for the unpacker.
    Payload(Vec<u8>),
    /// A chunk that was taken in; its message is not whole yet.
    Pending,
    /// The datagram was dropped for the given kind of failure.
    Dropped(ErrorKind),
}

/// The mathematical content of an [`Ingested`].
pub ghost enum IngestedView {
    Payload(Seq<u8>),
    Pending,
    Dropped(ErrorKind),
}

impl View for Ingested {
    type V = IngestedView;

    open spec fn view(&self) -> IngestedView {
        match self {
            Ingested::Payload(payload) => IngestedView::Payload(payload@),
            Ingested::Pending => IngestedView::Pending,
            Ingested::Dropped(kind) => IngestedView::Dropped(*kind),
        }
    }
}

/// A table after a datagram, and what became of the datagram.
pub ghost struct IngestStep {
    pub store: StoreView,
    pub result: IngestedView,
}

/// What a chunk's outcome means for the datagram that carried it.
pub open spec fn ingested_of(outcome: OutcomeView) -> IngestedView {
    match outcome {
        OutcomeView::Stored => IngestedView::Pending,
        OutcomeView::Duplicate => IngestedView::Pending,
        OutcomeView::Completed(payload) => IngestedView::Payload(payload),
        OutcomeView::Malformed => IngestedView::Dropped(ErrorKind::MalformedInput),
        OutcomeView::CapacityExceeded => IngestedView::Dropped(ErrorKind::CapacityExceeded),
    }
}

/// What the listener does with one datagram: a datagram that is a message of
/// its own is a payload, a malformed one is dropped, and a chunk goes through
/// the reassembly table.
pub open spec fn ingest(store: StoreView, datagram: Seq<u8>, now: u64) -> IngestStep {
    match classify(datagram) {
        DatagramView::Single(payload) => IngestStep {
            store,
            result: IngestedView::Payload(payload),
        },
        DatagramView::Malformed => IngestStep {
            store,
            result: IngestedView::Dropped(ErrorKind::MalformedInput),
        },
        DatagramView::Chunk(chunk) => IngestStep {
            store: store.step(chunk, now).store,
            result: ingested_of(store.step(chunk, now).outcome),
        },
    }
}

/// Takes in one datagram received at time `now`.
pub fn ingest_datagram(store: &mut ReassemblyStore, datagram: &[u8], now: u64) -> (result:
    Ingested)
    ensures
        final(store)@ == ingest(old(store)@, datagram@, now).store,
        result@ == ingest(old(store)@, datagram@, now).result,
{
    match classify_datagram(datagram) {
        Datagram::Single(payload) => Ingested::Payload(payload),
        Datagram::Malformed => Ingested::Dropped(ErrorKind::MalformedInput),
        Datagram::Chunk(chunk) => {
            match store.handle_chunk(chunk, now) {
                ChunkOutcome::Stored => Ingested::Pending,
                ChunkOutcome::Duplicate => Ingested::Pending,
                ChunkOutcome::Completed(payload) => Ingested::Payload(payload),
                ChunkOutcome::Malformed => Ingested::Dropped(ErrorKind::MalformedInput),
                ChunkOutcome::CapacityExceeded => Ingested::Dropped(ErrorKind::CapacityExceeded),
            }
        },
    }
}

/// A datagram that bears the chunk marker but is shorter than a chunk header
/// is dropped as malformed and leaves the table as it was, so that whatever
/// comes next is handled as if the datagram had never arrived.
pub proof fn lemma_short_header_is_dropped(
    store: StoreView,
    datagram: Seq<u8>,
    now: u64,
    next: Seq<u8>,
    later: u64,
)
    requires
        has_chunk_magic(datagram),
        datagram.len() < CHUNK_HEADER_LEN,
    ensures
        ingest(store, datagram, now).result == IngestedView::Dropped(ErrorKind::MalformedInput),
        ingest(store, datagram, now).store == store,
        ingest(ingest(store, datagram, now).store, next, later) == ingest(store, next, later),
{
}

/// Where a payload comes from.
#[derive(Debug, Clone, Copy, PartialEq, Eq, Structural)]
pub enum Source {
    Udp,
    Tcp,
}

/// What to do with a payload at the door of the next stage's queue.
#[derive(Debug, Clone, Copy, PartialEq, Eq, Structural)]
pub enum Admission {
    /// There is room: hand the payload on.
    Enqueue,
    /// No room, and the source is lossy anyway: drop the payload and count it.
    Drop,
    /// No room, and the source can wait: stop reading until there is room.
    Wait,
}

/// The admission of a payload from `source` to a queue that holds `queued`
/// of at most `capacity` units.
pub open spec fn admission_of(source: Source, queued: nat, capacity: nat) -> Admission {
    if queued < capacity {
        Admission::Enqueue
    } else {
        match source {
            Source::Udp => Admission::Drop,
            Source::Tcp => Admission::Wait,
        }
    }
}

/// Decides what to do with a payload from `source` when the next stage's
/// queue holds `queued` of at most `capacity` units. A listener never waits
/// on behalf of UDP, and never drops on behalf of TCP.
pub fn admission(source: Source, queued: usize, capacity: usize) -> (decision: Admission)
    ensures
        decision == admission_of(source, queued as nat, capacity as nat),
{
    if queued < capacity {
        Admission::Enqueue
    } else {
        match source {
            Source::Udp => Admission::Drop,
            Source::Tcp => Admission::Wait,
        }
    }
}

} // verus!
