//! The mathematical model of the reassembly table.

use vstd::prelude::*;
use crate::chunk::ChunkView;

verus! {

/// Age, in milliseconds, beyond which a partial message is evicted.
pub const PARTIAL_TTL_MS: u64 = 5_000;

/// The chunk payloads `received[0]`, ..., `received[n - 1]`, one after another.
pub open spec fn concat_chunks(received: Map<int, Seq<u8>>, n: nat) -> Seq<u8>
    decreases n,
{
    if n == 0 {
        Seq::empty()
    } else {
        concat_chunks(received, (n - 1) as nat) + received[n - 1]
    }
}

/// A message of which some, but not all, chunks have arrived.
pub ghost struct PartialView {
    /// Number of chunks in the message, fixed by the first chunk seen.
    pub total_chunks: nat,
    /// The payloads received so far, by sequence index.
    pub received: Map<int, Seq<u8>>,
    /// When the first chunk arrived.
    pub first_seen: u64,
    /// When the latest chunk arrived.
    pub last_seen: u64,
}

impl PartialView {
    /// Every sequence index of the message has a payload.
    pub open spec fn complete(self) -> bool {
        forall|i: int| 0 <= i < self.total_chunks ==> self.received.contains_key(i)
    }

    /// A message in the table holds at least one chunk and lacks at least one, and
    /// every chunk it holds lies inside the message.
    pub open spec fn wf(self) -> bool {
        &&& 1 <= self.total_chunks <= 255
        &&& forall|i: int| self.received.contains_key(i) ==> 0 <= i < self.total_chunks
        &&& exists|i: int| self.received.contains_key(i)
        &&& !self.complete()
    }

    /// The message's payload: its chunks in ascending sequence order.
    pub open spec fn payload(self) -> Seq<u8> {
        concat_chunks(self.received, self.total_chunks)
    }

    /// Whether the message has been waiting longer than the time-to-live.
    pub open spec fn expired(self, now: u64) -> bool {
        now - self.first_seen > PARTIAL_TTL_MS
    }

    /// The message that a first chunk starts.
    pub open spec fn started(chunk: ChunkView, now: u64) -> PartialView {
        PartialView {
            total_chunks: chunk.sequence_count as nat,
            received: Map::empty().insert(chunk.sequence_index as int, chunk.payload),
            first_seen: now,
            last_seen: now,
        }
    }

    /// The message after one more chunk has been stored.
    pub open spec fn with_chunk(self, chunk: ChunkView, now: u64) -> PartialView {
        PartialView {
            received: self.received.insert(chunk.sequence_index as int, chunk.payload),
            last_seen: now,
            ..self
        }
    }

    /// The message after a chunk that it already held arrived again.
    pub open spec fn touched(self, now: u64) -> PartialView {
        PartialView { last_seen: now, ..self }
    }
}

/// What became of one chunk.
pub ghost enum OutcomeView {
    /// The chunk was stored; its message still lacks chunks.
    Stored,
    /// The message already held this sequence index; the payload was ignored.
    Duplicate,
    /// The chunk was the last one missing; the payload is the whole message.
    Completed(Seq<u8>),
    /// The chunk contradicts itself or the message it claims to belong to.
    Malformed,
    /// The table is full and the chunk would have started a new message.
    CapacityExceeded,
}

/// A table after a chunk, and what became of the chunk.
pub ghost struct ChunkStep {
    pub store: StoreView,
    pub outcome: OutcomeView,
}

/// The table of partial messages, by message identifier.
pub ghost struct StoreView {
    /// Most partial messages the table may hold at once.
    pub capacity: nat,
    pub partials: Map<u64, PartialView>,
}

impl StoreView {
    /// Number of partial messages in the table.
    pub open spec fn len(self) -> nat {
        self.partials.dom().len()
    }

    /// The table holds finitely many messages, no more than its capacity,
    /// each of them a proper partial message.
    pub open spec fn wf(self) -> bool {
        &&& self.partials.dom().finite()
        &&& self.len() <= self.capacity
        &&& forall|id: u64| self.partials.contains_key(id) ==> (#[trigger] self.partials[id]).wf()
    }

    /// An empty table.
    pub open spec fn empty(capacity: nat) -> StoreView {
        StoreView { capacity, partials: Map::empty() }
    }

    /// The table with the message `id` set to `partial`.
    pub open spec fn with_partial(self, id: u64, partial: PartialView) -> StoreView {
        StoreView { partials: self.partials.insert(id, partial), ..self }
    }

    /// The table without the message `id`.
    pub open spec fn without(self, id: u64) -> StoreView {
        StoreView { partials: self.partials.remove(id), ..self }
    }

    /// What the table does with one chunk.
    ///
    /// A chunk whose index does not lie below its count is malformed. A chunk
    /// of a message in the table must repeat that message's count; it is a
    /// duplicate if its index is already held, completes the message if it
    /// was the last one missing, and is stored otherwise. A chunk of any
    /// other message is rejected when the table is full; otherwise it starts
    /// a message, or is that message if it is its only chunk.
    pub open spec fn step(self, chunk: ChunkView, now: u64) -> ChunkStep {
        let id = chunk.message_id;
        if !chunk.consistent() {
            ChunkStep { store: self, outcome: OutcomeView::Malformed }
        } else if self.partials.contains_key(id) {
            let partial = self.partials[id];
            if partial.total_chunks != chunk.sequence_count {
                ChunkStep { store: self, outcome: OutcomeView::Malformed }
            } else if partial.received.contains_key(chunk.sequence_index as int) {
                ChunkStep {
                    store: self.with_partial(id, partial.touched(now)),
                    outcome: OutcomeView::Duplicate,
                }
            } else if partial.with_chunk(chunk, now).complete() {
                ChunkStep {
                    store: self.without(id),
                    outcome: OutcomeView::Completed(partial.with_chunk(chunk, now).payload()),
                }
            } else {
                ChunkStep {
                    store: self.with_partial(id, partial.with_chunk(chunk, now)),
                    outcome: OutcomeView::Stored,
                }
            }
        } else if self.len() >= self.capacity {
            ChunkStep { store: self, outcome: OutcomeView::CapacityExceeded }
        } else if chunk.sequence_count == 1 {
            ChunkStep { store: self, outcome: OutcomeView::Completed(chunk.payload) }
        } else {
            ChunkStep {
                store: self.with_partial(id, PartialView::started(chunk, now)),
                outcome: OutcomeView::Stored,
            }
        }
    }

    /// The table without the messages that have expired at `now`.
    pub open spec fn sweep(self, now: u64) -> StoreView {
        StoreView {
            partials: Map::new(
                |id: u64| self.partials.contains_key(id) && !self.partials[id].expired(now),
                |id: u64| self.partials[id],
            ),
            ..self
        }
    }
}

} // verus!
