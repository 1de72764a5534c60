//! The bounded table of partial messages.

use vstd::prelude::*;
use crate::bytes::append_bytes;
use crate::chunk::RawChunk;
use crate::reassembly::model::{
    concat_chunks, OutcomeView, PartialView, StoreView, PARTIAL_TTL_MS,
};

verus! {

/// What became of a chunk handed to [`ReassemblyStore::handle_chunk`].
#[derive(Debug, PartialEq, Eq)]
pub enum ChunkOutcome {
    /// The chunk was stored; its message still lacks chunks.
    Stored,
    /// The message already held this sequence index; the payload was ignored.
    Duplicate,
    /// The chunk was the last one missing; the payload is the whole message.
    Completed(Vec<u8>),
    /// The chunk contradicts itself or the message it claims to belong to.
    Malformed,
    /// The table is full and the chunk would have started a new message.
    CapacityExceeded,
}

impl View for ChunkOutcome {
    type V = OutcomeView;

    open spec fn view(&self) -> OutcomeView {
        match self {
            ChunkOutcome::Stored => OutcomeView::Stored,
            ChunkOutcome::Duplicate => OutcomeView::Duplicate,
            ChunkOutcome::Completed(payload) => OutcomeView::Completed(payload@),
            ChunkOutcome::Malformed => OutcomeView::Malformed,
            ChunkOutcome::CapacityExceeded => OutcomeView::CapacityExceeded,
        }
    }
}

/// One message in the table: a slot for each of its chunks.
struct PartialMessage {
    message_id: u64,
    slots: Vec<Option<Vec<u8>>>,
    first_seen: u64,
    last_seen: u64,
}

impl PartialMessage {
    spec fn view(&self) -> PartialView {
        PartialView {
            total_chunks: self.slots@.len(),
            received: Map::new(
                |i: int| 0 <= i < self.slots@.len() && self.slots@[i] is Some,
                |i: int| self.slots@[i]->0@,
            ),
            first_seen: self.first_seen,
            last_seen: self.last_seen,
        }
    }

    /// Starts a message from the first chunk seen for it.
    fn start(chunk: RawChunk, now: u64) -> (partial: PartialMessage)
        requires
            chunk@.consistent(),
            chunk.sequence_count >= 2,
        ensures
            partial.message_id == chunk.message_id,
            partial@ == PartialView::started(chunk@, now),
            partial@.wf(),
    {
        let mut slots: Vec<Option<Vec<u8>>> = Vec::new();
        let mut i: u8 = 0;
        while i < chunk.sequence_count
            invariant
                i <= chunk.sequence_count,
                slots@.len() == i,
                forall|j: int| 0 <= j < i ==> slots@[j] is None,
            decreases chunk.sequence_count - i,
        {
            slots.push(None);
            i += 1;
        }
        let index: usize = chunk.sequence_index as usize;
        slots.set(index, Some(chunk.payload));
        let partial = PartialMessage {
            message_id: chunk.message_id,
            slots,
            first_seen: now,
            last_seen: now,
        };
        proof {
            let other: int = if index == 0 { 1 } else { 0 };
            assert(partial@.received =~= PartialView::started(chunk@, now).received);
            assert(partial@.received.contains_key(index as int));
            assert(!partial@.received.contains_key(other));
        }
        partial
    }

    /// Whether the chunk at `index` has arrived.
    fn holds(&self, index: u8) -> (b: bool)
        requires
            index < self.slots@.len(),
        ensures
            b == self@.received.contains_key(index as int),
    {
        self.slots[index as usize].is_some()
    }

    /// Stores a chunk that has not arrived before.
    fn store(&mut self, chunk: RawChunk, now: u64)
        requires
            chunk.sequence_index < old(self).slots@.len(),
            !old(self)@.received.contains_key(chunk.sequence_index as int),
        ensures
            final(self).message_id == old(self).message_id,
            final(self)@ == old(self)@.with_chunk(chunk@, now),
    {
        self.slots.set(chunk.sequence_index as usize, Some(chunk.payload));
        self.last_seen = now;
        assert(self@.received =~= old(self)@.with_chunk(chunk@, now).received);
    }

    /// Whether every chunk has arrived.
    fn is_complete(&self) -> (b: bool)
        ensures
            b == self@.complete(),
    {
        let mut i: usize = 0;
        while i < self.slots.len()
            invariant
                i <= self.slots@.len(),
                forall|j: int| 0 <= j < i ==> self.slots@[j] is Some,
            decreases self.slots@.len() - i,
        {
            if self.slots[i].is_none() {
                assert(!self@.received.contains_key(i as int));
                return false;
            }
            i += 1;
        }
        assert forall|j: int| 0 <= j < self@.total_chunks implies self@.received.contains_key(
            j,
        ) by {
            assert(self.slots@[j] is Some);
        }
        true
    }

    /// The chunks in ascending sequence order, one after another.
    fn assemble(&self) -> (out: Vec<u8>)
        requires
            self@.complete(),
        ensures
            out@ == self@.payload(),
    {
        let mut out: Vec<u8> = Vec::new();
        let mut i: usize = 0;
        while i < self.slots.len()
            invariant
                i <= self.slots@.len(),
                self@.complete(),
                out@ == concat_chunks(self@.received, i as nat),
            decreases self.slots@.len() - i,
        {
            assert(self@.received.contains_key(i as int));
            match &self.slots[i] {
                Some(bytes) => {
                    append_bytes(&mut out, bytes.as_slice());
                },
                None => {},
            }
            i += 1;
        }
        out
    }

    /// Whether the message has waited longer than the time-to-live.
    fn is_expired(&self, now: u64) -> (b: bool)
        ensures
            b == self@.expired(now),
    {
        now > self.first_seen && now - self.first_seen > PARTIAL_TTL_MS
    }
}

/// No two entries share a message identifier.
spec fn unique_ids(entries: Seq<PartialMessage>) -> bool {
    forall|i: int, j: int|
        0 <= i < j < entries.len() ==> entries[i].message_id != entries[j].message_id
}

/// Some entry belongs to the message `id`.
spec fn has_id(entries: Seq<PartialMessage>, id: u64) -> bool {
    exists|i: int| 0 <= i < entries.len() && entries[i].message_id == id
}

/// What the table's invariant asks of its entries.
spec fn entries_ok(entries: Seq<PartialMessage>, capacity: usize) -> bool {
    &&& entries.len() <= capacity
    &&& unique_ids(entries)
    &&& forall|i: int| 0 <= i < entries.len() ==> (#[trigger] entries[i])@.wf()
}

/// The map that a list of entries stands for.
spec fn entries_map(entries: Seq<PartialMessage>) -> Map<u64, PartialView>
    decreases entries.len(),
{
    if entries.len() == 0 {
        Map::empty()
    } else {
        entries_map(entries.drop_last()).insert(entries.last().message_id, entries.last()@)
    }
}

/// The map holds an identifier exactly if some entry bears it.
proof fn lemma_map_contains(entries: Seq<PartialMessage>, id: u64)
    ensures
        entries_map(entries).contains_key(id) <==> has_id(entries, id),
    decreases entries.len(),
{
    if entries.len() > 0 {
        let prev = entries.drop_last();
        lemma_map_contains(prev, id);
        if has_id(prev, id) {
            let i = choose|i: int| 0 <= i < prev.len() && prev[i].message_id == id;
            assert(entries[i].message_id == id);
        }
        if has_id(entries, id) {
            let i = choose|i: int| 0 <= i < entries.len() && entries[i].message_id == id;
            if i < entries.len() - 1 {
                assert(prev[i].message_id == id);
            }
        }
    }
}

/// The map holds no identifier that no entry bears.
proof fn lemma_map_absent(entries: Seq<PartialMessage>, id: u64)
    requires
        forall|j: int| 0 <= j < entries.len() ==> entries[j].message_id != id,
    ensures
        !entries_map(entries).contains_key(id),
{
    lemma_map_contains(entries, id);
}

/// Under its identifier, the map holds each entry's content.
proof fn lemma_map_lookup(entries: Seq<PartialMessage>, i: int)
    requires
        unique_ids(entries),
        0 <= i < entries.len(),
    ensures
        entries_map(entries).contains_key(entries[i].message_id),
        entries_map(entries)[entries[i].message_id] == entries[i]@,
    decreases entries.len(),
{
    if i < entries.len() - 1 {
        let prev = entries.drop_last();
        assert(prev[i] == entries[i]);
        lemma_map_lookup(prev, i);
    }
}

/// Whatever the map holds is the content of some entry.
proof fn lemma_map_member(entries: Seq<PartialMessage>, id: u64) -> (i: int)
    requires
        unique_ids(entries),
        entries_map(entries).contains_key(id),
    ensures
        0 <= i < entries.len(),
        entries[i].message_id == id,
        entries_map(entries)[id] == entries[i]@,
{
    lemma_map_contains(entries, id);
    let i = choose|i: int| 0 <= i < entries.len() && entries[i].message_id == id;
    lemma_map_lookup(entries, i);
    i
}

/// The map holds as many messages as there are entries.
proof fn lemma_map_len(entries: Seq<PartialMessage>)
    requires
        unique_ids(entries),
    ensures
        entries_map(entries).dom().finite(),
        entries_map(entries).dom().len() == entries.len(),
    decreases entries.len(),
{
    if entries.len() > 0 {
        let prev = entries.drop_last();
        lemma_map_len(prev);
        lemma_map_contains(prev, entries.last().message_id);
        if has_id(prev, entries.last().message_id) {
            let i = choose|i: int|
                0 <= i < prev.len() && prev[i].message_id == entries.last().message_id;
            assert(entries[i].message_id == entries[entries.len() - 1].message_id);
        }
    }
}

/// Adding an entry sets its identifier in the map.
proof fn lemma_map_push(entries: Seq<PartialMessage>, partial: PartialMessage)
    ensures
        entries_map(entries.push(partial)) == entries_map(entries).insert(
            partial.message_id,
            partial@,
        ),
{
    assert(entries.push(partial).drop_last() == entries);
}

/// Taking an entry out removes its identifier from the map.
proof fn lemma_map_remove(entries: Seq<PartialMessage>, i: int)
    requires
        unique_ids(entries),
        0 <= i < entries.len(),
    ensures
        unique_ids(entries.remove(i)),
        entries_map(entries.remove(i)) == entries_map(entries).remove(entries[i].message_id),
    decreases entries.len(),
{
    let rest = entries.remove(i);
    let prev = entries.drop_last();
    let last = entries.last();
    assert forall|a: int, b: int| 0 <= a < b < rest.len() implies rest[a].message_id
        != rest[b].message_id by {
        let a0 = if a < i { a } else { a + 1 };
        let b0 = if b < i { b } else { b + 1 };
        assert(rest[a] == entries[a0]);
        assert(rest[b] == entries[b0]);
    }
    if i == entries.len() - 1 {
        assert(rest == prev);
        lemma_map_absent(prev, last.message_id);
        assert(entries_map(prev) =~= entries_map(entries).remove(last.message_id));
    } else {
        assert(rest.drop_last() == prev.remove(i));
        assert(rest.last() == last);
        assert(prev[i] == entries[i]);
        lemma_map_remove(prev, i);
        assert(entries_map(rest) =~= entries_map(entries).remove(entries[i].message_id));
    }
}

/// The model of a list of entries that meets the table's invariant is a
/// proper table of as many messages.
proof fn lemma_entries_model(entries: Seq<PartialMessage>, capacity: usize)
    requires
        entries_ok(entries, capacity),
    ensures
        (StoreView { capacity: capacity as nat, partials: entries_map(entries) }).wf(),
        (StoreView { capacity: capacity as nat, partials: entries_map(entries) }).len()
            == entries.len(),
{
    lemma_map_len(entries);
    let m = entries_map(entries);
    assert forall|id: u64| m.contains_key(id) implies (#[trigger] m[id]).wf() by {
        let i = lemma_map_member(entries, id);
    }
}

/// The bounded table of messages that are waiting for chunks.
///
/// The table never holds more messages than its capacity. When it is full,
/// chunks of messages that it does not hold are turned away, so that the
/// messages under way can still complete.
pub struct ReassemblyStore {
    capacity: usize,
    entries: Vec<PartialMessage>,
}

impl View for ReassemblyStore {
    type V = StoreView;

    closed spec fn view(&self) -> StoreView {
        StoreView { capacity: self.capacity as nat, partials: entries_map(self.entries@) }
    }
}

impl ReassemblyStore {
    #[verifier::type_invariant]
    spec fn inv(&self) -> bool {
        entries_ok(self.entries@, self.capacity)
    }

    /// An empty table that will hold at most `capacity` partial messages.
    pub fn new(capacity: usize) -> (store: ReassemblyStore)
        ensures
            store@ == StoreView::empty(capacity as nat),
            store@.wf(),
    {
        let store = ReassemblyStore { capacity, entries: Vec::new() };
        proof {
            lemma_entries_model(store.entries@, capacity);
        }
        store
    }

    /// Most partial messages the table may hold at once.
    pub fn capacity(&self) -> (capacity: usize)
        ensures
            capacity == self@.capacity,
    {
        self.capacity
    }

    /// Number of partial messages in the table.
    pub fn len(&self) -> (len: usize)
        ensures
            len == self@.len(),
            len <= self@.capacity,
            self@.wf(),
    {
        proof {
            use_type_invariant(self);
            lemma_entries_model(self.entries@, self.capacity);
        }
        self.entries.len()
    }

    /// Whether the table holds no partial message.
    pub fn is_empty(&self) -> (empty: bool)
        ensures
            empty == (self@.len() == 0),
    {
        self.len() == 0
    }

    /// Whether the table holds the message `message_id`.
    pub fn contains(&self, message_id: u64) -> (present: bool)
        ensures
            present == self@.partials.contains_key(message_id),
    {
        proof {
            use_type_invariant(self);
        }
        match self.position(message_id) {
            Some(i) => {
                proof {
                    lemma_map_lookup(self.entries@, i as int);
                }
                true
            },
            None => {
                proof {
                    lemma_map_absent(self.entries@, message_id);
                }
                false
            },
        }
    }

    /// Where the message `message_id` sits among the entries.
    fn position(&self, message_id: u64) -> (found: Option<usize>)
        ensures
            match found {
                Some(i) => i < self.entries@.len() && self.entries@[i as int].message_id
                    == message_id,
                None => forall|j: int|
                    0 <= j < self.entries@.len() ==> self.entries@[j].message_id != message_id,
            },
    {
        let mut i: usize = 0;
        while i < self.entries.len()
            invariant
                i <= self.entries@.len(),
                forall|j: int| 0 <= j < i ==> self.entries@[j].message_id != message_id,
            decreases self.entries@.len() - i,
        {
            if self.entries[i].message_id == message_id {
                return Some(i);
            }
            i += 1;
        }
        None
    }

    /// Moves the entries out, leaving an empty table behind.
    fn take_entries(&mut self) -> (entries: Vec<PartialMessage>)
        ensures
            entries@ == old(self).entries@,
            entries_ok(entries@, old(self).capacity),
            final(self).capacity == old(self).capacity,
            final(self).entries@.len() == 0,
    {
        proof {
            use_type_invariant(&*self);
        }
        let mut entries: Vec<PartialMessage> = Vec::new();
        core::mem::swap(&mut self.entries, &mut entries);
        entries
    }

    /// Takes in one chunk at time `now`.
    ///
    /// A chunk whose sequence index does not lie below its sequence count, or
    /// whose count differs from that of the message it belongs to, is
    /// malformed and changes nothing. A chunk of a message that is not in the
    /// table is turned away when the table is full. A chunk that arrives a
    /// second time only renews the message's last-seen time. The chunk that
    /// completes a message removes it from the table and yields the payload:
    /// the chunks in ascending sequence order.
    pub fn handle_chunk(&mut self, chunk: RawChunk, now: u64) -> (outcome: ChunkOutcome)
        ensures
            final(self)@ == old(self)@.step(chunk@, now).store,
            outcome@ == old(self)@.step(chunk@, now).outcome,
            old(self)@.wf(),
            final(self)@.wf(),
    {
        proof {
            use_type_invariant(&*self);
            lemma_entries_model(self.entries@, self.capacity);
        }
        if chunk.sequence_index >= chunk.sequence_count {
            return ChunkOutcome::Malformed;
        }
        let id: u64 = chunk.message_id;
        let ghost before = self.entries@;
        match self.position(id) {
            None => {
                proof {
                    lemma_map_absent(before, id);
                }
                if self.entries.len() >= self.capacity {
                    return ChunkOutcome::CapacityExceeded;
                }
                if chunk.sequence_count == 1 {
                    return ChunkOutcome::Completed(chunk.payload);
                }
                let partial = PartialMessage::start(chunk, now);
                let mut entries = self.take_entries();
                entries.push(partial);
                proof {
                    lemma_push_ok(before, self.capacity, partial);
                    lemma_entries_model(entries@, self.capacity);
                }
                self.entries = entries;
                ChunkOutcome::Stored
            },
            Some(i) => {
                proof {
                    lemma_map_lookup(before, i as int);
                }
                if self.entries[i].slots.len() != chunk.sequence_count as usize {
                    return ChunkOutcome::Malformed;
                }
                let mut entries = self.take_entries();
                let mut partial = entries.remove(i);
                let ghost rest = entries@;
                proof {
                    lemma_map_remove(before, i as int);
                    lemma_remove_ok(before, self.capacity, i as int);
                }
                if partial.holds(chunk.sequence_index) {
                    partial.last_seen = now;
                    entries.push(partial);
                    proof {
                        let held = before[i as int]@;
                        assert(held.wf());
                        assert(partial@ == held.touched(now));
                        let w = choose|w: int| held.received.contains_key(w);
                        assert(partial@.received.contains_key(w));
                        lemma_push_ok(rest, self.capacity, partial);
                        lemma_entries_model(entries@, self.capacity);
                        assert(entries_map(entries@) =~= entries_map(before).insert(id, partial@));
                    }
                    self.entries = entries;
                    return ChunkOutcome::Duplicate;
                }
                let ghost chunk_view = chunk@;
                partial.store(chunk, now);
                if partial.is_complete() {
                    let payload = partial.assemble();
                    proof {
                        lemma_entries_model(entries@, self.capacity);
                    }
                    self.entries = entries;
                    return ChunkOutcome::Completed(payload);
                }
                entries.push(partial);
                proof {
                    assert(partial@.received.contains_key(chunk_view.sequence_index as int));
                    assert(partial@.wf());
                    lemma_push_ok(rest, self.capacity, partial);
                    lemma_entries_model(entries@, self.capacity);
                    assert(entries_map(entries@) =~= entries_map(before).insert(id, partial@));
                }
                self.entries = entries;
                ChunkOutcome::Stored
            },
        }
    }

    /// Evicts every partial message that has expired at time `now`, and says
    /// how many were evicted.
    pub fn sweep_expired(&mut self, now: u64) -> (evicted: usize)
        ensures
            final(self)@ == old(self)@.sweep(now),
            evicted == old(self)@.len() - final(self)@.len(),
            old(self)@.wf(),
            final(self)@.wf(),
    {
        proof {
            use_type_invariant(&*self);
            lemma_entries_model(self.entries@, self.capacity);
        }
        let ghost target = self@.sweep(now);
        let ghost capacity = self.capacity;
        let mut entries = self.take_entries();
        let initial: usize = entries.len();
        let mut evicted: usize = 0;
        let mut i: usize = 0;
        while i < entries.len()
            invariant
                entries_ok(entries@, capacity),
                i <= entries@.len(),
                evicted + entries@.len() == initial,
                forall|j: int| 0 <= j < i ==> !(#[trigger] entries@[j])@.expired(now),
                (StoreView { capacity: capacity as nat, partials: entries_map(entries@) }).sweep(
                    now,
                ) == target,
            decreases entries@.len() - i,
        {
            if entries[i].is_expired(now) {
                let ghost before = entries@;
                entries.remove(i);
                evicted += 1;
                proof {
                    lemma_map_lookup(before, i as int);
                    lemma_map_remove(before, i as int);
                    lemma_remove_ok(before, capacity, i as int);
                    assert forall|j: int| 0 <= j < i implies !(#[trigger] entries@[j])@.expired(
                        now,
                    ) by {
                        assert(entries@[j] == before[j]);
                    }
                    assert((StoreView {
                        capacity: capacity as nat,
                        partials: entries_map(entries@),
                    }).sweep(now).partials =~= target.partials);
                }
            } else {
                i += 1;
            }
        }
        proof {
            lemma_entries_model(entries@, capacity);
            let kept = entries_map(entries@);
            assert forall|id: u64| kept.contains_key(id) implies !(#[trigger] kept[id]).expired(
                now,
            ) by {
                let j = lemma_map_member(entries@, id);
            }
            assert(kept =~= target.partials);
        }
        self.entries = entries;
        evicted
    }
}

/// Adding an entry under a fresh identifier, where there is room, leaves a
/// list that still meets the table's invariant.
proof fn lemma_push_ok(entries: Seq<PartialMessage>, capacity: usize, partial: PartialMessage)
    requires
        entries_ok(entries, capacity),
        entries.len() < capacity,
        partial@.wf(),
        forall|j: int| 0 <= j < entries.len() ==> entries[j].message_id != partial.message_id,
    ensures
        entries_ok(entries.push(partial), capacity),
        entries_map(entries.push(partial)) == entries_map(entries).insert(
            partial.message_id,
            partial@,
        ),
{
    lemma_map_push(entries, partial);
    let more = entries.push(partial);
    assert forall|j: int| 0 <= j < more.len() implies (#[trigger] more[j])@.wf() by {
        if j < entries.len() {
            assert(more[j] == entries[j]);
        } else {
            assert(more[j] == partial);
        }
    }
}

/// Taking an entry out leaves a list that still meets the table's invariant.
proof fn lemma_remove_ok(entries: Seq<PartialMessage>, capacity: usize, i: int)
    requires
        entries_ok(entries, capacity),
        0 <= i < entries.len(),
    ensures
        entries_ok(entries.remove(i), capacity),
        forall|j: int|
            0 <= j < entries.remove(i).len() ==> entries.remove(i)[j].message_id
                != entries[i].message_id,
{
    lemma_map_remove(entries, i);
    assert forall|j: int| 0 <= j < entries.remove(i).len() implies (#[trigger] entries.remove(
        i,
    )[j])@.wf() && entries.remove(i)[j].message_id != entries[i].message_id by {
        let j0 = if j < i { j } else { j + 1 };
        assert(entries.remove(i)[j] == entries[j0]);
    }
}

} // verus!
