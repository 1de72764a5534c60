//! What the model of the reassembly table implies for whole runs of chunks.

use vstd::prelude::*;
use vstd::set_lib::{lemma_int_range, lemma_len_subset, lemma_subset_equality, set_int_range};
use crate::chunk::ChunkView;
use crate::reassembly::model::{concat_chunks, OutcomeView, PartialView, StoreView};

verus! {

/// A chunk and the time at which it arrives.
pub ghost struct Delivery {
    pub chunk: ChunkView,
    pub at: u64,
}

/// The table after a run of deliveries.
pub open spec fn after_all(store: StoreView, deliveries: Seq<Delivery>) -> StoreView
    decreases deliveries.len(),
{
    if deliveries.len() == 0 {
        store
    } else {
        after_all(store, deliveries.drop_last()).step(
            deliveries.last().chunk,
            deliveries.last().at,
        ).store
    }
}

/// What became of the last delivery of a run.
pub open spec fn last_outcome(store: StoreView, deliveries: Seq<Delivery>) -> OutcomeView
    recommends
        deliveries.len() > 0,
{
    after_all(store, deliveries.drop_last()).step(
        deliveries.last().chunk,
        deliveries.last().at,
    ).outcome
}

/// The deliveries of one message: its parts, `parts[order[k]]` arriving as
/// the `k`-th chunk, at time `times[k]`.
pub open spec fn deliveries_of(
    id: u64,
    parts: Seq<Seq<u8>>,
    order: Seq<int>,
    times: Seq<u64>,
) -> Seq<Delivery> {
    Seq::new(
        parts.len(),
        |k: int|
            Delivery {
                chunk: ChunkView {
                    message_id: id,
                    sequence_index: order[k] as u8,
                    sequence_count: parts.len() as u8,
                    payload: parts[order[k]],
                },
                at: times[k],
            },
    )
}

/// Whether `order` names each of the sequence indices `0..n` exactly once.
pub open spec fn is_arrival_order(order: Seq<int>, n: nat) -> bool {
    &&& order.len() == n
    &&& order.no_duplicates()
    &&& forall|k: int| 0 <= k < order.len() ==> 0 <= #[trigger] order[k] < n
}

/// A message is complete exactly when it holds as many chunks as it has, and
/// a message in the table holds at least one chunk and fewer than it has.
pub proof fn lemma_complete_is_full_count(partial: PartialView)
    requires
        forall|i: int| partial.received.contains_key(i) ==> 0 <= i < partial.total_chunks,
    ensures
        partial.received.dom().finite(),
        partial.complete() <==> partial.received.dom().len() == partial.total_chunks,
        partial.wf() ==> 1 <= partial.received.dom().len() < partial.total_chunks,
{
    let held = partial.received.dom();
    let all = set_int_range(0, partial.total_chunks as int);
    lemma_int_range(0, partial.total_chunks as int);
    assert(held.subset_of(all));
    lemma_len_subset(held, all);
    if partial.complete() {
        assert(held =~= all);
    }
    if held.len() == partial.total_chunks {
        lemma_subset_equality(held, all);
        assert forall|i: int| 0 <= i < partial.total_chunks implies partial.received.contains_key(
            i,
        ) by {
            assert(all.contains(i));
        }
    }
    if partial.wf() {
        let w = choose|w: int| partial.received.contains_key(w);
        assert(held.contains(w));
        assert(held.len() != 0) by {
            if held.len() == 0 {
                assert(held =~= Set::empty());
            }
        }
    }
}

/// The table never outgrows its capacity: a chunk leaves a proper table a
/// proper table of the same capacity.
pub proof fn lemma_step_keeps_bound(store: StoreView, chunk: ChunkView, now: u64)
    requires
        store.wf(),
    ensures
        store.step(chunk, now).store.wf(),
        store.step(chunk, now).store.capacity == store.capacity,
        store.step(chunk, now).store.len() <= store.capacity,
{
    let id = chunk.message_id;
    let next = store.step(chunk, now).store;
    if !chunk.consistent() {
    } else if store.partials.contains_key(id) {
        let partial = store.partials[id];
        assert(partial.wf());
        let w = choose|w: int| partial.received.contains_key(w);
        if partial.total_chunks != chunk.sequence_count {
        } else if partial.received.contains_key(chunk.sequence_index as int) {
            assert(partial.touched(now).received.contains_key(w));
            assert(partial.touched(now).wf());
            assert(next.partials.dom() =~= store.partials.dom());
        } else if partial.with_chunk(chunk, now).complete() {
            assert(next.partials.dom() =~= store.partials.dom().remove(id));
        } else {
            assert(partial.with_chunk(chunk, now).received.contains_key(
                chunk.sequence_index as int,
            ));
            assert(partial.with_chunk(chunk, now).wf());
            assert(next.partials.dom() =~= store.partials.dom());
        }
    } else if store.len() >= store.capacity {
    } else if chunk.sequence_count == 1 {
    } else {
        let fresh = PartialView::started(chunk, now);
        let other: int = if chunk.sequence_index == 0 { 1 } else { 0 };
        assert(fresh.received.contains_key(chunk.sequence_index as int));
        assert(!fresh.received.contains_key(other));
        assert(fresh.wf());
        assert(next.partials.dom() =~= store.partials.dom().insert(id));
    }
}

/// A full table turns away every chunk of a message that it does not hold,
/// whole messages of one chunk included, and stays exactly as it was.
pub proof fn lemma_full_table_rejects_new(store: StoreView, chunk: ChunkView, now: u64)
    requires
        store.len() >= store.capacity,
        !store.partials.contains_key(chunk.message_id),
        chunk.consistent(),
    ensures
        store.step(chunk, now).outcome == OutcomeView::CapacityExceeded,
        store.step(chunk, now).store == store,
{
}

/// A chunk touches no message but its own: every other message is in the
/// table afterwards exactly if it was before, and is then as it was.
pub proof fn lemma_chunk_touches_one_message(
    store: StoreView,
    chunk: ChunkView,
    now: u64,
    other: u64,
)
    requires
        other != chunk.message_id,
    ensures
        store.step(chunk, now).store.partials.contains_key(other) == store.partials.contains_key(
            other,
        ),
        store.step(chunk, now).store.partials[other] == store.partials[other],
{
}

/// A sweep leaves a proper table a proper table of the same capacity, with
/// no expired message in it and every other message as it was.
pub proof fn lemma_sweep_keeps_bound(store: StoreView, now: u64)
    requires
        store.wf(),
    ensures
        store.sweep(now).wf(),
        store.sweep(now).capacity == store.capacity,
        store.sweep(now).len() <= store.len(),
        forall|id: u64|
            store.sweep(now).partials.contains_key(id) <==> store.partials.contains_key(id)
                && !store.partials[id].expired(now),
        forall|id: u64|
            store.sweep(now).partials.contains_key(id) ==> store.sweep(now).partials[id]
                == store.partials[id],
{
    assert(store.sweep(now).partials.dom().subset_of(store.partials.dom()));
    lemma_len_subset(store.sweep(now).partials.dom(), store.partials.dom());
}

/// No run of chunks makes the table outgrow its capacity.
pub proof fn lemma_run_keeps_bound(store: StoreView, deliveries: Seq<Delivery>)
    requires
        store.wf(),
    ensures
        after_all(store, deliveries).wf(),
        after_all(store, deliveries).capacity == store.capacity,
        after_all(store, deliveries).len() <= store.capacity,
    decreases deliveries.len(),
{
    if deliveries.len() > 0 {
        lemma_run_keeps_bound(store, deliveries.drop_last());
        lemma_step_keeps_bound(
            after_all(store, deliveries.drop_last()),
            deliveries.last().chunk,
            deliveries.last().at,
        );
    }
}

/// A chunk whose sequence index its message already holds changes neither
/// what the table has received nor what becomes of any later chunk: only the
/// message's last-seen time moves.
pub proof fn lemma_redelivery_is_idempotent(
    store: StoreView,
    again: ChunkView,
    now: u64,
    next: ChunkView,
    later: u64,
)
    requires
        store.wf(),
        store.partials.contains_key(again.message_id),
        store.partials[again.message_id].received.contains_key(again.sequence_index as int),
    ensures
        store.step(again, now).outcome == OutcomeView::Duplicate || store.step(
            again,
            now,
        ).outcome == OutcomeView::Malformed,
        again.sequence_count == store.partials[again.message_id].total_chunks ==> store.step(
            again,
            now,
        ).outcome == OutcomeView::Duplicate,
        store.step(again, now).store.partials.dom() == store.partials.dom(),
        forall|id: u64| #[trigger]
            store.partials.contains_key(id) ==> {
                let before = store.partials[id];
                let after = store.step(again, now).store.partials[id];
                &&& after.received == before.received
                &&& after.total_chunks == before.total_chunks
                &&& after.first_seen == before.first_seen
            },
        store.step(again, now).store.step(next, later).outcome == store.step(next, later).outcome,
{
    let id = again.message_id;
    let held = store.partials[id];
    let after = store.step(again, now).store;
    assert(held.wf());
    assert(again.consistent() ==> again.sequence_index < again.sequence_count);
    assert(after.partials.dom() =~= store.partials.dom());
    assert(after.len() == store.len());
    if next.message_id == id && after.partials[id] != held {
        let touched = held.touched(now);
        assert(after.partials[id] == touched);
        assert(touched.with_chunk(next, later).received == held.with_chunk(next, later).received);
        assert(touched.with_chunk(next, later).complete() == held.with_chunk(
            next,
            later,
        ).complete());
        assert(touched.with_chunk(next, later).payload() == held.with_chunk(
            next,
            later,
        ).payload());
    }
}

/// Once a sweep has evicted an expired message, a late chunk of that message
/// starts a new partial message that holds this chunk alone; if the chunk is
/// the whole message, it completes by itself.
pub proof fn lemma_late_chunk_starts_anew(store: StoreView, now: u64, late: ChunkView, later: u64)
    requires
        store.wf(),
        store.partials.contains_key(late.message_id),
        store.partials[late.message_id].expired(now),
        late.consistent(),
    ensures
        !store.sweep(now).partials.contains_key(late.message_id),
        late.sequence_count == 1 ==> store.sweep(now).step(late, later).outcome
            == OutcomeView::Completed(late.payload),
        late.sequence_count != 1 ==> {
            let step = store.sweep(now).step(late, later);
            &&& step.outcome == OutcomeView::Stored
            &&& step.store.partials.contains_key(late.message_id)
            &&& step.store.partials[late.message_id] == PartialView::started(late, later)
        },
{
    let id = late.message_id;
    let swept = store.sweep(now);
    assert(swept.partials.dom().subset_of(store.partials.dom().remove(id)));
    lemma_len_subset(swept.partials.dom(), store.partials.dom().remove(id));
    assert(swept.len() < store.capacity);
}

/// The payloads received once the first `k` chunks of a message have arrived.
pub open spec fn received_after(parts: Seq<Seq<u8>>, order: Seq<int>, k: int) -> Map<
    int,
    Seq<u8>,
> {
    Map::new(|i: int| exists|j: int| 0 <= j < k && #[trigger] order[j] == i, |i: int| parts[i])
}

/// An arrival order names every sequence index.
proof fn lemma_order_covers(order: Seq<int>, n: nat)
    requires
        is_arrival_order(order, n),
    ensures
        forall|i: int| 0 <= i < n ==> order.contains(i),
{
    let named = order.to_set();
    let all = set_int_range(0, n as int);
    order.unique_seq_to_set();
    lemma_int_range(0, n as int);
    assert(named.subset_of(all)) by {
        assert forall|i: int| named.contains(i) implies all.contains(i) by {
            let k = choose|k: int| 0 <= k < order.len() && #[trigger] order[k] == i;
            assert(0 <= order[k] < n);
        }
    }
    lemma_len_subset(named, all);
    lemma_subset_equality(named, all);
    assert forall|i: int| 0 <= i < n implies order.contains(i) by {
        assert(all.contains(i));
        assert(named.contains(i));
    }
}

/// Chunks that agree with the parts of a message concatenate to the parts
/// flattened.
proof fn lemma_concat_is_flatten(received: Map<int, Seq<u8>>, parts: Seq<Seq<u8>>, k: nat)
    requires
        k <= parts.len(),
        forall|i: int| 0 <= i < k ==> received[i] == parts[i],
    ensures
        concat_chunks(received, k) == parts.take(k as int).flatten(),
    decreases k,
{
    if k > 0 {
        lemma_concat_is_flatten(received, parts, (k - 1) as nat);
        let shorter = parts.take(k - 1);
        assert(parts.take(k as int) == shorter.push(parts[k - 1]));
        shorter.lemma_flatten_push(parts[k - 1]);
    }
}

/// The table while a message is under way: after the first `k` of its
/// chunks, with at least one still to come.
proof fn lemma_under_way(
    store: StoreView,
    id: u64,
    parts: Seq<Seq<u8>>,
    order: Seq<int>,
    times: Seq<u64>,
    k: int,
)
    requires
        store.wf(),
        !store.partials.contains_key(id),
        store.len() < store.capacity,
        1 <= parts.len() <= 255,
        is_arrival_order(order, parts.len()),
        times.len() == parts.len(),
        0 <= k < parts.len(),
    ensures
        k == 0 ==> after_all(store, deliveries_of(id, parts, order, times).take(k)) == store,
        k > 0 ==> after_all(store, deliveries_of(id, parts, order, times).take(k))
            == store.with_partial(
            id,
            PartialView {
                total_chunks: parts.len(),
                received: received_after(parts, order, k),
                first_seen: times[0],
                last_seen: times[k - 1],
            },
        ),
        k > 0 ==> last_outcome(store, deliveries_of(id, parts, order, times).take(k))
            == OutcomeView::Stored,
    decreases k,
{
    let all = deliveries_of(id, parts, order, times);
    if k > 0 {
        lemma_under_way(store, id, parts, order, times, k - 1);
        let run = all.take(k);
        assert(run.drop_last() == all.take(k - 1));
        assert(run.last() == all[k - 1]);
        let chunk = all[k - 1].chunk;
        let before = after_all(store, all.take(k - 1));
        let received = received_after(parts, order, k);
        assert(0 <= order[k - 1] < parts.len());
        assert(0 <= order[k] < parts.len());
        assert(chunk.consistent());
        assert(!received.contains_key(order[k])) by {
            if received.contains_key(order[k]) {
                let j = choose|j: int| 0 <= j < k && #[trigger] order[j] == order[k];
                assert(order[j] != order[k]);
            }
        }
        if k == 1 {
            assert(PartialView::started(chunk, times[0]).received =~= received) by {
                assert(received.contains_key(order[0]));
            }
        } else {
            let held = before.partials[id];
            assert(!held.received.contains_key(order[k - 1])) by {
                if held.received.contains_key(order[k - 1]) {
                    let j = choose|j: int| 0 <= j < k - 1 && #[trigger] order[j] == order[k - 1];
                    assert(order[j] != order[k - 1]);
                }
            }
            assert(held.with_chunk(chunk, times[k - 1]).received =~= received) by {
                assert(received.contains_key(order[k - 1]));
                assert forall|i: int| received.contains_key(i) implies held.with_chunk(
                    chunk,
                    times[k - 1],
                ).received.contains_key(i) by {
                    let j = choose|j: int| 0 <= j < k && #[trigger] order[j] == i;
                    if j < k - 1 {
                        assert(held.received.contains_key(i));
                    }
                }
                assert forall|i: int|
                    held.with_chunk(chunk, times[k - 1]).received.contains_key(
                        i,
                    ) implies received.contains_key(i) by {
                    if i != order[k - 1] {
                        let j = choose|j: int| 0 <= j < k - 1 && #[trigger] order[j] == i;
                        assert(0 <= j < k && #[trigger] order[j] == i);
                    }
                }
            }
            assert(!held.with_chunk(chunk, times[k - 1]).complete());
            assert(before.partials.insert(id, held.with_chunk(chunk, times[k - 1]))
                =~= store.partials.insert(id, held.with_chunk(chunk, times[k - 1])));
        }
    } else {
        assert(all.take(0).len() == 0);
    }
}

/// A message whose chunks all arrive, each once and in whatever order, at a
/// table that has room for it, is reassembled by its last chunk: every
/// earlier chunk is stored, the last one yields the parts in ascending
/// sequence order, and the table is left as it was before the first.
pub proof fn lemma_reassembles_in_sequence_order(
    store: StoreView,
    id: u64,
    parts: Seq<Seq<u8>>,
    order: Seq<int>,
    times: Seq<u64>,
)
    requires
        store.wf(),
        !store.partials.contains_key(id),
        store.len() < store.capacity,
        1 <= parts.len() <= 255,
        is_arrival_order(order, parts.len()),
        times.len() == parts.len(),
    ensures
        last_outcome(store, deliveries_of(id, parts, order, times)) == OutcomeView::Completed(
            parts.flatten(),
        ),
        after_all(store, deliveries_of(id, parts, order, times)) == store,
        forall|k: int|
            0 < k < parts.len() ==> last_outcome(
                store,
                #[trigger] deliveries_of(id, parts, order, times).take(k),
            ) == OutcomeView::Stored,
{
    let n = parts.len() as int;
    let all = deliveries_of(id, parts, order, times);
    assert forall|k: int| 0 < k < n implies last_outcome(store, #[trigger] all.take(k))
        == OutcomeView::Stored by {
        lemma_under_way(store, id, parts, order, times, k);
    }
    lemma_under_way(store, id, parts, order, times, n - 1);
    lemma_order_covers(order, parts.len());
    assert(all.drop_last() == all.take(n - 1));
    let chunk = all[n - 1].chunk;
    let before = after_all(store, all.take(n - 1));
    assert(0 <= order[n - 1] < n);
    assert(chunk.consistent());
    assert(parts.take(n) == parts);
    if n == 1 {
        assert(order[0] == 0);
        parts.lemma_flatten_one_element();
        assert(parts.first() == parts[0]);
    } else {
        let held = before.partials[id];
        let full = held.with_chunk(chunk, times[n - 1]);
        assert(!held.received.contains_key(order[n - 1])) by {
            if held.received.contains_key(order[n - 1]) {
                let j = choose|j: int| 0 <= j < n - 1 && #[trigger] order[j] == order[n - 1];
                assert(order[j] != order[n - 1]);
            }
        }
        assert(full.total_chunks == n);
        assert forall|i: int| 0 <= i < n implies #[trigger] full.received.contains_key(i) by {
            assert(order.contains(i));
            let j = choose|j: int| 0 <= j < order.len() && #[trigger] order[j] == i;
            if j < n - 1 {
                assert(held.received.contains_key(i));
            }
        }
        assert(full.complete());
        assert forall|i: int| 0 <= i < n implies #[trigger] full.received[i] == parts[i] by {
            assert(full.received.contains_key(i));
        }
        lemma_concat_is_flatten(full.received, parts, parts.len());
        assert(before.partials.remove(id) =~= store.partials);
    }
}

} // verus!
