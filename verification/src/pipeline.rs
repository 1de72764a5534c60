//! The stages of the gateway, each as one step on plain values.
//!
//! A stage takes what it received, does its part, and hands back what goes
//! on to the next stage. Whatever it drops, it counts; nothing it meets
//! stops it.

use vstd::prelude::*;
use crate::forward::{action_after, ForwardAction, SendOutcome, SendState, MAX_ATTEMPTS};
use crate::listener::{
    admission, admission_of, ingest, ingest_datagram, Admission, Ingested, IngestedView, Source,
};
use crate::reassembly::store::ReassemblyStore;
use crate::json::distinct_keys;
use crate::record::LogRecord;
use crate::stats::{
    forward_action_kind, kind_of_forward_action, kind_of_unpack_error, unpack_error_kind,
    Counters, ErrorKind,
};
use crate::unpack::{unpack, unpacked};

verus! {

/// The UDP listener's step: takes in one datagram received at `now` and
/// yields the payload that is ready for the unpacker, if one is. A datagram
/// that is dropped is counted under its kind of failure.
pub fn receive_datagram(
    store: &mut ReassemblyStore,
    counters: &mut Counters,
    datagram: &[u8],
    now: u64,
) -> (payload: Option<Vec<u8>>)
    ensures
        final(store)@ == ingest(old(store)@, datagram@, now).store,
        match ingest(old(store)@, datagram@, now).result {
            IngestedView::Payload(bytes) => payload matches Some(ready) && ready@ == bytes
                && *final(counters) == *old(counters),
            IngestedView::Pending => payload is None && *final(counters) == *old(counters),
            IngestedView::Dropped(kind) => payload is None && *final(counters) == old(
                counters,
            ).counted(kind, 1),
        },
{
    match ingest_datagram(store, datagram, now) {
        Ingested::Payload(ready) => Some(ready),
        Ingested::Pending => None,
        Ingested::Dropped(kind) => {
            counters.record(kind, 1);
            None
        },
    }
}

/// The reassembler's periodic step: evicts the partial messages that have
/// expired at `now` and counts each as a reassembly timeout.
pub fn evict_expired(store: &mut ReassemblyStore, counters: &mut Counters, now: u64)
    ensures
        final(store)@ == old(store)@.sweep(now),
        *final(counters) == old(counters).counted(
            ErrorKind::ReassemblyTimeout,
            (old(store)@.len() - final(store)@.len()) as nat,
        ),
        final(store)@.wf(),
{
    let evicted = store.sweep_expired(now);
    counters.record(ErrorKind::ReassemblyTimeout, evicted);
}

/// The unpacker's step: unpacks one payload received at `received_ms` and
/// yields its record, if it has one. A payload without a record is counted
/// under the kind of failure of its error.
pub fn unpack_payload(counters: &mut Counters, payload: &[u8], received_ms: u64) -> (record:
    Option<LogRecord>)
    ensures
        match unpacked(payload@, received_ms) {
            Ok(decoded) => record matches Some(r) && r@ == decoded && r@.wf() && distinct_keys(
                r@.extra,
            ) && *final(counters) == *old(counters),
            Err(error) => record is None && *final(counters) == old(counters).counted(
                kind_of_unpack_error(error),
                1,
            ),
        },
{
    match unpack(payload, received_ms) {
        Ok(record) => Some(record),
        Err(error) => {
            counters.record(unpack_error_kind(error), 1);
            None
        },
    }
}

/// The forwarder's step: takes in the outcome of one attempt to send an
/// event and says what to do next. An event that is dropped, because the
/// retry budget is spent or because the sink rejects it, is counted under
/// its kind of failure.
pub fn conclude_attempt(state: &mut SendState, counters: &mut Counters, outcome: SendOutcome) -> (action:
    ForwardAction)
    ensures
        final(state)@ == (if outcome == SendOutcome::TransientFailure && old(state)@
            < MAX_ATTEMPTS {
            old(state)@ + 1
        } else {
            old(state)@
        }),
        action == action_after(final(state)@, outcome),
        *final(counters) == (match kind_of_forward_action(action) {
            Some(kind) => old(counters).counted(kind, 1),
            None => *old(counters),
        }),
{
    let action = state.after_attempt(outcome);
    match forward_action_kind(action) {
        Some(kind) => {
            counters.record(kind, 1);
        },
        None => {},
    }
    action
}

/// The step at the door of a stage's queue, which holds `queued` of at most
/// `capacity` units: says whether a unit from `source` goes in, is dropped
/// or has to wait. A unit that is dropped is counted.
pub fn offer(counters: &mut Counters, source: Source, queued: usize, capacity: usize) -> (decision:
    Admission)
    ensures
        decision == admission_of(source, queued as nat, capacity as nat),
        *final(counters) == (if decision == Admission::Drop {
            old(counters).pressed()
        } else {
            *old(counters)
        }),
{
    let decision = admission(source, queued, capacity);
    match decision {
        Admission::Drop => {
            counters.record_backpressure();
        },
        _ => {},
    }
    decision
}

} // verus!
