//! The kinds of failure that the gateway meets, and the counting of them.
//!
//! No message that is malformed, late or lost stops the gateway: it is
//! dropped and counted. Only a failure at startup is fatal.

use vstd::prelude::*;
use crate::forward::ForwardAction;
use crate::unpack::UnpackError;

verus! {

/// The kinds of failure.
#[derive(Debug, Clone, Copy, PartialEq, Eq, Structural)]
pub enum ErrorKind {
    /// A bad chunk header, or a payload whose structure does not decode.
    MalformedInput,
    /// The reassembly table is full and a chunk of a new message arrived.
    CapacityExceeded,
    /// A partial message outlived the time-to-live.
    ReassemblyTimeout,
    /// A packed payload does not decode.
    DecompressionFailure,
    /// The sink could not be reached within the retry budget.
    ForwardTransientFailure,
    /// The sink rejects what it is sent.
    ForwardPermanentFailure,
    /// A port cannot be bound, or the sink's configuration is unusable.
    StartupFailure,
}

/// Whether a failure of this kind ends the process.
pub open spec fn fatal(kind: ErrorKind) -> bool {
    kind == ErrorKind::StartupFailure
}

/// Whether a failure of this kind ends the process: only a startup failure
/// does.
pub fn is_fatal(kind: ErrorKind) -> (fatal_kind: bool)
    ensures
        fatal_kind == fatal(kind),
{
    match kind {
        ErrorKind::StartupFailure => true,
        _ => false,
    }
}

/// The kind of failure that an unpacking error is.
pub open spec fn kind_of_unpack_error(error: UnpackError) -> ErrorKind {
    match error {
        UnpackError::DecompressionFailure => ErrorKind::DecompressionFailure,
        UnpackError::InvalidJson => ErrorKind::MalformedInput,
        UnpackError::MissingStructure => ErrorKind::MalformedInput,
    }
}

/// Tells the kind of failure that an unpacking error is.
pub fn unpack_error_kind(error: UnpackError) -> (kind: ErrorKind)
    ensures
        kind == kind_of_unpack_error(error),
        !fatal(kind),
{
    match error {
        UnpackError::DecompressionFailure => ErrorKind::DecompressionFailure,
        UnpackError::InvalidJson => ErrorKind::MalformedInput,
        UnpackError::MissingStructure => ErrorKind::MalformedInput,
    }
}

/// The kind of failure, if any, with which the sending of an event ended.
pub open spec fn kind_of_forward_action(action: ForwardAction) -> Option<ErrorKind> {
    match action {
        ForwardAction::DropExhausted => Some(ErrorKind::ForwardTransientFailure),
        ForwardAction::DropRejected => Some(ErrorKind::ForwardPermanentFailure),
        _ => None,
    }
}

/// Tells the kind of failure, if any, with which the sending of an event
/// ended: an event that is dropped counts, one that is delivered or about to
/// be sent again does not.
pub fn forward_action_kind(action: ForwardAction) -> (kind: Option<ErrorKind>)
    ensures
        kind == kind_of_forward_action(action),
{
    match action {
        ForwardAction::DropExhausted => Some(ErrorKind::ForwardTransientFailure),
        ForwardAction::DropRejected => Some(ErrorKind::ForwardPermanentFailure),
        _ => None,
    }
}

/// A count raised by `by`, held at the largest number once it is reached.
pub open spec fn raised(count: u64, by: nat) -> u64 {
    if count + by > u64::MAX {
        u64::MAX
    } else {
        (count + by) as u64
    }
}

/// How many failures of each kind were met, and how many units were dropped
/// because the next stage had no room.
#[derive(Debug, Clone, Copy, PartialEq, Eq)]
pub struct Counters {
    pub malformed_input: u64,
    pub capacity_exceeded: u64,
    pub reassembly_timeouts: u64,
    pub decompression_failures: u64,
    pub forward_transient_failures: u64,
    pub forward_permanent_failures: u64,
    pub startup_failures: u64,
    pub backpressure_drops: u64,
}

impl Counters {
    /// The count kept for a kind of failure.
    pub open spec fn of(self, kind: ErrorKind) -> u64 {
        match kind {
            ErrorKind::MalformedInput => self.malformed_input,
            ErrorKind::CapacityExceeded => self.capacity_exceeded,
            ErrorKind::ReassemblyTimeout => self.reassembly_timeouts,
            ErrorKind::DecompressionFailure => self.decompression_failures,
            ErrorKind::ForwardTransientFailure => self.forward_transient_failures,
            ErrorKind::ForwardPermanentFailure => self.forward_permanent_failures,
            ErrorKind::StartupFailure => self.startup_failures,
        }
    }

    /// The counters before anything was counted.
    pub open spec fn zero() -> Counters {
        Counters {
            malformed_input: 0,
            capacity_exceeded: 0,
            reassembly_timeouts: 0,
            decompression_failures: 0,
            forward_transient_failures: 0,
            forward_permanent_failures: 0,
            startup_failures: 0,
            backpressure_drops: 0,
        }
    }

    /// All counts at zero.
    pub fn new() -> (counters: Counters)
        ensures
            counters == Counters::zero(),
    {
        Counters {
            malformed_input: 0,
            capacity_exceeded: 0,
            reassembly_timeouts: 0,
            decompression_failures: 0,
            forward_transient_failures: 0,
            forward_permanent_failures: 0,
            startup_failures: 0,
            backpressure_drops: 0,
        }
    }

    /// Reads the count kept for a kind of failure.
    pub fn get(&self, kind: ErrorKind) -> (count: u64)
        ensures
            count == self.of(kind),
    {
        match kind {
            ErrorKind::MalformedInput => self.malformed_input,
            ErrorKind::CapacityExceeded => self.capacity_exceeded,
            ErrorKind::ReassemblyTimeout => self.reassembly_timeouts,
            ErrorKind::DecompressionFailure => self.decompression_failures,
            ErrorKind::ForwardTransientFailure => self.forward_transient_failures,
            ErrorKind::ForwardPermanentFailure => self.forward_permanent_failures,
            ErrorKind::StartupFailure => self.startup_failures,
        }
    }

    /// The counters after `times` failures of one kind.
    pub open spec fn counted(self, kind: ErrorKind, times: nat) -> Counters {
        match kind {
            ErrorKind::MalformedInput => Counters {
                malformed_input: raised(self.malformed_input, times),
                ..self
            },
            ErrorKind::CapacityExceeded => Counters {
                capacity_exceeded: raised(self.capacity_exceeded, times),
                ..self
            },
            ErrorKind::ReassemblyTimeout => Counters {
                reassembly_timeouts: raised(self.reassembly_timeouts, times),
                ..self
            },
            ErrorKind::DecompressionFailure => Counters {
                decompression_failures: raised(self.decompression_failures, times),
                ..self
            },
            ErrorKind::ForwardTransientFailure => Counters {
                forward_transient_failures: raised(self.forward_transient_failures, times),
                ..self
            },
            ErrorKind::ForwardPermanentFailure => Counters {
                forward_permanent_failures: raised(self.forward_permanent_failures, times),
                ..self
            },
            ErrorKind::StartupFailure => Counters {
                startup_failures: raised(self.startup_failures, times),
                ..self
            },
        }
    }

    /// The counters after one unit was dropped for want of room.
    pub open spec fn pressed(self) -> Counters {
        Counters { backpressure_drops: raised(self.backpressure_drops, 1), ..self }
    }

    /// Counts `times` failures of one kind. The other counts stay.
    pub fn record(&mut self, kind: ErrorKind, times: usize)
        ensures
            *final(self) == old(self).counted(kind, times as nat),
            final(self).of(kind) == raised(old(self).of(kind), times as nat),
            forall|other: ErrorKind| other != kind ==> final(self).of(other) == old(self).of(other),
    {
        let now: u64 = raise(self.get(kind), times);
        match kind {
            ErrorKind::MalformedInput => {
                self.malformed_input = now;
            },
            ErrorKind::CapacityExceeded => {
                self.capacity_exceeded = now;
            },
            ErrorKind::ReassemblyTimeout => {
                self.reassembly_timeouts = now;
            },
            ErrorKind::DecompressionFailure => {
                self.decompression_failures = now;
            },
            ErrorKind::ForwardTransientFailure => {
                self.forward_transient_failures = now;
            },
            ErrorKind::ForwardPermanentFailure => {
                self.forward_permanent_failures = now;
            },
            ErrorKind::StartupFailure => {
                self.startup_failures = now;
            },
        }
    }

    /// Counts one unit that was dropped because the next stage had no room.
    /// The counts of failures stay.
    pub fn record_backpressure(&mut self)
        ensures
            *final(self) == old(self).pressed(),
    {
        self.backpressure_drops = raise(self.backpressure_drops, 1);
    }
}

/// Raises a count, holding it at the largest number.
fn raise(count: u64, by: usize) -> (sum: u64)
    ensures
        sum == raised(count, by as nat),
{
    let by: u64 = by as u64;
    if by > u64::MAX - count {
        u64::MAX
    } else {
        count + by
    }
}

} // verus!
