//! From a log record to an event of the sink, and the retry policy for
//! sending it.
//!
//! The sink knows five severities; a record's syslog severity is mapped onto
//! them. A send that fails for a passing reason is tried again after a pause
//! that doubles each time, up to a fixed number of attempts; a send that
//! fails for good is given up at once.

use vstd::prelude::*;
use crate::json::{fields_view, JsonValue, JsonView};
use crate::record::{LogRecord, RecordView};

verus! {

/// The severities of the sink.
#[derive(Debug, Clone, Copy, PartialEq, Eq, Structural)]
pub enum SinkLevel {
    Fatal,
    Error,
    Warning,
    Info,
    Debug,
}

/// The sink's severity for a syslog severity: emergency, alert and critical
/// are fatal; error is error; warning is warning; notice and informational
/// are info; debug, and any number beyond it, is debug.
pub open spec fn sink_level_of(level: u8) -> SinkLevel {
    if level <= 2 {
        SinkLevel::Fatal
    } else if level == 3 {
        SinkLevel::Error
    } else if level == 4 {
        SinkLevel::Warning
    } else if level <= 6 {
        SinkLevel::Info
    } else {
        SinkLevel::Debug
    }
}

/// Maps a syslog severity onto the severities of the sink.
pub fn sink_level(level: u8) -> (mapped: SinkLevel)
    ensures
        mapped == sink_level_of(level),
{
    if level <= 2 {
        SinkLevel::Fatal
    } else if level == 3 {
        SinkLevel::Error
    } else if level == 4 {
        SinkLevel::Warning
    } else if level <= 6 {
        SinkLevel::Info
    } else {
        SinkLevel::Debug
    }
}

impl SinkLevel {
    /// The name of the severity.
    pub open spec fn name_of(self) -> Seq<char> {
        match self {
            SinkLevel::Fatal => "fatal"@,
            SinkLevel::Error => "error"@,
            SinkLevel::Warning => "warning"@,
            SinkLevel::Info => "info"@,
            SinkLevel::Debug => "debug"@,
        }
    }

    /// The name under which the sink knows the severity.
    pub fn name(&self) -> (text: &'static str)
        ensures
            text@ == self.name_of(),
    {
        match self {
            SinkLevel::Fatal => "fatal",
            SinkLevel::Error => "error",
            SinkLevel::Warning => "warning",
            SinkLevel::Info => "info",
            SinkLevel::Debug => "debug",
        }
    }
}

/// A record in the shape that the sink takes.
#[derive(Debug, PartialEq, Eq)]
pub struct ForwardEvent {
    /// The event's title: the record's short message.
    pub message: String,
    /// The event's body: the record's full message, if it has one.
    pub body: Option<String>,
    pub level: SinkLevel,
    /// The server that the event comes from: the record's host.
    pub server_name: String,
    /// Seconds since the epoch, as the decimal text of the number.
    pub timestamp: String,
    /// The event's structured context: the record's extra fields.
    pub extra: Vec<(String, JsonValue)>,
}

/// The mathematical content of a [`ForwardEvent`].
pub ghost struct EventView {
    pub message: Seq<char>,
    pub body: Option<Seq<char>>,
    pub level: SinkLevel,
    pub server_name: Seq<char>,
    pub timestamp: Seq<char>,
    pub extra: Seq<(Seq<char>, JsonView)>,
}

impl View for ForwardEvent {
    type V = EventView;

    open spec fn view(&self) -> EventView {
        EventView {
            message: self.message@,
            body: match self.body {
                Some(text) => Some(text@),
                None => None,
            },
            level: self.level,
            server_name: self.server_name@,
            timestamp: self.timestamp@,
            extra: fields_view(self.extra@),
        }
    }
}

/// The event that a record is forwarded as.
pub open spec fn event_of(record: RecordView) -> EventView {
    EventView {
        message: record.short_message,
        body: record.full_message,
        level: sink_level_of(record.level),
        server_name: record.host,
        timestamp: record.timestamp,
        extra: record.extra,
    }
}

/// Projects a record onto the sink's event.
pub fn to_forward_event(record: LogRecord) -> (event: ForwardEvent)
    ensures
        event@ == event_of(record@),
{
    let LogRecord { version, host, short_message, full_message, timestamp, level, extra } = record;
    ForwardEvent {
        message: short_message,
        body: full_message,
        level: sink_level(level),
        server_name: host,
        timestamp,
        extra,
    }
}

/// Most attempts made to send one event.
pub const MAX_ATTEMPTS: u32 = 3;

/// Pause before the second attempt, in milliseconds.
pub const BACKOFF_BASE_MS: u64 = 100;

/// How an attempt to send an event ended.
#[derive(Debug, Clone, Copy, PartialEq, Eq, Structural)]
pub enum SendOutcome {
    Delivered,
    /// The sink could not be reached; a later attempt may succeed.
    TransientFailure,
    /// The sink turned the event down for good, as with invalid credentials.
    PermanentFailure,
}

/// Whether a byte is a decimal digit.
pub open spec fn is_digit(byte: u8) -> bool {
    0x30 <= byte <= 0x39
}

/// The position of the first space at or after `from`, or the length of the
/// reply where there is none.
pub open spec fn first_space(reply: Seq<u8>, from: int) -> int
    decreases reply.len() - from,
{
    if from < 0 || from >= reply.len() {
        reply.len() as int
    } else if reply[from] == 0x20 {
        from
    } else {
        first_space(reply, from + 1)
    }
}

/// The status that a reply carries: the number spelled by the three digits
/// that follow the first space, where these are digits and no fourth digit
/// follows them.
pub open spec fn status_of_reply(reply: Seq<u8>) -> Option<u16> {
    let at = first_space(reply, 0) + 1;
    if at + 3 <= reply.len() && is_digit(reply[at]) && is_digit(reply[at + 1]) && is_digit(
        reply[at + 2],
    ) && (at + 3 == reply.len() || !is_digit(reply[at + 3])) {
        Some(((reply[at] - 0x30) * 100 + (reply[at + 1] - 0x30) * 10 + (reply[at + 2] - 0x30)) as u16)
    } else {
        None
    }
}

/// Reads the status out of the sink's reply.
pub fn reply_status(reply: &[u8]) -> (status: Option<u16>)
    ensures
        status == status_of_reply(reply@),
{
    let len: usize = reply.len();
    let mut space: usize = 0;
    while space < len && reply[space] != 0x20
        invariant
            space <= len == reply@.len(),
            first_space(reply@, 0) == first_space(reply@, space as int),
        decreases len - space,
    {
        space += 1;
    }
    if len < 4 || space > len - 4 {
        return None;
    }
    let at: usize = space + 1;
    let (a, b, c): (u8, u8, u8) = (reply[at], reply[at + 1], reply[at + 2]);
    let digits = 0x30 <= a && a <= 0x39 && 0x30 <= b && b <= 0x39 && 0x30 <= c && c <= 0x39;
    if !digits {
        return None;
    }
    if at + 3 < len && 0x30 <= reply[at + 3] && reply[at + 3] <= 0x39 {
        return None;
    }
    let hundreds: u16 = (a - 0x30) as u16;
    let tens: u16 = (b - 0x30) as u16;
    let ones: u16 = (c - 0x30) as u16;
    Some(hundreds * 100 + tens * 10 + ones)
}

/// How an attempt ended, given the status of the sink's reply, or none where
/// no reply came. A reply in the two hundreds is a delivery. A reply in the
/// four hundreds is a rejection for good, unless it asks to slow down or
/// reports a timeout. Everything else may pass.
pub open spec fn outcome_of_reply(status: Option<u16>) -> SendOutcome {
    match status {
        None => SendOutcome::TransientFailure,
        Some(code) => if 200 <= code < 300 {
            SendOutcome::Delivered
        } else if 400 <= code < 500 && code != 408 && code != 429 {
            SendOutcome::PermanentFailure
        } else {
            SendOutcome::TransientFailure
        },
    }
}

/// Tells how an attempt ended from the status of the sink's reply, or from
/// the lack of one.
pub fn reply_outcome(status: Option<u16>) -> (outcome: SendOutcome)
    ensures
        outcome == outcome_of_reply(status),
{
    match status {
        None => SendOutcome::TransientFailure,
        Some(code) => {
            if 200 <= code && code < 300 {
                SendOutcome::Delivered
            } else if 400 <= code && code < 500 && code != 408 && code != 429 {
                SendOutcome::PermanentFailure
            } else {
                SendOutcome::TransientFailure
            }
        },
    }
}

/// What to do with an event after an attempt to send it.
#[derive(Debug, Clone, Copy, PartialEq, Eq, Structural)]
pub enum ForwardAction {
    /// The event is with the sink.
    Done,
    /// Send again after this many milliseconds.
    RetryAfter(u64),
    /// Every attempt failed: drop the event and count it.
    DropExhausted,
    /// The sink will not take the event: drop it and report the failure.
    DropRejected,
}

/// The pause after the given number of failed attempts, in milliseconds: the
/// base pause, doubled for each failure after the first.
pub open spec fn backoff_ms(failures: nat) -> nat
    decreases failures,
{
    if failures <= 1 {
        BACKOFF_BASE_MS as nat
    } else {
        2 * backoff_ms((failures - 1) as nat)
    }
}

/// What follows an attempt that ended in `outcome`, after which `failures`
/// attempts have failed in all.
pub open spec fn action_after(failures: nat, outcome: SendOutcome) -> ForwardAction {
    match outcome {
        SendOutcome::Delivered => ForwardAction::Done,
        SendOutcome::PermanentFailure => ForwardAction::DropRejected,
        SendOutcome::TransientFailure => if failures >= MAX_ATTEMPTS {
            ForwardAction::DropExhausted
        } else {
            ForwardAction::RetryAfter(backoff_ms(failures) as u64)
        },
    }
}

/// The pauses before the attempts that the budget allows.
proof fn lemma_backoff_values()
    ensures
        backoff_ms(1) == 100,
        backoff_ms(2) == 200,
{
    reveal_with_fuel(backoff_ms, 3);
}

/// Computes the pause after the given number of failed attempts.
fn backoff(failures: u32) -> (ms: u64)
    requires
        1 <= failures < MAX_ATTEMPTS,
    ensures
        ms == backoff_ms(failures as nat),
{
    let mut ms: u64 = BACKOFF_BASE_MS;
    let mut done: u32 = 1;
    while done < failures
        invariant
            1 <= done <= failures < MAX_ATTEMPTS,
            ms == backoff_ms(done as nat),
        decreases failures - done,
    {
        proof {
            lemma_backoff_values();
        }
        ms = 2 * ms;
        done += 1;
    }
    ms
}

/// The sending of one event: how many attempts have failed so far.
#[derive(Debug)]
pub struct SendState {
    failures: u32,
}

impl View for SendState {
    type V = nat;

    /// Number of failed attempts.
    closed spec fn view(&self) -> nat {
        self.failures as nat
    }
}

impl SendState {
    #[verifier::type_invariant]
    spec fn inv(&self) -> bool {
        self.failures <= MAX_ATTEMPTS
    }

    /// The state before the first attempt.
    pub fn new() -> (state: SendState)
        ensures
            state@ == 0,
    {
        SendState { failures: 0 }
    }

    /// Number of attempts that have failed.
    pub fn failures(&self) -> (failures: u32)
        ensures
            failures == self@,
            failures <= MAX_ATTEMPTS,
    {
        proof {
            use_type_invariant(self);
        }
        self.failures
    }

    /// Takes in the outcome of one attempt and says what to do next.
    ///
    /// A delivered event is done, and one that the sink rejects for good is
    /// dropped; neither counts as a failed attempt. A passing failure counts:
    /// below the budget it asks for another attempt after a pause, and at
    /// the budget it drops the event. Once the budget is spent the count
    /// stays where it is.
    pub fn after_attempt(&mut self, outcome: SendOutcome) -> (action: ForwardAction)
        ensures
            final(self)@ == (if outcome == SendOutcome::TransientFailure && old(self)@
                < MAX_ATTEMPTS {
                old(self)@ + 1
            } else {
                old(self)@
            }),
            action == action_after(final(self)@, outcome),
            final(self)@ <= MAX_ATTEMPTS,
    {
        proof {
            use_type_invariant(&*self);
            lemma_backoff_values();
        }
        match outcome {
            SendOutcome::Delivered => ForwardAction::Done,
            SendOutcome::PermanentFailure => ForwardAction::DropRejected,
            SendOutcome::TransientFailure => {
                if self.failures < MAX_ATTEMPTS {
                    self.failures = self.failures + 1;
                }
                if self.failures >= MAX_ATTEMPTS {
                    ForwardAction::DropExhausted
                } else {
                    ForwardAction::RetryAfter(backoff(self.failures))
                }
            },
        }
    }
}

} // verus!
