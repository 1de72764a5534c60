//! Ingestion core of a GELF gateway: datagram classification, chunk
//! reassembly, stream framing, payload unpacking and the mapping of log
//! records onto the events of an error-tracking sink.
//!
//! Every function here works on plain values. Sockets, clocks, worker
//! threads and the sink's transport belong to the program around it, which
//! drives the steps in [`pipeline`].
//!
//! The way of a message through the modules:
//! [`chunk`] tells chunked datagrams from whole ones, [`reassembly`] puts
//! chunks together, [`framing`] cuts a byte stream into frames,
//! [`compression`], [`json`], [`record`] and [`unpack`] turn a payload into a
//! log record, and [`forward`] turns the record into an event and rules the
//! retries of sending it. [`listener`] and [`stats`] hold what the stages
//! share: the step of the UDP listener, the admission to a queue, the kinds
//! of failure and their counters. [`config`] and [`descriptor`] deal with
//! the sink's connection descriptor.

mod bytes;
pub mod chunk;
pub mod compression;
pub mod config;
pub mod descriptor;
pub mod forward;
pub mod framing;
pub mod json;
pub mod listener;
pub mod pipeline;
pub mod reassembly;
pub mod record;
pub mod stats;
pub mod unpack;
