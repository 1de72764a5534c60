//! Reassembly of chunked messages.
//!
//! [`model`] states, over maps and sequences, what the bounded table of
//! partial messages does with each chunk and each sweep. [`store`] is the
//! table itself, and [`laws`] proves what follows from the model for whole
//! runs of chunks.

pub mod laws;
pub mod model;
pub mod store;
