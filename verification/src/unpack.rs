//! From a raw payload to a log record.
//!
//! A payload, whether it came in one datagram, out of the reassembly table
//! or as one frame of a stream, is unpacked in three steps: its compression
//! is removed, the text is decoded as JSON, and the record is read from the
//! JSON object.

use vstd::prelude::*;
use crate::compression::{decompress, unpacked_text};
use crate::json::{decode, distinct_keys, json_decoded};
use crate::record::{record_from_json, record_of_json, LogRecord, RecordView};

verus! {

/// Why a payload yields no record.
#[derive(Debug, Clone, Copy, PartialEq, Eq, Structural)]
pub enum UnpackError {
    /// The payload announces gzip or zlib data that does not decode.
    DecompressionFailure,
    /// The text is not a JSON document in UTF-8.
    InvalidJson,
    /// The document is not an object with the fields that a record needs.
    MissingStructure,
}

/// What unpacking a payload received at `received_ms` yields.
pub open spec fn unpacked(payload: Seq<u8>, received_ms: u64) -> Result<RecordView, UnpackError> {
    match unpacked_text(payload) {
        None => Err(UnpackError::DecompressionFailure),
        Some(text) => match json_decoded(text) {
            None => Err(UnpackError::InvalidJson),
            Some(json) => match record_of_json(json, received_ms) {
                None => Err(UnpackError::MissingStructure),
                Some(record) => Ok(record),
            },
        },
    }
}

/// Unpacks one payload, received at `received_ms`, milliseconds since the
/// epoch.
///
/// The record is that of the JSON object which the payload carries, plain or
/// packed. A payload whose compression does not decode, whose text is no
/// JSON document, or whose document lacks what a record needs, is reported
/// by the matching error. Every record that comes out is well formed, and
/// its extra fields bear distinct names.
pub fn unpack(payload: &[u8], received_ms: u64) -> (result: Result<LogRecord, UnpackError>)
    ensures
        match result {
            Ok(record) => unpacked(payload@, received_ms) == Ok::<RecordView, UnpackError>(
                record@,
            ) && record@.wf() && distinct_keys(record@.extra),
            Err(error) => unpacked(payload@, received_ms) == Err::<RecordView, UnpackError>(
                error,
            ),
        },
{
    let text = match decompress(payload) {
        Some(text) => text,
        None => {
            return Err(UnpackError::DecompressionFailure);
        },
    };
    let json = match decode(text.as_slice()) {
        Some(json) => json,
        None => {
            return Err(UnpackError::InvalidJson);
        },
    };
    match record_from_json(json, received_ms) {
        Some(record) => Ok(record),
        None => Err(UnpackError::MissingStructure),
    }
}

} // verus!
