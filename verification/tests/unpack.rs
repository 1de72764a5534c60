use std::io::Write;

use gelf_ingest::compression::{decompress, detect_compression, Compression};
use gelf_ingest::json::JsonValue;
use gelf_ingest::record::{
    format_decimal, format_seconds, record_from_json, record_to_json, LogRecord, DEFAULT_LEVEL,
};
use gelf_ingest::unpack::{unpack, UnpackError};

const FULL: &[u8] = br#"{"version":"1.1","host":"example.org","short_message":"A short message","full_message":"Backtrace here\n\nmore stuff","timestamp":1385053862.3072,"level":1,"_user_id":9001,"_some_info":"foo"}"#;

const MINIMAL: &[u8] = br#"{"version":"1.1","host":"example.org","short_message":"hello"}"#;

fn gzip(data: &[u8]) -> Vec<u8> {
    let mut encoder = flate2::write::GzEncoder::new(Vec::new(), flate2::Compression::default());
    encoder.write_all(data).unwrap();
    encoder.finish().unwrap()
}

fn zlib(data: &[u8]) -> Vec<u8> {
    let mut encoder = flate2::write::ZlibEncoder::new(Vec::new(), flate2::Compression::default());
    encoder.write_all(data).unwrap();
    encoder.finish().unwrap()
}

fn full_record() -> LogRecord {
    LogRecord {
        version: "1.1".to_string(),
        host: "example.org".to_string(),
        short_message: "A short message".to_string(),
        full_message: Some("Backtrace here\n\nmore stuff".to_string()),
        timestamp: "1385053862.3072".to_string(),
        level: 1,
        extra: vec![
            ("_some_info".to_string(), JsonValue::Text("foo".to_string())),
            ("_user_id".to_string(), JsonValue::Number("9001".to_string())),
        ],
    }
}

fn to_serde(value: &JsonValue) -> serde_json::Value {
    match value {
        JsonValue::Null => serde_json::Value::Null,
        JsonValue::Bool(b) => serde_json::Value::Bool(*b),
        JsonValue::Number(text) => serde_json::from_str(text).unwrap(),
        JsonValue::Text(text) => serde_json::Value::String(text.clone()),
        JsonValue::Array(items) => serde_json::Value::Array(items.iter().map(to_serde).collect()),
        JsonValue::Object(fields) => serde_json::Value::Object(
            fields.iter().map(|(key, value)| (key.clone(), to_serde(value))).collect(),
        ),
    }
}

fn encode(record: LogRecord) -> Vec<u8> {
    serde_json::to_vec(&to_serde(&record_to_json(record))).unwrap()
}

#[test]
fn plain_payload_unpacks_to_its_record() {
    assert_eq!(unpack(FULL, 0), Ok(full_record()));
}

#[test]
fn gzip_payload_unpacks_to_its_record() {
    let packed = gzip(FULL);
    assert_eq!(detect_compression(&packed), Compression::Gzip);
    assert_eq!(unpack(&packed, 0), Ok(full_record()));
}

#[test]
fn zlib_payload_unpacks_to_its_record() {
    let packed = zlib(FULL);
    assert_eq!(detect_compression(&packed), Compression::Zlib);
    assert_eq!(unpack(&packed, 0), Ok(full_record()));
}

#[test]
fn decompress_yields_the_data_that_was_packed() {
    assert_eq!(decompress(&gzip(b"some data")), Some(b"some data".to_vec()));
    assert_eq!(decompress(&zlib(b"some data")), Some(b"some data".to_vec()));
    assert_eq!(decompress(b"some data"), Some(b"some data".to_vec()));
    assert_eq!(decompress(b""), Some(Vec::new()));
}

#[test]
fn compression_is_told_from_the_leading_bytes() {
    assert_eq!(detect_compression(&[0x1f, 0x8b, 0x08]), Compression::Gzip);
    assert_eq!(detect_compression(&[0x78, 0x9c]), Compression::Zlib);
    assert_eq!(detect_compression(&[0x78, 0x01]), Compression::Zlib);
    assert_eq!(detect_compression(&[0x78, 0x5e]), Compression::Zlib);
    assert_eq!(detect_compression(&[0x78, 0xda]), Compression::Zlib);
    assert_eq!(detect_compression(&[0x78, 0x9d]), Compression::Plain);
    assert_eq!(detect_compression(&[0x78]), Compression::Plain);
    assert_eq!(detect_compression(&[0x1f]), Compression::Plain);
    assert_eq!(detect_compression(&[0x1f, 0x8c]), Compression::Plain);
    assert_eq!(detect_compression(b"{}"), Compression::Plain);
    assert_eq!(detect_compression(b""), Compression::Plain);
}

#[test]
fn corrupt_gzip_is_a_decompression_failure() {
    let mut packed = gzip(FULL);
    let middle = packed.len() / 2;
    packed.truncate(middle);
    assert_eq!(unpack(&packed, 0), Err(UnpackError::DecompressionFailure));
    assert_eq!(unpack(&[0x1f, 0x8b, 0xff, 0xff], 0), Err(UnpackError::DecompressionFailure));
    assert_eq!(decompress(&[0x1f, 0x8b, 0xff, 0xff]), None);
}

#[test]
fn corrupt_zlib_is_a_decompression_failure() {
    let mut packed = zlib(FULL);
    let last = packed.len() - 1;
    packed[last] ^= 0xff;
    assert_eq!(unpack(&packed, 0), Err(UnpackError::DecompressionFailure));
    assert_eq!(unpack(&[0x78, 0x9c, 0x00], 0), Err(UnpackError::DecompressionFailure));
}

#[test]
fn text_that_is_no_json_is_invalid() {
    assert_eq!(unpack(b"", 0), Err(UnpackError::InvalidJson));
    assert_eq!(unpack(b"not json", 0), Err(UnpackError::InvalidJson));
    assert_eq!(unpack(br#"{"version":"1.1""#, 0), Err(UnpackError::InvalidJson));
    assert_eq!(unpack(&gzip(b"not json"), 0), Err(UnpackError::InvalidJson));
}

#[test]
fn text_that_is_no_utf8_is_invalid() {
    let mut payload = br#"{"version":"1.1","host":"h","short_message":""#.to_vec();
    payload.extend_from_slice(&[0xff, 0xfe]);
    payload.extend_from_slice(br#""}"#);
    assert_eq!(unpack(&payload, 0), Err(UnpackError::InvalidJson));
}

#[test]
fn json_that_is_no_object_lacks_structure() {
    assert_eq!(unpack(b"[1,2,3]", 0), Err(UnpackError::MissingStructure));
    assert_eq!(unpack(b"\"text\"", 0), Err(UnpackError::MissingStructure));
    assert_eq!(unpack(b"null", 0), Err(UnpackError::MissingStructure));
    assert_eq!(unpack(b"17", 0), Err(UnpackError::MissingStructure));
}

#[test]
fn missing_required_field_lacks_structure() {
    assert_eq!(
        unpack(br#"{"host":"h","short_message":"m"}"#, 0),
        Err(UnpackError::MissingStructure)
    );
    assert_eq!(
        unpack(br#"{"version":"1.1","short_message":"m"}"#, 0),
        Err(UnpackError::MissingStructure)
    );
    assert_eq!(
        unpack(br#"{"version":"1.1","host":"h"}"#, 0),
        Err(UnpackError::MissingStructure)
    );
    assert_eq!(unpack(b"{}", 0), Err(UnpackError::MissingStructure));
}

#[test]
fn field_of_the_wrong_type_lacks_structure() {
    assert_eq!(
        unpack(br#"{"version":1.1,"host":"h","short_message":"m"}"#, 0),
        Err(UnpackError::MissingStructure)
    );
    assert_eq!(
        unpack(br#"{"version":"1.1","host":"h","short_message":"m","full_message":5}"#, 0),
        Err(UnpackError::MissingStructure)
    );
    assert_eq!(
        unpack(br#"{"version":"1.1","host":"h","short_message":"m","timestamp":"now"}"#, 0),
        Err(UnpackError::MissingStructure)
    );
    assert_eq!(
        unpack(br#"{"version":"1.1","host":"h","short_message":"m","level":"3"}"#, 0),
        Err(UnpackError::MissingStructure)
    );
}

#[test]
fn level_out_of_range_lacks_structure() {
    for level in ["8", "10", "-1", "3.5", "1e0"] {
        let payload = format!(
            r#"{{"version":"1.1","host":"h","short_message":"m","level":{}}}"#,
            level
        );
        assert_eq!(unpack(payload.as_bytes(), 0), Err(UnpackError::MissingStructure));
    }
}

#[test]
fn every_level_in_range_is_read() {
    for level in 0..=7u8 {
        let payload = format!(
            r#"{{"version":"1.1","host":"h","short_message":"m","level":{}}}"#,
            level
        );
        assert_eq!(unpack(payload.as_bytes(), 0).unwrap().level, level);
    }
}

#[test]
fn absent_level_and_timestamp_take_their_defaults() {
    let record = unpack(MINIMAL, 1_385_053_862_307).unwrap();
    assert_eq!(record.level, DEFAULT_LEVEL);
    assert_eq!(record.level, 6);
    assert_eq!(record.timestamp, "1385053862.307");
    assert_eq!(record.full_message, None);
    assert_eq!(record.extra, vec![]);
    assert_eq!(record.version, "1.1");
    assert_eq!(record.host, "example.org");
    assert_eq!(record.short_message, "hello");
}

#[test]
fn given_timestamp_is_kept_digit_by_digit() {
    let record = unpack(
        br#"{"version":"1.1","host":"h","short_message":"m","timestamp":1385053862}"#,
        7,
    )
    .unwrap();
    assert_eq!(record.timestamp, "1385053862");
    assert_eq!(unpack(FULL, 7).unwrap().timestamp, "1385053862.3072");
}

#[test]
fn extra_fields_are_kept_as_they_are() {
    let record = unpack(
        br#"{"version":"1.1","host":"h","short_message":"m","_n":null,"_a":[1,"x",{"k":true}],"plain":false}"#,
        0,
    )
    .unwrap();
    assert_eq!(
        record.extra,
        vec![
            (
                "_a".to_string(),
                JsonValue::Array(vec![
                    JsonValue::Number("1".to_string()),
                    JsonValue::Text("x".to_string()),
                    JsonValue::Object(vec![("k".to_string(), JsonValue::Bool(true))]),
                ])
            ),
            ("_n".to_string(), JsonValue::Null),
            ("plain".to_string(), JsonValue::Bool(false)),
        ]
    );
}

#[test]
fn seconds_are_written_without_trailing_zeros() {
    assert_eq!(format_seconds(0), "0");
    assert_eq!(format_seconds(7), "0.007");
    assert_eq!(format_seconds(70), "0.07");
    assert_eq!(format_seconds(700), "0.7");
    assert_eq!(format_seconds(1_000), "1");
    assert_eq!(format_seconds(1_050), "1.05");
    assert_eq!(format_seconds(1_500), "1.5");
    assert_eq!(format_seconds(1_385_053_862_307), "1385053862.307");
    assert_eq!(format_seconds(u64::MAX), "18446744073709551.615");
}

#[test]
fn numbers_are_written_in_decimal() {
    assert_eq!(format_decimal(0), "0");
    assert_eq!(format_decimal(9), "9");
    assert_eq!(format_decimal(10), "10");
    assert_eq!(format_decimal(1_385_053_862), "1385053862");
    assert_eq!(format_decimal(u64::MAX), "18446744073709551615");
}

#[test]
fn record_is_read_from_a_json_object() {
    let json = JsonValue::Object(vec![
        ("_extra".to_string(), JsonValue::Bool(true)),
        ("short_message".to_string(), JsonValue::Text("m".to_string())),
        ("level".to_string(), JsonValue::Number("3".to_string())),
        ("host".to_string(), JsonValue::Text("h".to_string())),
        ("version".to_string(), JsonValue::Text("1.1".to_string())),
        ("_more".to_string(), JsonValue::Null),
    ]);
    assert_eq!(
        record_from_json(json, 2_500),
        Some(LogRecord {
            version: "1.1".to_string(),
            host: "h".to_string(),
            short_message: "m".to_string(),
            full_message: None,
            timestamp: "2.5".to_string(),
            level: 3,
            extra: vec![
                ("_extra".to_string(), JsonValue::Bool(true)),
                ("_more".to_string(), JsonValue::Null),
            ],
        })
    );
    assert_eq!(record_from_json(JsonValue::Array(vec![]), 0), None);
    assert_eq!(record_from_json(JsonValue::Object(vec![]), 0), None);
}

#[test]
fn first_of_two_fields_with_one_name_counts() {
    let json = JsonValue::Object(vec![
        ("version".to_string(), JsonValue::Text("1.1".to_string())),
        ("host".to_string(), JsonValue::Text("first".to_string())),
        ("host".to_string(), JsonValue::Text("second".to_string())),
        ("short_message".to_string(), JsonValue::Text("m".to_string())),
    ]);
    assert_eq!(record_from_json(json, 0).unwrap().host, "first");
}

#[test]
fn record_is_written_as_a_json_object() {
    assert_eq!(
        record_to_json(full_record()),
        JsonValue::Object(vec![
            ("version".to_string(), JsonValue::Text("1.1".to_string())),
            ("host".to_string(), JsonValue::Text("example.org".to_string())),
            ("short_message".to_string(), JsonValue::Text("A short message".to_string())),
            (
                "full_message".to_string(),
                JsonValue::Text("Backtrace here\n\nmore stuff".to_string())
            ),
            ("timestamp".to_string(), JsonValue::Number("1385053862.3072".to_string())),
            ("level".to_string(), JsonValue::Number("1".to_string())),
            ("_some_info".to_string(), JsonValue::Text("foo".to_string())),
            ("_user_id".to_string(), JsonValue::Number("9001".to_string())),
        ])
    );
}

#[test]
fn record_survives_writing_and_reading() {
    assert_eq!(record_from_json(record_to_json(full_record()), 99), Some(full_record()));
    let minimal = unpack(MINIMAL, 1_000).unwrap();
    let again = record_from_json(record_to_json(unpack(MINIMAL, 1_000).unwrap()), 2_000);
    assert_eq!(again, Some(minimal));
}

#[test]
fn unpack_then_encode_then_unpack_keeps_every_field() {
    for payload in [FULL.to_vec(), gzip(FULL), zlib(FULL), MINIMAL.to_vec(), gzip(MINIMAL)] {
        for received in [0, 1_000, 1_500, 1_385_053_862_307, 1_385_053_862_370] {
            let first = unpack(&payload, received).unwrap();
            let encoded = encode(unpack(&payload, received).unwrap());
            for again in [encoded.clone(), gzip(&encoded), zlib(&encoded)] {
                let second = unpack(&again, 2_000).unwrap();
                assert_eq!(second.version, first.version);
                assert_eq!(second.host, first.host);
                assert_eq!(second.short_message, first.short_message);
                assert_eq!(second.full_message, first.full_message);
                assert_eq!(second.timestamp, first.timestamp);
                assert_eq!(second.level, first.level);
                assert_eq!(second, first);
            }
        }
    }
}
