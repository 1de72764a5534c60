//! Log records and their JSON form.
//!
//! A record is decoded from a JSON object. The fields `version`, `host` and
//! `short_message` are required and must be strings; `full_message` is an
//! optional string; `timestamp` is a number and defaults to the time of
//! receipt; `level` is a number from 0 to 7 and defaults to 6. Every other
//! field is kept as it is.

use vstd::prelude::*;
use vstd::string::StringExecFns;
use vstd::string::StrSliceExecFns;
use crate::json::{
    distinct_keys, fields_view, lemma_object_view, optional_view, JsonValue, JsonView,
};

verus! {

/// The severity of a record that names none: informational.
pub const DEFAULT_LEVEL: u8 = 6;

/// The highest severity number: debug.
pub const MAX_LEVEL: u8 = 7;

/// One decoded log event.
#[derive(Debug, PartialEq, Eq)]
pub struct LogRecord {
    pub version: String,
    pub host: String,
    pub short_message: String,
    pub full_message: Option<String>,
    /// Seconds since the epoch, as the decimal text of the number.
    pub timestamp: String,
    /// Severity, from 0 (emergency) to 7 (debug).
    pub level: u8,
    /// The fields that the record carries beyond the ones above.
    pub extra: Vec<(String, JsonValue)>,
}

/// The mathematical content of a [`LogRecord`].
pub ghost struct RecordView {
    pub version: Seq<char>,
    pub host: Seq<char>,
    pub short_message: Seq<char>,
    pub full_message: Option<Seq<char>>,
    pub timestamp: Seq<char>,
    pub level: u8,
    pub extra: Seq<(Seq<char>, JsonView)>,
}

impl View for LogRecord {
    type V = RecordView;

    open spec fn view(&self) -> RecordView {
        RecordView {
            version: self.version@,
            host: self.host@,
            short_message: self.short_message@,
            full_message: match self.full_message {
                Some(text) => Some(text@),
                None => None,
            },
            timestamp: self.timestamp@,
            level: self.level,
            extra: fields_view(self.extra@),
        }
    }
}

/// Whether a field name is one of those that a record holds by name.
pub open spec fn is_reserved(key: Seq<char>) -> bool {
    ||| key == "version"@
    ||| key == "host"@
    ||| key == "short_message"@
    ||| key == "full_message"@
    ||| key == "timestamp"@
    ||| key == "level"@
}

impl RecordView {
    /// A record's severity lies in range, and none of its extra fields bears
    /// the name of a field that the record holds by name.
    pub open spec fn wf(self) -> bool {
        &&& self.level <= MAX_LEVEL
        &&& forall|i: int| 0 <= i < self.extra.len() ==> !is_reserved(#[trigger] self.extra[i].0)
    }
}

/// The value of the first field named `key`, if there is one.
pub open spec fn member(fields: Seq<(Seq<char>, JsonView)>, key: Seq<char>) -> Option<JsonView>
    decreases fields.len(),
{
    if fields.len() == 0 {
        None
    } else if fields.first().0 == key {
        Some(fields.first().1)
    } else {
        member(fields.drop_first(), key)
    }
}

/// The fields that a record does not hold by name, in their order.
pub open spec fn extras_of(fields: Seq<(Seq<char>, JsonView)>) -> Seq<(Seq<char>, JsonView)>
    decreases fields.len(),
{
    if fields.len() == 0 {
        Seq::empty()
    } else if is_reserved(fields.first().0) {
        extras_of(fields.drop_first())
    } else {
        seq![fields.first()] + extras_of(fields.drop_first())
    }
}

/// The character of a decimal digit.
pub open spec fn digit_char(d: int) -> char
    recommends
        0 <= d < 10,
{
    (0x30 + d) as u8 as char
}

/// The decimal digits of a number, without leading zeros.
pub open spec fn decimal(n: nat) -> Seq<char>
    decreases n,
{
    if n < 10 {
        seq![digit_char(n as int)]
    } else {
        decimal(n / 10).push(digit_char((n % 10) as int))
    }
}

/// The decimal places of a number of milliseconds below a thousand, written as
/// a fraction of a second: nothing for zero, otherwise a point and up to three
/// digits, the last of them not zero.
pub open spec fn decimal_fraction(ms: nat) -> Seq<char>
    recommends
        ms < 1000,
{
    if ms == 0 {
        Seq::empty()
    } else if ms % 100 == 0 {
        seq!['.', digit_char((ms / 100) as int)]
    } else if ms % 10 == 0 {
        seq!['.', digit_char((ms / 100) as int), digit_char((ms / 10 % 10) as int)]
    } else {
        seq![
            '.',
            digit_char((ms / 100) as int),
            digit_char((ms / 10 % 10) as int),
            digit_char((ms % 10) as int),
        ]
    }
}

/// A time in milliseconds since the epoch, written in seconds: the whole
/// seconds, then the milliseconds as decimal places without trailing zeros.
pub open spec fn decimal_seconds(ms: u64) -> Seq<char> {
    decimal((ms / 1000) as nat) + decimal_fraction((ms % 1000) as nat)
}

/// The severity that a number's text spells: a single digit from 0 to 7.
pub open spec fn level_of_text(text: Seq<char>) -> Option<u8> {
    if text.len() == 1 && 0x30 <= text[0] as u32 <= 0x37 {
        Some((text[0] as u32 - 0x30) as u8)
    } else {
        None
    }
}

/// A required string field.
pub open spec fn required_text(fields: Seq<(Seq<char>, JsonView)>, key: Seq<char>) -> Option<
    Seq<char>,
> {
    match member(fields, key) {
        Some(JsonView::Text(text)) => Some(text),
        _ => None,
    }
}

/// An optional string field: absent, present, or (the outer `None`) present
/// but no string.
pub open spec fn optional_text(fields: Seq<(Seq<char>, JsonView)>, key: Seq<char>) -> Option<
    Option<Seq<char>>,
> {
    match member(fields, key) {
        None => Some(None),
        Some(JsonView::Text(text)) => Some(Some(text)),
        _ => None,
    }
}

/// The record's time: the `timestamp` field where it is a number, the time
/// of receipt where the field is absent.
pub open spec fn timestamp_of(fields: Seq<(Seq<char>, JsonView)>, received_ms: u64) -> Option<
    Seq<char>,
> {
    match member(fields, "timestamp"@) {
        None => Some(decimal_seconds(received_ms)),
        Some(JsonView::Number(text)) => Some(text),
        _ => None,
    }
}

/// The record's severity: the `level` field where it is a number from 0 to
/// 7, informational where the field is absent.
pub open spec fn level_of(fields: Seq<(Seq<char>, JsonView)>) -> Option<u8> {
    match member(fields, "level"@) {
        None => Some(DEFAULT_LEVEL),
        Some(JsonView::Number(text)) => level_of_text(text),
        _ => None,
    }
}

/// The record that the fields of a JSON object spell, if they spell one.
pub open spec fn record_of_fields(fields: Seq<(Seq<char>, JsonView)>, received_ms: u64) -> Option<
    RecordView,
> {
    if required_text(fields, "version"@) is Some && required_text(fields, "host"@) is Some
        && required_text(fields, "short_message"@) is Some && optional_text(
        fields,
        "full_message"@,
    ) is Some && timestamp_of(fields, received_ms) is Some && level_of(fields) is Some {
        Some(
            RecordView {
                version: required_text(fields, "version"@)->0,
                host: required_text(fields, "host"@)->0,
                short_message: required_text(fields, "short_message"@)->0,
                full_message: optional_text(fields, "full_message"@)->0,
                timestamp: timestamp_of(fields, received_ms)->0,
                level: level_of(fields)->0,
                extra: extras_of(fields),
            },
        )
    } else {
        None
    }
}

/// The record that a JSON value spells, if it spells one: the value must be
/// an object.
pub open spec fn record_of_json(json: JsonView, received_ms: u64) -> Option<RecordView> {
    match json {
        JsonView::Object(fields) => record_of_fields(fields, received_ms),
        _ => None,
    }
}

/// The JSON object that spells a record: the named fields first, then the
/// extra ones.
pub open spec fn json_of_record(record: RecordView) -> JsonView {
    JsonView::Object(
        seq![
            ("version"@, JsonView::Text(record.version)),
            ("host"@, JsonView::Text(record.host)),
            ("short_message"@, JsonView::Text(record.short_message)),
        ] + (match record.full_message {
            Some(text) => seq![("full_message"@, JsonView::Text(text))],
            None => Seq::empty(),
        }) + seq![
            ("timestamp"@, JsonView::Number(record.timestamp)),
            ("level"@, JsonView::Number(decimal(record.level as nat))),
        ] + record.extra,
    )
}

/// The names of the fields that a record holds by name differ in length.
pub proof fn lemma_key_names()
    ensures
        "version"@.len() == 7,
        "host"@.len() == 4,
        "short_message"@.len() == 13,
        "full_message"@.len() == 12,
        "timestamp"@.len() == 9,
        "level"@.len() == 5,
{
    reveal_strlit("version");
    reveal_strlit("host");
    reveal_strlit("short_message");
    reveal_strlit("full_message");
    reveal_strlit("timestamp");
    reveal_strlit("level");
}

/// A key found at `i`, and nowhere before, is the member under that key.
pub proof fn lemma_member_at(fields: Seq<(Seq<char>, JsonView)>, key: Seq<char>, i: int)
    requires
        0 <= i < fields.len(),
        fields[i].0 == key,
        forall|j: int| 0 <= j < i ==> fields[j].0 != key,
    ensures
        member(fields, key) == Some(fields[i].1),
    decreases i,
{
    if i > 0 {
        let rest = fields.drop_first();
        assert(rest[i - 1] == fields[i]);
        assert forall|j: int| 0 <= j < i - 1 implies rest[j].0 != key by {
            assert(rest[j] == fields[j + 1]);
        }
        lemma_member_at(rest, key, i - 1);
    }
}

/// A key that no field bears has no member.
pub proof fn lemma_member_absent(fields: Seq<(Seq<char>, JsonView)>, key: Seq<char>)
    requires
        forall|j: int| 0 <= j < fields.len() ==> fields[j].0 != key,
    ensures
        member(fields, key) is None,
    decreases fields.len(),
{
    if fields.len() > 0 {
        let rest = fields.drop_first();
        assert forall|j: int| 0 <= j < rest.len() implies rest[j].0 != key by {
            assert(rest[j] == fields[j + 1]);
        }
        lemma_member_absent(rest, key);
    }
}

/// The extra fields of two runs of fields are those of the first, then those
/// of the second.
pub proof fn lemma_extras_concat(
    front: Seq<(Seq<char>, JsonView)>,
    back: Seq<(Seq<char>, JsonView)>,
)
    ensures
        extras_of(front + back) == extras_of(front) + extras_of(back),
    decreases front.len(),
{
    if front.len() == 0 {
        assert(front + back == back);
        assert(extras_of(front) + extras_of(back) == extras_of(back));
    } else {
        let rest = front.drop_first();
        lemma_extras_concat(rest, back);
        assert((front + back).drop_first() == rest + back);
        assert((front + back).first() == front.first());
        assert(extras_of(front + back) =~= extras_of(front) + extras_of(back));
    }
}

/// None of the extra fields bears a reserved name, and fields without a
/// reserved name are all extra.
pub proof fn lemma_extras_of(fields: Seq<(Seq<char>, JsonView)>)
    ensures
        forall|i: int|
            0 <= i < extras_of(fields).len() ==> !is_reserved(#[trigger] extras_of(fields)[i].0),
        (forall|i: int| 0 <= i < fields.len() ==> !is_reserved(#[trigger] fields[i].0))
            ==> extras_of(fields) == fields,
        (forall|i: int| 0 <= i < fields.len() ==> is_reserved(#[trigger] fields[i].0))
            ==> extras_of(fields) == Seq::<(Seq<char>, JsonView)>::empty(),
    decreases fields.len(),
{
    if fields.len() > 0 {
        let rest = fields.drop_first();
        lemma_extras_of(rest);
        assert forall|i: int| 0 <= i < rest.len() implies rest[i] == fields[i + 1] by {}
        assert(fields[0] == fields.first());
        if forall|i: int| 0 <= i < fields.len() ==> !is_reserved(#[trigger] fields[i].0) {
            assert forall|i: int| 0 <= i < rest.len() implies !is_reserved(
                #[trigger] rest[i].0,
            ) by {
                assert(rest[i] == fields[i + 1]);
            }
            assert(extras_of(fields) =~= fields);
        }
        if forall|i: int| 0 <= i < fields.len() ==> is_reserved(#[trigger] fields[i].0) {
            assert forall|i: int| 0 <= i < rest.len() implies is_reserved(
                #[trigger] rest[i].0,
            ) by {
                assert(rest[i] == fields[i + 1]);
            }
        }
        let found = extras_of(fields);
        assert forall|i: int| 0 <= i < found.len() implies !is_reserved(#[trigger] found[i].0) by {
            if is_reserved(fields.first().0) {
                assert(found[i] == extras_of(rest)[i]);
            } else if i > 0 {
                assert(found[i] == extras_of(rest)[i - 1]);
            } else {
                assert(found[0] == fields.first());
            }
        }
    }
}

/// Every extra field is one of the fields.
pub proof fn lemma_extras_are_fields(fields: Seq<(Seq<char>, JsonView)>)
    ensures
        forall|i: int|
            0 <= i < extras_of(fields).len() ==> fields.contains(#[trigger] extras_of(fields)[i]),
    decreases fields.len(),
{
    if fields.len() > 0 {
        let rest = fields.drop_first();
        lemma_extras_are_fields(rest);
        let found = extras_of(fields);
        assert forall|i: int| 0 <= i < found.len() implies fields.contains(#[trigger] found[i]) by {
            let inner: int = if is_reserved(fields.first().0) { i } else { i - 1 };
            if inner < 0 {
                assert(found[i] == fields[0]);
            } else {
                let field = extras_of(rest)[inner];
                assert(found[i] == field);
                assert(rest.contains(field));
                let k = choose|k: int| 0 <= k < rest.len() && rest[k] == field;
                assert(fields[k + 1] == field);
            }
        }
    }
}

/// Where the fields of an object bear distinct names, so do the extra fields
/// of its record: they are a mapping from names to values.
pub proof fn lemma_extras_distinct(fields: Seq<(Seq<char>, JsonView)>)
    requires
        distinct_keys(fields),
    ensures
        distinct_keys(extras_of(fields)),
    decreases fields.len(),
{
    if fields.len() > 0 {
        let rest = fields.drop_first();
        assert(distinct_keys(rest)) by {
            assert forall|i: int, j: int| 0 <= i < j < rest.len() implies rest[i].0
                != rest[j].0 by {
                assert(rest[i] == fields[i + 1]);
                assert(rest[j] == fields[j + 1]);
            }
        }
        lemma_extras_distinct(rest);
        lemma_extras_are_fields(rest);
        let found = extras_of(fields);
        if !is_reserved(fields.first().0) {
            assert forall|i: int, j: int| 0 <= i < j < found.len() implies found[i].0
                != found[j].0 by {
                let later = extras_of(rest)[j - 1];
                assert(found[j] == later);
                if i == 0 {
                    assert(rest.contains(later));
                    let k = choose|k: int| 0 <= k < rest.len() && rest[k] == later;
                    assert(fields[k + 1] == later);
                    assert(found[0] == fields[0]);
                } else {
                    assert(found[i] == extras_of(rest)[i - 1]);
                }
            }
        }
    }
}

/// Every record that is decoded from JSON is well formed.
pub proof fn lemma_decoded_record_wf(json: JsonView, received_ms: u64)
    ensures
        record_of_json(json, received_ms) matches Some(record) ==> record.wf(),
{
    if let JsonView::Object(fields) = json {
        lemma_extras_of(fields);
    }
}

/// Encoding a well-formed record and decoding it again yields the record,
/// with every field as it was, whatever the time of receipt.
pub proof fn lemma_record_round_trip(record: RecordView, received_ms: u64)
    requires
        record.wf(),
    ensures
        record_of_json(json_of_record(record), received_ms) == Some(record),
{
    lemma_key_names();
    let head = seq![
        ("version"@, JsonView::Text(record.version)),
        ("host"@, JsonView::Text(record.host)),
        ("short_message"@, JsonView::Text(record.short_message)),
    ];
    let full: Seq<(Seq<char>, JsonView)> = match record.full_message {
        Some(text) => seq![("full_message"@, JsonView::Text(text))],
        None => Seq::empty(),
    };
    let tail = seq![
        ("timestamp"@, JsonView::Number(record.timestamp)),
        ("level"@, JsonView::Number(decimal(record.level as nat))),
    ];
    let named = head + full + tail;
    let fields = named + record.extra;
    assert(json_of_record(record) == JsonView::Object(fields));
    let shift: int = if record.full_message is Some { 1 } else { 0 };
    assert(named.len() == 5 + shift);
    assert(fields[0] == head[0]);
    assert(fields[1] == head[1]);
    assert(fields[2] == head[2]);
    assert(record.full_message is Some ==> fields[3] == full[0]);
    assert(fields[3 + shift] == tail[0]);
    assert(fields[4 + shift] == tail[1]);
    assert forall|j: int| 5 + shift <= j < fields.len() implies !is_reserved(
        #[trigger] fields[j].0,
    ) by {
        assert(fields[j] == record.extra[j - 5 - shift]);
    }
    lemma_member_at(fields, "version"@, 0);
    lemma_member_at(fields, "host"@, 1);
    lemma_member_at(fields, "short_message"@, 2);
    if record.full_message is Some {
        lemma_member_at(fields, "full_message"@, 3);
    } else {
        lemma_member_absent(fields, "full_message"@);
    }
    lemma_member_at(fields, "timestamp"@, 3 + shift);
    lemma_member_at(fields, "level"@, 4 + shift);
    assert(level_of_text(decimal(record.level as nat)) == Some(record.level));
    lemma_extras_concat(named, record.extra);
    lemma_extras_of(named);
    lemma_extras_of(record.extra);
    assert(extras_of(fields) =~= record.extra);
}

/// Decoding, encoding again and decoding once more changes nothing: the
/// record that comes out of the second decoding is the one that came out of
/// the first, whenever the two happen.
pub proof fn lemma_reencoding_preserves(json: JsonView, received_ms: u64, later_ms: u64)
    ensures
        record_of_json(json, received_ms) matches Some(record) ==> record_of_json(
            json_of_record(record),
            later_ms,
        ) == Some(record),
{
    lemma_decoded_record_wf(json, received_ms);
    if let Some(record) = record_of_json(json, received_ms) {
        lemma_record_round_trip(record, later_ms);
    }
}

/// The text of one decimal digit.
fn digit_text(d: u8) -> (text: &'static str)
    requires
        d < 10,
    ensures
        text@ == seq![digit_char(d as int)],
{
    proof {
        reveal_strlit("0");
        reveal_strlit("1");
        reveal_strlit("2");
        reveal_strlit("3");
        reveal_strlit("4");
        reveal_strlit("5");
        reveal_strlit("6");
        reveal_strlit("7");
        reveal_strlit("8");
        reveal_strlit("9");
    }
    let text = match d {
        0 => "0",
        1 => "1",
        2 => "2",
        3 => "3",
        4 => "4",
        5 => "5",
        6 => "6",
        7 => "7",
        8 => "8",
        _ => "9",
    };
    assert(text@ =~= seq![digit_char(d as int)]);
    text
}

/// Appends the decimal digits of `n`.
fn push_decimal(out: &mut String, n: u64)
    ensures
        final(out)@ == old(out)@ + decimal(n as nat),
    decreases n,
{
    if n >= 10 {
        push_decimal(out, n / 10);
    }
    let digit: u8 = (n % 10) as u8;
    out.append(digit_text(digit));
    assert(out@ =~= old(out)@ + decimal(n as nat));
}

/// Writes a number in decimal.
pub fn format_decimal(n: u64) -> (text: String)
    ensures
        text@ == decimal(n as nat),
{
    let mut text = String::new();
    push_decimal(&mut text, n);
    assert(text@ =~= decimal(n as nat));
    text
}

/// Writes a time in milliseconds since the epoch in seconds: the whole
/// seconds, then the milliseconds as decimal places without trailing zeros.
pub fn format_seconds(ms: u64) -> (text: String)
    ensures
        text@ == decimal_seconds(ms),
{
    let mut text = String::new();
    push_decimal(&mut text, ms / 1000);
    let fraction: u64 = ms % 1000;
    if fraction != 0 {
        proof {
            reveal_strlit(".");
        }
        text.append(".");
        text.append(digit_text((fraction / 100) as u8));
        if fraction % 100 != 0 {
            text.append(digit_text((fraction / 10 % 10) as u8));
            if fraction % 10 != 0 {
                text.append(digit_text((fraction % 10) as u8));
            }
        }
    }
    assert(text@ =~= decimal_seconds(ms));
    text
}

/// Reads the severity that a number's text spells.
fn parse_level(text: &String) -> (level: Option<u8>)
    ensures
        level == level_of_text(text@),
{
    let s = text.as_str();
    if s.unicode_len() != 1 {
        return None;
    }
    let code: u32 = s.get_char(0) as u32;
    if 0x30 <= code && code <= 0x37 {
        Some((code - 0x30) as u8)
    } else {
        None
    }
}

/// Whether a key is the given name.
fn key_is(key: &String, name: &str) -> (same: bool)
    ensures
        same == (key@ == name@),
{
    let owned = String::from_str(name);
    *key == owned
}

/// Takes the string out of a value, if the value is one.
fn into_text(value: JsonValue) -> (text: Option<String>)
    ensures
        match text {
            Some(t) => value@ == JsonView::Text(t@),
            None => !(value@ is Text),
        },
{
    match value {
        JsonValue::Text(t) => Some(t),
        _ => None,
    }
}

/// Takes the decimal text out of a value, if the value is a number.
fn into_number(value: JsonValue) -> (text: Option<String>)
    ensures
        match text {
            Some(t) => value@ == JsonView::Number(t@),
            None => !(value@ is Number),
        },
{
    match value {
        JsonValue::Number(t) => Some(t),
        _ => None,
    }
}

/// Putting a field in front of a list puts its view in front of the list's.
proof fn lemma_fields_view_insert(fields: Seq<(String, JsonValue)>, field: (String, JsonValue))
    ensures
        fields_view(fields.insert(0, field)) == seq![(field.0@, field.1@)] + fields_view(fields),
{
    let more = fields.insert(0, field);
    assert forall|i: int| 0 <= i < more.len() implies fields_view(more)[i] == (seq![
        (field.0@, field.1@),
    ] + fields_view(fields))[i] by {
        if i > 0 {
            assert(more[i] == fields[i - 1]);
        }
    }
    assert(fields_view(more) =~= seq![(field.0@, field.1@)] + fields_view(fields));
}

/// Decodes a record from a JSON value received at `received_ms`,
/// milliseconds since the epoch.
///
/// The value must be an object with the strings `version`, `host` and
/// `short_message`. Where it has a `full_message`, that is a string; where it
/// has a `timestamp`, that is a number; where it has a `level`, that is a
/// number from 0 to 7. All its other fields become the record's extra
/// fields, as they are and in their order.
pub fn record_from_json(json: JsonValue, received_ms: u64) -> (record: Option<LogRecord>)
    ensures
        match record {
            Some(r) => record_of_json(json@, received_ms) == Some(r@) && r@.wf() && (
            json@.names_fields_once() ==> distinct_keys(r@.extra)),
            None => record_of_json(json@, received_ms) is None,
        },
{
    let mut fields = match json {
        JsonValue::Object(fields) => fields,
        _ => {
            return None;
        },
    };
    proof {
        lemma_object_view(fields);
        lemma_key_names();
    }
    let ghost all = fields_view(fields@);
    let mut version: Option<JsonValue> = None;
    let mut host: Option<JsonValue> = None;
    let mut short_message: Option<JsonValue> = None;
    let mut full_message: Option<JsonValue> = None;
    let mut timestamp: Option<JsonValue> = None;
    let mut level: Option<JsonValue> = None;
    let mut extra: Vec<(String, JsonValue)> = Vec::new();
    assert(all.skip(all.len() as int) == Seq::<(Seq<char>, JsonView)>::empty());
    assert(fields_view(extra@) == Seq::<(Seq<char>, JsonView)>::empty());
    while fields.len() > 0
        invariant
            fields@.len() <= all.len(),
            fields_view(fields@) == all.take(fields@.len() as int),
            optional_view(version) == member(all.skip(fields@.len() as int), "version"@),
            optional_view(host) == member(all.skip(fields@.len() as int), "host"@),
            optional_view(short_message) == member(
                all.skip(fields@.len() as int),
                "short_message"@,
            ),
            optional_view(full_message) == member(
                all.skip(fields@.len() as int),
                "full_message"@,
            ),
            optional_view(timestamp) == member(all.skip(fields@.len() as int), "timestamp"@),
            optional_view(level) == member(all.skip(fields@.len() as int), "level"@),
            fields_view(extra@) == extras_of(all.skip(fields@.len() as int)),
            "version"@.len() == 7,
            "host"@.len() == 4,
            "short_message"@.len() == 13,
            "full_message"@.len() == 12,
            "timestamp"@.len() == 9,
            "level"@.len() == 5,
        decreases fields@.len(),
    {
        let ghost k = fields@.len() as int;
        let ghost before = fields@;
        let ghost extra_before = extra@;
        let field = fields.pop().unwrap();
        proof {
            let here = all.skip(k - 1);
            assert(fields_view(before)[k - 1] == all[k - 1]);
            assert(here.first() == (field.0@, field.1@));
            assert(here.drop_first() == all.skip(k));
            assert(fields_view(fields@) =~= all.take(k - 1)) by {
                assert forall|i: int| 0 <= i < k - 1 implies fields_view(fields@)[i] == all.take(
                    k - 1,
                )[i] by {
                    assert(fields_view(before)[i] == all[i]);
                }
            }
            lemma_fields_view_insert(extra_before, field);
        }
        let (key, value) = field;
        if key_is(&key, "version") {
            version = Some(value);
        } else if key_is(&key, "host") {
            host = Some(value);
        } else if key_is(&key, "short_message") {
            short_message = Some(value);
        } else if key_is(&key, "full_message") {
            full_message = Some(value);
        } else if key_is(&key, "timestamp") {
            timestamp = Some(value);
        } else if key_is(&key, "level") {
            level = Some(value);
        } else {
            extra.insert(0, (key, value));
        }
    }
    assert(all.skip(0) == all);
    proof {
        lemma_extras_of(all);
        if distinct_keys(all) {
            lemma_extras_distinct(all);
        }
    }
    let version = match version {
        Some(value) => match into_text(value) {
            Some(text) => text,
            None => {
                return None;
            },
        },
        None => {
            return None;
        },
    };
    let host = match host {
        Some(value) => match into_text(value) {
            Some(text) => text,
            None => {
                return None;
            },
        },
        None => {
            return None;
        },
    };
    let short_message = match short_message {
        Some(value) => match into_text(value) {
            Some(text) => text,
            None => {
                return None;
            },
        },
        None => {
            return None;
        },
    };
    let full_message = match full_message {
        Some(value) => match into_text(value) {
            Some(text) => Some(text),
            None => {
                return None;
            },
        },
        None => None,
    };
    let timestamp = match timestamp {
        Some(value) => match into_number(value) {
            Some(text) => text,
            None => {
                return None;
            },
        },
        None => format_seconds(received_ms),
    };
    let level = match level {
        Some(value) => match into_number(value) {
            Some(text) => match parse_level(&text) {
                Some(level) => level,
                None => {
                    return None;
                },
            },
            None => {
                return None;
            },
        },
        None => DEFAULT_LEVEL,
    };
    Some(LogRecord { version, host, short_message, full_message, timestamp, level, extra })
}

/// The JSON object that spells a record: the named fields first, then the
/// extra ones.
pub fn record_to_json(record: LogRecord) -> (json: JsonValue)
    ensures
        json@ == json_of_record(record@),
{
    let LogRecord { version, host, short_message, full_message, timestamp, level, extra } = record;
    let mut extra = extra;
    let ghost extra_view = fields_view(extra@);
    let mut fields: Vec<(String, JsonValue)> = Vec::new();
    fields.push((String::from_str("version"), JsonValue::Text(version)));
    fields.push((String::from_str("host"), JsonValue::Text(host)));
    fields.push((String::from_str("short_message"), JsonValue::Text(short_message)));
    match full_message {
        Some(text) => {
            fields.push((String::from_str("full_message"), JsonValue::Text(text)));
        },
        None => {},
    }
    fields.push((String::from_str("timestamp"), JsonValue::Number(timestamp)));
    fields.push((String::from_str("level"), JsonValue::Number(format_decimal(level as u64))));
    let ghost named = fields@;
    fields.append(&mut extra);
    proof {
        lemma_object_view(fields);
        assert(fields_view(fields@) =~= json_of_record(record@)->Object_0) by {
            assert forall|i: int| 0 <= i < fields@.len() implies fields_view(fields@)[i]
                == json_of_record(record@)->Object_0[i] by {
                if i >= named.len() {
                    assert(fields@[i] == record.extra@[i - named.len()]);
                } else {
                    assert(fields@[i] == named[i]);
                }
            }
        }
    }
    JsonValue::Object(fields)
}

} // verus!
