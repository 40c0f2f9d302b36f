//! Conversion of OpenTelemetry log exports into new log entries.

use vstd::prelude::*;

use crate::dto::otel::{AnyValue, KeyValue, LogRecord, OtelLogsRequest, ResourceLog};
use crate::model::{JsonNumber, JsonValue, LogLevel, NewLogEntry, Timestamp};
use crate::text::{parse_decimal_i64, parse_i64};
use crate::time::{lemma_timestamp_of_nanos_roundtrip, now, timestamp_from_nanos, timestamp_of_nanos};

verus! {

// ---------------------------------------------------------------------------
// Service name

/// Index `i` holds the first attribute named `key`.
pub open spec fn is_first_with_key(attrs: Seq<KeyValue>, key: Seq<char>, i: int) -> bool {
    &&& 0 <= i < attrs.len()
    &&& attrs[i].key@ == key
    &&& forall|j: int| 0 <= j < i ==> (#[trigger] attrs[j]).key@ != key
}

/// The service that the first `service.name` attribute names, if that
/// attribute exists and holds a string.
pub open spec fn service_name_of(attrs: Seq<KeyValue>) -> Option<String> {
    if exists|i: int| is_first_with_key(attrs, "service.name"@, i) {
        let i = choose|i: int| is_first_with_key(attrs, "service.name"@, i);
        match attrs[i].value {
            AnyValue::StringValue { string_value } => Some(string_value),
            _ => None,
        }
    } else {
        None
    }
}

/// The name of the service that a resource stands for, from its first
/// `service.name` attribute when that holds a string.
pub fn extract_service(resource_log: &ResourceLog) -> (service: Option<String>)
    ensures
        service == service_name_of(resource_log.resource.attributes@),
{
    let attrs = &resource_log.resource.attributes;
    let target = "service.name".to_owned();
    let mut i: usize = 0;
    while i < attrs.len()
        invariant
            0 <= i <= attrs.len(),
            attrs@ == resource_log.resource.attributes@,
            target@ == "service.name"@,
            forall|j: int| 0 <= j < i ==> (#[trigger] attrs@[j]).key@ != "service.name"@,
        decreases attrs.len() - i,
    {
        if attrs[i].key == target {
            proof {
                let key = "service.name"@;
                assert(is_first_with_key(attrs@, key, i as int));
                let c = choose|c: int| is_first_with_key(attrs@, key, c);
                assert(c == i) by {
                    if c < i {
                        assert(attrs@[c].key@ != key);
                    } else if c > i {
                        assert(attrs@[i as int].key@ != key);
                    }
                }
            }
            let found = match &attrs[i].value {
                AnyValue::StringValue { string_value } => Some(string_value.clone()),
                _ => None,
            };
            return found;
        }
        i += 1;
    }
    None
}

// ---------------------------------------------------------------------------
// Severity

/// The level that an OpenTelemetry severity number stands for:
/// 1-4 debug, 5-8 info, 9-12 warn, anything else error.
pub open spec fn level_for_severity(severity: int) -> LogLevel {
    if 1 <= severity <= 4 {
        LogLevel::Debug
    } else if 5 <= severity <= 8 {
        LogLevel::Info
    } else if 9 <= severity <= 12 {
        LogLevel::Warn
    } else {
        LogLevel::Error
    }
}

/// Maps an OpenTelemetry severity number to a log level.
pub fn otel_int_to_level(value: &i64) -> (level: LogLevel)
    ensures
        level == level_for_severity(*value as int),
{
    if 1 <= *value && *value <= 4 {
        LogLevel::Debug
    } else if 5 <= *value && *value <= 8 {
        LogLevel::Info
    } else if 9 <= *value && *value <= 12 {
        LogLevel::Warn
    } else {
        LogLevel::Error
    }
}

// ---------------------------------------------------------------------------
// Attributes

/// Whether the IEEE-754 double with these bits is finite (its exponent is
/// not all ones).
pub open spec fn is_finite_double(bits: u64) -> bool {
    (bits >> 52u64) & 0x7ffu64 != 0x7ffu64
}

/// The JSON form of an attribute value; a double that is not finite (NaN or
/// an infinity) has no JSON number and becomes `null`.
pub open spec fn json_of_any(value: AnyValue) -> JsonValue {
    match value {
        AnyValue::StringValue { string_value } => JsonValue::String(string_value),
        AnyValue::IntValue { int_value } => JsonValue::Number(JsonNumber::Int(int_value)),
        AnyValue::BoolValue { bool_value } => JsonValue::Bool(bool_value),
        AnyValue::DoubleValue { double_bits } => if is_finite_double(double_bits) {
            JsonValue::Number(JsonNumber::Float(double_bits))
        } else {
            JsonValue::Null
        },
    }
}

fn any_to_json(value: AnyValue) -> (json: JsonValue)
    ensures
        json == json_of_any(value),
{
    match value {
        AnyValue::StringValue { string_value } => JsonValue::String(string_value),
        AnyValue::IntValue { int_value } => JsonValue::Number(JsonNumber::Int(int_value)),
        AnyValue::BoolValue { bool_value } => JsonValue::Bool(bool_value),
        AnyValue::DoubleValue { double_bits } => {
            if (double_bits >> 52u64) & 0x7ffu64 != 0x7ffu64 {
                JsonValue::Number(JsonNumber::Float(double_bits))
            } else {
                JsonValue::Null
            }
        },
    }
}

/// Whether some member of `members` is named `key`.
pub open spec fn has_member(members: Seq<(String, JsonValue)>, key: Seq<char>) -> bool {
    exists|i: int| 0 <= i < members.len() && (#[trigger] members[i]).0@ == key
}

/// The index of a member named `key`.
pub open spec fn member_index(members: Seq<(String, JsonValue)>, key: Seq<char>) -> int {
    choose|i: int| 0 <= i < members.len() && (#[trigger] members[i]).0@ == key
}

/// No two members share a name.
pub open spec fn keys_unique(members: Seq<(String, JsonValue)>) -> bool {
    forall|a: int, b: int|
        #![trigger members[a], members[b]]
        0 <= a < members.len() && 0 <= b < members.len() && a != b ==> members[a].0@
            != members[b].0@
}

/// Inserting into an object: a member of that name gets the new value and
/// keeps its place and name; otherwise the member is appended.
pub open spec fn object_insert(
    members: Seq<(String, JsonValue)>,
    key: String,
    value: JsonValue,
) -> Seq<(String, JsonValue)> {
    if has_member(members, key@) {
        let i = member_index(members, key@);
        members.update(i, (members[i].0, value))
    } else {
        members.push((key, value))
    }
}

/// The members of the object built by inserting the attributes in order.
pub open spec fn attributes_object(attrs: Seq<KeyValue>) -> Seq<(String, JsonValue)>
    decreases attrs.len(),
{
    if attrs.len() == 0 {
        Seq::empty()
    } else {
        object_insert(
            attributes_object(attrs.drop_last()),
            attrs.last().key,
            json_of_any(attrs.last().value),
        )
    }
}

/// The members of a JSON object; `None` for any other JSON value.
pub open spec fn object_members(json: JsonValue) -> Option<Seq<(String, JsonValue)>> {
    match json {
        JsonValue::Object(members) => Some(members@),
        _ => None,
    }
}

/// The value of the last attribute named `key`.
pub open spec fn last_value_with_key(attrs: Seq<KeyValue>, key: Seq<char>) -> Option<AnyValue>
    decreases attrs.len(),
{
    if attrs.len() == 0 {
        None
    } else if attrs.last().key@ == key {
        Some(attrs.last().value)
    } else {
        last_value_with_key(attrs.drop_last(), key)
    }
}

/// The object built from attributes never holds two members of one name.
pub proof fn lemma_attributes_object_keys_unique(attrs: Seq<KeyValue>)
    ensures
        keys_unique(attributes_object(attrs)),
    decreases attrs.len(),
{
    if attrs.len() > 0 {
        let prev = attributes_object(attrs.drop_last());
        lemma_attributes_object_keys_unique(attrs.drop_last());
        let key = attrs.last().key;
        let obj = attributes_object(attrs);
        if has_member(prev, key@) {
            let i = member_index(prev, key@);
            assert forall|a: int, b: int|
                #![trigger obj[a], obj[b]]
                0 <= a < obj.len() && 0 <= b < obj.len() && a != b implies obj[a].0@
                    != obj[b].0@ by {
                assert(obj[a].0 == prev[a].0);
                assert(obj[b].0 == prev[b].0);
            }
        } else {
            assert forall|a: int, b: int|
                #![trigger obj[a], obj[b]]
                0 <= a < obj.len() && 0 <= b < obj.len() && a != b implies obj[a].0@
                    != obj[b].0@ by {
                if a == prev.len() {
                    assert(prev[b].0@ != key@);
                } else if b == prev.len() {
                    assert(prev[a].0@ != key@);
                } else {
                    assert(obj[a] == prev[a]);
                    assert(obj[b] == prev[b]);
                }
            }
        }
    }
}

/// Of attributes that share a name, the last one wins: the object has a
/// member named `key` exactly when some attribute is named `key`, and that
/// member holds the JSON form of the last such attribute's value.
pub proof fn lemma_last_attribute_wins(attrs: Seq<KeyValue>, key: Seq<char>)
    ensures
        has_member(attributes_object(attrs), key) == (last_value_with_key(attrs, key) is Some),
        forall|i: int|
            0 <= i < attributes_object(attrs).len() && (#[trigger] attributes_object(attrs)[i]).0@
                == key ==> attributes_object(attrs)[i].1 == json_of_any(
                last_value_with_key(attrs, key).unwrap(),
            ),
    decreases attrs.len(),
{
    if attrs.len() > 0 {
        let rest = attrs.drop_last();
        let prev = attributes_object(rest);
        lemma_last_attribute_wins(rest, key);
        lemma_attributes_object_keys_unique(rest);
        let last = attrs.last();
        let value = json_of_any(last.value);
        let obj = attributes_object(attrs);
        assert(obj == object_insert(prev, last.key, value));
        if has_member(prev, last.key@) {
            let j = member_index(prev, last.key@);
            assert(obj == prev.update(j, (prev[j].0, value)));
            if last.key@ == key {
                assert(obj[j].0@ == key);
                assert forall|i: int|
                    0 <= i < obj.len() && (#[trigger] obj[i]).0@ == key implies obj[i].1
                    == value by {
                    if i != j {
                        assert(obj[i] == prev[i]);
                    }
                }
            } else {
                if has_member(obj, key) {
                    let w = choose|w: int| 0 <= w < obj.len() && (#[trigger] obj[w]).0@ == key;
                    assert(w != j);
                    assert(prev[w].0@ == key);
                }
                if has_member(prev, key) {
                    let w = choose|w: int| 0 <= w < prev.len() && (#[trigger] prev[w]).0@ == key;
                    assert(w != j);
                    assert(obj[w].0@ == key);
                }
                assert forall|i: int|
                    0 <= i < obj.len() && (#[trigger] obj[i]).0@ == key implies obj[i].1
                    == json_of_any(last_value_with_key(attrs, key).unwrap()) by {
                    assert(i != j);
                    assert(obj[i] == prev[i]);
                }
            }
        } else {
            assert(obj == prev.push((last.key, value)));
            if last.key@ == key {
                assert(obj[prev.len() as int].0@ == key);
                assert forall|i: int|
                    0 <= i < obj.len() && (#[trigger] obj[i]).0@ == key implies obj[i].1
                    == value by {
                    if i < prev.len() {
                        assert(obj[i] == prev[i]);
                    }
                }
            } else {
                if has_member(obj, key) {
                    let w = choose|w: int| 0 <= w < obj.len() && (#[trigger] obj[w]).0@ == key;
                    assert(w < prev.len());
                    assert(prev[w].0@ == key);
                }
                if has_member(prev, key) {
                    let w = choose|w: int| 0 <= w < prev.len() && (#[trigger] prev[w]).0@ == key;
                    assert(obj[w].0@ == key);
                }
                assert forall|i: int|
                    0 <= i < obj.len() && (#[trigger] obj[i]).0@ == key implies obj[i].1
                    == json_of_any(last_value_with_key(attrs, key).unwrap()) by {
                    assert(i < prev.len());
                    assert(obj[i] == prev[i]);
                }
            }
        }
    }
}

fn find_member(members: &Vec<(String, JsonValue)>, key: &String) -> (found: Option<usize>)
    ensures
        match found {
            Some(i) => i < members@.len() && members@[i as int].0@ == key@,
            None => !has_member(members@, key@),
        },
{
    let mut i: usize = 0;
    while i < members.len()
        invariant
            0 <= i <= members.len(),
            forall|j: int| 0 <= j < i ==> (#[trigger] members@[j]).0@ != key@,
        decreases members.len() - i,
    {
        if members[i].0 == *key {
            return Some(i);
        }
        i += 1;
    }
    None
}

/// The attributes as a JSON object, one member per name; where a name
/// repeats, the last value wins.
pub fn attributes_to_json(attributes: Vec<KeyValue>) -> (json: JsonValue)
    ensures
        object_members(json) == Some(attributes_object(attributes@)),
{
    let ghost all = attributes@;
    let mut rest = attributes;
    let mut members: Vec<(String, JsonValue)> = Vec::new();
    let ghost mut done: int = 0;
    assert(all.take(0) =~= Seq::<KeyValue>::empty());
    assert(all.skip(0) =~= all);
    while rest.len() > 0
        invariant
            0 <= done <= all.len(),
            rest@ == all.skip(done),
            members@ == attributes_object(all.take(done)),
            keys_unique(members@),
        decreases rest.len(),
    {
        let kv = rest.remove(0);
        proof {
            assert(kv == all[done]);
            assert(all.skip(done + 1) =~= all.skip(done).remove(0));
            assert(all.take(done + 1).drop_last() =~= all.take(done));
            assert(all.take(done + 1).last() == all[done]);
        }
        let KeyValue { key, value } = kv;
        let json = any_to_json(value);
        let ghost old_members = members@;
        match find_member(&members, &key) {
            Some(i) => {
                let (name, _previous) = members.remove(i);
                members.insert(i, (name, json));
                proof {
                    let j = member_index(old_members, key@);
                    assert(has_member(old_members, key@));
                    assert(j == i as int) by {
                        assert(old_members[j].0@ == key@);
                        assert(old_members[i as int].0@ == key@);
                    }
                    assert(members@ =~= old_members.update(i as int, (old_members[i as int].0, json)));
                }
            },
            None => {
                members.push((key, json));
                proof {
                    assert(members@ =~= old_members.push((key, json)));
                    assert forall|a: int, b: int|
                        #![trigger members@[a], members@[b]]
                        0 <= a < members@.len() && 0 <= b < members@.len() && a != b implies members@[a].0@
                            != members@[b].0@ by {
                        if a < old_members.len() && b < old_members.len() {
                        } else if a == old_members.len() {
                            assert(old_members[b].0@ != key@);
                        } else {
                            assert(old_members[a].0@ != key@);
                        }
                    }
                }
            },
        }
        proof {
            done = done + 1;
        }
    }
    proof {
        assert(all.take(done) =~= all);
    }
    JsonValue::Object(members)
}

// ---------------------------------------------------------------------------
// Records

/// The message of a record: its body when that is a string, else `missing`.
pub open spec fn body_message(body: Option<AnyValue>) -> Seq<char> {
    match body {
        Some(AnyValue::StringValue { string_value }) => string_value@,
        _ => "missing"@,
    }
}

/// `t` is a time that a record with this `time_unix_nano` text may get: the
/// time the text denotes when it is a decimal `i64`; otherwise any
/// well-formed time (the clock's reading when the record was mapped).
pub open spec fn timestamp_for(time_unix_nano: Seq<char>, t: Timestamp) -> bool {
    &&& t.well_formed()
    &&& match parse_i64(time_unix_nano) {
        Some(nanos) => t == timestamp_of_nanos(nanos as int),
        None => true,
    }
}

/// `entry` is what `record` of the service named `service` becomes.
pub open spec fn entry_from_record(entry: NewLogEntry, record: LogRecord, service: Seq<char>) -> bool {
    &&& entry.level == level_for_severity(record.severity_number as int)
    &&& entry.service@ == service
    &&& entry.message@ == body_message(record.body)
    &&& object_members(entry.attributes) == Some(attributes_object(record.attributes@))
    &&& entry.trace_id == record.trace_id
    &&& entry.span_id == record.span_id
    &&& timestamp_for(record.time_unix_nano@, entry.timestamp)
}

/// The time of a record: the nanoseconds its text gives, or, when the text
/// is no decimal `i64`, the current time.
pub fn record_timestamp(time_unix_nano: &String) -> (t: Timestamp)
    ensures
        timestamp_for(time_unix_nano@, t),
        t.nanos < 1_000_000_000,
        parse_i64(time_unix_nano@) matches Some(n) ==> t.total_nanos() == n,
{
    match parse_decimal_i64(time_unix_nano.as_str()) {
        Some(nanos) => {
            proof {
                lemma_timestamp_of_nanos_roundtrip(nanos);
            }
            timestamp_from_nanos(nanos)
        },
        None => now(),
    }
}

/// Turns one log record of the service named `service` into a new log entry.
pub fn map_log_record(record: LogRecord, service: &String) -> (entry: NewLogEntry)
    ensures
        entry_from_record(entry, record, service@),
        entry.level == level_for_severity(record.severity_number as int),
        object_members(entry.attributes) == Some(attributes_object(record.attributes@)),
        entry.timestamp.nanos < 1_000_000_000,
        parse_i64(record.time_unix_nano@) matches Some(n) ==> entry.timestamp.total_nanos() == n,
        entry.service@ == service@,
        entry.trace_id == record.trace_id,
        entry.span_id == record.span_id,
        match record.body {
            Some(AnyValue::StringValue { string_value }) => entry.message@ == string_value@,
            _ => entry.message@ == "missing"@,
        },
{
    let level = otel_int_to_level(&record.severity_number);
    let timestamp = record_timestamp(&record.time_unix_nano);
    let LogRecord { time_unix_nano: _, severity_number: _, body, attributes, trace_id, span_id } =
        record;
    let message = match body {
        Some(AnyValue::StringValue { string_value }) => string_value,
        _ => "missing".to_owned(),
    };
    let attributes = attributes_to_json(attributes);
    NewLogEntry {
        level,
        service: service.clone(),
        message,
        attributes,
        trace_id,
        span_id,
        timestamp,
    }
}

// ---------------------------------------------------------------------------
// Requests

/// The service that the records of a resource are filed under: the name from
/// its `service.name` attribute, or `unkown`.
pub open spec fn resolved_service(resource_log: ResourceLog) -> Seq<char> {
    match service_name_of(resource_log.resource.attributes@) {
        Some(name) => name@,
        None => "unkown"@,
    }
}

/// The records of a list of scopes, scope after scope.
pub open spec fn scope_records(scopes: Seq<crate::dto::otel::ScopeLog>) -> Seq<LogRecord>
    decreases scopes.len(),
{
    if scopes.len() == 0 {
        Seq::empty()
    } else {
        scope_records(scopes.drop_last()) + scopes.last().log_records@
    }
}

/// Each record paired with the service it is filed under.
pub open spec fn with_service(records: Seq<LogRecord>, service: Seq<char>) -> Seq<
    (LogRecord, Seq<char>),
> {
    records.map_values(|record: LogRecord| (record, service))
}

/// The records of a list of resources, in order, each with its service.
pub open spec fn request_records(resource_logs: Seq<ResourceLog>) -> Seq<(LogRecord, Seq<char>)>
    decreases resource_logs.len(),
{
    if resource_logs.len() == 0 {
        Seq::empty()
    } else {
        request_records(resource_logs.drop_last()) + with_service(
            scope_records(resource_logs.last().scope_logs@),
            resolved_service(resource_logs.last()),
        )
    }
}

/// `entries` are what the `records` become, one for one and in order.
pub open spec fn entries_from_records(
    entries: Seq<NewLogEntry>,
    records: Seq<(LogRecord, Seq<char>)>,
) -> bool {
    &&& entries.len() == records.len()
    &&& forall|i: int|
        0 <= i < entries.len() ==> entry_from_record(
            #[trigger] entries[i],
            records[i].0,
            records[i].1,
        )
}

proof fn lemma_entries_push(
    entries: Seq<NewLogEntry>,
    records: Seq<(LogRecord, Seq<char>)>,
    entry: NewLogEntry,
    record: (LogRecord, Seq<char>),
)
    requires
        entries_from_records(entries, records),
        entry_from_record(entry, record.0, record.1),
    ensures
        entries_from_records(entries.push(entry), records.push(record)),
{
    assert forall|i: int| 0 <= i < entries.len() + 1 implies entry_from_record(
        #[trigger] entries.push(entry)[i],
        records.push(record)[i].0,
        records.push(record)[i].1,
    ) by {
        if i < entries.len() {
            assert(entries.push(entry)[i] == entries[i]);
            assert(records.push(record)[i] == records[i]);
        }
    }
}

/// Turns an OpenTelemetry logs export into new log entries: one per log
/// record, in the order of the export, filed under the service of its
/// resource.
pub fn otel_to_log_entries(request: OtelLogsRequest) -> (entries: Vec<NewLogEntry>)
    ensures
        entries_from_records(entries@, request_records(request.resource_logs@)),
{
    let ghost all = request.resource_logs@;
    let mut resource_logs = request.resource_logs;
    let mut entries: Vec<NewLogEntry> = Vec::new();
    let ghost mut done: int = 0;
    assert(all.skip(0) =~= all);
    assert(all.take(0) =~= Seq::<ResourceLog>::empty());
    while resource_logs.len() > 0
        invariant
            0 <= done <= all.len(),
            resource_logs@ == all.skip(done),
            entries_from_records(entries@, request_records(all.take(done))),
        decreases resource_logs.len(),
    {
        let resource_log = resource_logs.remove(0);
        proof {
            assert(resource_log == all[done]);
            assert(all.skip(done + 1) =~= all.skip(done).remove(0));
            assert(all.take(done + 1).drop_last() =~= all.take(done));
            assert(all.take(done + 1).last() == all[done]);
        }
        let service_name = match extract_service(&resource_log) {
            Some(name) => name,
            None => "unkown".to_owned(),
        };
        let ghost service = resolved_service(resource_log);
        let ghost before = request_records(all.take(done));
        let ResourceLog { resource: _, scope_logs } = resource_log;
        let ghost scopes = scope_logs@;
        let mut scope_logs = scope_logs;
        let ghost mut scopes_done: int = 0;
        assert(scopes.skip(0) =~= scopes);
        assert(scopes.take(0) =~= Seq::<crate::dto::otel::ScopeLog>::empty());
        assert(with_service(Seq::empty(), service) =~= Seq::empty());
        assert(before + with_service(scope_records(scopes.take(0)), service) =~= before);
        while scope_logs.len() > 0
            invariant
                0 <= scopes_done <= scopes.len(),
                scope_logs@ == scopes.skip(scopes_done),
                service_name@ == service,
                entries_from_records(
                    entries@,
                    before + with_service(scope_records(scopes.take(scopes_done)), service),
                ),
            decreases scope_logs.len(),
        {
            let scope_log = scope_logs.remove(0);
            proof {
                assert(scope_log == scopes[scopes_done]);
                assert(scopes.skip(scopes_done + 1) =~= scopes.skip(scopes_done).remove(0));
                assert(scopes.take(scopes_done + 1).drop_last() =~= scopes.take(scopes_done));
                assert(scopes.take(scopes_done + 1).last() == scopes[scopes_done]);
            }
            let ghost prefix = before + with_service(
                scope_records(scopes.take(scopes_done)),
                service,
            );
            let ghost records = scope_log.log_records@;
            let mut log_records = scope_log.log_records;
            let ghost mut records_done: int = 0;
            assert(records.skip(0) =~= records);
            assert(prefix + with_service(records.take(0), service) =~= prefix);
            while log_records.len() > 0
                invariant
                    0 <= records_done <= records.len(),
                    log_records@ == records.skip(records_done),
                    service_name@ == service,
                    entries_from_records(
                        entries@,
                        prefix + with_service(records.take(records_done), service),
                    ),
                decreases log_records.len(),
            {
                let record = log_records.remove(0);
                proof {
                    assert(record == records[records_done]);
                    assert(records.skip(records_done + 1) =~= records.skip(records_done).remove(
                        0,
                    ));
                }
                let entry = map_log_record(record, &service_name);
                proof {
                    let expected = prefix + with_service(records.take(records_done), service);
                    lemma_entries_push(entries@, expected, entry, (record, service));
                    assert(expected.push((record, service)) =~= prefix + with_service(
                        records.take(records_done + 1),
                        service,
                    ));
                }
                entries.push(entry);
                proof {
                    records_done = records_done + 1;
                }
            }
            proof {
                assert(records.take(records_done) =~= records);
                assert(prefix + with_service(records, service) =~= before + with_service(
                    scope_records(scopes.take(scopes_done + 1)),
                    service,
                ));
                scopes_done = scopes_done + 1;
            }
        }
        proof {
            assert(scopes.take(scopes_done) =~= scopes);
            done = done + 1;
        }
    }
    proof {
        assert(all.take(done) =~= all);
    }
    entries
}

// ---------------------------------------------------------------------------
// Laws

/// Levels ordered by severity: debug, info, warn, error.
pub open spec fn level_rank(level: LogLevel) -> int {
    match level {
        LogLevel::Debug => 0,
        LogLevel::Info => 1,
        LogLevel::Warn => 2,
        LogLevel::Error => 3,
    }
}

/// Severity numbers map onto levels by the OpenTelemetry ranges: 1-4 are
/// debug, 5-8 info, 9-12 warn, and everything else (unset, negative, or the
/// fatal range 13-24 and above) error; within 1-24 a higher severity never
/// gets a lower level.
pub proof fn lemma_severity_ranges(a: int, b: int)
    ensures
        (level_for_severity(a) == LogLevel::Debug) == (1 <= a <= 4),
        (level_for_severity(a) == LogLevel::Info) == (5 <= a <= 8),
        (level_for_severity(a) == LogLevel::Warn) == (9 <= a <= 12),
        (level_for_severity(a) == LogLevel::Error) == (a < 1 || a > 12),
        1 <= a <= b ==> level_rank(level_for_severity(a)) <= level_rank(level_for_severity(b)),
{
}

/// The first `service.name` attribute decides the service: one holding a
/// string names that string, and attributes that come after it change
/// nothing.
pub proof fn lemma_first_service_name_decides(attrs: Seq<KeyValue>, more: Seq<KeyValue>)
    requires
        exists|i: int| 0 <= i < attrs.len() && (#[trigger] attrs[i]).key@ == "service.name"@,
    ensures
        service_name_of(attrs + more) == service_name_of(attrs),
        attrs[0].key@ == "service.name"@ ==> service_name_of(attrs) == match attrs[0].value {
            AnyValue::StringValue { string_value } => Some(string_value),
            _ => None,
        },
{
    let key = "service.name"@;
    let all = attrs + more;
    let w = choose|i: int| 0 <= i < attrs.len() && (#[trigger] attrs[i]).key@ == key;
    // the first match within attrs
    let f = first_match(attrs, key, w);
    assert(is_first_with_key(attrs, key, f));
    assert(is_first_with_key(all, key, f)) by {
        assert(all[f] == attrs[f]);
        assert forall|j: int| 0 <= j < f implies (#[trigger] all[j]).key@ != key by {
            assert(all[j] == attrs[j]);
        }
    }
    let c1 = choose|c: int| is_first_with_key(attrs, key, c);
    let c2 = choose|c: int| is_first_with_key(all, key, c);
    assert(c1 == f) by {
        if c1 < f {
            assert(attrs[c1].key@ != key);
        } else if c1 > f {
            assert(attrs[f].key@ != key);
        }
    }
    assert(c2 == f) by {
        if c2 < f {
            assert(all[c2].key@ != key);
        } else if c2 > f {
            assert(all[f].key@ != key);
        }
    }
    assert(all[f] == attrs[f]);
    if attrs[0].key@ == key {
        assert(f == 0) by {
            if f > 0 {
                assert(attrs[0].key@ != key);
            }
        }
    }
}

/// The least index at or below `bound` whose attribute is named `key`.
proof fn first_match(attrs: Seq<KeyValue>, key: Seq<char>, bound: int) -> (f: int)
    requires
        0 <= bound < attrs.len(),
        attrs[bound].key@ == key,
    ensures
        is_first_with_key(attrs, key, f),
    decreases bound,
{
    if exists|j: int| 0 <= j < bound && (#[trigger] attrs[j]).key@ == key {
        let j = choose|j: int| 0 <= j < bound && (#[trigger] attrs[j]).key@ == key;
        first_match(attrs, key, j)
    } else {
        bound
    }
}

/// Every attribute value reaches the JSON object unchanged in kind and
/// content: the member named after an attribute holds the last such
/// attribute's string as a JSON string, its integer as a JSON integer, its
/// boolean as that JSON boolean, and its double as a JSON number with the
/// same bits, or as `null` when the double is NaN or infinite.
pub proof fn lemma_attribute_json_values(attrs: Seq<KeyValue>, key: Seq<char>)
    requires
        last_value_with_key(attrs, key) is Some,
    ensures
        has_member(attributes_object(attrs), key),
        forall|i: int|
            0 <= i < attributes_object(attrs).len() && (#[trigger] attributes_object(attrs)[i]).0@
                == key ==> match last_value_with_key(attrs, key).unwrap() {
                AnyValue::StringValue { string_value } => attributes_object(attrs)[i].1
                    == JsonValue::String(string_value),
                AnyValue::IntValue { int_value } => attributes_object(attrs)[i].1
                    == JsonValue::Number(JsonNumber::Int(int_value)),
                AnyValue::BoolValue { bool_value } => attributes_object(attrs)[i].1
                    == JsonValue::Bool(bool_value),
                AnyValue::DoubleValue { double_bits } => attributes_object(attrs)[i].1 == if (
                double_bits >> 52u64) & 0x7ffu64 != 0x7ffu64 {
                    JsonValue::Number(JsonNumber::Float(double_bits))
                } else {
                    JsonValue::Null
                },
            },
{
    lemma_last_attribute_wins(attrs, key);
}

/// An entry made from a record keeps the record's trace and span ids, is
/// filed under the given service, and takes its message from a string body
/// (`missing` otherwise); a record whose time text is a decimal `i64` gets
/// exactly that many nanoseconds since the Unix epoch.
pub proof fn lemma_entry_from_record_fields(entry: NewLogEntry, record: LogRecord, service: Seq<char>)
    requires
        entry_from_record(entry, record, service),
    ensures
        entry.level == level_for_severity(record.severity_number as int),
        object_members(entry.attributes) == Some(attributes_object(record.attributes@)),
        entry.trace_id == record.trace_id,
        entry.span_id == record.span_id,
        entry.service@ == service,
        match record.body {
            Some(AnyValue::StringValue { string_value }) => entry.message@ == string_value@,
            _ => entry.message@ == "missing"@,
        },
        entry.timestamp.nanos < 1_000_000_000,
        parse_i64(record.time_unix_nano@) matches Some(n) ==> entry.timestamp.total_nanos() == n,
{
    if let Some(n) = parse_i64(record.time_unix_nano@) {
        lemma_timestamp_of_nanos_roundtrip(n);
    }
}

/// Records of two lists of resources, sent as one request, give the records
/// of the first list followed by those of the second.
pub proof fn lemma_request_records_concat(a: Seq<ResourceLog>, b: Seq<ResourceLog>)
    ensures
        request_records(a + b) == request_records(a) + request_records(b),
    decreases b.len(),
{
    if b.len() == 0 {
        assert(a + b =~= a);
        assert(request_records(a) + request_records(b) =~= request_records(a));
    } else {
        lemma_request_records_concat(a, b.drop_last());
        assert((a + b).drop_last() =~= a + b.drop_last());
        assert((a + b).last() == b.last());
        let tail = with_service(scope_records(b.last().scope_logs@), resolved_service(b.last()));
        assert(request_records(a) + request_records(b.drop_last()) + tail =~= request_records(a)
            + (request_records(b.drop_last()) + tail));
    }
}

/// Entries made from records correspond one for one and in order: as many
/// entries as records, and each keeps its record's ids, level and service.
pub proof fn lemma_entries_from_records_fields(
    entries: Seq<NewLogEntry>,
    records: Seq<(LogRecord, Seq<char>)>,
)
    requires
        entries_from_records(entries, records),
    ensures
        entries.len() == records.len(),
        forall|i: int|
            0 <= i < entries.len() ==> {
                &&& (#[trigger] entries[i]).trace_id == records[i].0.trace_id
                &&& entries[i].span_id == records[i].0.span_id
                &&& entries[i].level == level_for_severity(records[i].0.severity_number as int)
                &&& entries[i].service@ == records[i].1
            },
{
    assert forall|i: int| 0 <= i < entries.len() implies {
        &&& (#[trigger] entries[i]).trace_id == records[i].0.trace_id
        &&& entries[i].span_id == records[i].0.span_id
        &&& entries[i].level == level_for_severity(records[i].0.severity_number as int)
        &&& entries[i].service@ == records[i].1
    } by {
        assert(entry_from_record(entries[i], records[i].0, records[i].1));
    }
}

/// A request with one resource gives that resource's records, scope after
/// scope, all under its service: the name from a string `service.name`
/// attribute, or `unkown` without one.
pub proof fn lemma_single_resource_records(resource_log: ResourceLog)
    ensures
        request_records(seq![resource_log]).len() == scope_records(resource_log.scope_logs@).len(),
        forall|i: int|
            0 <= i < request_records(seq![resource_log]).len() ==> #[trigger] request_records(
                seq![resource_log],
            )[i] == (scope_records(resource_log.scope_logs@)[i], resolved_service(resource_log)),
        service_name_of(resource_log.resource.attributes@) is None ==> resolved_service(
            resource_log,
        ) == "unkown"@,
        service_name_of(resource_log.resource.attributes@) matches Some(name)
            ==> resolved_service(resource_log) == name@,
{
    let one = seq![resource_log];
    assert(one.drop_last() =~= Seq::<ResourceLog>::empty());
    assert(request_records(Seq::<ResourceLog>::empty()) =~= Seq::empty());
    assert(request_records(one) =~= with_service(
        scope_records(resource_log.scope_logs@),
        resolved_service(resource_log),
    ));
}

/// The records of consecutive scopes are the records of the first scopes
/// followed by those of the rest.
pub proof fn lemma_scope_records_concat(a: Seq<crate::dto::otel::ScopeLog>, b: Seq<crate::dto::otel::ScopeLog>)
    ensures
        scope_records(a + b) == scope_records(a) + scope_records(b),
    decreases b.len(),
{
    if b.len() == 0 {
        assert(a + b =~= a);
        assert(scope_records(a) + scope_records(b) =~= scope_records(a));
    } else {
        lemma_scope_records_concat(a, b.drop_last());
        assert((a + b).drop_last() =~= a + b.drop_last());
        assert((a + b).last() == b.last());
        assert(scope_records(a) + scope_records(b.drop_last()) + b.last().log_records@
            =~= scope_records(a) + (scope_records(b.drop_last()) + b.last().log_records@));
    }
}

} // verus!
