//! Log endpoints: validation of ingested logs, the entries they become, and
//! the filters of the live stream.

use vstd::prelude::*;

use crate::dto::logs::LogIngest;
use crate::errors::AppError;
use crate::model::{LogEntry, LogLevel, NewLogEntry};
use crate::text::{is_blank, is_white_space, lemma_trimmed_empty_iff_blank, trim};
use crate::time::now;

verus! {

/// The rule that an ingested log breaks, as the text of the refusal: its
/// message must hold a character that is not white space, and then so must
/// its service.
pub open spec fn ingest_violation(log_ingest: LogIngest) -> Option<Seq<char>> {
    if is_blank(log_ingest.message@) {
        Some("message cannot be empty"@)
    } else if is_blank(log_ingest.service@) {
        Some("service cannot be empty"@)
    } else {
        None
    }
}

/// Checks an ingested log: the message, then the service, must not be
/// empty once trimmed of white space.
pub fn validate_log_ingest(log_ingest: &LogIngest) -> (result: Result<(), AppError>)
    ensures
        match result {
            Ok(()) => ingest_violation(*log_ingest) is None,
            Err(AppError::ValidationError(text)) => ingest_violation(*log_ingest) == Some(text@),
            Err(AppError::NotFound) => false,
        },
        (result is Ok) == ((exists|i: int|
            0 <= i < log_ingest.message@.len() && !is_white_space(
                #[trigger] log_ingest.message@[i],
            )) && (exists|j: int|
            0 <= j < log_ingest.service@.len() && !is_white_space(
                #[trigger] log_ingest.service@[j],
            ))),
{
    proof {
        lemma_trimmed_empty_iff_blank(log_ingest.message@);
        lemma_trimmed_empty_iff_blank(log_ingest.service@);
    }
    if trim(log_ingest.message.as_str()).is_empty() {
        return Err(AppError::ValidationError("message cannot be empty".to_owned()));
    }
    if trim(log_ingest.service.as_str()).is_empty() {
        return Err(AppError::ValidationError("service cannot be empty".to_owned()));
    }
    Ok(())
}

/// `entry` carries the fields of `log_ingest` and a well-formed time.
pub open spec fn entry_from_ingest(entry: NewLogEntry, log_ingest: LogIngest) -> bool {
    &&& entry.level == log_ingest.level
    &&& entry.message == log_ingest.message
    &&& entry.service == log_ingest.service
    &&& entry.attributes == log_ingest.attributes
    &&& entry.trace_id == log_ingest.trace_id
    &&& entry.span_id == log_ingest.span_id
    &&& entry.timestamp.well_formed()
}

/// Index `i` holds the first ingested log that breaks a rule.
pub open spec fn is_first_violation(payload: Seq<LogIngest>, i: int) -> bool {
    &&& 0 <= i < payload.len()
    &&& ingest_violation(payload[i]) is Some
    &&& forall|j: int| 0 <= j < i ==> ingest_violation(#[trigger] payload[j]) is None
}

/// Turns the logs of an ingestion request into new log entries, each stamped
/// with the current time. The first log that breaks a rule refuses the whole
/// request with that rule's text.
pub fn log_ingests_to_entries(payload: Vec<LogIngest>) -> (result: Result<
    Vec<NewLogEntry>,
    AppError,
>)
    ensures
        match result {
            Ok(entries) => {
                &&& forall|i: int|
                    0 <= i < payload@.len() ==> ingest_violation(#[trigger] payload@[i]) is None
                &&& entries@.len() == payload@.len()
                &&& forall|i: int|
                    0 <= i < payload@.len() ==> entry_from_ingest(
                        #[trigger] entries@[i],
                        payload@[i],
                    )
                &&& forall|i: int|
                    0 <= i < payload@.len() ==> {
                        &&& (#[trigger] entries@[i]).level == payload@[i].level
                        &&& entries@[i].message == payload@[i].message
                        &&& entries@[i].service == payload@[i].service
                        &&& entries@[i].attributes == payload@[i].attributes
                        &&& entries@[i].trace_id == payload@[i].trace_id
                        &&& entries@[i].span_id == payload@[i].span_id
                    }
            },
            Err(AppError::ValidationError(text)) => exists|i: int|
                is_first_violation(payload@, i) && ingest_violation(payload@[i]) == Some(text@),
            Err(AppError::NotFound) => false,
        },
{
    let ghost all = payload@;
    let mut rest = payload;
    let mut entries: Vec<NewLogEntry> = Vec::new();
    let ghost mut done: int = 0;
    assert(all.skip(0) =~= all);
    while rest.len() > 0
        invariant
            0 <= done <= all.len(),
            all == payload@,
            rest@ == all.skip(done),
            entries@.len() == done,
            forall|i: int| 0 <= i < done ==> ingest_violation(#[trigger] all[i]) is None,
            forall|i: int| 0 <= i < done ==> entry_from_ingest(#[trigger] entries@[i], all[i]),
        decreases rest.len(),
    {
        let log_ingest = rest.remove(0);
        proof {
            assert(log_ingest == all[done]);
            assert(all.skip(done + 1) =~= all.skip(done).remove(0));
        }
        match validate_log_ingest(&log_ingest) {
            Ok(()) => {},
            Err(error) => {
                proof {
                    assert(is_first_violation(all, done));
                    assert(error matches AppError::ValidationError(text) && ingest_violation(all[done]) == Some(text@));
                }
                return Err(error);
            },
        }
        let LogIngest { message, level, service, attributes, trace_id, span_id } = log_ingest;
        let entry = NewLogEntry {
            level,
            message,
            service,
            attributes,
            trace_id,
            span_id,
            timestamp: now(),
        };
        entries.push(entry);
        proof {
            done = done + 1;
        }
    }
    Ok(entries)
}

/// Whether a stored entry passes the stream filters: an absent filter lets
/// every entry pass, a present one only entries with that level or service.
pub open spec fn passes_filters(
    entry: LogEntry,
    level: Option<LogLevel>,
    service: Option<String>,
) -> bool {
    &&& match level {
        Some(l) => l == entry.level,
        None => true,
    }
    &&& match service {
        Some(s) => s@ == entry.service@,
        None => true,
    }
}

/// Whether a stored entry passes the level and service filters of a stream.
pub fn matches_filters(entry: &LogEntry, level: &Option<LogLevel>, service: &Option<String>) -> (passes: bool)
    ensures
        passes == passes_filters(*entry, *level, *service),
        passes <==> (*level matches Some(l) ==> l == entry.level) && (*service matches Some(
            s,
        ) ==> s@ == entry.service@),
{
    let matches_level = match level {
        Some(l) => *l == entry.level,
        None => true,
    };
    let matches_service = match service {
        Some(s) => *s == entry.service,
        None => true,
    };
    matches_level && matches_service
}

/// A stream without filters passes every entry, and the two filters act on
/// their own: an entry passes both exactly when it passes each alone.
pub proof fn lemma_filters_combine(entry: LogEntry, level: Option<LogLevel>, service: Option<String>)
    ensures
        passes_filters(entry, None, None),
        passes_filters(entry, level, service) == (passes_filters(entry, level, None)
            && passes_filters(entry, None, service)),
{
}

/// A level filter and a service filter each pass exactly the entries with
/// that level, or with a service of exactly that name: two entries that pass
/// the same filter share its level, or its service name.
pub proof fn lemma_filters_are_exact(a: LogEntry, b: LogEntry, level: LogLevel, service: String)
    ensures
        passes_filters(a, Some(level), None) == (a.level == level),
        passes_filters(a, None, Some(service)) == (a.service@ == service@),
        passes_filters(a, Some(level), None) && passes_filters(b, Some(level), None) ==> a.level
            == b.level,
        passes_filters(a, None, Some(service)) && passes_filters(b, None, Some(service))
            ==> a.service@ == b.service@,
{
}

/// An ingested log is refused only for blank text: it is accepted exactly
/// when its message and its service each hold a character that is not white
/// space, whatever their length; two logs whose message and service are
/// blank alike get the same verdict.
pub proof fn lemma_validation_rejects_only_blank(a: LogIngest, b: LogIngest)
    ensures
        (ingest_violation(a) is None) == ((exists|i: int|
            0 <= i < a.message@.len() && !is_white_space(#[trigger] a.message@[i])) && (exists|
            j: int,
        |
            0 <= j < a.service@.len() && !is_white_space(#[trigger] a.service@[j]))),
        is_blank(a.message@) == is_blank(b.message@) && is_blank(a.service@) == is_blank(
            b.service@,
        ) ==> ingest_violation(a) == ingest_violation(b),
{
}

/// A new entry made from an ingested log keeps every field of that log: its
/// level, message, service, attributes and trace and span ids.
pub proof fn lemma_entry_from_ingest_fields(entry: NewLogEntry, log_ingest: LogIngest)
    requires
        entry_from_ingest(entry, log_ingest),
    ensures
        entry.level == log_ingest.level,
        entry.message@ == log_ingest.message@,
        entry.service@ == log_ingest.service@,
        entry.attributes == log_ingest.attributes,
        entry.trace_id == log_ingest.trace_id,
        entry.span_id == log_ingest.span_id,
        entry.timestamp.nanos < 1_000_000_000,
{
}

/// The log that refuses a request is the earliest one that breaks a rule:
/// every log before it passes, it breaks one, and no other index is that log.
pub proof fn lemma_first_violation(payload: Seq<LogIngest>, i: int, j: int)
    requires
        is_first_violation(payload, i),
    ensures
        0 <= i < payload.len(),
        ingest_violation(payload[i]) is Some,
        forall|k: int| 0 <= k < i ==> ingest_violation(#[trigger] payload[k]) is None,
        is_first_violation(payload, j) ==> i == j,
{
    if is_first_violation(payload, j) {
        if j < i {
            assert(ingest_violation(payload[j]) is None);
        } else if i < j {
            assert(ingest_violation(payload[i]) is None);
        }
    }
}

} // verus!
