//! The OTLP log receiver's rules: which records meet the severity floor,
//! how each one is rendered into `otel-errors.log`, and the error events
//! published to attached TUIs. Listening on the network belongs to the
//! caller, which hands decoded export requests in and writes out what
//! comes back.

use vstd::prelude::*;

use crate::fmt::{format_rfc3339, rfc3339_utc};
use crate::manager::text_or_empty;
use crate::severity::{label_of, severity_label, severity_value, SeverityNumber};
use crate::text::{decimal_nat, push_str, str_eq, u64_to_string};
use crate::value::{
    any_value_to_string, extract_service_name, filter_resource_attrs, non_service_attrs,
    service_name_of, value_text, KeyValue,
};

verus! {

/// The line that precedes every rendered log record.
pub const LOG_SEPARATOR: &'static str = "------------------------------------------------------------";

/// An OTLP log record, with the fields the receiver reads.
#[derive(Debug, Clone)]
pub struct LogRecord {
    pub time_unix_nano: u64,
    pub observed_time_unix_nano: u64,
    pub severity_number: i32,
    pub severity_text: String,
    pub body: Option<crate::value::AnyValue>,
    pub attributes: Vec<KeyValue>,
    pub trace_id: Vec<u8>,
    pub span_id: Vec<u8>,
}

#[derive(Debug, Clone)]
pub struct ScopeLogs {
    pub log_records: Vec<LogRecord>,
}

#[derive(Debug, Clone)]
pub struct Resource {
    pub attributes: Vec<KeyValue>,
}

#[derive(Debug, Clone)]
pub struct ResourceLogs {
    pub resource: Option<Resource>,
    pub scope_logs: Vec<ScopeLogs>,
}

#[derive(Debug, Clone)]
pub struct ExportLogsServiceRequest {
    pub resource_logs: Vec<ResourceLogs>,
}

/// What attached TUIs are told of a record that was written out.
#[derive(Debug, Clone)]
pub struct ErrorEvent {
    pub timestamp_unix_nano: i64,
    pub service_name: String,
    pub severity: String,
    pub body: String,
}

pub struct EventV {
    pub ts: i64,
    pub service: Seq<char>,
    pub severity: Seq<char>,
    pub body: Seq<char>,
}

impl View for ErrorEvent {
    type V = EventV;

    open spec fn view(&self) -> EventV {
        EventV {
            ts: self.timestamp_unix_nano,
            service: self.service_name@,
            severity: self.severity@,
            body: self.body@,
        }
    }
}

// ---------------------------------------------------------------------
// Hex
// ---------------------------------------------------------------------

pub open spec fn hex_digit(d: nat) -> char {
    if d < 10 {
        crate::text::digit_char(d)
    } else if d == 10 {
        'a'
    } else if d == 11 {
        'b'
    } else if d == 12 {
        'c'
    } else if d == 13 {
        'd'
    } else if d == 14 {
        'e'
    } else {
        'f'
    }
}

/// Two lower-case hex digits per byte.
pub open spec fn hex_lower(b: Seq<u8>) -> Seq<char>
    decreases b.len(),
{
    if b.len() == 0 {
        Seq::empty()
    } else {
        hex_lower(b.drop_last()) + seq![hex_digit((b.last() / 16) as nat), hex_digit((b.last() % 16) as nat)]
    }
}

fn hex_char(d: u8) -> (c: char)
    requires
        d < 16,
    ensures
        c == hex_digit(d as nat),
{
    if d < 10 {
        if d == 0 {
            '0'
        } else if d == 1 {
            '1'
        } else if d == 2 {
            '2'
        } else if d == 3 {
            '3'
        } else if d == 4 {
            '4'
        } else if d == 5 {
            '5'
        } else if d == 6 {
            '6'
        } else if d == 7 {
            '7'
        } else if d == 8 {
            '8'
        } else {
            '9'
        }
    } else if d == 10 {
        'a'
    } else if d == 11 {
        'b'
    } else if d == 12 {
        'c'
    } else if d == 13 {
        'd'
    } else if d == 14 {
        'e'
    } else {
        'f'
    }
}

pub fn hex_encode(bytes: &Vec<u8>) -> (r: String)
    ensures
        r@ == hex_lower(bytes@),
{
    let mut s = String::new();
    let mut i: usize = 0;
    while i < bytes.len()
        invariant
            i <= bytes.len(),
            s@ == hex_lower(bytes@.take(i as int)),
        decreases bytes.len() - i,
    {
        let b = bytes[i];
        proof {
            assert(bytes@.take(i as int + 1).drop_last() =~= bytes@.take(i as int));
        }
        crate::text::push_char(&mut s, hex_char(b / 16));
        crate::text::push_char(&mut s, hex_char(b % 16));
        i = i + 1;
    }
    proof {
        assert(bytes@.take(bytes.len() as int) =~= bytes@);
    }
    s
}

// ---------------------------------------------------------------------
// Rendering one record
// ---------------------------------------------------------------------

/// The level with wire number `n`; `Unspecified` for numbers outside the
/// enum.
pub open spec fn level_of_number(n: int) -> SeverityNumber {
    if n == 1 {
        SeverityNumber::Trace
    } else if n == 2 {
        SeverityNumber::Trace2
    } else if n == 3 {
        SeverityNumber::Trace3
    } else if n == 4 {
        SeverityNumber::Trace4
    } else if n == 5 {
        SeverityNumber::Debug
    } else if n == 6 {
        SeverityNumber::Debug2
    } else if n == 7 {
        SeverityNumber::Debug3
    } else if n == 8 {
        SeverityNumber::Debug4
    } else if n == 9 {
        SeverityNumber::Info
    } else if n == 10 {
        SeverityNumber::Info2
    } else if n == 11 {
        SeverityNumber::Info3
    } else if n == 12 {
        SeverityNumber::Info4
    } else if n == 13 {
        SeverityNumber::Warn
    } else if n == 14 {
        SeverityNumber::Warn2
    } else if n == 15 {
        SeverityNumber::Warn3
    } else if n == 16 {
        SeverityNumber::Warn4
    } else if n == 17 {
        SeverityNumber::Error
    } else if n == 18 {
        SeverityNumber::Error2
    } else if n == 19 {
        SeverityNumber::Error3
    } else if n == 20 {
        SeverityNumber::Error4
    } else if n == 21 {
        SeverityNumber::Fatal
    } else if n == 22 {
        SeverityNumber::Fatal2
    } else if n == 23 {
        SeverityNumber::Fatal3
    } else if n == 24 {
        SeverityNumber::Fatal4
    } else {
        SeverityNumber::Unspecified
    }
}

proof fn lemma_level_roundtrip(s: SeverityNumber)
    ensures
        level_of_number(severity_value(s)) == s,
{
}

/// The level of a record's wire number.
pub fn record_level(n: i32) -> (r: SeverityNumber)
    ensures
        r == level_of_number(n as int),
{
    match SeverityNumber::from_i32(n) {
        Some(s) => {
            proof {
                lemma_level_roundtrip(s);
            }
            s
        },
        None => SeverityNumber::Unspecified,
    }
}

/// The record's time: when it happened, or when it was observed if that
/// is not set.
pub open spec fn record_time(lr: LogRecord) -> u64 {
    if lr.time_unix_nano == 0 {
        lr.observed_time_unix_nano
    } else {
        lr.time_unix_nano
    }
}

/// The record's severity as shown: its own text, or the label of its
/// number.
pub open spec fn record_severity(lr: LogRecord) -> Seq<char> {
    if lr.severity_text@.len() == 0 {
        label_of(level_of_number(lr.severity_number as int))
    } else {
        lr.severity_text@
    }
}

/// A nanosecond timestamp as RFC 3339 text (empty where it cannot be
/// represented).
pub open spec fn time_text(ts: u64) -> Seq<char> {
    text_or_empty(rfc3339_utc((ts / 1_000_000_000) as i64, (ts % 1_000_000_000) as u32))
}

/// One line per attribute, each as `    <key>=<value>`.
pub open spec fn attr_lines(kvs: Seq<KeyValue>) -> Seq<char>
    decreases kvs.len(),
{
    if kvs.len() == 0 {
        Seq::empty()
    } else {
        attr_lines(kvs.drop_last()) + "    "@ + kvs.last().key@ + "="@ + value_text(kvs.last().value)
            + "\n"@
    }
}

pub open spec fn when_line(lr: LogRecord) -> Seq<char> {
    if record_time(lr) != 0 {
        time_text(record_time(lr)) + "  "@ + record_severity(lr) + "\n"@
    } else {
        record_severity(lr) + "\n"@
    }
}

pub open spec fn ids_lines(lr: LogRecord) -> Seq<char> {
    (if lr.trace_id@.len() > 0 {
        "  trace_id="@ + hex_lower(lr.trace_id@) + "\n"@
    } else {
        Seq::empty()
    }) + (if lr.span_id@.len() > 0 {
        "  span_id="@ + hex_lower(lr.span_id@) + "\n"@
    } else {
        Seq::empty()
    })
}

pub open spec fn attrs_lines(resource_attrs: Seq<KeyValue>, lr: LogRecord) -> Seq<char> {
    (if non_service_attrs(resource_attrs).len() > 0 {
        "  resource:\n"@ + attr_lines(non_service_attrs(resource_attrs))
    } else {
        Seq::empty()
    }) + (if lr.attributes@.len() > 0 {
        "  attributes:\n"@ + attr_lines(lr.attributes@)
    } else {
        Seq::empty()
    })
}

/// The block written for one record: the separator, its time and
/// severity, `[<service>] <body>`, its trace and span ids in hex, then the
/// resource attributes other than `service.name` and the record's own.
pub open spec fn rendered(service: Seq<char>, resource_attrs: Seq<KeyValue>, lr: LogRecord, body: Seq<char>) -> Seq<
    char,
> {
    LOG_SEPARATOR@ + "\n"@ + when_line(lr) + "["@ + service + "] "@ + body + "\n"@ + ids_lines(lr)
        + attrs_lines(resource_attrs, lr)
}

fn push_attr_lines(out: &mut String, kvs: &Vec<&KeyValue>)
    ensures
        final(out)@ == old(out)@ + attr_lines(kvs@.map_values(|k: &KeyValue| *k)),
{
    let ghost ks = kvs@.map_values(|k: &KeyValue| *k);
    let mut i: usize = 0;
    while i < kvs.len()
        invariant
            i <= kvs.len(),
            ks == kvs@.map_values(|k: &KeyValue| *k),
            out@ == old(out)@ + attr_lines(ks.take(i as int)),
        decreases kvs.len() - i,
    {
        proof {
            assert(ks.take(i as int + 1).drop_last() =~= ks.take(i as int));
            assert(ks[i as int] == *kvs@[i as int]);
        }
        push_str(out, "    ");
        push_str(out, kvs[i].key.as_str());
        push_str(out, "=");
        let v = match &kvs[i].value {
            Some(v) => Some(v),
            None => None,
        };
        push_str(out, any_value_to_string(v).as_str());
        push_str(out, "\n");
        i = i + 1;
    }
    proof {
        assert(ks.take(kvs.len() as int) =~= ks);
    }
}

fn refs(kvs: &Vec<KeyValue>) -> (r: Vec<&KeyValue>)
    ensures
        r@.map_values(|k: &KeyValue| *k) == kvs@,
{
    let mut r: Vec<&KeyValue> = Vec::new();
    let mut i: usize = 0;
    while i < kvs.len()
        invariant
            i <= kvs.len(),
            r@.map_values(|k: &KeyValue| *k) == kvs@.take(i as int),
        decreases kvs.len() - i,
    {
        let ghost before = r@;
        r.push(&kvs[i]);
        proof {
            assert(r@.map_values(|k: &KeyValue| *k) =~= before.map_values(|k: &KeyValue| *k).push(
                kvs@[i as int],
            ));
            assert(kvs@.take(i as int + 1) =~= kvs@.take(i as int).push(kvs@[i as int]));
        }
        i = i + 1;
    }
    proof {
        assert(kvs@.take(kvs.len() as int) =~= kvs@);
    }
    r
}

/// The severity text of a record.
pub fn severity_of(lr: &LogRecord) -> (r: String)
    ensures
        r@ == record_severity(*lr),
{
    if lr.severity_text.as_str().is_empty() {
        severity_label(record_level(lr.severity_number)).to_owned()
    } else {
        lr.severity_text.clone()
    }
}

fn push_when(out: &mut String, lr: &LogRecord)
    ensures
        final(out)@ == old(out)@ + when_line(*lr),
{
    let ts = if lr.time_unix_nano == 0 {
        lr.observed_time_unix_nano
    } else {
        lr.time_unix_nano
    };
    let sev = severity_of(lr);
    if ts != 0 {
        let secs = (ts / 1_000_000_000) as i64;
        let nanos = (ts % 1_000_000_000) as u32;
        let ghost o = out@;
        match format_rfc3339(secs, nanos) {
            Some(t) => push_str(out, t.as_str()),
            None => {},
        }
        proof {
            assert(out@ =~= o + time_text(ts));
        }
        push_str(out, "  ");
        push_str(out, sev.as_str());
        push_str(out, "\n");
    } else {
        push_str(out, sev.as_str());
        push_str(out, "\n");
    }
}

fn push_ids(out: &mut String, lr: &LogRecord)
    ensures
        final(out)@ == old(out)@ + ids_lines(*lr),
{
    let ghost o = out@;
    if lr.trace_id.len() > 0 {
        push_str(out, "  trace_id=");
        push_str(out, hex_encode(&lr.trace_id).as_str());
        push_str(out, "\n");
    }
    let ghost m = out@;
    if lr.span_id.len() > 0 {
        push_str(out, "  span_id=");
        push_str(out, hex_encode(&lr.span_id).as_str());
        push_str(out, "\n");
    }
    proof {
        assert(out@ =~= o + ids_lines(*lr));
    }
}

fn push_attrs(out: &mut String, resource_attrs: &[KeyValue], lr: &LogRecord)
    ensures
        final(out)@ == old(out)@ + attrs_lines(resource_attrs@, *lr),
{
    let ghost o = out@;
    let extra = filter_resource_attrs(resource_attrs);
    if extra.len() > 0 {
        push_str(out, "  resource:\n");
        push_attr_lines(out, &extra);
    }
    if lr.attributes.len() > 0 {
        push_str(out, "  attributes:\n");
        let own = refs(&lr.attributes);
        push_attr_lines(out, &own);
    }
    proof {
        assert(out@ =~= o + attrs_lines(resource_attrs@, *lr));
    }
}

/// The block written for one record.
pub fn render_log_record(service_name: &str, resource_attrs: &[KeyValue], lr: &LogRecord, body: &str) -> (r:
    String)
    ensures
        r@ == rendered(service_name@, resource_attrs@, *lr, body@),
{
    let mut buf = String::new();
    push_str(&mut buf, LOG_SEPARATOR);
    push_str(&mut buf, "\n");
    push_when(&mut buf, lr);
    push_str(&mut buf, "[");
    push_str(&mut buf, service_name);
    push_str(&mut buf, "] ");
    push_str(&mut buf, body);
    push_str(&mut buf, "\n");
    push_ids(&mut buf, lr);
    push_attrs(&mut buf, resource_attrs, lr);
    proof {
        assert(buf@ =~= rendered(service_name@, resource_attrs@, *lr, body@));
    }
    buf
}

// ---------------------------------------------------------------------
// An export request
// ---------------------------------------------------------------------

/// The resource attributes of a batch.
pub open spec fn batch_attrs(rl: ResourceLogs) -> Seq<KeyValue> {
    match rl.resource {
        Some(r) => r.attributes@,
        None => Seq::empty(),
    }
}

/// The service a batch comes from; `unknown` when it does not say.
pub open spec fn batch_service(rl: ResourceLogs) -> Seq<char> {
    if service_name_of(batch_attrs(rl)).len() == 0 {
        "unknown"@
    } else {
        service_name_of(batch_attrs(rl))
    }
}

/// A record passes when its severity is at least `min` and its body
/// renders to some text.
pub open spec fn passes(lr: LogRecord, min: SeverityNumber) -> bool {
    lr.severity_number >= severity_value(min) && value_text(lr.body).len() > 0
}

pub open spec fn event_of(service: Seq<char>, lr: LogRecord) -> EventV {
    EventV {
        ts: record_time(lr) as i64,
        service,
        severity: record_severity(lr),
        body: value_text(lr.body),
    }
}

/// What a run of records writes, and the events it publishes.
pub open spec fn records_out(
    service: Seq<char>,
    attrs: Seq<KeyValue>,
    lrs: Seq<LogRecord>,
    min: SeverityNumber,
) -> (Seq<char>, Seq<EventV>)
    decreases lrs.len(),
{
    if lrs.len() == 0 {
        (Seq::empty(), Seq::empty())
    } else {
        let (o, e) = records_out(service, attrs, lrs.drop_last(), min);
        let lr = lrs.last();
        if passes(lr, min) {
            (o + rendered(service, attrs, lr, value_text(lr.body)), e.push(event_of(service, lr)))
        } else {
            (o, e)
        }
    }
}

pub open spec fn scopes_out(
    service: Seq<char>,
    attrs: Seq<KeyValue>,
    sls: Seq<ScopeLogs>,
    min: SeverityNumber,
) -> (Seq<char>, Seq<EventV>)
    decreases sls.len(),
{
    if sls.len() == 0 {
        (Seq::empty(), Seq::empty())
    } else {
        let (o, e) = scopes_out(service, attrs, sls.drop_last(), min);
        let (o2, e2) = records_out(service, attrs, sls.last().log_records@, min);
        (o + o2, e + e2)
    }
}

/// What an export request writes to the log, and the events it publishes,
/// in order.
pub open spec fn export_out(rls: Seq<ResourceLogs>, min: SeverityNumber) -> (Seq<char>, Seq<EventV>)
    decreases rls.len(),
{
    if rls.len() == 0 {
        (Seq::empty(), Seq::empty())
    } else {
        let (o, e) = export_out(rls.drop_last(), min);
        let rl = rls.last();
        let (o2, e2) = scopes_out(batch_service(rl), batch_attrs(rl), rl.scope_logs@, min);
        (o + o2, e + e2)
    }
}

pub open spec fn event_views(v: Seq<ErrorEvent>) -> Seq<EventV> {
    v.map_values(|e: ErrorEvent| e@)
}

fn records_step(
    out: &mut String,
    events: &mut Vec<ErrorEvent>,
    service: &String,
    attrs: &[KeyValue],
    lrs: &Vec<LogRecord>,
    min: SeverityNumber,
)
    ensures
        final(out)@ == old(out)@ + records_out(service@, attrs@, lrs@, min).0,
        event_views(final(events)@) == event_views(old(events)@) + records_out(service@, attrs@, lrs@, min).1,
{
    let min_n = min.as_i32();
    let mut i: usize = 0;
    proof {
        assert(old(out)@ + records_out(service@, attrs@, lrs@.take(0), min).0 =~= old(out)@);
        assert(event_views(old(events)@) + records_out(service@, attrs@, lrs@.take(0), min).1
            =~= event_views(old(events)@));
    }
    while i < lrs.len()
        invariant
            i <= lrs.len(),
            min_n == severity_value(min),
            out@ == old(out)@ + records_out(service@, attrs@, lrs@.take(i as int), min).0,
            event_views(events@) == event_views(old(events)@) + records_out(service@, attrs@, lrs@.take(i as int), min).1,
        decreases lrs.len() - i,
    {
        let lr = &lrs[i];
        proof {
            let t = lrs@.take(i as int + 1);
            assert(t.drop_last() =~= lrs@.take(i as int));
            assert(t.last() == lrs@[i as int]);
        }
        if lr.severity_number >= min_n {
            let body_opt = match &lr.body {
                Some(b) => Some(b),
                None => None,
            };
            let body = any_value_to_string(body_opt);
            if !body.as_str().is_empty() {
                let ghost o = out@;
                let block = render_log_record(service.as_str(), attrs, lr, body.as_str());
                push_str(out, block.as_str());
                let ts = if lr.time_unix_nano == 0 {
                    lr.observed_time_unix_nano
                } else {
                    lr.time_unix_nano
                };
                let ev = ErrorEvent {
                    timestamp_unix_nano: ts as i64,
                    service_name: service.clone(),
                    severity: severity_of(lr),
                    body,
                };
                let ghost eb = events@;
                events.push(ev);
                proof {
                    assert(event_views(events@) =~= event_views(eb).push(event_of(service@, *lr)));
                }
            }
        }
        i = i + 1;
    }
    proof {
        assert(lrs@.take(lrs.len() as int) =~= lrs@);
    }
}

/// Renders every record of `req` at or above `min_severity` whose body
/// has text: the text to append to the log and, in order, the events to
/// publish.
pub fn process_export_request(req: &ExportLogsServiceRequest, min_severity: SeverityNumber) -> (r: (
    String,
    Vec<ErrorEvent>,
))
    ensures
        r.0@ == export_out(req.resource_logs@, min_severity).0,
        event_views(r.1@) == export_out(req.resource_logs@, min_severity).1,
{
    let mut out = String::new();
    let mut events: Vec<ErrorEvent> = Vec::new();
    let rls = &req.resource_logs;
    let mut i: usize = 0;
    proof {
        assert(event_views(events@) =~= Seq::<EventV>::empty());
    }
    while i < rls.len()
        invariant
            i <= rls.len(),
            out@ == export_out(rls@.take(i as int), min_severity).0,
            event_views(events@) == export_out(rls@.take(i as int), min_severity).1,
        decreases rls.len() - i,
    {
        let rl = &rls[i];
        proof {
            let t = rls@.take(i as int + 1);
            assert(t.drop_last() =~= rls@.take(i as int));
            assert(t.last() == rls@[i as int]);
        }
        let empty: Vec<KeyValue> = Vec::new();
        let attrs: &[KeyValue] = match &rl.resource {
            Some(r) => r.attributes.as_slice(),
            None => empty.as_slice(),
        };
        proof {
            assert(attrs@ == batch_attrs(*rl));
        }
        let mut service = extract_service_name(attrs);
        if service.as_str().is_empty() {
            service = "unknown".to_owned();
        }
        let ghost o0 = out@;
        let ghost e0 = event_views(events@);
        let mut j: usize = 0;
        proof {
            assert(o0 + scopes_out(service@, attrs@, rl.scope_logs@.take(0), min_severity).0 =~= o0);
            assert(e0 + scopes_out(service@, attrs@, rl.scope_logs@.take(0), min_severity).1 =~= e0);
        }
        while j < rl.scope_logs.len()
            invariant
                j <= rl.scope_logs.len(),
                out@ == o0 + scopes_out(service@, attrs@, rl.scope_logs@.take(j as int), min_severity).0,
                event_views(events@) == e0 + scopes_out(service@, attrs@, rl.scope_logs@.take(j as int), min_severity).1,
            decreases rl.scope_logs.len() - j,
        {
            proof {
                let t = rl.scope_logs@.take(j as int + 1);
                assert(t.drop_last() =~= rl.scope_logs@.take(j as int));
                assert(t.last() == rl.scope_logs@[j as int]);
            }
            records_step(&mut out, &mut events, &service, attrs, &rl.scope_logs[j].log_records, min_severity);
            proof {
                let p = scopes_out(service@, attrs@, rl.scope_logs@.take(j as int), min_severity);
                let q = records_out(service@, attrs@, rl.scope_logs@[j as int].log_records@, min_severity);
                assert(out@ =~= o0 + (p.0 + q.0));
                assert(event_views(events@) =~= e0 + (p.1 + q.1));
            }
            j = j + 1;
        }
        proof {
            assert(rl.scope_logs@.take(rl.scope_logs.len() as int) =~= rl.scope_logs@);
            assert(service@ == batch_service(*rl));
        }
        i = i + 1;
    }
    proof {
        assert(rls@.take(rls.len() as int) =~= rls@);
    }
    (out, events)
}

// ---------------------------------------------------------------------
// The receiver's configuration
// ---------------------------------------------------------------------

/// The OTLP receiver's configuration.
#[derive(Debug)]
pub struct Collector {
    pub port: u16,
    /// `grpc` or `http`.
    pub protocol: String,
    pub min_severity: SeverityNumber,
    /// Where to publish error events to attached TUIs, if anywhere.
    pub notify_socket: Option<String>,
}

impl Collector {
    pub fn new(port: u16, protocol: String, min_severity: SeverityNumber) -> (c: Self)
        ensures
            c.port == port,
            c.protocol@ == protocol@,
            c.min_severity == min_severity,
            c.notify_socket is None,
    {
        Collector { port, protocol, min_severity, notify_socket: None }
    }

    /// The line the receiver prints once it listens, or the error for a
    /// protocol it does not speak.
    pub fn banner(&self) -> (r: Result<String, String>)
        ensures
            match r {
                Ok(s) => (self.protocol@ == "grpc"@ && s@ == "otel-collector: listening gRPC on :"@
                    + decimal_nat(self.port as nat) + " (min severity: "@ + label_of(self.min_severity)
                    + ")"@) || (self.protocol@ == "http"@ && s@ == "otel-collector: listening HTTP on :"@
                    + decimal_nat(self.port as nat) + " (min severity: "@ + label_of(self.min_severity)
                    + ")"@),
                Err(e) => self.protocol@ != "grpc"@ && self.protocol@ != "http"@ && e@
                    == "unsupported protocol "@ + crate::fmt::debug_quoted(self.protocol@),
            },
    {
        let head = if str_eq(self.protocol.as_str(), "grpc") {
            "otel-collector: listening gRPC on :"
        } else if str_eq(self.protocol.as_str(), "http") {
            "otel-collector: listening HTTP on :"
        } else {
            let mut e = "unsupported protocol ".to_owned();
            push_str(&mut e, crate::fmt::debug_quote(self.protocol.as_str()).as_str());
            return Err(e);
        };
        let mut s = head.to_owned();
        push_str(&mut s, u64_to_string(self.port as u64).as_str());
        push_str(&mut s, " (min severity: ");
        push_str(&mut s, severity_label(self.min_severity));
        push_str(&mut s, ")");
        Ok(s)
    }
}

/// Records are written and published one after another: the output for
/// two runs of records is the output for the first followed by the output
/// for the second.
pub proof fn lemma_records_out_concat(
    service: Seq<char>,
    attrs: Seq<KeyValue>,
    l1: Seq<LogRecord>,
    l2: Seq<LogRecord>,
    min: SeverityNumber,
)
    ensures
        records_out(service, attrs, l1 + l2, min).0 == records_out(service, attrs, l1, min).0 + records_out(
            service,
            attrs,
            l2,
            min,
        ).0,
        records_out(service, attrs, l1 + l2, min).1 == records_out(service, attrs, l1, min).1 + records_out(
            service,
            attrs,
            l2,
            min,
        ).1,
    decreases l2.len(),
{
    if l2.len() == 0 {
        assert(l1 + l2 =~= l1);
        assert(records_out(service, attrs, l1, min).0 + Seq::<char>::empty() =~= records_out(service, attrs, l1, min).0);
        assert(records_out(service, attrs, l1, min).1 + Seq::<EventV>::empty() =~= records_out(service, attrs, l1, min).1);
    } else {
        let l = l1 + l2;
        assert(l.drop_last() =~= l1 + l2.drop_last());
        assert(l.last() == l2.last());
        lemma_records_out_concat(service, attrs, l1, l2.drop_last(), min);
        let a = records_out(service, attrs, l1, min);
        let b = records_out(service, attrs, l2.drop_last(), min);
        let lr = l2.last();
        if passes(lr, min) {
            let r = rendered(service, attrs, lr, value_text(lr.body));
            assert(a.0 + b.0 + r =~= a.0 + (b.0 + r));
            assert((a.1 + b.1).push(event_of(service, lr)) =~= a.1 + b.1.push(event_of(service, lr)));
        }
    }
}

/// One record is written, and published, exactly when it passes the
/// severity threshold and has a body.
pub proof fn lemma_record_out_single(service: Seq<char>, attrs: Seq<KeyValue>, lr: LogRecord, min: SeverityNumber)
    ensures
        records_out(service, attrs, seq![lr], min).0 == (if lr.severity_number >= severity_value(min)
            && value_text(lr.body).len() > 0 {
            rendered(service, attrs, lr, value_text(lr.body))
        } else {
            Seq::<char>::empty()
        }),
        records_out(service, attrs, seq![lr], min).1 == (if lr.severity_number >= severity_value(min)
            && value_text(lr.body).len() > 0 {
            seq![event_of(service, lr)]
        } else {
            Seq::<EventV>::empty()
        }),
{
    let l = seq![lr];
    assert(l.drop_last() =~= Seq::<LogRecord>::empty());
    assert(l.last() == lr);
    let z = records_out(service, attrs, Seq::<LogRecord>::empty(), min);
    assert(z.0 == Seq::<char>::empty() && z.1 == Seq::<EventV>::empty());
    assert(Seq::<char>::empty() + rendered(service, attrs, lr, value_text(lr.body)) =~= rendered(
        service,
        attrs,
        lr,
        value_text(lr.body),
    ));
    assert(Seq::<EventV>::empty().push(event_of(service, lr)) =~= seq![event_of(service, lr)]);
}

/// Every scope of a batch is written in turn: the output for two runs of
/// scopes is the output for the first followed by the output for the
/// second.
pub proof fn lemma_scopes_out_concat(
    service: Seq<char>,
    attrs: Seq<KeyValue>,
    s: Seq<ScopeLogs>,
    t: Seq<ScopeLogs>,
    min: SeverityNumber,
)
    ensures
        scopes_out(service, attrs, s + t, min).0 == scopes_out(service, attrs, s, min).0 + scopes_out(
            service,
            attrs,
            t,
            min,
        ).0,
        scopes_out(service, attrs, s + t, min).1 == scopes_out(service, attrs, s, min).1 + scopes_out(
            service,
            attrs,
            t,
            min,
        ).1,
    decreases t.len(),
{
    if t.len() == 0 {
        assert(s + t =~= s);
        assert(scopes_out(service, attrs, s, min).0 + Seq::<char>::empty() =~= scopes_out(service, attrs, s, min).0);
        assert(scopes_out(service, attrs, s, min).1 + Seq::<EventV>::empty() =~= scopes_out(service, attrs, s, min).1);
    } else {
        let st = s + t;
        assert(st.drop_last() =~= s + t.drop_last());
        assert(st.last() == t.last());
        lemma_scopes_out_concat(service, attrs, s, t.drop_last(), min);
        let a = scopes_out(service, attrs, s, min);
        let b = scopes_out(service, attrs, t.drop_last(), min);
        let c = records_out(service, attrs, t.last().log_records@, min);
        assert(a.0 + b.0 + c.0 =~= a.0 + (b.0 + c.0));
        assert(a.1 + b.1 + c.1 =~= a.1 + (b.1 + c.1));
    }
}

/// A batch of one scope writes exactly that scope's records.
pub proof fn lemma_scope_out_single(service: Seq<char>, attrs: Seq<KeyValue>, x: ScopeLogs, min: SeverityNumber)
    ensures
        scopes_out(service, attrs, seq![x], min).0 == records_out(service, attrs, x.log_records@, min).0,
        scopes_out(service, attrs, seq![x], min).1 == records_out(service, attrs, x.log_records@, min).1,
{
    let l = seq![x];
    assert(l.drop_last() =~= Seq::<ScopeLogs>::empty());
    assert(l.last() == x);
    let z = scopes_out(service, attrs, Seq::<ScopeLogs>::empty(), min);
    assert(z.0 == Seq::<char>::empty() && z.1 == Seq::<EventV>::empty());
    let r = records_out(service, attrs, x.log_records@, min);
    assert(Seq::<char>::empty() + r.0 =~= r.0);
    assert(Seq::<EventV>::empty() + r.1 =~= r.1);
}

/// Every resource of a request is written in turn: the output for two runs
/// of resources is the output for the first followed by the output for the
/// second.
pub proof fn lemma_export_out_concat(r1: Seq<ResourceLogs>, r2: Seq<ResourceLogs>, min: SeverityNumber)
    ensures
        export_out(r1 + r2, min).0 == export_out(r1, min).0 + export_out(r2, min).0,
        export_out(r1 + r2, min).1 == export_out(r1, min).1 + export_out(r2, min).1,
    decreases r2.len(),
{
    if r2.len() == 0 {
        assert(r1 + r2 =~= r1);
        assert(export_out(r1, min).0 + Seq::<char>::empty() =~= export_out(r1, min).0);
        assert(export_out(r1, min).1 + Seq::<EventV>::empty() =~= export_out(r1, min).1);
    } else {
        let rr = r1 + r2;
        assert(rr.drop_last() =~= r1 + r2.drop_last());
        assert(rr.last() == r2.last());
        lemma_export_out_concat(r1, r2.drop_last(), min);
        let a = export_out(r1, min);
        let b = export_out(r2.drop_last(), min);
        let rl = r2.last();
        let c = scopes_out(batch_service(rl), batch_attrs(rl), rl.scope_logs@, min);
        assert(a.0 + b.0 + c.0 =~= a.0 + (b.0 + c.0));
        assert(a.1 + b.1 + c.1 =~= a.1 + (b.1 + c.1));
    }
}

} // verus!
