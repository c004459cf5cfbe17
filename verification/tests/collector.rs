use tukituki::collector::{
    hex_encode, process_export_request, render_log_record, Collector, ExportLogsServiceRequest, LogRecord,
    Resource, ResourceLogs, ScopeLogs, LOG_SEPARATOR,
};
use tukituki::severity::SeverityNumber;
use tukituki::value::{AnyVal, AnyValue, KeyValue};

fn av_string(s: &str) -> AnyValue {
    AnyValue { value: Some(AnyVal::StringValue(s.into())) }
}

fn record(sev: SeverityNumber, body: &str) -> LogRecord {
    LogRecord {
        time_unix_nano: 0,
        observed_time_unix_nano: 0,
        severity_number: sev.as_i32(),
        severity_text: String::new(),
        body: Some(av_string(body)),
        attributes: Vec::new(),
        trace_id: Vec::new(),
        span_id: Vec::new(),
    }
}

fn build_export_request(service: &str, entries: &[(SeverityNumber, &str)]) -> ExportLogsServiceRequest {
    let records = entries.iter().map(|(sev, body)| record(*sev, body)).collect();
    ExportLogsServiceRequest {
        resource_logs: vec![ResourceLogs {
            resource: Some(Resource {
                attributes: vec![KeyValue { key: "service.name".into(), value: Some(av_string(service)) }],
            }),
            scope_logs: vec![ScopeLogs { log_records: records }],
        }],
    }
}

fn header_lines(s: &str) -> Vec<&str> {
    s.lines().filter(|l| l.starts_with('[')).collect()
}

#[test]
fn process_export_filters_below_threshold() {
    let req = build_export_request(
        "test-svc",
        &[(SeverityNumber::Info, "just info"), (SeverityNumber::Debug, "debug msg"), (SeverityNumber::Warn, "a warning")],
    );
    let (out, events) = process_export_request(&req, SeverityNumber::Error);
    assert!(out.is_empty(), "expected no output, got {out:?}");
    assert!(events.is_empty());
}

#[test]
fn process_export_passes_above_threshold() {
    let req = build_export_request(
        "my-api",
        &[
            (SeverityNumber::Info, "info 1"),
            (SeverityNumber::Error, "something broke"),
            (SeverityNumber::Fatal, "panic"),
            (SeverityNumber::Info, "info 2"),
        ],
    );
    let (out, events) = process_export_request(&req, SeverityNumber::Error);
    assert_eq!(header_lines(&out), vec!["[my-api] something broke", "[my-api] panic"]);
    assert_eq!(events.len(), 2);
    assert_eq!(events[0].severity, "ERROR");
    assert_eq!(events[1].severity, "FATAL");
    assert_eq!(events[1].service_name, "my-api");
}

#[test]
fn process_export_ten_info_one_error_ten_info() {
    let mut entries: Vec<(SeverityNumber, String)> =
        (0..10).map(|i| (SeverityNumber::Info, format!("info log {i}"))).collect();
    entries.push((SeverityNumber::Error, "database connection refused".into()));
    for i in 10..20 {
        entries.push((SeverityNumber::Info, format!("info log {i}")));
    }
    let entries_ref: Vec<(SeverityNumber, &str)> = entries.iter().map(|(s, b)| (*s, b.as_str())).collect();
    let req = build_export_request("api", &entries_ref);
    let (out, _) = process_export_request(&req, SeverityNumber::Error);
    assert_eq!(header_lines(&out), vec!["[api] database connection refused"]);
}

#[test]
fn process_export_unknown_service_name() {
    let req = ExportLogsServiceRequest {
        resource_logs: vec![ResourceLogs {
            resource: Some(Resource { attributes: Vec::new() }),
            scope_logs: vec![ScopeLogs { log_records: vec![record(SeverityNumber::Error, "boom")] }],
        }],
    };
    let (out, _) = process_export_request(&req, SeverityNumber::Error);
    assert_eq!(header_lines(&out), vec!["[unknown] boom"]);
}

#[test]
fn empty_bodies_are_skipped() {
    let req = build_export_request("svc", &[(SeverityNumber::Error, "")]);
    let (out, events) = process_export_request(&req, SeverityNumber::Error);
    assert!(out.is_empty());
    assert!(events.is_empty());
}

#[test]
fn render_full_record_exactly() {
    let lr = LogRecord {
        time_unix_nano: 1_516_991_409_453_000_000,
        observed_time_unix_nano: 0,
        severity_number: 17,
        severity_text: String::new(),
        body: Some(av_string("boom")),
        attributes: vec![KeyValue { key: "code".into(), value: Some(AnyValue { value: Some(AnyVal::IntValue(500)) }) }],
        trace_id: vec![0xab, 0x01],
        span_id: vec![0xff],
    };
    let attrs = vec![
        KeyValue { key: "service.name".into(), value: Some(av_string("api")) },
        KeyValue { key: "host.name".into(), value: Some(av_string("box")) },
    ];
    let got = render_log_record("api", &attrs, &lr, "boom");
    let want = format!(
        "{LOG_SEPARATOR}\n2018-01-26T18:30:09.453Z  ERROR\n[api] boom\n  trace_id=ab01\n  span_id=ff\n  resource:\n    host.name=box\n  attributes:\n    code=500\n"
    );
    assert_eq!(got, want);
}

#[test]
fn render_uses_severity_text_and_no_time() {
    let mut lr = record(SeverityNumber::Warn, "hi");
    lr.severity_text = "warning".into();
    let got = render_log_record("svc", &[], &lr, "hi");
    assert_eq!(got, format!("{LOG_SEPARATOR}\nwarning\n[svc] hi\n"));
}

#[test]
fn hex_is_lower_case_two_digits() {
    assert_eq!(hex_encode(&vec![0, 15, 16, 255]), "000f10ff");
    assert_eq!(hex_encode(&vec![]), "");
}

#[test]
fn collector_banner() {
    let c = Collector::new(4317, "grpc".into(), SeverityNumber::Error);
    assert_eq!(c.banner().unwrap(), "otel-collector: listening gRPC on :4317 (min severity: ERROR)");
    let h = Collector::new(4318, "http".into(), SeverityNumber::Warn);
    assert_eq!(h.banner().unwrap(), "otel-collector: listening HTTP on :4318 (min severity: WARN)");
    let bad = Collector::new(1, "udp".into(), SeverityNumber::Warn);
    assert_eq!(bad.banner().unwrap_err(), "unsupported protocol \"udp\"");
}
