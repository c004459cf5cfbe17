use tukituki::severity::{parse_severity, severity_label, SeverityNumber, SEVERITY_NAMES};

#[test]
fn parse_severity_known_names() {
    let cases = [
        ("trace", SeverityNumber::Trace),
        ("debug", SeverityNumber::Debug),
        ("info", SeverityNumber::Info),
        ("warn", SeverityNumber::Warn),
        ("error", SeverityNumber::Error),
        ("fatal", SeverityNumber::Fatal),
    ];
    for (input, want) in cases {
        let got = parse_severity(input).expect(input);
        assert_eq!(got, want, "input={input:?}");
    }
}

#[test]
fn parse_severity_case_insensitive() {
    assert_eq!(parse_severity("ERROR").unwrap(), SeverityNumber::Error);
    assert_eq!(parse_severity("Warn").unwrap(), SeverityNumber::Warn);
}

#[test]
fn parse_severity_invalid() {
    let err = parse_severity("bogus").unwrap_err();
    assert!(err.message().contains("bogus"));
}

#[test]
fn severity_names_count() {
    assert_eq!(SEVERITY_NAMES.len(), 6);
}

#[test]
fn parse_severity_error_message_is_exact() {
    let err = parse_severity("loud").unwrap_err();
    assert_eq!(
        err.message(),
        "unknown severity \"loud\" (valid: trace, debug, info, warn, error, fatal)"
    );
}

#[test]
fn every_label_parses_back_case_insensitively() {
    for name in SEVERITY_NAMES {
        let level = parse_severity(name).unwrap();
        assert_eq!(severity_label(level).to_lowercase(), name);
    }
}

#[test]
fn severity_numbers_round_trip() {
    for n in 0..=24 {
        let s = SeverityNumber::from_i32(n).unwrap();
        assert_eq!(s.as_i32(), n);
    }
    assert!(SeverityNumber::from_i32(25).is_none());
    assert!(SeverityNumber::from_i32(-1).is_none());
    assert_eq!(severity_label(SeverityNumber::Error3), "ERROR3");
    assert_eq!(severity_label(SeverityNumber::Unspecified), "UNSPECIFIED");
}

#[test]
fn parsed_level_names_label_in_capitals() {
    for s in ["trace", "debug", "info", "warn", "error", "fatal", "Warn", "eRRoR"] {
        assert_eq!(severity_label(parse_severity(s).unwrap()), s.to_ascii_uppercase());
    }
}
