use tukituki::value::{any_value_to_string, extract_service_name, filter_resource_attrs, AnyVal, AnyValue, KeyValue};

fn s(v: &str) -> AnyValue {
    AnyValue { value: Some(AnyVal::StringValue(v.into())) }
}
fn i(v: i64) -> AnyValue {
    AnyValue { value: Some(AnyVal::IntValue(v)) }
}
fn d(v: f64) -> AnyValue {
    AnyValue { value: Some(AnyVal::DoubleValue(format!("{v}"))) }
}
fn b(v: bool) -> AnyValue {
    AnyValue { value: Some(AnyVal::BoolValue(v)) }
}

#[test]
fn any_value_to_string_cases() {
    assert_eq!(any_value_to_string(None), "");
    assert_eq!(any_value_to_string(Some(&s("hello"))), "hello");
    assert_eq!(any_value_to_string(Some(&i(42))), "42");
    assert_eq!(any_value_to_string(Some(&d(2.5))), "2.5");
    assert_eq!(any_value_to_string(Some(&b(true))), "true");
}

#[test]
fn any_value_to_string_other_payloads() {
    assert_eq!(any_value_to_string(Some(&i(-7))), "-7");
    assert_eq!(any_value_to_string(Some(&b(false))), "false");
    assert_eq!(any_value_to_string(Some(&AnyValue { value: None })), "");
    assert_eq!(any_value_to_string(Some(&AnyValue { value: Some(AnyVal::ArrayValue) })), "");
}

#[test]
fn extract_service_name_present() {
    let attrs = vec![
        KeyValue { key: "host.name".into(), value: Some(s("localhost")) },
        KeyValue { key: "service.name".into(), value: Some(s("my-api")) },
    ];
    assert_eq!(extract_service_name(&attrs), "my-api");
}

#[test]
fn extract_service_name_missing() {
    let attrs = vec![KeyValue { key: "host.name".into(), value: Some(s("localhost")) }];
    assert_eq!(extract_service_name(&attrs), "");
}

#[test]
fn filter_resource_attrs_drops_service_name() {
    let attrs = vec![
        KeyValue { key: "service.name".into(), value: Some(s("my-api")) },
        KeyValue { key: "host.name".into(), value: Some(s("localhost")) },
    ];
    let filtered = filter_resource_attrs(&attrs);
    assert_eq!(filtered.len(), 1);
    assert_eq!(filtered[0].key, "host.name");
}
