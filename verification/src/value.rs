//! OTLP `AnyValue` / `KeyValue` data as the library holds it, and the
//! helpers that render it.

use vstd::prelude::*;

use crate::text::{copy_string, i64_to_string, push_str, str_eq};

verus! {

/// The payload of an OTLP `AnyValue`.
#[derive(Debug, Clone)]
pub enum AnyVal {
    StringValue(String),
    IntValue(i64),
    /// A double, held as the text that `{}` writes for it: the library
    /// never touches floating point, so the value arrives already
    /// rendered.
    DoubleValue(String),
    BoolValue(bool),
    /// An array value; its elements are not rendered.
    ArrayValue,
    /// A key/value-list value; its entries are not rendered.
    KvlistValue,
    /// A bytes value; its bytes are not rendered.
    BytesValue,
}

/// An OTLP `AnyValue`: an optional payload.
#[derive(Debug, Clone)]
pub struct AnyValue {
    pub value: Option<AnyVal>,
}

/// An OTLP attribute.
#[derive(Debug, Clone)]
pub struct KeyValue {
    pub key: String,
    pub value: Option<AnyValue>,
}

/// How a value is shown: bare text for strings, decimal for integers,
/// the rendered text for doubles, `true`/`false` for booleans, and empty
/// text for a missing value or an array, list or bytes payload.
pub open spec fn value_text(v: Option<AnyValue>) -> Seq<char> {
    match v {
        None => Seq::empty(),
        Some(av) => match av.value {
            Some(AnyVal::StringValue(s)) => s@,
            Some(AnyVal::IntValue(i)) => crate::text::decimal(i as int),
            Some(AnyVal::DoubleValue(d)) => d@,
            Some(AnyVal::BoolValue(b)) => if b {
                "true"@
            } else {
                "false"@
            },
            _ => Seq::empty(),
        },
    }
}

/// Stringify an OTLP `AnyValue` for human-readable output.
pub fn any_value_to_string(v: Option<&AnyValue>) -> (r: String)
    ensures
        r@ == value_text(match v {
            Some(x) => Some(*x),
            None => None,
        }),
{
    let Some(v) = v else {
        return String::new();
    };
    match &v.value {
        Some(AnyVal::StringValue(s)) => copy_string(s),
        Some(AnyVal::IntValue(i)) => i64_to_string(*i),
        Some(AnyVal::DoubleValue(d)) => copy_string(d),
        Some(AnyVal::BoolValue(b)) => {
            let mut out = String::new();
            if *b {
                push_str(&mut out, "true");
            } else {
                push_str(&mut out, "false");
            }
            out
        },
        _ => String::new(),
    }
}

/// The attribute key that names the emitting service.
pub open spec fn is_service_key(k: Seq<char>) -> bool {
    k == "service.name"@
}

/// The string value of the first `service.name` attribute that holds a
/// string, or empty text.
pub open spec fn service_name_of(attrs: Seq<KeyValue>) -> Seq<char>
    decreases attrs.len(),
{
    if attrs.len() == 0 {
        Seq::empty()
    } else {
        let kv = attrs[0];
        match string_payload(kv.value) {
            Some(s) => if is_service_key(kv.key@) {
                s
            } else {
                service_name_of(attrs.drop_first())
            },
            None => service_name_of(attrs.drop_first()),
        }
    }
}

/// The text of a string payload.
pub open spec fn string_payload(v: Option<AnyValue>) -> Option<Seq<char>> {
    match v {
        Some(av) => match av.value {
            Some(AnyVal::StringValue(s)) => Some(s@),
            _ => None,
        },
        None => None,
    }
}

/// Locate `service.name` in a resource attributes slice.
pub fn extract_service_name(attrs: &[KeyValue]) -> (r: String)
    ensures
        r@ == service_name_of(attrs@),
{
    let mut i: usize = 0;
    proof {
        assert(attrs@.skip(0) == attrs@);
    }
    while i < attrs.len()
        invariant
            i <= attrs.len(),
            service_name_of(attrs@) == service_name_of(attrs@.skip(i as int)),
        decreases attrs.len() - i,
    {
        let kv = &attrs[i];
        proof {
            assert(attrs@.skip(i as int)[0] == attrs@[i as int]);
            assert(attrs@.skip(i as int).drop_first() == attrs@.skip(i as int + 1));
        }
        if str_eq(kv.key.as_str(), "service.name") {
            if let Some(v) = &kv.value {
                if let Some(AnyVal::StringValue(s)) = &v.value {
                    return copy_string(s);
                }
            }
        }
        i = i + 1;
    }
    String::new()
}

/// The attributes other than `service.name`, in order.
pub open spec fn non_service_attrs(attrs: Seq<KeyValue>) -> Seq<KeyValue>
    decreases attrs.len(),
{
    if attrs.len() == 0 {
        Seq::empty()
    } else if is_service_key(attrs.last().key@) {
        non_service_attrs(attrs.drop_last())
    } else {
        non_service_attrs(attrs.drop_last()).push(attrs.last())
    }
}

/// Return the resource attributes minus `service.name` (which is already
/// shown in the rendered header line).
pub fn filter_resource_attrs(attrs: &[KeyValue]) -> (r: Vec<&KeyValue>)
    ensures
        r@.map_values(|k: &KeyValue| *k) == non_service_attrs(attrs@),
{
    let mut r: Vec<&KeyValue> = Vec::new();
    let mut i: usize = 0;
    while i < attrs.len()
        invariant
            i <= attrs.len(),
            r@.map_values(|k: &KeyValue| *k) == non_service_attrs(attrs@.take(i as int)),
        decreases attrs.len() - i,
    {
        let ghost r0 = r@;
        proof {
            assert(attrs@.take(i as int + 1).drop_last() == attrs@.take(i as int));
            assert(attrs@.take(i as int + 1).last() == attrs@[i as int]);
        }
        if !str_eq(attrs[i].key.as_str(), "service.name") {
            r.push(&attrs[i]);
            proof {
                assert(r@.map_values(|k: &KeyValue| *k) =~= r0.map_values(|k: &KeyValue| *k).push(
                    attrs@[i as int],
                ));
            }
        }
        i = i + 1;
    }
    proof {
        assert(attrs@.take(attrs.len() as int) == attrs@);
    }
    r
}

} // verus!
