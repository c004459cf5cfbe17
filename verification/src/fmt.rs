//! Text that the library takes from std's formatting and Unicode tables
//! and from `chrono`'s calendar, named rather than restated.

use vstd::prelude::*;

verus! {

/// What `format!("{:?}", s)` writes for the string `s`: the text in double
/// quotes, with `"`, `\` and non-printable characters escaped.
pub uninterp spec fn debug_quoted(s: Seq<char>) -> Seq<char>;

/// `format!("{:?}", s)` for a string. The result is a function of `s`
/// alone; its exact escaping rules (Unicode's printable set) are left to
/// std and not restated here.
#[verifier::external_body]
pub(crate) fn debug_quote(s: &str) -> (r: String)
    ensures
        r@ == debug_quoted(s@),
{
    format!("{:?}", s)
}

/// What `str::to_lowercase` gives for `s`: each character mapped by
/// Unicode's lowercase table.
pub uninterp spec fn lowercased(s: Seq<char>) -> Seq<char>;

/// `str::to_lowercase`. The result is a function of `s` alone; Unicode's
/// case tables are left to std and not restated here.
#[verifier::external_body]
pub(crate) fn to_lower(s: &str) -> (r: String)
    ensures
        r@ == lowercased(s@),
{
    s.to_lowercase()
}

/// What `String::from_utf8_lossy` gives for `bytes`: the bytes decoded as
/// UTF-8, each invalid sequence replaced by U+FFFD.
pub uninterp spec fn utf8_lossy(bytes: Seq<u8>) -> Seq<char>;

/// `String::from_utf8_lossy(bytes).into_owned()`. The text is a function of
/// the bytes alone; the decoder's rules for invalid input are std's and
/// not restated here.
#[verifier::external_body]
pub(crate) fn decode_lossy(bytes: &[u8]) -> (r: String)
    ensures
        r@ == utf8_lossy(bytes@),
{
    String::from_utf8_lossy(bytes).into_owned()
}

/// The view of an optional string.
pub open spec fn opt_text(o: Option<String>) -> Option<Seq<char>> {
    match o {
        Some(s) => Some(s@),
        None => None,
    }
}

/// chrono's `%+` rendering of the UTC instant `secs` seconds and `nanos`
/// nanoseconds after the Unix epoch (`2001-07-08T00:34:60.026490+00:00`
/// style), or `None` where chrono cannot represent the instant.
pub uninterp spec fn iso8601_utc(secs: i64, nanos: u32) -> Option<Seq<char>>;

/// `DateTime::from_timestamp(secs, nanos)` followed by `format("%+")`.
/// The text, and whether there is one, are functions of the arguments
/// alone; chrono's calendar arithmetic is not restated here.
#[verifier::external_body]
pub(crate) fn format_iso8601(secs: i64, nanos: u32) -> (r: Option<String>)
    ensures
        opt_text(r) == iso8601_utc(secs, nanos),
{
    match chrono::DateTime::from_timestamp(secs, nanos) {
        Some(d) => Some(d.format("%+").to_string()),
        None => None,
    }
}

/// chrono's RFC 3339 rendering with `SecondsFormat::AutoSi` and a `Z`
/// suffix of the UTC instant `secs`.`nanos` after the Unix epoch
/// (`2018-01-26T18:30:09.453Z` style), or `None` where chrono cannot
/// represent the instant.
pub uninterp spec fn rfc3339_utc(secs: i64, nanos: u32) -> Option<Seq<char>>;

/// `DateTime::from_timestamp(secs, nanos)` followed by
/// `to_rfc3339_opts(SecondsFormat::AutoSi, true)`. As above, a function
/// of the arguments alone.
#[verifier::external_body]
pub(crate) fn format_rfc3339(secs: i64, nanos: u32) -> (r: Option<String>)
    ensures
        opt_text(r) == rfc3339_utc(secs, nanos),
{
    match chrono::DateTime::from_timestamp(secs, nanos) {
        Some(d) => Some(d.to_rfc3339_opts(chrono::SecondsFormat::AutoSi, true)),
        None => None,
    }
}

} // verus!
