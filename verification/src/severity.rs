//! Human-readable severity names and the OTLP `SeverityNumber` scale.
//!
//! A name picks the *minimum* severity number that qualifies, so "error"
//! admits ERROR, ERROR2, ERROR3, ERROR4, and the four FATAL sub-levels too.

use vstd::prelude::*;

use crate::text::{chars_of, push_str};

verus! {

/// The OTLP severity scale, 0 (unspecified) to 24 (FATAL4).
#[derive(Debug, Clone, Copy, PartialEq, Eq, Structural)]
pub enum SeverityNumber {
    Unspecified,
    Trace,
    Trace2,
    Trace3,
    Trace4,
    Debug,
    Debug2,
    Debug3,
    Debug4,
    Info,
    Info2,
    Info3,
    Info4,
    Warn,
    Warn2,
    Warn3,
    Warn4,
    Error,
    Error2,
    Error3,
    Error4,
    Fatal,
    Fatal2,
    Fatal3,
    Fatal4,
}

/// Recognised severity-level names, in ascending order.
pub const SEVERITY_NAMES: [&'static str; 6] = ["trace", "debug", "info", "warn", "error", "fatal"];

/// The wire number of each level.
pub open spec fn severity_value(s: SeverityNumber) -> int {
    match s {
        SeverityNumber::Unspecified => 0,
        SeverityNumber::Trace => 1,
        SeverityNumber::Trace2 => 2,
        SeverityNumber::Trace3 => 3,
        SeverityNumber::Trace4 => 4,
        SeverityNumber::Debug => 5,
        SeverityNumber::Debug2 => 6,
        SeverityNumber::Debug3 => 7,
        SeverityNumber::Debug4 => 8,
        SeverityNumber::Info => 9,
        SeverityNumber::Info2 => 10,
        SeverityNumber::Info3 => 11,
        SeverityNumber::Info4 => 12,
        SeverityNumber::Warn => 13,
        SeverityNumber::Warn2 => 14,
        SeverityNumber::Warn3 => 15,
        SeverityNumber::Warn4 => 16,
        SeverityNumber::Error => 17,
        SeverityNumber::Error2 => 18,
        SeverityNumber::Error3 => 19,
        SeverityNumber::Error4 => 20,
        SeverityNumber::Fatal => 21,
        SeverityNumber::Fatal2 => 22,
        SeverityNumber::Fatal3 => 23,
        SeverityNumber::Fatal4 => 24,
    }
}

impl SeverityNumber {
    /// The wire number (`severity as i32`).
    pub fn as_i32(self) -> (r: i32)
        ensures
            r == severity_value(self),
    {
        match self {
            SeverityNumber::Unspecified => 0,
            SeverityNumber::Trace => 1,
            SeverityNumber::Trace2 => 2,
            SeverityNumber::Trace3 => 3,
            SeverityNumber::Trace4 => 4,
            SeverityNumber::Debug => 5,
            SeverityNumber::Debug2 => 6,
            SeverityNumber::Debug3 => 7,
            SeverityNumber::Debug4 => 8,
            SeverityNumber::Info => 9,
            SeverityNumber::Info2 => 10,
            SeverityNumber::Info3 => 11,
            SeverityNumber::Info4 => 12,
            SeverityNumber::Warn => 13,
            SeverityNumber::Warn2 => 14,
            SeverityNumber::Warn3 => 15,
            SeverityNumber::Warn4 => 16,
            SeverityNumber::Error => 17,
            SeverityNumber::Error2 => 18,
            SeverityNumber::Error3 => 19,
            SeverityNumber::Error4 => 20,
            SeverityNumber::Fatal => 21,
            SeverityNumber::Fatal2 => 22,
            SeverityNumber::Fatal3 => 23,
            SeverityNumber::Fatal4 => 24,
        }
    }

    /// `SeverityNumber::try_from(n)`: the level with wire number `n`.
    pub fn from_i32(n: i32) -> (r: Option<SeverityNumber>)
        ensures
            match r {
                Some(s) => severity_value(s) == n,
                None => n < 0 || n > 24,
            },
    {
        if n == 0 {
            Some(SeverityNumber::Unspecified)
        } else if n == 1 {
            Some(SeverityNumber::Trace)
        } else if n == 2 {
            Some(SeverityNumber::Trace2)
        } else if n == 3 {
            Some(SeverityNumber::Trace3)
        } else if n == 4 {
            Some(SeverityNumber::Trace4)
        } else if n == 5 {
            Some(SeverityNumber::Debug)
        } else if n == 6 {
            Some(SeverityNumber::Debug2)
        } else if n == 7 {
            Some(SeverityNumber::Debug3)
        } else if n == 8 {
            Some(SeverityNumber::Debug4)
        } else if n == 9 {
            Some(SeverityNumber::Info)
        } else if n == 10 {
            Some(SeverityNumber::Info2)
        } else if n == 11 {
            Some(SeverityNumber::Info3)
        } else if n == 12 {
            Some(SeverityNumber::Info4)
        } else if n == 13 {
            Some(SeverityNumber::Warn)
        } else if n == 14 {
            Some(SeverityNumber::Warn2)
        } else if n == 15 {
            Some(SeverityNumber::Warn3)
        } else if n == 16 {
            Some(SeverityNumber::Warn4)
        } else if n == 17 {
            Some(SeverityNumber::Error)
        } else if n == 18 {
            Some(SeverityNumber::Error2)
        } else if n == 19 {
            Some(SeverityNumber::Error3)
        } else if n == 20 {
            Some(SeverityNumber::Error4)
        } else if n == 21 {
            Some(SeverityNumber::Fatal)
        } else if n == 22 {
            Some(SeverityNumber::Fatal2)
        } else if n == 23 {
            Some(SeverityNumber::Fatal3)
        } else if n == 24 {
            Some(SeverityNumber::Fatal4)
        } else {
            None
        }
    }
}

/// A severity name that `parse_severity` does not know.
#[derive(Debug)]
pub struct ParseSeverityError {
    pub input: String,
}

impl ParseSeverityError {
    /// The error text: `unknown severity "<input>" (valid: ...)`, the input
    /// quoted as `{:?}` writes a string.
    pub fn message(&self) -> (r: String)
        ensures
            r@ == "unknown severity "@ + crate::fmt::debug_quoted(self.input@)
                + " (valid: trace, debug, info, warn, error, fatal)"@,
    {
        let mut out = String::new();
        push_str(&mut out, "unknown severity ");
        let q = crate::fmt::debug_quote(self.input.as_str());
        push_str(&mut out, q.as_str());
        push_str(&mut out, " (valid: trace, debug, info, warn, error, fatal)");
        out
    }
}

/// ASCII lower-casing of one character (`char::to_ascii_lowercase`).
pub open spec fn ascii_lower_char(c: char) -> char {
    if 'A' <= c && c <= 'Z' {
        ((c as u32) + 32) as char
    } else {
        c
    }
}

/// `str::to_ascii_lowercase`.
pub open spec fn ascii_lower(s: Seq<char>) -> Seq<char> {
    s.map_values(|c: char| ascii_lower_char(c))
}

/// The level that a (lower-case) name selects.
pub open spec fn level_of_name(lc: Seq<char>) -> Option<SeverityNumber> {
    if lc == "trace"@ {
        Some(SeverityNumber::Trace)
    } else if lc == "debug"@ {
        Some(SeverityNumber::Debug)
    } else if lc == "info"@ {
        Some(SeverityNumber::Info)
    } else if lc == "warn"@ {
        Some(SeverityNumber::Warn)
    } else if lc == "error"@ {
        Some(SeverityNumber::Error)
    } else if lc == "fatal"@ {
        Some(SeverityNumber::Fatal)
    } else {
        None
    }
}

fn lower_char(c: char) -> (r: char)
    ensures
        r == ascii_lower_char(c),
{
    if 'A' <= c && c <= 'Z' {
        ((c as u8) + 32) as char
    } else {
        c
    }
}

/// The characters of `s`, ASCII-lower-cased.
pub fn ascii_lowercase(s: &str) -> (r: Vec<char>)
    ensures
        r@ == ascii_lower(s@),
{
    let v = chars_of(s);
    let mut r: Vec<char> = Vec::new();
    let mut i: usize = 0;
    while i < v.len()
        invariant
            v@ == s@,
            i <= v.len(),
            r@ == ascii_lower(v@.take(i as int)),
        decreases v.len() - i,
    {
        r.push(lower_char(v[i]));
        proof {
            assert(ascii_lower(v@.take(i as int + 1)) =~= ascii_lower(v@.take(i as int)).push(
                ascii_lower_char(v@[i as int]),
            ));
        }
        i = i + 1;
    }
    proof {
        assert(v@.take(v.len() as int) == v@);
    }
    r
}

fn chars_eq(a: &Vec<char>, lit: &str) -> (r: bool)
    ensures
        r == (a@ == lit@),
{
    let b = chars_of(lit);
    if a.len() != b.len() {
        return false;
    }
    let mut i: usize = 0;
    while i < a.len()
        invariant
            b@ == lit@,
            a.len() == b.len(),
            i <= a.len(),
            forall|k: int| 0 <= k < i ==> a@[k] == b@[k],
        decreases a.len() - i,
    {
        if a[i] != b[i] {
            proof {
                assert(a@[i as int] != b@[i as int]);
            }
            return false;
        }
        i = i + 1;
    }
    proof {
        assert(a@ =~= b@);
    }
    true
}

/// Parses a severity name, case-insensitively.
pub fn parse_severity(name: &str) -> (r: Result<SeverityNumber, ParseSeverityError>)
    ensures
        match r {
            Ok(s) => level_of_name(ascii_lower(name@)) == Some(s),
            Err(e) => level_of_name(ascii_lower(name@)) is None && e.input@ == name@,
        },
{
    let lc = ascii_lowercase(name);
    if chars_eq(&lc, "trace") {
        Ok(SeverityNumber::Trace)
    } else if chars_eq(&lc, "debug") {
        Ok(SeverityNumber::Debug)
    } else if chars_eq(&lc, "info") {
        Ok(SeverityNumber::Info)
    } else if chars_eq(&lc, "warn") {
        Ok(SeverityNumber::Warn)
    } else if chars_eq(&lc, "error") {
        Ok(SeverityNumber::Error)
    } else if chars_eq(&lc, "fatal") {
        Ok(SeverityNumber::Fatal)
    } else {
        Err(ParseSeverityError { input: crate::text::string_of(&chars_of(name)) })
    }
}

/// The label of each level: the OTLP enum name without its
/// `SEVERITY_NUMBER_` prefix.
pub open spec fn label_of(n: SeverityNumber) -> Seq<char> {
    match n {
        SeverityNumber::Unspecified => "UNSPECIFIED"@,
        SeverityNumber::Trace => "TRACE"@,
        SeverityNumber::Trace2 => "TRACE2"@,
        SeverityNumber::Trace3 => "TRACE3"@,
        SeverityNumber::Trace4 => "TRACE4"@,
        SeverityNumber::Debug => "DEBUG"@,
        SeverityNumber::Debug2 => "DEBUG2"@,
        SeverityNumber::Debug3 => "DEBUG3"@,
        SeverityNumber::Debug4 => "DEBUG4"@,
        SeverityNumber::Info => "INFO"@,
        SeverityNumber::Info2 => "INFO2"@,
        SeverityNumber::Info3 => "INFO3"@,
        SeverityNumber::Info4 => "INFO4"@,
        SeverityNumber::Warn => "WARN"@,
        SeverityNumber::Warn2 => "WARN2"@,
        SeverityNumber::Warn3 => "WARN3"@,
        SeverityNumber::Warn4 => "WARN4"@,
        SeverityNumber::Error => "ERROR"@,
        SeverityNumber::Error2 => "ERROR2"@,
        SeverityNumber::Error3 => "ERROR3"@,
        SeverityNumber::Error4 => "ERROR4"@,
        SeverityNumber::Fatal => "FATAL"@,
        SeverityNumber::Fatal2 => "FATAL2"@,
        SeverityNumber::Fatal3 => "FATAL3"@,
        SeverityNumber::Fatal4 => "FATAL4"@,
    }
}

/// Strip the `SEVERITY_NUMBER_` prefix from the OTLP enum name so output
/// reads "ERROR" instead of "SEVERITY_NUMBER_ERROR".
pub fn severity_label(n: SeverityNumber) -> (r: &'static str)
    ensures
        r@ == label_of(n),
{
    match n {
        SeverityNumber::Unspecified => "UNSPECIFIED",
        SeverityNumber::Trace => "TRACE",
        SeverityNumber::Trace2 => "TRACE2",
        SeverityNumber::Trace3 => "TRACE3",
        SeverityNumber::Trace4 => "TRACE4",
        SeverityNumber::Debug => "DEBUG",
        SeverityNumber::Debug2 => "DEBUG2",
        SeverityNumber::Debug3 => "DEBUG3",
        SeverityNumber::Debug4 => "DEBUG4",
        SeverityNumber::Info => "INFO",
        SeverityNumber::Info2 => "INFO2",
        SeverityNumber::Info3 => "INFO3",
        SeverityNumber::Info4 => "INFO4",
        SeverityNumber::Warn => "WARN",
        SeverityNumber::Warn2 => "WARN2",
        SeverityNumber::Warn3 => "WARN3",
        SeverityNumber::Warn4 => "WARN4",
        SeverityNumber::Error => "ERROR",
        SeverityNumber::Error2 => "ERROR2",
        SeverityNumber::Error3 => "ERROR3",
        SeverityNumber::Error4 => "ERROR4",
        SeverityNumber::Fatal => "FATAL",
        SeverityNumber::Fatal2 => "FATAL2",
        SeverityNumber::Fatal3 => "FATAL3",
        SeverityNumber::Fatal4 => "FATAL4",
    }
}

/// Each of the six level names parses back, in any letter case that
/// `severity_label` prints it in, to the level it names: the label of a
/// named level, lower-cased, is its name.
pub proof fn lemma_label_parses_back(n: SeverityNumber)
    requires
        n == SeverityNumber::Trace || n == SeverityNumber::Debug || n == SeverityNumber::Info || n
            == SeverityNumber::Warn || n == SeverityNumber::Error || n == SeverityNumber::Fatal,
    ensures
        level_of_name(ascii_lower(label_of(n))) == Some(n),
{
    reveal_strlit("TRACE");
    reveal_strlit("trace");
    reveal_strlit("DEBUG");
    reveal_strlit("debug");
    reveal_strlit("INFO");
    reveal_strlit("info");
    reveal_strlit("WARN");
    reveal_strlit("warn");
    reveal_strlit("ERROR");
    reveal_strlit("error");
    reveal_strlit("FATAL");
    reveal_strlit("fatal");
    let l = label_of(n);
    assert(ascii_lower(l) =~= level_name(n));
    assert("trace"@[0] == 't' && "debug"@[0] == 'd' && "info"@[0] == 'i');
    assert("warn"@[0] == 'w' && "error"@[0] == 'e' && "fatal"@[0] == 'f');
    if n != SeverityNumber::Trace {
        assert(level_name(n)[0] != 't');
    }
    if n != SeverityNumber::Debug {
        assert(level_name(n)[0] != 'd');
    }
    if n != SeverityNumber::Info {
        assert(level_name(n)[0] != 'i');
    }
    if n != SeverityNumber::Warn {
        assert(level_name(n)[0] != 'w');
    }
    if n != SeverityNumber::Error {
        assert(level_name(n)[0] != 'e');
    }
}

spec fn level_name(n: SeverityNumber) -> Seq<char> {
    match n {
        SeverityNumber::Trace => "trace"@,
        SeverityNumber::Debug => "debug"@,
        SeverityNumber::Info => "info"@,
        SeverityNumber::Warn => "warn"@,
        SeverityNumber::Error => "error"@,
        _ => "fatal"@,
    }
}

/// `char::to_ascii_uppercase`.
pub open spec fn ascii_upper_char(c: char) -> char {
    if 'a' <= c && c <= 'z' {
        ((c as u32) - 32) as char
    } else {
        c
    }
}

/// `str::to_ascii_uppercase`.
pub open spec fn ascii_upper(s: Seq<char>) -> Seq<char> {
    s.map_values(|c: char| ascii_upper_char(c))
}

/// Upper-casing a character gives the same whether or not it was
/// lower-cased first.
proof fn lemma_upper_of_lower(c: char)
    ensures
        ascii_upper_char(ascii_lower_char(c)) == ascii_upper_char(c),
{
    if 'A' <= c && c <= 'Z' {
        let u = c as u32;
        assert(65 <= u <= 90);
        assert((((u + 32) as char) as u32) == u + 32);
        assert((((u + 32 - 32) as u32) as char) == c);
    }
}

/// A level name that `parse_severity` accepts, in whatever letter case,
/// comes back from `severity_label` as that name in capitals.
pub proof fn lemma_parsed_name_labels_in_capitals(name: Seq<char>, n: SeverityNumber)
    requires
        level_of_name(ascii_lower(name)) == Some(n),
    ensures
        label_of(n) == ascii_upper(name),
{
    let lc = ascii_lower(name);
    assert(ascii_upper(name) =~= ascii_upper(lc)) by {
        assert forall|i: int| 0 <= i < name.len() implies ascii_upper(name)[i] == ascii_upper(lc)[i] by {
            lemma_upper_of_lower(name[i]);
        }
    }
    reveal_strlit("TRACE");
    reveal_strlit("trace");
    reveal_strlit("DEBUG");
    reveal_strlit("debug");
    reveal_strlit("INFO");
    reveal_strlit("info");
    reveal_strlit("WARN");
    reveal_strlit("warn");
    reveal_strlit("ERROR");
    reveal_strlit("error");
    reveal_strlit("FATAL");
    reveal_strlit("fatal");
    assert(ascii_upper(lc) =~= label_of(n));
}

} // verus!
