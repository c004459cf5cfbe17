//! Character-level helpers shared by the parsers and renderers: the
//! models of text that the contracts speak of (lexicographic order,
//! whitespace trimming, decimal numerals) and their executable forms.

use vstd::prelude::*;

verus! {

/// `String::push`: appends one character.
#[verifier::external_body]
pub(crate) fn push_char(s: &mut String, c: char)
    ensures
        final(s)@ == old(s)@.push(c),
{
    s.push(c);
}

/// The characters of `s`, in order.
pub fn chars_of(s: &str) -> (v: Vec<char>)
    ensures
        v@ == s@,
{
    let mut v: Vec<char> = Vec::new();
    for c in it: s.chars()
        invariant
            v@ == it.seq().take(it.index() as int),
    {
        v.push(c);
    }
    v
}

/// A `String` holding exactly the characters of `v`.
pub fn string_of(v: &Vec<char>) -> (s: String)
    ensures
        s@ == v@,
{
    let mut s = String::new();
    let mut i: usize = 0;
    while i < v.len()
        invariant
            i <= v.len(),
            s@ == v@.take(i as int),
        decreases v.len() - i,
    {
        push_char(&mut s, v[i]);
        proof {
            assert(v@.take(i as int + 1) == v@.take(i as int).push(v@[i as int]));
        }
        i = i + 1;
    }
    proof {
        assert(v@.take(v.len() as int) == v@);
    }
    s
}

/// A `String` holding the characters of `v` between `from` and `to`.
pub fn string_of_range(v: &Vec<char>, from: usize, to: usize) -> (s: String)
    requires
        from <= to <= v.len(),
    ensures
        s@ == v@.subrange(from as int, to as int),
{
    let mut s = String::new();
    let mut i: usize = from;
    while i < to
        invariant
            from <= i <= to <= v.len(),
            s@ == v@.subrange(from as int, i as int),
        decreases to - i,
    {
        push_char(&mut s, v[i]);
        proof {
            assert(v@.subrange(from as int, i as int + 1) == v@.subrange(from as int, i as int).push(
                v@[i as int],
            ));
        }
        i = i + 1;
    }
    s
}

/// Appends the characters of `t` to `s`.
pub fn push_str(s: &mut String, t: &str)
    ensures
        final(s)@ == old(s)@ + t@,
{
    let v = chars_of(t);
    let mut i: usize = 0;
    while i < v.len()
        invariant
            i <= v.len(),
            v@ == t@,
            s@ == old(s)@ + v@.take(i as int),
        decreases v.len() - i,
    {
        push_char(s, v[i]);
        proof {
            assert(v@.take(i as int + 1) == v@.take(i as int).push(v@[i as int]));
        }
        i = i + 1;
    }
    proof {
        assert(v@.take(v.len() as int) == v@);
    }
}

/// Whether `s` holds no characters.
pub fn is_blank(s: &String) -> (r: bool)
    ensures
        r == (s@.len() == 0),
{
    s.as_str().is_empty()
}

/// A copy of `s`.
pub fn copy_string(s: &String) -> (r: String)
    ensures
        r@ == s@,
{
    s.clone()
}

/// Whether `a` and `b` hold the same characters.
pub fn str_eq(a: &str, b: &str) -> (r: bool)
    ensures
        r == (a@ == b@),
{
    let va = chars_of(a);
    let vb = chars_of(b);
    if va.len() != vb.len() {
        return false;
    }
    let mut i: usize = 0;
    while i < va.len()
        invariant
            va@ == a@,
            vb@ == b@,
            va.len() == vb.len(),
            i <= va.len(),
            forall|k: int| 0 <= k < i ==> va@[k] == vb@[k],
        decreases va.len() - i,
    {
        if va[i] != vb[i] {
            proof {
                assert(va@[i as int] != vb@[i as int]);
            }
            return false;
        }
        i = i + 1;
    }
    proof {
        assert(va@ =~= vb@);
    }
    true
}

// ---------------------------------------------------------------------
// Lexicographic order on character sequences (the order of `String`'s
// `Ord`: UTF-8 byte order coincides with code-point order).
// ---------------------------------------------------------------------

/// `a` sorts strictly before `b`.
pub open spec fn seq_lt(a: Seq<char>, b: Seq<char>) -> bool
    decreases a.len(),
{
    if a.len() == 0 {
        b.len() > 0
    } else if b.len() == 0 {
        false
    } else if a[0] == b[0] {
        seq_lt(a.drop_first(), b.drop_first())
    } else {
        a[0] < b[0]
    }
}

pub proof fn lemma_lt_irreflexive(a: Seq<char>)
    ensures
        !seq_lt(a, a),
    decreases a.len(),
{
    if a.len() > 0 {
        lemma_lt_irreflexive(a.drop_first());
    }
}

pub proof fn lemma_lt_asymmetric(a: Seq<char>, b: Seq<char>)
    requires
        seq_lt(a, b),
    ensures
        !seq_lt(b, a),
    decreases a.len(),
{
    if a.len() > 0 && b.len() > 0 && a[0] == b[0] {
        lemma_lt_asymmetric(a.drop_first(), b.drop_first());
    }
}

pub proof fn lemma_lt_transitive(a: Seq<char>, b: Seq<char>, c: Seq<char>)
    requires
        seq_lt(a, b),
        seq_lt(b, c),
    ensures
        seq_lt(a, c),
    decreases a.len(),
{
    if a.len() > 0 && b.len() > 0 && c.len() > 0 && a[0] == b[0] && b[0] == c[0] {
        lemma_lt_transitive(a.drop_first(), b.drop_first(), c.drop_first());
    }
}

pub proof fn lemma_lt_total(a: Seq<char>, b: Seq<char>)
    ensures
        seq_lt(a, b) || seq_lt(b, a) || a == b,
    decreases a.len(),
{
    if a.len() > 0 && b.len() > 0 {
        if a[0] == b[0] {
            lemma_lt_total(a.drop_first(), b.drop_first());
            if a.drop_first() == b.drop_first() {
                assert(a =~= seq![a[0]] + a.drop_first());
                assert(b =~= seq![b[0]] + b.drop_first());
            }
        }
    } else if a.len() == 0 && b.len() == 0 {
        assert(a =~= b);
    }
}

/// Result of comparing two strings.
#[derive(PartialEq, Eq, Structural, Clone, Copy, Debug)]
pub enum Cmp {
    Less,
    Equal,
    Greater,
}

/// Compares `a` and `b` lexicographically.
pub fn compare(a: &str, b: &str) -> (r: Cmp)
    ensures
        r == Cmp::Less <==> seq_lt(a@, b@),
        r == Cmp::Greater <==> seq_lt(b@, a@),
        r == Cmp::Equal <==> a@ == b@,
{
    let va = chars_of(a);
    let vb = chars_of(b);
    let mut i: usize = 0;
    proof {
        assert(va@.skip(0) == va@);
        assert(vb@.skip(0) == vb@);
    }
    while i < va.len() && i < vb.len() && va[i] == vb[i]
        invariant
            va@ == a@,
            vb@ == b@,
            i <= va.len(),
            i <= vb.len(),
            va@.take(i as int) == vb@.take(i as int),
            seq_lt(va@, vb@) == seq_lt(va@.skip(i as int), vb@.skip(i as int)),
            seq_lt(vb@, va@) == seq_lt(vb@.skip(i as int), va@.skip(i as int)),
        decreases va.len() - i,
    {
        proof {
            let sa = va@.skip(i as int);
            let sb = vb@.skip(i as int);
            assert(sa.drop_first() == va@.skip(i as int + 1));
            assert(sb.drop_first() == vb@.skip(i as int + 1));
            assert(va@.take(i as int + 1) == va@.take(i as int).push(va@[i as int]));
            assert(vb@.take(i as int + 1) == vb@.take(i as int).push(vb@[i as int]));
        }
        i = i + 1;
    }
    proof {
        lemma_lt_irreflexive(va@);
        lemma_lt_total(va@, vb@);
        if seq_lt(va@, vb@) {
            lemma_lt_asymmetric(va@, vb@);
        }
        if i == va.len() && i == vb.len() {
            assert(va@ =~= va@.take(i as int));
            assert(vb@ =~= vb@.take(i as int));
        }
    }
    if i == va.len() {
        if i == vb.len() {
            Cmp::Equal
        } else {
            proof {
                assert(va@.skip(i as int).len() == 0);
            }
            Cmp::Less
        }
    } else if i == vb.len() {
        Cmp::Greater
    } else if va[i] < vb[i] {
        Cmp::Less
    } else {
        Cmp::Greater
    }
}

// ---------------------------------------------------------------------
// Splitting on newlines (`str::split('\n')`).
// ---------------------------------------------------------------------

/// `s.split('\n')`: the pieces between newlines (one piece for empty text).
pub open spec fn split_nl(s: Seq<char>) -> Seq<Seq<char>>
    decreases s.len(),
{
    if s.len() == 0 {
        seq![Seq::empty()]
    } else {
        let p = split_nl(s.drop_last());
        if s.last() == '\n' {
            p.push(Seq::empty())
        } else {
            p.update(p.len() - 1, p.last().push(s.last()))
        }
    }
}

pub proof fn lemma_split_nl_nonempty(s: Seq<char>)
    ensures
        split_nl(s).len() >= 1,
    decreases s.len(),
{
    if s.len() > 0 {
        lemma_split_nl_nonempty(s.drop_last());
    }
}

/// The pieces of `v`'s first `end` characters between newlines.
pub fn split_prefix(v: &Vec<char>, end: usize) -> (out: Vec<String>)
    requires
        end <= v.len(),
    ensures
        out@.map_values(|s: String| s@) == split_nl(v@.take(end as int)),
{
    let ghost t = v@.take(end as int);
    let mut out: Vec<String> = Vec::new();
    let mut cur: Vec<char> = Vec::new();
    let mut i: usize = 0;
    proof {
        assert(t.take(0) =~= Seq::<char>::empty());
    }
    while i < end
        invariant
            i <= end <= v.len(),
            t == v@.take(end as int),
            split_nl(t.take(i as int)).len() >= 1,
            cur@ == split_nl(t.take(i as int)).last(),
            out@.map_values(|s: String| s@) == split_nl(t.take(i as int)).drop_last(),
        decreases end - i,
    {
        let ghost pre = t.take(i as int);
        proof {
            assert(t.take(i as int + 1).drop_last() == pre);
            assert(t.take(i as int + 1).last() == v@[i as int]);
        }
        let ghost before = out@.map_values(|s: String| s@);
        if v[i] == '\n' {
            out.push(string_of(&cur));
            proof {
                let p = split_nl(pre);
                assert(out@.map_values(|s: String| s@) =~= before.push(cur@));
                assert(p.push(Seq::empty()).drop_last() == p);
                assert(p == p.drop_last().push(p.last()));
            }
            cur = Vec::new();
        } else {
            cur.push(v[i]);
            proof {
                let p = split_nl(pre);
                assert(p.update(p.len() - 1, p.last().push(v@[i as int])).drop_last()
                    =~= p.drop_last());
            }
        }
        proof {
            lemma_split_nl_nonempty(t.take(i as int + 1));
        }
        i = i + 1;
    }
    let ghost before = out@.map_values(|s: String| s@);
    out.push(string_of(&cur));
    proof {
        assert(t.take(end as int) == t);
        let p = split_nl(t);
        assert(p == p.drop_last().push(p.last()));
        assert(out@.map_values(|s: String| s@) =~= before.push(cur@));
    }
    out
}

// ---------------------------------------------------------------------
// Whitespace and trimming (`char::is_whitespace`, `str::trim`).
// ---------------------------------------------------------------------

/// The Unicode `White_Space` property, which `char::is_whitespace` tests.
pub open spec fn is_ws(c: char) -> bool {
    let u = c as u32;
    (0x9 <= u <= 0xD) || u == 0x20 || u == 0x85 || u == 0xA0 || u == 0x1680 || (0x2000 <= u
        <= 0x200A) || u == 0x2028 || u == 0x2029 || u == 0x202F || u == 0x205F || u == 0x3000
}

pub fn is_whitespace(c: char) -> (r: bool)
    ensures
        r == is_ws(c),
{
    let u = c as u32;
    (0x9 <= u && u <= 0xD) || u == 0x20 || u == 0x85 || u == 0xA0 || u == 0x1680 || (0x2000 <= u
        && u <= 0x200A) || u == 0x2028 || u == 0x2029 || u == 0x202F || u == 0x205F || u == 0x3000
}

pub open spec fn trim_start(s: Seq<char>) -> Seq<char>
    decreases s.len(),
{
    if s.len() > 0 && is_ws(s[0]) {
        trim_start(s.drop_first())
    } else {
        s
    }
}

pub open spec fn trim_end(s: Seq<char>) -> Seq<char>
    decreases s.len(),
{
    if s.len() > 0 && is_ws(s.last()) {
        trim_end(s.drop_last())
    } else {
        s
    }
}

/// `str::trim`: whitespace removed from both ends.
pub open spec fn trim(s: Seq<char>) -> Seq<char> {
    trim_end(trim_start(s))
}

/// `v` without its trailing whitespace.
pub fn trimmed_end(v: &Vec<char>) -> (r: Vec<char>)
    ensures
        r@ == trim_end(v@),
{
    let mut hi: usize = v.len();
    proof {
        assert(v@.take(hi as int) =~= v@);
    }
    while hi > 0 && is_whitespace(v[hi - 1])
        invariant
            hi <= v.len(),
            trim_end(v@) == trim_end(v@.take(hi as int)),
        decreases hi,
    {
        proof {
            assert(v@.take(hi as int).drop_last() =~= v@.take(hi as int - 1));
        }
        hi = hi - 1;
    }
    proof {
        assert(v@.take(hi as int) =~= v@.subrange(0, hi as int));
    }
    sub_vec(v, 0, hi)
}

/// The bounds `[lo, hi)` of `trim(v@)` within `v`.
pub fn trim_bounds(v: &Vec<char>) -> (r: (usize, usize))
    ensures
        r.0 <= r.1 <= v.len(),
        v@.subrange(r.0 as int, r.1 as int) == trim(v@),
{
    let mut lo: usize = 0;
    proof {
        assert(v@.skip(0) == v@);
    }
    while lo < v.len() && is_whitespace(v[lo])
        invariant
            lo <= v.len(),
            trim_start(v@) == trim_start(v@.skip(lo as int)),
        decreases v.len() - lo,
    {
        proof {
            assert(v@.skip(lo as int).drop_first() == v@.skip(lo as int + 1));
        }
        lo = lo + 1;
    }
    let mut hi: usize = v.len();
    proof {
        assert(trim_start(v@) == v@.skip(lo as int));
        assert(v@.skip(lo as int) == v@.subrange(lo as int, hi as int));
    }
    while hi > lo && is_whitespace(v[hi - 1])
        invariant
            lo <= hi <= v.len(),
            trim(v@) == trim_end(v@.subrange(lo as int, hi as int)),
        decreases hi,
    {
        proof {
            assert(v@.subrange(lo as int, hi as int).drop_last() == v@.subrange(
                lo as int,
                hi as int - 1,
            ));
        }
        hi = hi - 1;
    }
    (lo, hi)
}

/// The characters of `trim(v@)`.
pub fn trimmed(v: &Vec<char>) -> (r: Vec<char>)
    ensures
        r@ == trim(v@),
{
    let (lo, hi) = trim_bounds(v);
    sub_vec(v, lo, hi)
}

/// The elements of `v` between `from` and `to`.
pub fn sub_vec(v: &Vec<char>, from: usize, to: usize) -> (r: Vec<char>)
    requires
        from <= to <= v.len(),
    ensures
        r@ == v@.subrange(from as int, to as int),
{
    let mut r: Vec<char> = Vec::new();
    let mut i: usize = from;
    while i < to
        invariant
            from <= i <= to <= v.len(),
            r@ == v@.subrange(from as int, i as int),
        decreases to - i,
    {
        r.push(v[i]);
        proof {
            assert(v@.subrange(from as int, i as int + 1) == v@.subrange(from as int, i as int).push(
                v@[i as int],
            ));
        }
        i = i + 1;
    }
    r
}

// ---------------------------------------------------------------------
// Decimal numerals.
// ---------------------------------------------------------------------

pub open spec fn is_digit(c: char) -> bool {
    '0' <= c && c <= '9'
}

pub open spec fn digit_value(c: char) -> int {
    (c as u32) - ('0' as u32)
}

pub open spec fn all_digits(s: Seq<char>) -> bool {
    forall|i: int| 0 <= i < s.len() ==> is_digit(#[trigger] s[i])
}

/// The value of a string of decimal digits.
pub open spec fn digits_value(s: Seq<char>) -> int
    decreases s.len(),
{
    if s.len() == 0 {
        0
    } else {
        10 * digits_value(s.drop_last()) + digit_value(s.last())
    }
}

/// The integer that Rust's `str::parse` reads from `s` before its range
/// check: an optional sign followed by at least one decimal digit.
pub open spec fn parse_int(s: Seq<char>) -> Option<int> {
    if s.len() >= 2 && s[0] == '-' && all_digits(s.drop_first()) {
        Some(-digits_value(s.drop_first()))
    } else if s.len() >= 2 && s[0] == '+' && all_digits(s.drop_first()) {
        Some(digits_value(s.drop_first()))
    } else if s.len() >= 1 && all_digits(s) {
        Some(digits_value(s))
    } else {
        None
    }
}

/// `s.parse::<i32>().ok()`.
pub open spec fn parse_i32(s: Seq<char>) -> Option<i32> {
    match parse_int(s) {
        Some(n) => if i32::MIN <= n <= i32::MAX {
            Some(n as i32)
        } else {
            None
        },
        None => None,
    }
}

/// `s.parse::<u16>().ok()`: an unsigned parse refuses a leading `-`.
pub open spec fn parse_u16(s: Seq<char>) -> Option<u16> {
    if s.len() > 0 && s[0] == '-' {
        None
    } else {
        match parse_int(s) {
            Some(n) => if 0 <= n <= u16::MAX {
                Some(n as u16)
            } else {
                None
            },
            None => None,
        }
    }
}

pub proof fn lemma_digits_value_nonneg(s: Seq<char>)
    requires
        all_digits(s),
    ensures
        digits_value(s) >= 0,
    decreases s.len(),
{
    if s.len() > 0 {
        lemma_digits_value_nonneg(s.drop_last());
    }
}

/// Appending digits never makes the value smaller.
pub proof fn lemma_digits_value_prefix(s: Seq<char>, i: int)
    requires
        all_digits(s),
        0 <= i <= s.len(),
    ensures
        digits_value(s.take(i)) <= digits_value(s),
    decreases s.len() - i,
{
    if i < s.len() {
        lemma_digits_value_prefix(s, i + 1);
        assert(s.take(i + 1).drop_last() == s.take(i));
        lemma_digits_value_nonneg(s.take(i));
    } else {
        assert(s.take(i) == s);
    }
}

/// The value of the digits `v[from..]`, or `None` when it exceeds `limit`
/// (or when a character is not a digit or the range is empty).
fn digits_upto(v: &Vec<char>, from: usize, limit: u64) -> (r: Option<u64>)
    requires
        from <= v.len(),
        9 <= limit <= 0x1_0000_0000,
    ensures
        match r {
            Some(n) => from < v.len() && all_digits(v@.skip(from as int)) && n == digits_value(
                v@.skip(from as int),
            ) && n <= limit,
            None => from == v.len() || !all_digits(v@.skip(from as int)) || digits_value(
                v@.skip(from as int),
            ) > limit,
        },
{
    if from == v.len() {
        return None;
    }
    let ghost s = v@.skip(from as int);
    let mut acc: u64 = 0;
    let mut i: usize = from;
    while i < v.len()
        invariant
            from <= i <= v.len(),
            s == v@.skip(from as int),
            9 <= limit <= 0x1_0000_0000,
            all_digits(s.take(i - from)),
            acc == digits_value(s.take(i - from)),
            acc <= limit,
        decreases v.len() - i,
    {
        let c = v[i];
        if !('0' <= c && c <= '9') {
            proof {
                assert(s[i - from] == c);
            }
            return None;
        }
        let d = (c as u32 - '0' as u32) as u64;
        proof {
            assert(s.take(i - from + 1).drop_last() == s.take(i - from));
            assert(s.take(i - from + 1).last() == c);
        }
        if acc > (limit - d) / 10 {
            proof {
                assert(all_digits(s.take(i - from + 1)));
                assert(digits_value(s.take(i - from + 1)) == 10 * acc + d);
                if all_digits(s) {
                    lemma_digits_value_prefix(s, i - from + 1);
                }
            }
            return None;
        }
        acc = 10 * acc + d;
        i = i + 1;
    }
    proof {
        assert(s.take(i - from) == s);
    }
    Some(acc)
}

/// `v.parse::<i32>().ok()` on the characters of `v`.
pub fn parse_i32_chars(v: &Vec<char>) -> (r: Option<i32>)
    ensures
        r == parse_i32(v@),
{
    if v.len() >= 2 && (v[0] == '-' || v[0] == '+') {
        let neg = v[0] == '-';
        let limit: u64 = if neg {
            0x8000_0000
        } else {
            0x7fff_ffff
        };
        let r = digits_upto(v, 1, limit);
        proof {
            assert(v@.skip(1) == v@.drop_first());
            assert(!is_digit(v@[0]));
            if all_digits(v@.drop_first()) {
                lemma_digits_value_nonneg(v@.drop_first());
            }
        }
        match r {
            Some(n) => {
                if neg {
                    if n == 0x8000_0000 {
                        Some(i32::MIN)
                    } else {
                        Some(-(n as i32))
                    }
                } else {
                    Some(n as i32)
                }
            },
            None => None,
        }
    } else {
        let r = digits_upto(v, 0, 0x7fff_ffff);
        proof {
            assert(v@.skip(0) == v@);
            if v.len() >= 1 && (v@[0] == '-' || v@[0] == '+') {
                assert(!is_digit(v@[0]));
            }
            if all_digits(v@) {
                lemma_digits_value_nonneg(v@);
            }
        }
        match r {
            Some(n) => Some(n as i32),
            None => None,
        }
    }
}

/// `v.parse::<u16>().ok()` on the characters of `v`.
pub fn parse_u16_chars(v: &Vec<char>) -> (r: Option<u16>)
    ensures
        r == parse_u16(v@),
{
    if v.len() > 0 && v[0] == '-' {
        return None;
    }
    let from: usize = if v.len() >= 2 && v[0] == '+' {
        1
    } else {
        0
    };
    let r = digits_upto(v, from, 0xffff);
    proof {
        assert(v@.skip(1) == v@.drop_first());
        assert(v@.skip(0) == v@);
        if v.len() >= 1 && v@[0] == '+' {
            assert(!is_digit(v@[0]));
        }
        if all_digits(v@.skip(from as int)) {
            lemma_digits_value_nonneg(v@.skip(from as int));
        }
    }
    match r {
        Some(n) => Some(n as u16),
        None => None,
    }
}

/// `s.trim().parse::<i32>().ok()`.
pub fn parse_i32_trimmed(s: &str) -> (r: Option<i32>)
    ensures
        r == parse_i32(trim(s@)),
{
    let v = chars_of(s);
    let t = trimmed(&v);
    parse_i32_chars(&t)
}

/// The decimal numeral of a natural number, without leading zeros.
pub open spec fn decimal_nat(n: nat) -> Seq<char>
    decreases n,
{
    if n < 10 {
        seq![digit_char(n)]
    } else {
        decimal_nat(n / 10).push(digit_char(n % 10))
    }
}

pub open spec fn digit_char(d: nat) -> char {
    if d == 0 {
        '0'
    } else if d == 1 {
        '1'
    } else if d == 2 {
        '2'
    } else if d == 3 {
        '3'
    } else if d == 4 {
        '4'
    } else if d == 5 {
        '5'
    } else if d == 6 {
        '6'
    } else if d == 7 {
        '7'
    } else if d == 8 {
        '8'
    } else {
        '9'
    }
}

/// The decimal numeral of an integer, as `Display` writes it.
pub open spec fn decimal(n: int) -> Seq<char> {
    if n < 0 {
        seq!['-'] + decimal_nat((-n) as nat)
    } else {
        decimal_nat(n as nat)
    }
}

/// `n.to_string()` for a `u64`.
pub fn u64_to_string(n: u64) -> (s: String)
    ensures
        s@ == decimal_nat(n as nat),
    decreases n,
{
    if n < 10 {
        let mut s = String::new();
        let c = char_from_digit(n as u32);
        push_char(&mut s, c);
        proof {
            assert(s@ == seq![c]);
        }
        s
    } else {
        let mut s = u64_to_string(n / 10);
        let c = char_from_digit((n % 10) as u32);
        push_char(&mut s, c);
        s
    }
}

fn char_from_digit(d: u32) -> (c: char)
    requires
        d < 10,
    ensures
        c == digit_char(d as nat),
{
    if d == 0 {
        '0'
    } else if d == 1 {
        '1'
    } else if d == 2 {
        '2'
    } else if d == 3 {
        '3'
    } else if d == 4 {
        '4'
    } else if d == 5 {
        '5'
    } else if d == 6 {
        '6'
    } else if d == 7 {
        '7'
    } else if d == 8 {
        '8'
    } else {
        '9'
    }
}

/// `n.to_string()` for an `i64`.
pub fn i64_to_string(n: i64) -> (s: String)
    ensures
        s@ == decimal(n as int),
{
    if n < 0 {
        let m: u64 = if n == i64::MIN {
            0x8000_0000_0000_0000
        } else {
            (-n) as u64
        };
        let t = u64_to_string(m);
        let mut s = String::new();
        push_char(&mut s, '-');
        push_str(&mut s, t.as_str());
        s
    } else {
        u64_to_string(n as u64)
    }
}

} // verus!
