//! Shell command construction and escaping: each token is made to
//! survive `/bin/sh -c` as exactly one word with its original text.

use vstd::prelude::*;

use crate::text::{chars_of, push_char, push_str};

verus! {

/// Characters that never need quoting.
pub open spec fn is_shell_safe_char(c: char) -> bool {
    ('0' <= c && c <= '9') || ('a' <= c && c <= 'z') || ('A' <= c && c <= 'Z') || c == '-' || c
        == '_' || c == '.' || c == '/' || c == ':' || c == '@' || c == '=' || c == ','
}

pub open spec fn all_shell_safe(s: Seq<char>) -> bool {
    forall|i: int| 0 <= i < s.len() ==> is_shell_safe_char(#[trigger] s[i])
}

/// The body of a single-quoted word: every `'` becomes `'\''`.
pub open spec fn quote_body(s: Seq<char>) -> Seq<char>
    decreases s.len(),
{
    if s.len() == 0 {
        Seq::empty()
    } else {
        quote_body(s.drop_last()) + quote_char(s.last())
    }
}

pub open spec fn quote_char(c: char) -> Seq<char> {
    if c == '\'' {
        seq!['\'', '\\', '\'', '\'']
    } else {
        seq![c]
    }
}

/// What `shell_escape` returns for `s`.
pub open spec fn escaped(s: Seq<char>) -> Seq<char> {
    if s.len() == 0 {
        seq!['\'', '\'']
    } else if all_shell_safe(s) {
        s
    } else {
        seq!['\''] + quote_body(s) + seq!['\'']
    }
}

/// The escaped words of `args`, each preceded by a space.
pub open spec fn escaped_args(args: Seq<Seq<char>>) -> Seq<char>
    decreases args.len(),
{
    if args.len() == 0 {
        Seq::empty()
    } else {
        escaped_args(args.drop_last()) + seq![' '] + escaped(args.last())
    }
}

/// What `build_shell_cmd` returns.
pub open spec fn shell_line(command: Seq<char>, args: Seq<Seq<char>>) -> Seq<char> {
    escaped(command) + escaped_args(args)
}

/// The views of a vector of strings.
pub open spec fn views(v: Seq<String>) -> Seq<Seq<char>> {
    v.map_values(|s: String| s@)
}

fn is_safe(c: char) -> (r: bool)
    ensures
        r == is_shell_safe_char(c),
{
    ('0' <= c && c <= '9') || ('a' <= c && c <= 'z') || ('A' <= c && c <= 'Z') || c == '-' || c
        == '_' || c == '.' || c == '/' || c == ':' || c == '@' || c == '=' || c == ','
}

/// Wrap `s` in single quotes if it contains any character the shell would
/// otherwise interpret. Internal `'` characters are escaped using the
/// `'\''` trick (close quote, escaped quote, reopen quote).
pub fn shell_escape(s: &str) -> (r: String)
    ensures
        r@ == escaped(s@),
{
    let v = chars_of(s);
    let mut out = String::new();
    if v.len() == 0 {
        push_char(&mut out, '\'');
        push_char(&mut out, '\'');
        proof {
            assert(out@ =~= seq!['\'', '\'']);
        }
        return out;
    }
    let mut safe = true;
    let mut i: usize = 0;
    while i < v.len()
        invariant
            i <= v.len(),
            safe == all_shell_safe(v@.take(i as int)),
        decreases v.len() - i,
    {
        proof {
            let t = v@.take(i as int);
            let t1 = v@.take(i as int + 1);
            assert(t1 == t.push(v@[i as int]));
            if all_shell_safe(t) && is_shell_safe_char(v@[i as int]) {
                assert forall|k: int| 0 <= k < t1.len() implies is_shell_safe_char(
                    #[trigger] t1[k],
                ) by {
                    if k < i {
                        assert(t1[k] == t[k]);
                    }
                }
            }
            if all_shell_safe(t1) {
                assert(t1[i as int] == v@[i as int]);
                assert forall|k: int| 0 <= k < t.len() implies is_shell_safe_char(
                    #[trigger] t[k],
                ) by {
                    assert(t1[k] == t[k]);
                }
            }
        }
        safe = safe && is_safe(v[i]);
        i = i + 1;
    }
    proof {
        assert(v@.take(v.len() as int) == v@);
    }
    if safe {
        push_str(&mut out, s);
        return out;
    }
    push_char(&mut out, '\'');
    let mut j: usize = 0;
    while j < v.len()
        invariant
            j <= v.len(),
            out@ == seq!['\''] + quote_body(v@.take(j as int)),
        decreases v.len() - j,
    {
        proof {
            assert(v@.take(j as int + 1).drop_last() == v@.take(j as int));
        }
        let c = v[j];
        if c == '\'' {
            push_char(&mut out, '\'');
            push_char(&mut out, '\\');
            push_char(&mut out, '\'');
            push_char(&mut out, '\'');
        } else {
            push_char(&mut out, c);
        }
        proof {
            assert(out@ =~= seq!['\''] + quote_body(v@.take(j as int + 1)));
        }
        j = j + 1;
    }
    proof {
        assert(v@.take(v.len() as int) == v@);
    }
    push_char(&mut out, '\'');
    out
}

/// Build a shell command string from a `command` and its `args`, escaping
/// each token so it survives `/bin/sh -c`.
pub fn build_shell_cmd(command: &str, args: &Vec<String>) -> (r: String)
    ensures
        r@ == shell_line(command@, views(args@)),
{
    let mut out = shell_escape(command);
    let mut i: usize = 0;
    while i < args.len()
        invariant
            i <= args.len(),
            out@ == escaped(command@) + escaped_args(views(args@).take(i as int)),
        decreases args.len() - i,
    {
        let e = shell_escape(args[i].as_str());
        push_char(&mut out, ' ');
        push_str(&mut out, e.as_str());
        proof {
            let t = views(args@).take(i as int + 1);
            assert(t.drop_last() == views(args@).take(i as int));
            assert(t.last() == args@[i as int]@);
            assert(out@ =~= escaped(command@) + escaped_args(t));
        }
        i = i + 1;
    }
    proof {
        assert(views(args@).take(args.len() as int) == views(args@));
    }
    out
}

// ---------------------------------------------------------------------
// How `/bin/sh` reads a word built only of plain characters, backslash
// escapes and single-quoted runs (POSIX "Quoting", 2.2.1 and 2.2.2).
// ---------------------------------------------------------------------

/// The text that the shell reads from the word `w`, starting outside
/// quotes (`quoted == false`) or inside a single-quoted run.
pub open spec fn sh_read(w: Seq<char>, quoted: bool) -> Seq<char>
    decreases w.len(),
{
    if w.len() == 0 {
        Seq::empty()
    } else if quoted {
        if w[0] == '\'' {
            sh_read(w.drop_first(), false)
        } else {
            seq![w[0]] + sh_read(w.drop_first(), true)
        }
    } else if w[0] == '\'' {
        sh_read(w.drop_first(), true)
    } else if w[0] == '\\' && w.len() >= 2 {
        seq![w[1]] + sh_read(w.subrange(2, w.len() as int), false)
    } else {
        seq![w[0]] + sh_read(w.drop_first(), false)
    }
}

/// Whether the word ends outside any quoted run.
pub open spec fn sh_closed(w: Seq<char>, quoted: bool) -> bool
    decreases w.len(),
{
    if w.len() == 0 {
        !quoted
    } else if quoted {
        if w[0] == '\'' {
            sh_closed(w.drop_first(), false)
        } else {
            sh_closed(w.drop_first(), true)
        }
    } else if w[0] == '\'' {
        sh_closed(w.drop_first(), true)
    } else if w[0] == '\\' && w.len() >= 2 {
        sh_closed(w.subrange(2, w.len() as int), false)
    } else {
        sh_closed(w.drop_first(), false)
    }
}

/// Inside quotes, the shell reads `quote_body(s)` back as `s`, and after
/// it is still inside a quoted run.
proof fn lemma_read_quote_body(s: Seq<char>, rest: Seq<char>)
    ensures
        sh_read(quote_body(s) + rest, true) == s + sh_read(rest, true),
        sh_closed(quote_body(s) + rest, true) == sh_closed(rest, true),
    decreases s.len(),
{
    if s.len() > 0 {
        let c = s.last();
        let q = quote_char(c);
        assert(quote_body(s) + rest =~= quote_body(s.drop_last()) + (q + rest));
        lemma_read_quote_body(s.drop_last(), q + rest);
        if c == '\'' {
            let w = q + rest;
            assert(w[0] == '\'');
            assert(w.drop_first() =~= seq!['\\', '\'', '\''] + rest);
            let w1 = w.drop_first();
            assert(w1[0] == '\\' && w1.len() >= 2);
            assert(w1[1] == '\'');
            assert(w1.subrange(2, w1.len() as int) =~= seq!['\''] + rest);
            let w2 = seq!['\''] + rest;
            assert(w2.drop_first() =~= rest);
            assert(w2[0] == '\'');
            assert(sh_read(w2, false) == sh_read(rest, true));
            assert(sh_closed(w2, false) == sh_closed(rest, true));
            assert(sh_read(w1, false) == seq!['\''] + sh_read(w2, false));
            assert(sh_closed(w1, false) == sh_closed(w2, false));
            assert(sh_read(w, true) == sh_read(w1, false));
            assert(sh_closed(w, true) == sh_closed(w1, false));
            assert(sh_read(w, true) == seq!['\''] + sh_read(rest, true));
        } else {
            assert((q + rest).drop_first() =~= rest);
            assert((q + rest)[0] == c);
        }
        assert(s =~= s.drop_last() + seq![c]);
        assert(s.drop_last() + (seq![c] + sh_read(rest, true)) =~= s + sh_read(rest, true));
    } else {
        assert(quote_body(s) + rest =~= rest);
        assert(s + sh_read(rest, true) =~= sh_read(rest, true));
    }
}

proof fn lemma_read_safe(s: Seq<char>)
    requires
        all_shell_safe(s),
    ensures
        sh_read(s, false) == s,
        sh_closed(s, false),
    decreases s.len(),
{
    if s.len() > 0 {
        assert(is_shell_safe_char(s[0]));
        assert(all_shell_safe(s.drop_first())) by {
            assert forall|i: int| 0 <= i < s.drop_first().len() implies is_shell_safe_char(
                #[trigger] s.drop_first()[i],
            ) by {
                assert(s.drop_first()[i] == s[i + 1]);
            }
        }
        lemma_read_safe(s.drop_first());
        assert(s =~= seq![s[0]] + s.drop_first());
    }
}

/// The shell reads every escaped token back as the original text, and the
/// escaped token never leaves a quoted run open: `shell_escape` is a
/// right inverse of the shell's word reading.
pub proof fn lemma_shell_escape_roundtrip(s: Seq<char>)
    ensures
        sh_read(escaped(s), false) == s,
        sh_closed(escaped(s), false),
{
    if s.len() == 0 {
        let w = seq!['\'', '\''];
        let w1 = seq!['\''];
        let e = Seq::<char>::empty();
        assert(w.drop_first() =~= w1);
        assert(w1.drop_first() =~= e);
        assert(sh_read(w1, true) == sh_read(e, false));
        assert(sh_closed(w1, true) == sh_closed(e, false));
        assert(sh_read(w, false) == sh_read(w1, true));
        assert(sh_closed(w, false) == sh_closed(w1, true));
        assert(sh_read(w, false) =~= s);
    } else if all_shell_safe(s) {
        lemma_read_safe(s);
    } else {
        let w = seq!['\''] + quote_body(s) + seq!['\''];
        assert(w.drop_first() =~= quote_body(s) + seq!['\'']);
        lemma_read_quote_body(s, seq!['\'']);
        let last = seq!['\''];
        let e = Seq::<char>::empty();
        assert(last.drop_first() =~= e);
        assert(sh_read(last, true) == sh_read(e, false));
        assert(sh_closed(last, true) == sh_closed(e, false));
        assert(w[0] == '\'');
        assert(sh_read(w, false) == sh_read(w.drop_first(), true));
        assert(sh_closed(w, false) == sh_closed(w.drop_first(), true));
        assert(s + Seq::<char>::empty() =~= s);
    }
}

/// The words `shell_words::split` makes of `s`, or `None` where it refuses
/// `s` (an unmatched quote).
pub uninterp spec fn shell_split(s: Seq<char>) -> Option<Seq<Seq<char>>>;

/// `shell_words::split(s)`, its error dropped. The words are a function of
/// `s` alone; the crate's quoting and escaping rules are not restated here.
#[verifier::external_body]
fn split_words(s: &str) -> (r: Option<Vec<String>>)
    ensures
        match r {
            Some(v) => shell_split(s@) == Some(views(v@)),
            None => shell_split(s@) is None,
        },
{
    shell_words::split(s).ok()
}

/// The program and leading arguments that edit a run file: `$EDITOR`
/// (`vim` when unset) split into words as a shell would, or taken whole
/// when it does not split.
pub open spec fn editor_words(editor: Option<Seq<char>>) -> Seq<Seq<char>> {
    let e = match editor {
        Some(e) => e,
        None => "vim"@,
    };
    match shell_split(e) {
        Some(words) => words,
        None => seq![e],
    }
}

/// The words of the editor command, given the value of `$EDITOR`.
pub fn editor_command(editor: Option<&str>) -> (r: Vec<String>)
    ensures
        views(r@) == editor_words(
            match editor {
                Some(e) => Some(e@),
                None => None,
            },
        ),
{
    let e: &str = match editor {
        Some(e) => e,
        None => "vim",
    };
    match split_words(e) {
        Some(words) => words,
        None => {
            let mut v: Vec<String> = Vec::new();
            v.push(e.to_owned());
            assert(views(v@) =~= seq![e@]);
            v
        },
    }
}

} // verus!
