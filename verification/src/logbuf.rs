//! Log line buffers: the TUI's per-target scrollback and the manager's
//! per-target ring of recent output.

use vstd::prelude::*;

use std::collections::VecDeque;

use crate::text::{chars_of, split_nl, split_prefix};

verus! {

/// How many lines the TUI keeps per target.
pub const TUI_RING: usize = 10000;

/// How many lines the manager keeps per target.
pub const RING_BUFFER_SIZE: usize = 1000;

/// The last `cap` elements of `s` (all of them when there are fewer).
pub open spec fn keep_last<T>(s: Seq<T>, cap: nat) -> Seq<T> {
    if s.len() > cap {
        s.skip(s.len() - cap)
    } else {
        s
    }
}

/// The TUI's buffer for one target: lines, the viewport offset and
/// whether the viewport follows the tail.
#[derive(Debug)]
pub struct LogBuffer {
    pub lines: VecDeque<String>,
    /// Number of lines scrolled above the visible window. 0 = top.
    pub scroll: usize,
    /// True when the viewport is following the tail; new lines should keep
    /// it pinned to the bottom.
    pub at_bottom: bool,
}

/// A log buffer as the contracts see it.
pub struct BufV {
    pub lines: Seq<Seq<char>>,
    pub scroll: nat,
    pub at_bottom: bool,
}

impl View for LogBuffer {
    type V = BufV;

    open spec fn view(&self) -> BufV {
        BufV {
            lines: self.lines@.map_values(|s: String| s@),
            scroll: self.scroll as nat,
            at_bottom: self.at_bottom,
        }
    }
}

/// An empty buffer that follows the tail.
pub open spec fn empty_buf() -> BufV {
    BufV { lines: Seq::empty(), scroll: 0, at_bottom: true }
}

/// `b` after one more line: the oldest line goes once there are more than
/// `TUI_RING`.
pub open spec fn pushed(b: BufV, line: Seq<char>) -> BufV {
    BufV {
        lines: if b.lines.len() + 1 > TUI_RING {
            b.lines.push(line).drop_first()
        } else {
            b.lines.push(line)
        },
        ..b
    }
}

/// `b` after each of `lines` in turn.
pub open spec fn pushed_all(b: BufV, lines: Seq<Seq<char>>) -> BufV
    decreases lines.len(),
{
    if lines.len() == 0 {
        b
    } else {
        pushed(pushed_all(b, lines.drop_last()), lines.last())
    }
}

impl Default for LogBuffer {
    fn default() -> (b: Self)
        ensures
            b.lines@ == Seq::<String>::empty(),
            b.scroll == 0,
            b.at_bottom,
            b@ == empty_buf(),
    {
        let b = LogBuffer { lines: VecDeque::new(), scroll: 0, at_bottom: true };
        proof {
            assert(b@.lines =~= Seq::<Seq<char>>::empty());
        }
        b
    }
}

impl LogBuffer {
    /// Appends a line, dropping the oldest one when the buffer grows past
    /// `TUI_RING` lines.
    pub fn push(&mut self, line: String)
        ensures
            final(self).lines@ == (if old(self).lines@.len() + 1 > TUI_RING {
                old(self).lines@.push(line).drop_first()
            } else {
                old(self).lines@.push(line)
            }),
            final(self).scroll == old(self).scroll,
            final(self).at_bottom == old(self).at_bottom,
            final(self)@ == pushed(old(self)@, line@),
    {
        let ghost l = line@;
        self.lines.push_back(line);
        if self.lines.len() > TUI_RING {
            self.lines.pop_front();
        }
        proof {
            let o = old(self).lines@.map_values(|s: String| s@);
            if old(self).lines@.len() + 1 > TUI_RING {
                assert(self@.lines =~= o.push(l).drop_first());
            } else {
                assert(self@.lines =~= o.push(l));
            }
        }
    }

    /// Drops every line and returns the viewport to the tail.
    pub fn clear(&mut self)
        ensures
            final(self).lines@ == Seq::<String>::empty(),
            final(self).scroll == 0,
            final(self).at_bottom,
            final(self)@ == empty_buf(),
    {
        self.lines.clear();
        self.scroll = 0;
        self.at_bottom = true;
        proof {
            assert(self@.lines =~= Seq::<Seq<char>>::empty());
        }
    }
}

/// `s.trim_end_matches('\n')`.
pub open spec fn trim_newlines(s: Seq<char>) -> Seq<char>
    decreases s.len(),
{
    if s.len() > 0 && s.last() == '\n' {
        trim_newlines(s.drop_last())
    } else {
        s
    }
}

/// The single-line pieces a diagnostic message is stored as.
pub open spec fn message_lines(s: Seq<char>) -> Seq<Seq<char>> {
    split_nl(trim_newlines(s))
}

/// The manager's ring of recent output for one target.
#[derive(Debug)]
pub struct LogRing {
    lines: VecDeque<String>,
}

impl LogRing {
    /// The lines, oldest first.
    pub closed spec fn lines_view(self) -> Seq<Seq<char>> {
        self.lines@.map_values(|s: String| s@)
    }

    /// Never more than `RING_BUFFER_SIZE` lines.
    #[verifier::type_invariant]
    pub closed spec fn bounded(self) -> bool {
        self.lines@.len() <= RING_BUFFER_SIZE
    }

    pub fn new() -> (r: Self)
        ensures
            r.lines_view() == Seq::<Seq<char>>::empty(),
    {
        let r = LogRing { lines: VecDeque::new() };
        proof {
            assert(r.lines_view() =~= Seq::<Seq<char>>::empty());
        }
        r
    }

    /// The lines, oldest first.
    pub fn lines(&self) -> (r: Vec<String>)
        ensures
            r@.map_values(|s: String| s@) == self.lines_view(),
    {
        let mut r: Vec<String> = Vec::new();
        let mut i: usize = 0;
        while i < self.lines.len()
            invariant
                i <= self.lines@.len(),
                r@.map_values(|s: String| s@) == self.lines_view().take(i as int),
            decreases self.lines@.len() - i,
        {
            let s = self.lines[i].clone();
            let ghost before = r@;
            proof {
                assert(s == self.lines@[i as int]);
            }
            r.push(s);
            proof {
                assert(r@ == before.push(s));
                assert(self.lines_view()[i as int] == s@);
                assert(self.lines_view().take(i as int + 1) =~= self.lines_view().take(i as int).push(s@));
                assert(r@.map_values(|s: String| s@) =~= before.map_values(|s: String| s@).push(s@));
            }
            i = i + 1;
        }
        proof {
            assert(self.lines_view().take(i as int) == self.lines_view());
        }
        r
    }

    /// Drops every line.
    pub fn clear(&mut self)
        ensures
            final(self).lines_view() == Seq::<Seq<char>>::empty(),
    {
        self.lines = VecDeque::new();
        proof {
            assert(self.lines_view() =~= Seq::<Seq<char>>::empty());
        }
    }

    /// Appends `line`, split on newlines (trailing newlines dropped), and
    /// keeps only the last `RING_BUFFER_SIZE` lines.
    pub fn append(&mut self, line: &str)
        ensures
            final(self).lines_view() == keep_last(
                old(self).lines_view() + message_lines(line@),
                RING_BUFFER_SIZE as nat,
            ),
    {
        proof {
            use_type_invariant(&*self);
        }
        let pieces = split_message(line);
        let ghost start = self.lines_view();
        let ghost ps = pieces@.map_values(|s: String| s@);
        let mut lines = VecDeque::new();
        std::mem::swap(&mut lines, &mut self.lines);
        let mut j: usize = 0;
        proof {
            assert(start + ps.take(0) =~= start);
        }
        while j < pieces.len()
            invariant
                j <= pieces.len(),
                ps == pieces@.map_values(|s: String| s@),
                lines@.len() <= RING_BUFFER_SIZE,
                lines@.map_values(|s: String| s@) == keep_last(start + ps.take(j as int), RING_BUFFER_SIZE as nat),
            decreases pieces.len() - j,
        {
            let ghost a = start + ps.take(j as int);
            lines.push_back(pieces[j].clone());
            if lines.len() > RING_BUFFER_SIZE {
                lines.pop_front();
            }
            proof {
                assert(a.push(ps[j as int]) =~= start + ps.take(j as int + 1));
                lemma_keep_last_push(a, ps[j as int], RING_BUFFER_SIZE as nat);
                let k = keep_last(a, RING_BUFFER_SIZE as nat);
                if k.len() + 1 > RING_BUFFER_SIZE {
                    assert(lines@.map_values(|s: String| s@) =~= k.push(ps[j as int]).drop_first());
                } else {
                    assert(lines@.map_values(|s: String| s@) =~= k.push(ps[j as int]));
                }
            }
            j = j + 1;
        }
        proof {
            assert(ps.take(pieces.len() as int) == ps);
        }
        self.lines = lines;
    }
}

/// Trimming to the last `cap` lines before or after one more push gives
/// the same lines.
pub proof fn lemma_keep_last_push<T>(a: Seq<T>, x: T, cap: nat)
    requires
        cap >= 1,
    ensures
        ({
            let k = keep_last(a, cap);
            if k.len() + 1 > cap {
                k.push(x).drop_first()
            } else {
                k.push(x)
            }
        }) == keep_last(a.push(x), cap),
{
    let k = keep_last(a, cap);
    if a.len() > cap {
        assert(k.push(x).drop_first() =~= a.push(x).skip(a.len() + 1 - cap));
    } else if a.len() + 1 > cap {
        assert(k.push(x).drop_first() =~= a.push(x).skip(a.len() + 1 - cap));
    }
}

/// The pieces of `line` between newlines, after trailing newlines are
/// dropped.
/// The single-line pieces `line` is stored as.
pub fn split_message(line: &str) -> (r: Vec<String>)
    ensures
        r@.map_values(|s: String| s@) == message_lines(line@),
{
    let v = chars_of(line);
    let mut end = v.len();
    proof {
        assert(v@.take(end as int) == v@);
    }
    while end > 0 && v[end - 1] == '\n'
        invariant
            end <= v.len(),
            trim_newlines(v@) == trim_newlines(v@.take(end as int)),
            v@ == line@,
        decreases end,
    {
        proof {
            assert(v@.take(end as int).drop_last() == v@.take(end as int - 1));
        }
        end = end - 1;
    }
    let ghost t = v@.take(end as int);
    proof {
        assert(trim_newlines(t) == t);
    }
    split_prefix(&v, end)
}


/// The slice of a buffer the log pane shows: the bottom `height` lines
/// (at least one) of what lies `scroll` lines above the newest.
pub open spec fn window(total: nat, scroll: nat, height: nat) -> (nat, nat) {
    let end = if scroll >= total {
        0
    } else {
        (total - scroll) as nat
    };
    let h = if height == 0 {
        1
    } else {
        height
    };
    let start = if h >= end {
        0
    } else {
        (end - h) as nat
    };
    (start, end)
}

pub fn log_window(total: usize, scroll: usize, height: usize) -> (r: (usize, usize))
    ensures
        (r.0 as nat, r.1 as nat) == window(total as nat, scroll as nat, height as nat),
        r.0 <= r.1 <= total,
{
    let end = if scroll >= total {
        0
    } else {
        total - scroll
    };
    let h = if height == 0 {
        1
    } else {
        height
    };
    let start = if h >= end {
        0
    } else {
        end - h
    };
    (start, end)
}

} // verus!
