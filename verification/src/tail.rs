//! Turning raw log bytes into lines: the tailer's chunks and `logs`'s
//! one-shot read. NUL bytes are dropped (renderers and prompt parsers
//! choke on them), the rest is decoded as UTF-8 with replacement, split
//! on newlines, and a trailing empty piece is not a line.

use vstd::prelude::*;

use crate::fmt::{decode_lossy, utf8_lossy};
use crate::shell::views;
use crate::text::{chars_of, split_nl, split_prefix};

verus! {

/// `bytes` without its NULs.
pub open spec fn without_nuls(b: Seq<u8>) -> Seq<u8>
    decreases b.len(),
{
    if b.len() == 0 {
        Seq::empty()
    } else if b.last() == 0 {
        without_nuls(b.drop_last())
    } else {
        without_nuls(b.drop_last()).push(b.last())
    }
}

/// The pieces of `s` between newlines, without a trailing empty one.
pub open spec fn lines_of(s: Seq<char>) -> Seq<Seq<char>> {
    let p = split_nl(s);
    if p.len() > 0 && p.last().len() == 0 {
        p.drop_last()
    } else {
        p
    }
}

/// The lines in a chunk of log bytes.
pub open spec fn chunk_lines(b: Seq<u8>) -> Seq<Seq<char>> {
    lines_of(utf8_lossy(without_nuls(b)))
}

pub fn strip_nuls(bytes: &[u8]) -> (r: Vec<u8>)
    ensures
        r@ == without_nuls(bytes@),
{
    let mut r: Vec<u8> = Vec::new();
    let mut i: usize = 0;
    while i < bytes.len()
        invariant
            i <= bytes.len(),
            r@ == without_nuls(bytes@.take(i as int)),
        decreases bytes.len() - i,
    {
        proof {
            assert(bytes@.take(i as int + 1).drop_last() =~= bytes@.take(i as int));
        }
        if bytes[i] != 0 {
            r.push(bytes[i]);
        }
        i = i + 1;
    }
    proof {
        assert(bytes@.take(bytes.len() as int) =~= bytes@);
    }
    r
}

/// The lines of `s`.
pub fn split_lines(s: &str) -> (r: Vec<String>)
    ensures
        views(r@) == lines_of(s@),
{
    let v = chars_of(s);
    proof {
        assert(v@.take(v.len() as int) =~= v@);
    }
    let mut pieces = split_prefix(&v, v.len());
    proof {
        assert(views(pieces@) == split_nl(s@));
        crate::text::lemma_split_nl_nonempty(s@);
    }
    let n = pieces.len();
    if n > 0 && pieces[n - 1].as_str().is_empty() {
        let ghost before = pieces@;
        pieces.pop();
        proof {
            assert(views(pieces@) =~= views(before).drop_last());
        }
    }
    pieces
}

/// The lines in a chunk of log bytes.
pub fn lines_in_chunk(bytes: &[u8]) -> (r: Vec<String>)
    ensures
        views(r@) == chunk_lines(bytes@),
{
    let kept = strip_nuls(bytes);
    let text = decode_lossy(kept.as_slice());
    split_lines(text.as_str())
}

/// Where the last `tail` of `len` lines start (all of them when `tail` is
/// 0 or there are no more than `tail`).
pub open spec fn tail_start(len: nat, tail: nat) -> nat {
    if tail > 0 && len > tail {
        (len - tail) as nat
    } else {
        0
    }
}

/// The last `tail` of `lines` (0 = all of them): what `logs` prints of a
/// buffer before following it.
pub fn last_lines(lines: &Vec<String>, tail: usize) -> (r: Vec<String>)
    ensures
        views(r@) == views(lines@).skip(tail_start(lines@.len(), tail as nat) as int),
{
    let start = if tail > 0 && lines.len() > tail {
        lines.len() - tail
    } else {
        0
    };
    let mut r: Vec<String> = Vec::new();
    let mut i: usize = start;
    while i < lines.len()
        invariant
            start <= i <= lines.len(),
            views(r@) == views(lines@).subrange(start as int, i as int),
        decreases lines.len() - i,
    {
        let ghost before = r@;
        r.push(lines[i].clone());
        proof {
            assert(views(r@) =~= views(before).push(lines@[i as int]@));
            assert(views(lines@).subrange(start as int, i as int + 1) =~= views(lines@).subrange(
                start as int,
                i as int,
            ).push(lines@[i as int]@));
        }
        i = i + 1;
    }
    proof {
        assert(views(lines@).subrange(start as int, lines.len() as int) =~= views(lines@).skip(
            start as int,
        ));
    }
    r
}

/// The last `tail` lines of a log file's bytes (0 = all), as `logs`
/// prints them.
pub fn tail_lines(data: &[u8], tail: usize) -> (r: Vec<String>)
    ensures
        views(r@) == chunk_lines(data@).skip(tail_start(chunk_lines(data@).len(), tail as nat) as int),
{
    let lines = lines_in_chunk(data);
    last_lines(&lines, tail)
}

/// Where the tailer reads next in a file of `size` bytes, having read up
/// to `offset`: a file that shrank was truncated, so reading starts over;
/// `None` when there is nothing new.
pub open spec fn next_read(offset: u64, size: u64) -> Option<(u64, u64)> {
    let from = if size < offset {
        0u64
    } else {
        offset
    };
    if size <= from {
        None
    } else {
        Some((from, (size - from) as u64))
    }
}

/// The start and length of the next read.
pub fn plan_read(offset: u64, size: u64) -> (r: Option<(u64, u64)>)
    ensures
        r == next_read(offset, size),
{
    let from = if size < offset {
        0
    } else {
        offset
    };
    if size <= from {
        None
    } else {
        Some((from, size - from))
    }
}


/// `logs --tail N` never prints more than N lines, and with N = 0 prints
/// every line.
pub proof fn lemma_tail_bounds(lines: Seq<Seq<char>>, tail: nat)
    ensures
        tail > 0 ==> lines.skip(tail_start(lines.len(), tail) as int).len() <= tail,
        tail == 0 ==> lines.skip(tail_start(lines.len(), tail) as int) == lines,
{
    if tail == 0 {
        assert(lines.skip(0) =~= lines);
    }
}

} // verus!
