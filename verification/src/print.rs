//! The debug print facility's line framing: what a process hands the
//! kernel's debug console for one line.
//!
//! Formatted output goes into a fixed buffer through a writer that takes
//! each piece the formatter emits whole or not at all: a piece that would
//! not fit ends the formatting, and the line is marked truncated by `...`
//! over its last three bytes.  A newline ends every line.

use vstd::prelude::*;
use crate::bytes::append_bytes;

verus! {

/// The debug line's content bound: 258 bytes of content, then the newline.
pub const PRINT_MAX: usize = 258;

/// What a writer of capacity `cap` holds after taking `pieces[i..]` onto
/// `acc`, and whether a piece did not fit.
pub open spec fn fill_from(pieces: Seq<Seq<u8>>, cap: nat, i: int, acc: Seq<u8>) -> (Seq<u8>, bool)
    decreases pieces.len() - i,
{
    if i < 0 || i >= pieces.len() {
        (acc, false)
    } else if acc.len() + pieces[i].len() > cap {
        (acc, true)
    } else {
        fill_from(pieces, cap, i + 1, acc + pieces[i])
    }
}

/// What a writer of capacity `cap` holds after the formatter emitted
/// `pieces`, and whether the output was cut.
pub open spec fn fill(pieces: Seq<Seq<u8>>, cap: nat) -> (Seq<u8>, bool) {
    fill_from(pieces, cap, 0, Seq::empty())
}

/// The views of a list of byte strings.
pub open spec fn pieces_view(pieces: Seq<Vec<u8>>) -> Seq<Seq<u8>> {
    pieces.map_values(|p: Vec<u8>| p@)
}

/// How much of cut content stays before its `...`: all but its last three
/// bytes (none of a shorter content).
pub open spec fn kept_before_dots(len: nat) -> int {
    if len >= 3 {
        len - 3
    } else {
        0
    }
}

/// The line a writer of capacity `cap` sends: the content, its last three
/// bytes replaced by `...` when it was cut (all of it, when it holds fewer),
/// and a newline.
pub open spec fn framed_line(pieces: Seq<Seq<u8>>, cap: nat) -> Seq<u8> {
    let (content, cut) = fill(pieces, cap);
    if cut {
        content.subrange(0, kept_before_dots(content.len())) + seq![46u8, 46u8, 46u8] + seq![10u8]
    } else {
        content + seq![10u8]
    }
}

proof fn lemma_fill_from_bound(pieces: Seq<Seq<u8>>, cap: nat, i: int, acc: Seq<u8>)
    requires
        acc.len() <= cap,
    ensures
        fill_from(pieces, cap, i, acc).0.len() <= cap,
    decreases pieces.len() - i,
{
    if 0 <= i < pieces.len() && acc.len() + pieces[i].len() <= cap {
        lemma_fill_from_bound(pieces, cap, i + 1, acc + pieces[i]);
    }
}

/// A framed line is at most the writer's capacity and its newline.
pub proof fn lemma_framed_line_len(pieces: Seq<Seq<u8>>, cap: nat)
    requires
        cap >= 3,
    ensures
        framed_line(pieces, cap).len() <= cap + 1,
{
    lemma_fill_from_bound(pieces, cap, 0, Seq::empty());
}

/// Take the pieces into a writer of capacity `cap`.
pub fn fill_exec(pieces: &[Vec<u8>], cap: usize) -> (r: (Vec<u8>, bool))
    ensures
        (r.0@, r.1) == fill(pieces_view(pieces@), cap as nat),
        r.0@.len() <= cap,
{
    let ghost ps = pieces_view(pieces@);
    let mut acc: Vec<u8> = Vec::new();
    let mut i: usize = 0;
    while i < pieces.len()
        invariant
            ps == pieces_view(pieces@),
            i <= pieces@.len(),
            acc@.len() <= cap,
            fill(ps, cap as nat) == fill_from(ps, cap as nat, i as int, acc@),
        decreases pieces@.len() - i,
    {
        let piece = &pieces[i];
        assert(ps[i as int] == piece@);
        if piece.len() > cap - acc.len() {
            return (acc, true);
        }
        append_bytes(&mut acc, piece.as_slice());
        i = i + 1;
    }
    (acc, false)
}

/// The line for formatted output into a writer of capacity `cap`.
pub fn frame_line(pieces: &[Vec<u8>], cap: usize) -> (r: Vec<u8>)
    ensures
        r@ == framed_line(pieces_view(pieces@), cap as nat),
{
    let (content, cut) = fill_exec(pieces, cap);
    let mut line: Vec<u8> = Vec::new();
    if cut {
        let keep = if content.len() >= 3 {
            content.len() - 3
        } else {
            0
        };
        let mut i: usize = 0;
        while i < keep
            invariant
                keep <= content@.len(),
                i <= keep,
                line@ == content@.subrange(0, i as int),
            decreases keep - i,
        {
            line.push(content[i]);
            i = i + 1;
            assert(line@ =~= content@.subrange(0, i as int));
        }
        line.push(46u8);
        line.push(46u8);
        line.push(46u8);
    } else {
        append_bytes(&mut line, content.as_slice());
    }
    line.push(10u8);
    assert(line@ =~= framed_line(pieces_view(pieces@), cap as nat));
    line
}

/// The debug line for a plain string: at most `PRINT_MAX` bytes of it,
/// then a newline.
pub fn print_str(s: &[u8]) -> (r: Vec<u8>)
    ensures
        r@ == s@.subrange(0, if s@.len() < PRINT_MAX { s@.len() as int } else { PRINT_MAX as int })
            + seq![10u8],
{
    let n = if s.len() < PRINT_MAX {
        s.len()
    } else {
        PRINT_MAX
    };
    let mut line = crate::bytes::prefix(s, n);
    line.push(10u8);
    line
}

/// The debug line for formatted output: the formatter's pieces into a
/// `PRINT_MAX`-byte buffer, cut with `...` when they do not fit.
pub fn print_fmt(pieces: &[Vec<u8>]) -> (r: Vec<u8>)
    ensures
        r@ == framed_line(pieces_view(pieces@), PRINT_MAX as nat),
        r@.len() <= PRINT_MAX + 1,
{
    proof {
        lemma_framed_line_len(pieces_view(pieces@), PRINT_MAX as nat);
    }
    frame_line(pieces, PRINT_MAX)
}

} // verus!
